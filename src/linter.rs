//! The linter front: its native rules (by name), its fix flag, and the
//! declarative rules of its plugin.
use vstd::prelude::*;
use crate::diagnostic::{LinterPluginError, PluginRuleError, QueryRow, TrustfallError};
use crate::plugin::{all_outcome, marks_of, LinterPlugin};
use crate::rule::InputQuery;

verus! {

pub struct Linter {
    /// The names of the native rules that run; the rules themselves live
    /// outside this library.
    rules: Vec<String>,
    fix: bool,
    plugin: Option<LinterPlugin>,
}

/// The rules among `rules` that bear the name `name`, in order.
pub open spec fn named(rules: Seq<InputQuery>, name: Seq<char>) -> Seq<InputQuery> {
    rules.filter(|q: InputQuery| q.name@ == name)
}

impl Linter {
    pub closed spec fn rule_names(&self) -> Seq<String> {
        self.rules@
    }

    pub closed spec fn fix_spec(&self) -> bool {
        self.fix
    }

    pub closed spec fn plugin_rules(&self) -> Option<Seq<InputQuery>> {
        match self.plugin {
            Some(p) => Some(p.rules@),
            None => None,
        }
    }

    /// A linter that runs the given native rules and plugin, without fixes.
    pub fn from_rules(rules: Vec<String>, plugin: Option<LinterPlugin>) -> (r: Linter)
        ensures
            r.rule_names() == rules@,
            !r.fix_spec(),
            r.plugin_rules() == match plugin {
                Some(p) => Some(p.rules@),
                None => None::<Seq<InputQuery>>,
            },
    {
        Linter { rules, fix: false, plugin }
    }

    pub fn has_fix(&self) -> (r: bool)
        ensures
            r == self.fix_spec(),
    {
        self.fix
    }

    pub fn number_of_rules(&self) -> (r: usize)
        ensures
            r == self.rule_names().len(),
    {
        self.rules.len()
    }

    pub fn with_fix(self, yes: bool) -> (r: Linter)
        ensures
            r.fix_spec() == yes,
            r.rule_names() == self.rule_names(),
            r.plugin_rules() == self.plugin_rules(),
    {
        let mut s = self;
        s.fix = yes;
        s
    }

    /// Runs the plugin's rules, the i-th on `outputs[i]` (what its query gave
    /// on the file); the native rules run outside this library.
    pub fn run(&self, outputs: Vec<Result<Vec<QueryRow>, TrustfallError>>) -> (r: (
        Vec<LinterPluginError>,
        Vec<PluginRuleError>,
    ))
        requires
            self.plugin_rules() matches Some(rules) ==> outputs@.len() == rules.len(),
        ensures
            match self.plugin_rules() {
                Some(rules) => marks_of(r.0@) == all_outcome(rules, outputs@).0 && r.1@ == all_outcome(
                    rules,
                    outputs@,
                ).1,
                None => r.0@.len() == 0 && r.1@.len() == 0,
            },
    {
        match &self.plugin {
            Some(plugin) => plugin.run(outputs),
            None => (Vec::new(), Vec::new()),
        }
    }

    /// Keeps only the plugin's rules named `rule_name`, and no native rule.
    pub fn only_use_query_rule(self, rule_name: &str) -> (r: Linter)
        requires
            self.plugin_rules() is Some,
        ensures
            r.rule_names().len() == 0,
            r.fix_spec() == self.fix_spec(),
            r.plugin_rules() == Some(named(self.plugin_rules()->0, rule_name@)),
    {
        let Linter { rules: _, fix, plugin } = self;
        let target = rule_name.to_owned();
        let mut pending = plugin.unwrap().rules;
        let ghost all = pending@;
        let mut kept: Vec<InputQuery> = Vec::new();
        let mut i: usize = 0;
        let n = pending.len();
        while pending.len() > 0
            invariant
                n == all.len(),
                i + pending@.len() == n,
                pending@ == all.subrange(i as int, n as int),
                kept@ == named(all.take(i as int), rule_name@),
                target@ == rule_name@,
            decreases pending@.len(),
        {
            assert(all.take(i + 1).drop_last() =~= all.take(i as int));
            assert(all[i as int] == pending@[0]);
            let q = pending.remove(0);
            proof {
                reveal(Seq::filter);
            }
            if q.name == target {
                kept.push(q);
            }
            i = i + 1;
            assert(pending@ =~= all.subrange(i as int, n as int));
        }
        assert(all.take(i as int) =~= all);
        Linter { rules: Vec::new(), fix, plugin: Some(LinterPlugin { rules: kept }) }
    }
}

} // verus!
