//! Loading rules and running their queries' output through the span decoder.
use vstd::prelude::*;
use crate::diagnostic::{
    diagnostics_for_rows, rows_outcome, spans_of, attributed, LinterPluginError, PluginRuleError,
    QueryRow, TrustfallError,
};
use crate::rule::{InputQuery, RulesToRun};

verus! {

/// A rule definition file as read and parsed: its path, and the rule or the
/// parser's error text.
pub struct RuleFile {
    pub path: String,
    pub parsed: Result<InputQuery, String>,
}

/// Why a rule definition file was not loaded.
#[derive(Clone, Debug, PartialEq, Eq)]
pub enum LoadError {
    /// The file does not parse into a rule (a missing key, a value of the wrong type).
    InvalidRule { path: String, message: String },
    /// A fixture of the rule has an empty relative path.
    EmptyFixturePath { path: String, name: String },
    /// The rule names an argument twice.
    DuplicateArgument { path: String, name: String },
    /// An earlier file already defined a rule of this name.
    DuplicateName { path: String, name: String },
}

/// The loaded rules.
pub struct LinterPlugin {
    pub rules: Vec<InputQuery>,
}

pub open spec fn has_name(rules: Seq<InputQuery>, name: Seq<char>) -> bool {
    exists|i: int| 0 <= i < rules.len() && (#[trigger] rules[i]).name@ == name
}

/// The rules and the errors that loading `files`, in order, gives.
pub open spec fn load_outcome(files: Seq<RuleFile>) -> (Seq<InputQuery>, Seq<LoadError>)
    decreases files.len(),
{
    if files.len() == 0 {
        (Seq::empty(), Seq::empty())
    } else {
        let (rules, errors) = load_outcome(files.drop_last());
        let f = files.last();
        match f.parsed {
            Err(message) => (rules, errors.push(LoadError::InvalidRule { path: f.path, message })),
            Ok(q) => if !q.tests.wf() {
                (rules, errors.push(LoadError::EmptyFixturePath { path: f.path, name: q.name }))
            } else if !q.args_unique() {
                (rules, errors.push(LoadError::DuplicateArgument { path: f.path, name: q.name }))
            } else if has_name(rules, q.name@) {
                (rules, errors.push(LoadError::DuplicateName { path: f.path, name: q.name }))
            } else {
                (rules.push(InputQuery { path: f.path, ..q }), errors)
            },
        }
    }
}

proof fn lemma_invalid_file_keeps_rules(a: Seq<RuleFile>, f: RuleFile, b: Seq<RuleFile>)
    requires
        f.parsed is Err,
    ensures
        load_outcome(a.push(f) + b).0 == load_outcome(a + b).0,
    decreases b.len(),
{
    if b.len() == 0 {
        assert(a.push(f) + b =~= a.push(f));
        assert(a + b =~= a);
        assert(a.push(f).drop_last() =~= a);
    } else {
        let c = b.drop_last();
        lemma_invalid_file_keeps_rules(a, f, c);
        assert((a.push(f) + b).drop_last() =~= a.push(f) + c);
        assert((a + b).drop_last() =~= a + c);
        assert((a.push(f) + b).last() == b.last());
        assert((a + b).last() == b.last());
    }
}

proof fn lemma_load_errors_grow(files: Seq<RuleFile>, n: int)
    requires
        0 <= n <= files.len(),
    ensures
        load_outcome(files.take(n)).1.len() <= load_outcome(files).1.len(),
        forall|k: int|
            0 <= k < load_outcome(files.take(n)).1.len() ==> #[trigger] load_outcome(files).1[k]
                == load_outcome(files.take(n)).1[k],
    decreases files.len() - n,
{
    if n == files.len() {
        assert(files.take(n) =~= files);
    } else {
        lemma_load_errors_grow(files, n + 1);
        assert(files.take(n + 1).drop_last() =~= files.take(n));
    }
}

/// A rule file that does not parse is reported, with its path and the
/// parser's text, and loading goes on: the rules loaded are those that the
/// other files give.
pub proof fn an_invalid_file_is_reported_and_skipped(a: Seq<RuleFile>, f: RuleFile, b: Seq<RuleFile>)
    requires
        f.parsed is Err,
    ensures
        load_outcome(a.push(f) + b).0 == load_outcome(a + b).0,
        exists|k: int|
            0 <= k < load_outcome(a.push(f) + b).1.len() && #[trigger] load_outcome(a.push(f) + b).1[k]
                == (LoadError::InvalidRule { path: f.path, message: f.parsed->Err_0 }),
{
    lemma_invalid_file_keeps_rules(a, f, b);
    let files = a.push(f) + b;
    let n = a.len() + 1int;
    lemma_load_errors_grow(files, n);
    assert(files.take(n) =~= a.push(f));
    assert(a.push(f).drop_last() =~= a);
    let k = load_outcome(a).1.len() as int;
    assert(load_outcome(files.take(n)).1[k] == (LoadError::InvalidRule { path: f.path, message: f.parsed->Err_0 }));
    assert(load_outcome(files).1[k] == (LoadError::InvalidRule { path: f.path, message: f.parsed->Err_0 }));
}

/// What running one rule on one file yields: the (start, end) pairs of its
/// diagnostics in order, or the error that stopped it.
pub open spec fn rule_outcome(rule: InputQuery, output: Result<Vec<QueryRow>, TrustfallError>) -> Result<
    Seq<(int, int)>,
    PluginRuleError,
> {
    match output {
        Err(error) => Err(PluginRuleError::Query { rule: rule.name, error }),
        Ok(rows) => match rows_outcome(rows@) {
            Ok(p) => Ok(p),
            Err((i, e)) => Err(PluginRuleError::Shape { rule: rule.name, row: i as usize, error: e }),
        },
    }
}

/// The indices of the rules that `which` selects, in order.
pub open spec fn selected(rules: Seq<InputQuery>, which: RulesToRun) -> Seq<int>
    decreases rules.len(),
{
    if rules.len() == 0 {
        Seq::empty()
    } else {
        let p = selected(rules.drop_last(), which);
        if which.selects(rules.last().name@) {
            p.push(rules.len() - 1)
        } else {
            p
        }
    }
}

/// What a diagnostic says: its rule's name, summary and reason, its start and end.
pub type Mark = (Seq<char>, Seq<char>, Seq<char>, int, int);

/// The marks of a sequence of diagnostics.
pub open spec fn marks_of(d: Seq<LinterPluginError>) -> Seq<Mark> {
    d.map_values(|x: LinterPluginError| (x.rule@, x.summary@, x.reason@, x.span.start as int, x.span.end as int))
}

/// The marks of diagnostics of `rule` at the pairs `p`.
pub open spec fn labelled(rule: InputQuery, p: Seq<(int, int)>) -> Seq<Mark> {
    p.map_values(|q: (int, int)| (rule.name@, rule.summary@, rule.reason@, q.0, q.1))
}

/// The rules that `which` selects, in order.
pub open spec fn chosen(rules: Seq<InputQuery>, which: RulesToRun) -> Seq<InputQuery> {
    selected(rules, which).map_values(|i: int| rules[i])
}

/// What running every rule, the i-th on `outputs[i]`, yields: the diagnostics
/// of the rules that ran through, in rule order, and the errors of the others.
pub open spec fn all_outcome(
    rules: Seq<InputQuery>,
    outputs: Seq<Result<Vec<QueryRow>, TrustfallError>>,
) -> (Seq<Mark>, Seq<PluginRuleError>)
    decreases outputs.len(),
{
    if outputs.len() == 0 {
        (Seq::empty(), Seq::empty())
    } else {
        let (m, errors) = all_outcome(rules, outputs.drop_last());
        let rule = rules[outputs.len() - 1];
        match rule_outcome(rule, outputs.last()) {
            Err(e) => (m, errors.push(e)),
            Ok(p) => (m + labelled(rule, p), errors),
        }
    }
}

proof fn lemma_marks_append(a: Seq<LinterPluginError>, d: Seq<LinterPluginError>, rule: InputQuery)
    requires
        attributed(d, rule),
    ensures
        marks_of(a + d) == marks_of(a) + labelled(rule, spans_of(d)),
{
    assert(marks_of(a + d) =~= marks_of(a) + labelled(rule, spans_of(d)));
}

impl LinterPlugin {
    /// No two loaded rules share a name; each names its arguments once and
    /// gives each fixture a path.
    pub open spec fn wf(&self) -> bool {
        &&& forall|i: int, j: int|
            0 <= i < j < self.rules@.len() ==> (#[trigger] self.rules@[i]).name@ != (#[trigger] self.rules@[j]).name@
        &&& forall|i: int|
            0 <= i < self.rules@.len() ==> (#[trigger] self.rules@[i]).args_unique() && self.rules@[i].tests.wf()
    }

    /// Builds the plugin from rule files: a file that does not parse, has a
    /// fixture with an empty path, or repeats an earlier rule's name is left
    /// out and reported; the others are loaded in order, each with its path.
    pub fn new(files: Vec<RuleFile>) -> (r: (LinterPlugin, Vec<LoadError>))
        ensures
            r.0.rules@ == load_outcome(files@).0,
            r.1@ == load_outcome(files@).1,
            r.0.wf(),
    {
        let ghost all = files@;
        let mut files = files;
        let mut rules: Vec<InputQuery> = Vec::new();
        let mut errors: Vec<LoadError> = Vec::new();
        let mut i: usize = 0;
        let n = files.len();
        while files.len() > 0
            invariant
                n == all.len(),
                i + files@.len() == n,
                files@ == all.subrange(i as int, n as int),
                (rules@, errors@) == load_outcome(all.take(i as int)),
                forall|a: int, b: int|
                    0 <= a < b < rules@.len() ==> (#[trigger] rules@[a]).name@ != (#[trigger] rules@[b]).name@,
                forall|a: int| 0 <= a < rules@.len() ==> (#[trigger] rules@[a]).args_unique() && rules@[a].tests.wf(),
            decreases files@.len(),
        {
            assert(all.take(i + 1).drop_last() =~= all.take(i as int));
            assert(all[i as int] == files@[0]);
            let f = files.remove(0);
            match f.parsed {
                Err(message) => {
                    errors.push(LoadError::InvalidRule { path: f.path, message });
                },
                Ok(q) => {
                    if !fixture_paths_nonempty(&q) {
                        errors.push(LoadError::EmptyFixturePath { path: f.path, name: q.name });
                    } else if !args_unique(&q) {
                        errors.push(LoadError::DuplicateArgument { path: f.path, name: q.name });
                    } else if contains_name(&rules, &q.name) {
                        errors.push(LoadError::DuplicateName { path: f.path, name: q.name });
                    } else {
                        let ghost before = rules@;
                        rules.push(InputQuery { path: f.path, ..q });
                        assert(forall|a: int| 0 <= a < before.len() ==> (#[trigger] before[a]).name@ != q.name@);
                    }
                },
            }
            i = i + 1;
            assert(files@ =~= all.subrange(i as int, n as int));
        }
        assert(all.take(i as int) =~= all);
        (LinterPlugin { rules }, errors)
    }

    /// Runs one rule's query output through the span decoder: the diagnostics
    /// of all rows in order, or the query engine's error, or the first row whose
    /// span fields have the wrong shape.
    pub fn run_plugin_rules(
        &self,
        plugin: &InputQuery,
        output: Result<Vec<QueryRow>, TrustfallError>,
    ) -> (r: Result<Vec<LinterPluginError>, PluginRuleError>)
        ensures
            match rule_outcome(*plugin, output) {
                Ok(p) => r matches Ok(d) && spans_of(d@) == p && attributed(d@, *plugin),
                Err(e) => r == Err::<Vec<LinterPluginError>, PluginRuleError>(e),
            },
    {
        match output {
            Err(error) => Err(PluginRuleError::Query { rule: plugin.name.clone(), error }),
            Ok(rows) => diagnostics_for_rows(plugin, &rows),
        }
    }

    /// Runs the rules that `rules_to_run` selects, the k-th of them on
    /// `outputs[k]` (what its query gave): the diagnostics of the rules that
    /// ran through, in order, and the errors of the others; an error stops
    /// only its own rule.
    pub fn run_tests(
        &self,
        rules_to_run: &RulesToRun,
        outputs: Vec<Result<Vec<QueryRow>, TrustfallError>>,
    ) -> (r: (Vec<LinterPluginError>, Vec<PluginRuleError>))
        requires
            outputs@.len() == selected(self.rules@, *rules_to_run).len(),
        ensures
            marks_of(r.0@) == all_outcome(chosen(self.rules@, *rules_to_run), outputs@).0,
            r.1@ == all_outcome(chosen(self.rules@, *rules_to_run), outputs@).1,
    {
        let sel = self.selected_rules(rules_to_run);
        let ghost rules = chosen(self.rules@, *rules_to_run);
        let ghost all = outputs@;
        let mut pending = outputs;
        let mut out: Vec<LinterPluginError> = Vec::new();
        let mut errors: Vec<PluginRuleError> = Vec::new();
        let n = pending.len();
        let mut i: usize = 0;
        assert(marks_of(out@) =~= Seq::empty());
        while pending.len() > 0
            invariant
                n == all.len(),
                all == outputs@,
                n == sel@.len(),
                rules == chosen(self.rules@, *rules_to_run),
                sel@.map_values(|k: usize| k as int) == selected(self.rules@, *rules_to_run),
                forall|k: int| 0 <= k < sel@.len() ==> #[trigger] sel@[k] < self.rules@.len(),
                i + pending@.len() == n,
                pending@ == all.subrange(i as int, n as int),
                (marks_of(out@), errors@) == all_outcome(rules, all.take(i as int)),
            decreases pending@.len(),
        {
            assert(all.take(i + 1).drop_last() =~= all.take(i as int));
            assert(all[i as int] == pending@[0]);
            assert(all.take(i + 1).last() == all[i as int]);
            assert(selected(self.rules@, *rules_to_run)[i as int] == sel@[i as int] as int);
            let output = pending.remove(0);
            let rule = &self.rules[sel[i]];
            assert(rules[i as int] == *rule);
            match self.run_plugin_rules(rule, output) {
                Ok(d) => {
                    proof {
                        lemma_marks_append(out@, d@, *rule);
                    }
                    let mut d = d;
                    out.append(&mut d);
                },
                Err(e) => {
                    errors.push(e);
                },
            }
            i = i + 1;
            assert(pending@ =~= all.subrange(i as int, n as int));
        }
        assert(all.take(i as int) =~= all);
        (out, errors)
    }

    /// Runs every rule, the i-th on `outputs[i]`: the diagnostics of the rules
    /// that ran through, in rule order, and the errors of those that did not;
    /// an error stops only its own rule.
    pub fn run(&self, outputs: Vec<Result<Vec<QueryRow>, TrustfallError>>) -> (r: (
        Vec<LinterPluginError>,
        Vec<PluginRuleError>,
    ))
        requires
            outputs@.len() == self.rules@.len(),
        ensures
            marks_of(r.0@) == all_outcome(self.rules@, outputs@).0,
            r.1@ == all_outcome(self.rules@, outputs@).1,
    {
        let ghost all = outputs@;
        let mut pending = outputs;
        let mut out: Vec<LinterPluginError> = Vec::new();
        let mut errors: Vec<PluginRuleError> = Vec::new();
        let n = pending.len();
        let mut i: usize = 0;
        assert(marks_of(out@) =~= Seq::empty());
        while pending.len() > 0
            invariant
                n == all.len(),
                all == outputs@,
                n == self.rules@.len(),
                i + pending@.len() == n,
                pending@ == all.subrange(i as int, n as int),
                (marks_of(out@), errors@) == all_outcome(self.rules@, all.take(i as int)),
            decreases pending@.len(),
        {
            assert(all.take(i + 1).drop_last() =~= all.take(i as int));
            assert(all[i as int] == pending@[0]);
            assert(all.take(i + 1).last() == all[i as int]);
            let output = pending.remove(0);
            let rule = &self.rules[i];
            match self.run_plugin_rules(rule, output) {
                Ok(d) => {
                    proof {
                        lemma_marks_append(out@, d@, *rule);
                    }
                    let mut d = d;
                    out.append(&mut d);
                },
                Err(e) => {
                    errors.push(e);
                },
            }
            i = i + 1;
            assert(pending@ =~= all.subrange(i as int, n as int));
        }
        assert(all.take(i as int) =~= all);
        (out, errors)
    }

    /// The indices of the rules that `rules_to_run` selects, in load order.
    pub fn selected_rules(&self, rules_to_run: &RulesToRun) -> (r: Vec<usize>)
        ensures
            r@.map_values(|k: usize| k as int) == selected(self.rules@, *rules_to_run),
            forall|k: int| 0 <= k < r@.len() ==> #[trigger] r@[k] < self.rules@.len(),
    {
        let mut out: Vec<usize> = Vec::new();
        let mut i: usize = 0;
        while i < self.rules.len()
            invariant
                0 <= i <= self.rules@.len(),
                out@.map_values(|k: usize| k as int) == selected(self.rules@.take(i as int), *rules_to_run),
                forall|k: int| 0 <= k < out@.len() ==> #[trigger] out@[k] < i,
            decreases self.rules@.len() - i,
        {
            assert(self.rules@.take(i + 1).drop_last() =~= self.rules@.take(i as int));
            let chosen = match rules_to_run {
                RulesToRun::All => true,
                RulesToRun::Only(name) => *name == self.rules[i].name,
            };
            if chosen {
                let ghost prev = out@;
                out.push(i);
                assert(out@.map_values(|k: usize| k as int) =~= prev.map_values(|k: usize| k as int).push(i as int));
            }
            i = i + 1;
        }
        assert(self.rules@.take(i as int) =~= self.rules@);
        out
    }
}

fn fixture_paths_nonempty(q: &InputQuery) -> (r: bool)
    ensures
        r == q.tests.wf(),
{
    let mut i: usize = 0;
    while i < q.tests.pass.len()
        invariant
            0 <= i <= q.tests.pass@.len(),
            forall|j: int| 0 <= j < i ==> (#[trigger] q.tests.pass@[j]).relative_path@.len() > 0,
        decreases q.tests.pass@.len() - i,
    {
        if q.tests.pass[i].relative_path.len() == 0 {
            return false;
        }
        i = i + 1;
    }
    let mut k: usize = 0;
    while k < q.tests.fail.len()
        invariant
            0 <= k <= q.tests.fail@.len(),
            forall|j: int| 0 <= j < q.tests.pass@.len() ==> (#[trigger] q.tests.pass@[j]).relative_path@.len() > 0,
            forall|j: int| 0 <= j < k ==> (#[trigger] q.tests.fail@[j]).relative_path@.len() > 0,
        decreases q.tests.fail@.len() - k,
    {
        if q.tests.fail[k].relative_path.len() == 0 {
            return false;
        }
        k = k + 1;
    }
    true
}

fn args_unique(q: &InputQuery) -> (r: bool)
    ensures
        r == q.args_unique(),
{
    let mut i: usize = 0;
    while i < q.args.len()
        invariant
            0 <= i <= q.args@.len(),
            forall|a: int, b: int| 0 <= a < b < q.args@.len() && a < i ==> (#[trigger] q.args@[a]).0@ != (#[trigger] q.args@[b]).0@,
        decreases q.args@.len() - i,
    {
        let mut j: usize = i + 1;
        while j < q.args.len()
            invariant
                0 <= i < q.args@.len(),
                i + 1 <= j <= q.args@.len(),
                forall|a: int, b: int| 0 <= a < b < q.args@.len() && a < i ==> (#[trigger] q.args@[a]).0@ != (#[trigger] q.args@[b]).0@,
                forall|b: int| i < b < j ==> q.args@[i as int].0@ != (#[trigger] q.args@[b]).0@,
            decreases q.args@.len() - j,
        {
            if q.args[i].0 == q.args[j].0 {
                return false;
            }
            j = j + 1;
        }
        i = i + 1;
    }
    true
}

fn contains_name(rules: &Vec<InputQuery>, name: &String) -> (r: bool)
    ensures
        r == has_name(rules@, name@),
{
    let mut i: usize = 0;
    while i < rules.len()
        invariant
            0 <= i <= rules@.len(),
            forall|j: int| 0 <= j < i ==> (#[trigger] rules@[j]).name@ != name@,
        decreases rules@.len() - i,
    {
        if rules[i].name == *name {
            return true;
        }
        i = i + 1;
    }
    false
}

} // verus!
