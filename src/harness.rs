//! Self-testing rules against their embedded fixtures.
use vstd::prelude::*;
use crate::diagnostic::{LinterPluginError, PluginRuleError};
use crate::plugin::{has_name, load_outcome, LinterPlugin, RuleFile};
use crate::rule::{Expectation, InputQuery};

verus! {

/// One fixture of one loaded rule: the rule's index, the kind, and the index
/// among the fixtures of that kind.
#[derive(Clone, Copy, Debug, PartialEq, Eq, Structural)]
pub struct FixtureRef {
    pub rule: usize,
    pub kind: Expectation,
    pub index: usize,
}

/// What running one fixture through parser, semantic analysis and its rule gave.
#[derive(Debug)]
pub enum FixtureOutcome {
    /// The code has syntax errors; their messages.
    ParseFailed(Vec<String>),
    /// Semantic analysis reported errors; their messages.
    SemanticFailed(Vec<String>),
    /// The rule ran: its diagnostics, or the error that stopped it.
    Evaluated(Result<Vec<LinterPluginError>, PluginRuleError>),
}

/// One step of a test run.
#[derive(Clone, Copy, Debug, PartialEq, Eq, Structural)]
pub enum Step {
    /// Run this fixture and judge it; a failure ends the run.
    Run(FixtureRef),
    /// Every fixture of the rule at `rule` went as expected: report its tally.
    Tally { rule: usize, pass: usize, fail: usize },
}

/// A fixture that did not go as expected; ends the test run.
#[derive(Debug)]
pub enum TestFailure {
    /// A pass fixture did not run clean; what it gave instead.
    ExpectedToPass { fixture: FixtureRef, outcome: FixtureOutcome },
    /// A fail fixture ran and raised no diagnostic.
    ExpectedToFail { fixture: FixtureRef },
    /// A fixture's code is not semantically valid.
    InvalidFixture { fixture: FixtureRef, errors: Vec<String> },
}

/// Whether an outcome meets what the fixture's kind expects: a pass fixture
/// raises no diagnostic; a fail fixture does not run clean with none.
pub open spec fn meets(kind: Expectation, outcome: FixtureOutcome) -> bool {
    match outcome {
        FixtureOutcome::SemanticFailed(_) => false,
        FixtureOutcome::Evaluated(Ok(d)) => match kind {
            Expectation::Pass => d@.len() == 0,
            Expectation::Fail => d@.len() > 0,
        },
        _ => kind == Expectation::Fail,
    }
}

/// The fixtures of the rule at `r`: its pass fixtures, then its fail fixtures.
pub open spec fn rule_plan(r: int, q: InputQuery) -> Seq<FixtureRef> {
    Seq::new(q.tests.pass@.len(), |i: int| FixtureRef { rule: r as usize, kind: Expectation::Pass, index: i as usize })
        + Seq::new(q.tests.fail@.len(), |i: int| FixtureRef { rule: r as usize, kind: Expectation::Fail, index: i as usize })
}

/// The steps for the rule at `r`: its fixtures, then its tally; none for a
/// rule without fixtures.
pub open spec fn rule_steps(r: int, q: InputQuery) -> Seq<Step> {
    if q.tests.pass@.len() + q.tests.fail@.len() > 0 {
        rule_plan(r, q).map_values(|f: FixtureRef| Step::Run(f)).push(
            Step::Tally { rule: r as usize, pass: q.tests.pass@.len() as usize, fail: q.tests.fail@.len() as usize },
        )
    } else {
        Seq::empty()
    }
}

/// The steps of a test run over `rules`, rule by rule.
pub open spec fn schedule(rules: Seq<InputQuery>) -> Seq<Step>
    decreases rules.len(),
{
    if rules.len() == 0 {
        Seq::empty()
    } else {
        schedule(rules.drop_last()) + rule_steps(rules.len() - 1, rules.last())
    }
}

/// All fixtures of all rules, rule by rule.
pub open spec fn plan(rules: Seq<InputQuery>) -> Seq<FixtureRef>
    decreases rules.len(),
{
    if rules.len() == 0 {
        Seq::empty()
    } else {
        plan(rules.drop_last()) + rule_plan(rules.len() - 1, rules.last())
    }
}

/// A rule without fixtures never causes a test failure: every fixture that a
/// test run judges belongs to a loaded rule that has at least one fixture.
pub proof fn rules_without_fixtures_are_skipped(rules: Seq<InputQuery>)
    requires
        rules.len() <= usize::MAX,
    ensures
        forall|k: int| 0 <= k < plan(rules).len() ==> {
            let f = #[trigger] plan(rules)[k];
            &&& 0 <= f.rule < rules.len()
            &&& rules[f.rule as int].tests.pass@.len() + rules[f.rule as int].tests.fail@.len() > 0
        },
    decreases rules.len(),
{
    if rules.len() > 0 {
        let d = rules.drop_last();
        rules_without_fixtures_are_skipped(d);
        let p = plan(d);
        let q = rule_plan(rules.len() - 1, rules.last());
        assert forall|k: int| 0 <= k < plan(rules).len() implies {
            let f = #[trigger] plan(rules)[k];
            &&& 0 <= f.rule < rules.len()
            &&& rules[f.rule as int].tests.pass@.len() + rules[f.rule as int].tests.fail@.len() > 0
        } by {
            if k < p.len() {
                assert(plan(rules)[k] == p[k]);
                assert(rules[p[k].rule as int] == d[p[k].rule as int]);
            } else {
                assert(plan(rules)[k] == q[k - p.len()]);
                assert(q[k - p.len()].rule == rules.len() - 1);
                assert(q.len() > 0);
            }
        }
    }
}

/// Checks one fixture's outcome against its kind.
pub fn judge_fixture(fixture: FixtureRef, outcome: FixtureOutcome) -> (r: Result<(), TestFailure>)
    ensures
        r is Ok <==> meets(fixture.kind, outcome),
        outcome matches FixtureOutcome::SemanticFailed(es) ==> r == Err::<(), TestFailure>(
            TestFailure::InvalidFixture { fixture, errors: es },
        ),
        match r {
            Ok(_) => true,
            Err(TestFailure::InvalidFixture { fixture: f, errors }) => f == fixture
                && outcome == FixtureOutcome::SemanticFailed(errors),
            Err(TestFailure::ExpectedToPass { fixture: f, outcome: o }) => f == fixture && o == outcome
                && fixture.kind == Expectation::Pass,
            Err(TestFailure::ExpectedToFail { fixture: f }) => f == fixture && fixture.kind
                == Expectation::Fail,
        },
{
    match outcome {
        FixtureOutcome::SemanticFailed(errors) => Err(TestFailure::InvalidFixture { fixture, errors }),
        FixtureOutcome::Evaluated(Ok(d)) => match fixture.kind {
            Expectation::Pass => if d.len() == 0 {
                Ok(())
            } else {
                Err(TestFailure::ExpectedToPass { fixture, outcome: FixtureOutcome::Evaluated(Ok(d)) })
            },
            Expectation::Fail => if d.len() > 0 {
                Ok(())
            } else {
                Err(TestFailure::ExpectedToFail { fixture })
            },
        },
        other => match fixture.kind {
            Expectation::Pass => Err(TestFailure::ExpectedToPass { fixture, outcome: other }),
            Expectation::Fail => Ok(()),
        },
    }
}

/// The rules that have at least one fixture, in order: those that a test run
/// takes up.
pub open spec fn with_fixtures(rules: Seq<InputQuery>) -> Seq<InputQuery> {
    rules.filter(|q: InputQuery| q.tests.pass@.len() + q.tests.fail@.len() > 0)
}

pub open spec fn names_other(f: RuleFile, n: Seq<char>) -> bool {
    f.parsed matches Ok(q) ==> q.name@ != n
}

/// `g` names no rule that `f` names.
pub open spec fn compatible(f: RuleFile, g: RuleFile) -> bool {
    g.parsed matches Ok(h) ==> names_other(f, h.name@)
}

proof fn lemma_push_same(l1: Seq<InputQuery>, l2: Seq<InputQuery>, x: InputQuery)
    requires
        with_fixtures(l1) == with_fixtures(l2),
    ensures
        with_fixtures(l1.push(x)) == with_fixtures(l2.push(x)),
        forall|n: Seq<char>| has_name(l1, n) == has_name(l2, n) ==> #[trigger] has_name(l1.push(x), n) == has_name(l2.push(x), n),
{
    reveal(Seq::filter);
    assert(l1.push(x).drop_last() =~= l1);
    assert(l2.push(x).drop_last() =~= l2);
    assert forall|n: Seq<char>| has_name(l1, n) == has_name(l2, n) implies #[trigger] has_name(l1.push(x), n) == has_name(l2.push(x), n) by {
        if has_name(l1, n) {
            let i = choose|i: int| 0 <= i < l1.len() && (#[trigger] l1[i]).name@ == n;
            assert(l1.push(x)[i] == l1[i]);
            let j = choose|j: int| 0 <= j < l2.len() && (#[trigger] l2[j]).name@ == n;
            assert(l2.push(x)[j] == l2[j]);
        } else if has_name(l1.push(x), n) {
            let i = choose|i: int| 0 <= i < l1.len() + 1 && (#[trigger] l1.push(x)[i]).name@ == n;
            if i < l1.len() {
                assert(l1[i] == l1.push(x)[i]);
            }
            assert(l2.push(x)[l2.len() as int] == x);
        } else if has_name(l2.push(x), n) {
            let j = choose|j: int| 0 <= j < l2.len() + 1 && (#[trigger] l2.push(x)[j]).name@ == n;
            if j < l2.len() {
                assert(l2[j] == l2.push(x)[j]);
            }
            assert(l1.push(x)[l1.len() as int] == x);
        }
    }
}

proof fn lemma_extra_rule(a: Seq<RuleFile>, f: RuleFile, b: Seq<RuleFile>)
    requires
        f.parsed matches Ok(q) ==> q.tests.pass@.len() == 0 && q.tests.fail@.len() == 0,
        forall|k: int| 0 <= k < b.len() ==> compatible(f, #[trigger] b[k]),
    ensures
        with_fixtures(load_outcome(a.push(f) + b).0) == with_fixtures(load_outcome(a + b).0),
        forall|n: Seq<char>|
            names_other(f, n) ==> #[trigger] has_name(load_outcome(a.push(f) + b).0, n) == has_name(
                load_outcome(a + b).0,
                n,
            ),
    decreases b.len(),
{
    reveal(Seq::filter);
    if b.len() == 0 {
        assert(a.push(f) + b =~= a.push(f));
        assert(a + b =~= a);
        assert(a.push(f).drop_last() =~= a);
        let l2 = load_outcome(a).0;
        let l1 = load_outcome(a.push(f)).0;
        if l1 != l2 {
            let q = f.parsed->Ok_0;
            let q2 = InputQuery { path: f.path, ..q };
            assert(l1 == l2.push(q2));
            assert(l2.push(q2).drop_last() =~= l2);
            assert forall|n: Seq<char>| names_other(f, n) implies #[trigger] has_name(l1, n) == has_name(l2, n) by {
                if has_name(l1, n) {
                    let i = choose|i: int| 0 <= i < l1.len() && (#[trigger] l1[i]).name@ == n;
                    assert(i < l2.len());
                    assert(l2[i] == l1[i]);
                }
                if has_name(l2, n) {
                    let j = choose|j: int| 0 <= j < l2.len() && (#[trigger] l2[j]).name@ == n;
                    assert(l1[j] == l2[j]);
                }
            }
        }
    } else {
        let c = b.drop_last();
        assert forall|k: int| 0 <= k < c.len() implies compatible(f, #[trigger] c[k]) by {
            assert(c[k] == b[k]);
        }
        lemma_extra_rule(a, f, c);
        assert((a.push(f) + b).drop_last() =~= a.push(f) + c);
        assert((a + b).drop_last() =~= a + c);
        assert((a.push(f) + b).last() == b.last());
        assert((a + b).last() == b.last());
        let g = b.last();
        assert(b[b.len() - 1] == g);
        let l1 = load_outcome(a.push(f) + c).0;
        let l2 = load_outcome(a + c).0;
        match g.parsed {
            Ok(h) => {
                let h2 = InputQuery { path: g.path, ..h };
                lemma_push_same(l1, l2, h2);
            },
            Err(_) => {},
        }
    }
}

/// One more rule file whose rule has no fixtures, read anywhere among the
/// others (and naming no rule that a later file names), leaves the test run as
/// it was: the same rules are tested, in the same order, with the same
/// fixtures.
pub proof fn a_rule_without_fixtures_changes_no_test_run(a: Seq<RuleFile>, f: RuleFile, b: Seq<RuleFile>)
    requires
        f.parsed matches Ok(q) ==> q.tests.pass@.len() == 0 && q.tests.fail@.len() == 0,
        forall|k: int| 0 <= k < b.len() ==> compatible(f, #[trigger] b[k]),
    ensures
        with_fixtures(load_outcome(a.push(f) + b).0) == with_fixtures(load_outcome(a + b).0),
{
    lemma_extra_rule(a, f, b);
}

/// A pass fixture is judged met exactly when its rule ran and raised no
/// diagnostic; a fail fixture exactly when it raised at least one, or its code
/// did not parse (an outcome of its own, never taken for zero diagnostics).
pub proof fn fixture_verdicts(outcome: FixtureOutcome)
    ensures
        meets(Expectation::Pass, outcome) <==> (outcome matches FixtureOutcome::Evaluated(Ok(d)) && d@.len() == 0),
        meets(Expectation::Fail, outcome) <==> (outcome matches FixtureOutcome::Evaluated(Ok(d)) && d@.len() > 0)
            || outcome is ParseFailed || outcome matches FixtureOutcome::Evaluated(Err(_)),
        outcome is ParseFailed ==> !meets(Expectation::Pass, outcome),
{
}

impl LinterPlugin {
    /// For each rule with at least one fixture, in order: its index and the
    /// numbers of its pass and fail fixtures.
    pub fn rule_tallies(&self) -> (r: Vec<(usize, usize, usize)>)
        ensures
            forall|k: int| 0 <= k < r@.len() ==> {
                let (i, p, f) = #[trigger] r@[k];
                &&& i < self.rules@.len()
                &&& p == self.rules@[i as int].tests.pass@.len()
                &&& f == self.rules@[i as int].tests.fail@.len()
                &&& p + f > 0
            },
            forall|i: int| 0 <= i < self.rules@.len() && #[trigger] self.rules@[i].tests.pass@.len()
                + self.rules@[i].tests.fail@.len() > 0 ==> exists|k: int| 0 <= k < r@.len() && (#[trigger] r@[k]).0 == i,
            forall|k: int, l: int| 0 <= k < l < r@.len() ==> (#[trigger] r@[k]).0 < (#[trigger] r@[l]).0,
    {
        let mut out: Vec<(usize, usize, usize)> = Vec::new();
        let mut i: usize = 0;
        while i < self.rules.len()
            invariant
                0 <= i <= self.rules@.len(),
                forall|k: int| 0 <= k < out@.len() ==> {
                    let (j, p, f) = #[trigger] out@[k];
                    &&& j < i
                    &&& p == self.rules@[j as int].tests.pass@.len()
                    &&& f == self.rules@[j as int].tests.fail@.len()
                    &&& p + f > 0
                },
                forall|j: int| 0 <= j < i && #[trigger] self.rules@[j].tests.pass@.len()
                    + self.rules@[j].tests.fail@.len() > 0 ==> exists|k: int| 0 <= k < out@.len() && (#[trigger] out@[k]).0 == j,
                forall|k: int, l: int| 0 <= k < l < out@.len() ==> (#[trigger] out@[k]).0 < (#[trigger] out@[l]).0,
            decreases self.rules@.len() - i,
        {
            let p = self.rules[i].tests.pass.len();
            let f = self.rules[i].tests.fail.len();
            let ghost prev = out@;
            if p > 0 || f > 0 {
                out.push((i, p, f));
                assert(out@[out@.len() - 1].0 == i);
            }
            assert forall|j: int| 0 <= j < i + 1 && #[trigger] self.rules@[j].tests.pass@.len()
                + self.rules@[j].tests.fail@.len() > 0 implies exists|k: int| 0 <= k < out@.len() && (#[trigger] out@[k]).0 == j by {
                if j < i {
                    let k = choose|k: int| 0 <= k < prev.len() && (#[trigger] prev[k]).0 == j;
                    assert(out@[k] == prev[k]);
                } else {
                    assert(out@[out@.len() - 1].0 == j);
                }
            }
            i = i + 1;
        }
        out
    }

    /// The steps of a test run: rule by rule, each fixture of the rule (pass
    /// fixtures first), then the rule's tally; nothing for a rule without
    /// fixtures. The run stops at the first fixture that fails its judgement.
    pub fn test_schedule(&self) -> (r: Vec<Step>)
        ensures
            r@ == schedule(self.rules@),
    {
        let mut out: Vec<Step> = Vec::new();
        let mut i: usize = 0;
        while i < self.rules.len()
            invariant
                0 <= i <= self.rules@.len(),
                out@ == schedule(self.rules@.take(i as int)),
            decreases self.rules@.len() - i,
        {
            assert(self.rules@.take(i + 1).drop_last() =~= self.rules@.take(i as int));
            let ghost before = out@;
            let tests = &self.rules[i].tests;
            let mut k: usize = 0;
            while k < tests.pass.len()
                invariant
                    0 <= k <= tests.pass@.len(),
                    out@ == before + Seq::new(k as nat, |j: int| Step::Run(FixtureRef { rule: i, kind: Expectation::Pass, index: j as usize })),
                decreases tests.pass@.len() - k,
            {
                out.push(Step::Run(FixtureRef { rule: i, kind: Expectation::Pass, index: k }));
                assert(out@ =~= before + Seq::new((k + 1) as nat, |j: int| Step::Run(FixtureRef { rule: i, kind: Expectation::Pass, index: j as usize })));
                k = k + 1;
            }
            let ghost mid = out@;
            let mut m: usize = 0;
            while m < tests.fail.len()
                invariant
                    0 <= m <= tests.fail@.len(),
                    out@ == mid + Seq::new(m as nat, |j: int| Step::Run(FixtureRef { rule: i, kind: Expectation::Fail, index: j as usize })),
                decreases tests.fail@.len() - m,
            {
                out.push(Step::Run(FixtureRef { rule: i, kind: Expectation::Fail, index: m }));
                assert(out@ =~= mid + Seq::new((m + 1) as nat, |j: int| Step::Run(FixtureRef { rule: i, kind: Expectation::Fail, index: j as usize })));
                m = m + 1;
            }
            let p = tests.pass.len();
            let f = tests.fail.len();
            if p > 0 || f > 0 {
                out.push(Step::Tally { rule: i, pass: p, fail: f });
            }
            assert(out@ =~= schedule(self.rules@.take(i + 1)));
            i = i + 1;
        }
        assert(self.rules@.take(i as int) =~= self.rules@);
        out
    }

    /// Every fixture of every loaded rule, in the order in which a test run
    /// takes them: rule by rule, pass fixtures before fail fixtures.
    pub fn fixture_plan(&self) -> (r: Vec<FixtureRef>)
        ensures
            r@ == plan(self.rules@),
    {
        let mut out: Vec<FixtureRef> = Vec::new();
        let mut i: usize = 0;
        while i < self.rules.len()
            invariant
                0 <= i <= self.rules@.len(),
                out@ == plan(self.rules@.take(i as int)),
            decreases self.rules@.len() - i,
        {
            assert(self.rules@.take(i + 1).drop_last() =~= self.rules@.take(i as int));
            let ghost before = out@;
            let tests = &self.rules[i].tests;
            let mut k: usize = 0;
            while k < tests.pass.len()
                invariant
                    0 <= k <= tests.pass@.len(),
                    out@ == before + Seq::new(k as nat, |j: int| FixtureRef { rule: i, kind: Expectation::Pass, index: j as usize }),
                decreases tests.pass@.len() - k,
            {
                out.push(FixtureRef { rule: i, kind: Expectation::Pass, index: k });
                assert(out@ =~= before + Seq::new((k + 1) as nat, |j: int| FixtureRef { rule: i, kind: Expectation::Pass, index: j as usize }));
                k = k + 1;
            }
            let ghost mid = out@;
            let mut m: usize = 0;
            while m < tests.fail.len()
                invariant
                    0 <= m <= tests.fail@.len(),
                    out@ == mid + Seq::new(m as nat, |j: int| FixtureRef { rule: i, kind: Expectation::Fail, index: j as usize }),
                decreases tests.fail@.len() - m,
            {
                out.push(FixtureRef { rule: i, kind: Expectation::Fail, index: m });
                assert(out@ =~= mid + Seq::new((m + 1) as nat, |j: int| FixtureRef { rule: i, kind: Expectation::Fail, index: j as usize }));
                m = m + 1;
            }
            assert(out@ =~= plan(self.rules@.take(i + 1)));
            i = i + 1;
        }
        assert(self.rules@.take(i as int) =~= self.rules@);
        out
    }
}

} // verus!
