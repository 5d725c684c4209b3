//! The rule definition model: one declarative rule and its embedded fixtures.
use vstd::prelude::*;

verus! {

#[verifier::external_type_specification]
#[verifier::external_body]
pub struct ExTransparentValue(trustfall::TransparentValue);

/// One embedded example: a virtual file path, split into segments, and its code.
#[derive(Clone, Debug)]
pub struct SingleTest {
    pub relative_path: Vec<String>,
    pub code: String,
}

/// The fixtures of a rule: those that must raise nothing, and those that must
/// raise at least one diagnostic.
#[derive(Clone, Debug)]
pub struct QueryTests {
    pub pass: Vec<SingleTest>,
    pub fail: Vec<SingleTest>,
}

/// A declarative rule, as read from its definition file.
#[derive(Clone)]
pub struct InputQuery {
    pub name: String,
    pub query: String,
    /// Query arguments, by name; a loaded rule names each argument once.
    pub args: Vec<(String, trustfall::TransparentValue)>,
    pub summary: String,
    pub reason: String,
    /// The file that the rule was read from.
    pub path: String,
    pub tests: QueryTests,
}

/// Which of the loaded rules to run.
#[derive(Clone, Debug)]
pub enum RulesToRun {
    All,
    Only(String),
}

/// Which way a fixture is expected to go.
#[derive(Clone, Copy, Debug, PartialEq, Eq, Structural)]
pub enum Expectation {
    Pass,
    Fail,
}

impl QueryTests {
    /// Every fixture names at least one path segment.
    pub open spec fn wf(&self) -> bool {
        &&& forall|i: int| 0 <= i < self.pass@.len() ==> (#[trigger] self.pass@[i]).relative_path@.len() > 0
        &&& forall|i: int| 0 <= i < self.fail@.len() ==> (#[trigger] self.fail@[i]).relative_path@.len() > 0
    }
}

impl InputQuery {
    /// No two arguments share a name.
    pub open spec fn args_unique(&self) -> bool {
        forall|i: int, j: int|
            0 <= i < j < self.args@.len() ==> (#[trigger] self.args@[i]).0@ != (#[trigger] self.args@[j]).0@
    }
}

impl RulesToRun {
    /// Whether a rule of the given name is selected.
    pub open spec fn selects(&self, name: Seq<char>) -> bool {
        match self {
            RulesToRun::All => true,
            RulesToRun::Only(n) => n@ == name,
        }
    }
}

} // verus!
