use query_plugin::diagnostic::{PluginRuleError, QueryRow, TrustfallError};
use query_plugin::harness::{judge_fixture, FixtureOutcome, FixtureRef, Step, TestFailure};
use query_plugin::linter::Linter;
use query_plugin::locate::{span_of_lines, span_of_test_n, LocateError};
use query_plugin::plugin::{LinterPlugin, LoadError, RuleFile};
use query_plugin::rule::{Expectation, InputQuery, QueryTests, RulesToRun, SingleTest};
use query_plugin::span::{decode_span, shape_of, OutputValue, Shape, ShapeError, Span, SpanResult};

fn fixture(code: &str) -> SingleTest {
    SingleTest { relative_path: vec!["src".to_string(), "index.js".to_string()], code: code.to_string() }
}

fn rule(name: &str, pass: Vec<SingleTest>, fail: Vec<SingleTest>) -> InputQuery {
    InputQuery {
        name: name.to_string(),
        query: "query { File { span_start: start @output span_end: end @output } }".to_string(),
        args: vec![("limit".to_string(), trustfall::TransparentValue::Int64(3))],
        summary: format!("{name} summary"),
        reason: format!("{name} reason"),
        path: String::new(),
        tests: QueryTests { pass, fail },
    }
}

fn row(start: OutputValue, end: OutputValue) -> QueryRow {
    QueryRow { span_start: Some(start), span_end: Some(end) }
}

fn list(v: &[i64]) -> OutputValue {
    OutputValue::List(v.iter().map(|x| OutputValue::Int64(*x)).collect())
}

fn spans(d: &[query_plugin::diagnostic::LinterPluginError]) -> Vec<(u32, u32)> {
    d.iter().map(|x| (x.span.start, x.span.end)).collect()
}

#[test]
fn single_span_gives_one_diagnostic() {
    let plugin = LinterPlugin::new(vec![]).0;
    let r = rule("single", vec![], vec![]);
    let d = query_plugin::diagnostic::diagnostics_for(&r, &SpanResult::Single { start: 5, end: 10 });
    assert_eq!(spans(&d), vec![(5, 10)]);
    assert_eq!(d[0].rule, "single");
    assert_eq!(d[0].summary, "single summary");
    assert_eq!(d[0].reason, "single reason");
    let out = plugin.run_plugin_rules(&r, Ok(vec![row(OutputValue::Uint64(5), OutputValue::Uint64(10))])).unwrap();
    assert_eq!(spans(&out), vec![(5, 10)]);
}

#[test]
fn multiple_spans_give_diagnostics_in_order() {
    let r = rule("multi", vec![], vec![]);
    let s = SpanResult::Multiple { starts: vec![1, 10], ends: vec![3, 12] };
    let d = query_plugin::diagnostic::diagnostics_for(&r, &s);
    assert_eq!(spans(&d), vec![(1, 3), (10, 12)]);
}

#[test]
fn signed_and_unsigned_decode_alike() {
    let a = decode_span(&Some(OutputValue::Int64(7)), &Some(OutputValue::Uint64(9))).unwrap();
    match a {
        SpanResult::Single { start, end } => assert_eq!((start, end), (7, 9)),
        _ => panic!("expected a single span"),
    }
}

#[test]
fn decode_errors_name_the_shapes() {
    assert_eq!(
        decode_span(&None, &Some(OutputValue::Int64(1))).unwrap_err(),
        ShapeError::Missing { start: Shape::Absent, end: Shape::Integer }
    );
    assert_eq!(
        decode_span(&Some(OutputValue::Int64(1)), &Some(list(&[2]))).unwrap_err(),
        ShapeError::WrongShape { start: Shape::Integer, end: Shape::IntegerList(1) }
    );
    assert_eq!(
        decode_span(&Some(list(&[1, 2])), &Some(list(&[3]))).unwrap_err(),
        ShapeError::WrongShape { start: Shape::IntegerList(2), end: Shape::IntegerList(1) }
    );
    assert_eq!(
        decode_span(&Some(list(&[])), &Some(list(&[]))).unwrap_err(),
        ShapeError::WrongShape { start: Shape::IntegerList(0), end: Shape::IntegerList(0) }
    );
    assert_eq!(
        decode_span(&Some(OutputValue::Other), &Some(OutputValue::Null)).unwrap_err(),
        ShapeError::WrongShape { start: Shape::Other, end: Shape::Null }
    );
    let mixed = OutputValue::List(vec![OutputValue::Int64(1), OutputValue::Other]);
    assert_eq!(shape_of(&Some(mixed)), Shape::MixedList);
    assert_eq!(
        decode_span(&Some(OutputValue::Int64(-1)), &Some(OutputValue::Int64(4))).unwrap_err(),
        ShapeError::OutOfRange
    );
    assert_eq!(
        decode_span(&Some(OutputValue::Uint64(1 << 40)), &Some(OutputValue::Uint64(1 << 41))).unwrap_err(),
        ShapeError::OutOfRange
    );
    assert_eq!(
        decode_span(&Some(list(&[1, 9])), &Some(list(&[3, 4]))).unwrap_err(),
        ShapeError::Reversed
    );
}

#[test]
fn shape_error_stops_only_that_rule() {
    let good = rule("good", vec![], vec![]);
    let bad = rule("bad", vec![], vec![]);
    let (plugin, errors) = LinterPlugin::new(vec![
        RuleFile { path: "a/good.yml".to_string(), parsed: Ok(good) },
        RuleFile { path: "a/bad.yml".to_string(), parsed: Ok(bad) },
    ]);
    assert!(errors.is_empty());
    let (d, errs) = plugin.run(vec![
        Ok(vec![row(OutputValue::Int64(0), OutputValue::Int64(2))]),
        Ok(vec![QueryRow { span_start: None, span_end: None }]),
    ]);
    assert_eq!(spans(&d), vec![(0, 2)]);
    assert_eq!(d[0].rule, "good");
    assert_eq!(errs.len(), 1);
    match &errs[0] {
        PluginRuleError::Shape { rule, row, error } => {
            assert_eq!(rule, "bad");
            assert_eq!(*row, 0);
            assert_eq!(*error, ShapeError::Missing { start: Shape::Absent, end: Shape::Absent });
        }
        other => panic!("unexpected {other:?}"),
    }
}

#[test]
fn query_failure_is_reported_with_engine_text() {
    let r = rule("q", vec![], vec![]);
    let plugin = LinterPlugin::new(vec![]).0;
    match plugin.run_plugin_rules(&r, Err(TrustfallError("unknown field".to_string()))) {
        Err(PluginRuleError::Query { rule, error }) => {
            assert_eq!(rule, "q");
            assert_eq!(error.0, "unknown field");
        }
        _ => panic!("expected a query error"),
    }
}

#[test]
fn debugger_rule_fixtures() {
    let r = rule("no_debugger", vec![fixture("x = 1;")], vec![fixture("debugger;")]);
    let (plugin, _) = LinterPlugin::new(vec![RuleFile { path: "rules/no_debugger.yml".to_string(), parsed: Ok(r) }]);
    let plan = plugin.fixture_plan();
    assert_eq!(
        plan,
        vec![
            FixtureRef { rule: 0, kind: Expectation::Pass, index: 0 },
            FixtureRef { rule: 0, kind: Expectation::Fail, index: 0 },
        ]
    );
    let rule = &plugin.rules[0];
    let clean = plugin.run_plugin_rules(rule, Ok(vec![])).unwrap();
    assert_eq!(clean.len(), 0);
    assert!(judge_fixture(plan[0], FixtureOutcome::Evaluated(Ok(clean))).is_ok());
    let found = plugin
        .run_plugin_rules(rule, Ok(vec![row(OutputValue::Uint64(0), OutputValue::Uint64(9))]))
        .unwrap();
    assert_eq!(spans(&found), vec![(0, 9)]);
    assert_eq!(found[0].span, Span { start: 0, end: 9 });
    assert!(judge_fixture(plan[1], FixtureOutcome::Evaluated(Ok(found))).is_ok());
}

#[test]
fn missing_query_key_is_reported() {
    let other = rule("other", vec![], vec![]);
    let (plugin, errors) = LinterPlugin::new(vec![
        RuleFile { path: "rules/broken.yml".to_string(), parsed: Err("missing field `query`".to_string()) },
        RuleFile { path: "rules/other.yml".to_string(), parsed: Ok(other) },
    ]);
    assert_eq!(
        errors,
        vec![LoadError::InvalidRule {
            path: "rules/broken.yml".to_string(),
            message: "missing field `query`".to_string()
        }]
    );
    assert_eq!(plugin.rules.len(), 1);
    assert_eq!(plugin.rules[0].name, "other");
    assert_eq!(plugin.rules[0].path, "rules/other.yml");
}

#[test]
fn duplicate_names_and_empty_paths_are_rejected() {
    let empty = SingleTest { relative_path: vec![], code: "x".to_string() };
    let (plugin, errors) = LinterPlugin::new(vec![
        RuleFile { path: "a.yml".to_string(), parsed: Ok(rule("r", vec![], vec![])) },
        RuleFile { path: "b.yml".to_string(), parsed: Ok(rule("r", vec![], vec![])) },
        RuleFile { path: "c.yml".to_string(), parsed: Ok(rule("s", vec![empty], vec![])) },
    ]);
    assert_eq!(plugin.rules.len(), 1);
    assert_eq!(plugin.rules[0].path, "a.yml");
    assert_eq!(
        errors,
        vec![
            LoadError::DuplicateName { path: "b.yml".to_string(), name: "r".to_string() },
            LoadError::EmptyFixturePath { path: "c.yml".to_string(), name: "s".to_string() },
        ]
    );
}

#[test]
fn repeated_argument_names_are_rejected() {
    let mut r = rule("r", vec![], vec![]);
    r.args.push(("limit".to_string(), trustfall::TransparentValue::Int64(4)));
    let (plugin, errors) = LinterPlugin::new(vec![RuleFile { path: "r.yml".to_string(), parsed: Ok(r) }]);
    assert!(plugin.rules.is_empty());
    assert_eq!(errors, vec![LoadError::DuplicateArgument { path: "r.yml".to_string(), name: "r".to_string() }]);
}

#[test]
fn parse_failure_is_distinct() {
    let fail = FixtureRef { rule: 0, kind: Expectation::Fail, index: 0 };
    let pass = FixtureRef { rule: 0, kind: Expectation::Pass, index: 0 };
    let parse = || FixtureOutcome::ParseFailed(vec!["Unexpected token".to_string()]);
    assert!(judge_fixture(fail, parse()).is_ok());
    match judge_fixture(fail, FixtureOutcome::Evaluated(Ok(vec![]))) {
        Err(TestFailure::ExpectedToFail { fixture }) => assert_eq!(fixture, fail),
        _ => panic!("zero diagnostics must fail a fail fixture"),
    }
    match judge_fixture(pass, parse()) {
        Err(TestFailure::ExpectedToPass { fixture, outcome: FixtureOutcome::ParseFailed(e) }) => {
            assert_eq!(fixture, pass);
            assert_eq!(e, vec!["Unexpected token".to_string()]);
        }
        _ => panic!("a parse failure must be reported as such"),
    }
    match judge_fixture(pass, FixtureOutcome::SemanticFailed(vec!["redeclared".to_string()])) {
        Err(TestFailure::InvalidFixture { errors, .. }) => assert_eq!(errors, vec!["redeclared".to_string()]),
        _ => panic!("semantic errors end the run"),
    }
}

#[test]
fn two_list_rows_decode() {
    let r = rule("lists", vec![], vec![]);
    let plugin = LinterPlugin::new(vec![]).0;
    let rows = vec![row(list(&[1, 10]), list(&[3, 12])), row(list(&[20, 30]), list(&[25, 31]))];
    let d = plugin.run_plugin_rules(&r, Ok(rows)).unwrap();
    assert_eq!(spans(&d), vec![(1, 3), (10, 12), (20, 25), (30, 31)]);
    let one = decode_span(&Some(list(&[1, 10])), &Some(list(&[3, 12]))).unwrap();
    match one {
        SpanResult::Multiple { starts, ends } => {
            assert_eq!(starts, vec![1, 10]);
            assert_eq!(ends, vec![3, 12]);
        }
        _ => panic!("expected multiple spans"),
    }
}

#[test]
fn rules_without_fixtures_are_not_tested() {
    let (plugin, _) = LinterPlugin::new(vec![
        RuleFile { path: "a.yml".to_string(), parsed: Ok(rule("none", vec![], vec![])) },
        RuleFile { path: "b.yml".to_string(), parsed: Ok(rule("some", vec![fixture("a;")], vec![fixture("b;"), fixture("c;")])) },
    ]);
    let plan = plugin.fixture_plan();
    assert_eq!(plan.len(), 3);
    assert!(plan.iter().all(|f| f.rule == 1));
    assert_eq!(plugin.rule_tallies(), vec![(1, 1, 2)]);
}

#[test]
fn run_tests_runs_only_the_selected_rule() {
    let (plugin, _) = LinterPlugin::new(vec![
        RuleFile { path: "a.yml".to_string(), parsed: Ok(rule("a", vec![], vec![])) },
        RuleFile { path: "b.yml".to_string(), parsed: Ok(rule("b", vec![], vec![])) },
    ]);
    let only = RulesToRun::Only("b".to_string());
    assert_eq!(plugin.selected_rules(&only), vec![1]);
    assert_eq!(plugin.selected_rules(&RulesToRun::All), vec![0, 1]);
    let (d, errs) =
        plugin.run_tests(&only, vec![Ok(vec![row(OutputValue::Int64(4), OutputValue::Int64(6))])]);
    assert!(errs.is_empty());
    assert_eq!(spans(&d), vec![(4, 6)]);
    assert_eq!(d[0].rule, "b");
    assert_eq!(d[0].reason, "b reason");
    let (d, errs) = plugin.run_tests(
        &RulesToRun::All,
        vec![Err(TrustfallError("bad".to_string())), Ok(vec![row(OutputValue::Int64(1), OutputValue::Int64(2))])],
    );
    assert_eq!(errs.len(), 1);
    assert!(matches!(&errs[0], PluginRuleError::Query { rule, .. } if rule == "a"));
    assert_eq!(spans(&d), vec![(1, 2)]);
    assert_eq!(d[0].rule, "b");
}

const RULE_FILE: &str = "name: no_debugger\nquery: q\nargs: {}\nsummary: s\nreason: r\ntests:\n  pass:\n    - relative_path: [\"a.js\"]\n      code: x = 1;\n  fail:\n    - relative_path: [\"b.js\"]\n      code: debugger;\n    - relative_path: [\"c.js\"]\n      code: debugger; debugger;\n";

#[test]
fn fixtures_with_shift_operators_are_located() {
    let text = "name: shift\nquery: q\nargs: {}\nsummary: s\nreason: r\ntests:\n  pass:\n    - relative_path: [\"a.js\"]\n      code: \"x << 1; y = '\\x3c'\"\n";
    let lines: Vec<usize> = text.char_indices().filter(|c| c.1 == '\n').map(|c| c.0).collect();
    assert_eq!(span_of_test_n(text, Expectation::Pass, 0), Ok((lines[7], lines[8])));
}

#[test]
fn test_schedule_tallies_each_rule_after_its_fixtures() {
    let (plugin, _) = LinterPlugin::new(vec![
        RuleFile { path: "a.yml".to_string(), parsed: Ok(rule("a", vec![fixture("a;")], vec![])) },
        RuleFile { path: "b.yml".to_string(), parsed: Ok(rule("b", vec![], vec![])) },
        RuleFile { path: "c.yml".to_string(), parsed: Ok(rule("c", vec![], vec![fixture("c;")])) },
    ]);
    assert_eq!(
        plugin.test_schedule(),
        vec![
            Step::Run(FixtureRef { rule: 0, kind: Expectation::Pass, index: 0 }),
            Step::Tally { rule: 0, pass: 1, fail: 0 },
            Step::Run(FixtureRef { rule: 2, kind: Expectation::Fail, index: 0 }),
            Step::Tally { rule: 2, pass: 0, fail: 1 },
        ]
    );
}

#[test]
fn span_of_lines_uses_newline_offsets() {
    let text = "ab\ncd\nef\n";
    assert_eq!(span_of_lines(text, 1, 2), Ok((2, 5)));
    assert_eq!(span_of_lines(text, 2, 2), Ok((5, 5)));
    assert_eq!(span_of_lines(text, 0, 2), Err(LocateError::NoLine));
    assert_eq!(span_of_lines(text, 2, 4), Err(LocateError::NoLine));
    assert_eq!(span_of_lines(text, 3, 2), Err(LocateError::NoLine));
}

#[test]
fn fixtures_are_located_in_their_rule_file() {
    let lines: Vec<usize> =
        RULE_FILE.char_indices().filter(|c| c.1 == '\n').map(|c| c.0).collect();
    let pass = span_of_test_n(RULE_FILE, Expectation::Pass, 0).unwrap();
    let first_fail = span_of_test_n(RULE_FILE, Expectation::Fail, 0).unwrap();
    let second_fail = span_of_test_n(RULE_FILE, Expectation::Fail, 1).unwrap();
    assert!(pass.0 < pass.1 && pass.1 <= first_fail.0);
    assert!(first_fail.1 <= second_fail.0);
    assert!(lines.contains(&pass.0) && lines.contains(&second_fail.1));
    assert!(RULE_FILE[pass.0..pass.1].contains("x = 1;"));
    assert_eq!(&RULE_FILE[first_fail.0..first_fail.1], "\n      code: debugger;");
    assert_eq!(&RULE_FILE[second_fail.0..second_fail.1], "\n      code: debugger; debugger;");
    assert_eq!(span_of_test_n(RULE_FILE, Expectation::Fail, 2), Err(LocateError::NoFixture));
    assert_eq!(span_of_test_n("name: x\n", Expectation::Pass, 0), Err(LocateError::NoSection));
    assert_eq!(span_of_test_n("tests: [1, 2]\n", Expectation::Pass, 0), Err(LocateError::NoSection));
    assert_eq!(span_of_test_n("{{{", Expectation::Pass, 0), Err(LocateError::NoSection));
    assert_eq!(span_of_test_n("a: 1\n<<: [1]\n", Expectation::Pass, 0), Err(LocateError::NoSection));
    assert_eq!(span_of_test_n("a: 1\n\"\\x3c\\x3C\": [1]\n", Expectation::Pass, 0), Err(LocateError::NoSection));
    assert_eq!(span_of_test_n("? \"<\\\n  <\"\n: [1]\n", Expectation::Pass, 0), Err(LocateError::NoSection));
    let deep = format!("tests: {}{}\n", "[".repeat(2000), "]".repeat(2000));
    assert_eq!(span_of_test_n(&deep, Expectation::Pass, 0), Err(LocateError::Unsupported));
    assert_eq!(span_of_test_n("tests:\n  other: 1\n", Expectation::Pass, 0), Err(LocateError::NoSection));
    assert_eq!(span_of_test_n(RULE_FILE, Expectation::Pass, 0), Ok(pass));
}

#[test]
fn linter_keeps_only_the_named_query_rule() {
    let (plugin, _) = LinterPlugin::new(vec![
        RuleFile { path: "a.yml".to_string(), parsed: Ok(rule("a", vec![], vec![])) },
        RuleFile { path: "b.yml".to_string(), parsed: Ok(rule("b", vec![], vec![])) },
    ]);
    let linter = Linter::from_rules(vec!["no-debugger".to_string(), "eqeqeq".to_string()], Some(plugin));
    assert_eq!(linter.number_of_rules(), 2);
    assert!(!linter.has_fix());
    let linter = linter.with_fix(true);
    assert!(linter.has_fix());
    let linter = linter.only_use_query_rule("b");
    assert_eq!(linter.number_of_rules(), 0);
    assert!(linter.has_fix());
}

#[test]
fn locating_a_fixture_twice_gives_the_same_span() {
    let first = span_of_test_n(RULE_FILE, Expectation::Fail, 1);
    let second = span_of_test_n(RULE_FILE, Expectation::Fail, 1);
    assert!(first.is_ok());
    assert_eq!(first, second);
}

#[test]
fn linter_runs_its_plugin_rules() {
    let (plugin, _) = LinterPlugin::new(vec![
        RuleFile { path: "a.yml".to_string(), parsed: Ok(rule("a", vec![], vec![])) },
        RuleFile { path: "b.yml".to_string(), parsed: Ok(rule("b", vec![], vec![])) },
    ]);
    let linter = Linter::from_rules(vec![], Some(plugin));
    let (d, errs) = linter.run(vec![
        Ok(vec![row(list(&[1, 5]), list(&[2, 6]))]),
        Ok(vec![row(OutputValue::Int64(8), OutputValue::Int64(3))]),
    ]);
    assert_eq!(spans(&d), vec![(1, 2), (5, 6)]);
    assert!(d.iter().all(|x| x.rule == "a"));
    assert_eq!(errs.len(), 1);
    assert!(matches!(&errs[0], PluginRuleError::Shape { rule, row: 0, error: ShapeError::Reversed } if rule == "b"));

    let bare = Linter::from_rules(vec!["eqeqeq".to_string()], None);
    let (d, errs) = bare.run(vec![]);
    assert!(d.is_empty() && errs.is_empty());
}
