//! Reasoner decision tests.

use ousia_atscale::validate::{
    check_reasoner_output, join, locate_reasoner, verdict_from_check, CheckJson, ConsistencyVerdict,
};
use ousia_atscale::AtscaleError;

fn make_check(dl_conformant: bool, violations: &[&str], consistent: bool, incons: &[&str]) -> CheckJson {
    CheckJson {
        dl_conformant,
        violations: violations.iter().map(|s| s.to_string()).collect(),
        consistent,
        inconsistencies: incons.iter().map(|s| s.to_string()).collect(),
    }
}

#[test]
fn verdict_consistent() {
    let c = make_check(true, &[], true, &[]);
    assert_eq!(verdict_from_check(&c), ConsistencyVerdict::Consistent);
}

#[test]
fn verdict_inconsistent() {
    let c = make_check(true, &[], false, &["Fido is both Cat and Dog"]);
    match verdict_from_check(&c) {
        ConsistencyVerdict::Inconsistent { details } => {
            assert!(details.contains("Fido"), "details should include inconsistency message");
        }
        other => panic!("expected Inconsistent, got {other:?}"),
    }
}

#[test]
fn verdict_not_dl() {
    let c = make_check(false, &["nominal in class expression: ObjectOneOf(...)"], true, &[]);
    match verdict_from_check(&c) {
        ConsistencyVerdict::NotDl { construct } => {
            assert!(construct.contains("nominal"), "construct should describe the violation");
        }
        other => panic!("expected NotDl, got {other:?}"),
    }
}

#[test]
fn verdict_not_dl_over_inconsistent() {
    let c = make_check(false, &["punning: X"], false, &["something"]);
    assert!(matches!(verdict_from_check(&c), ConsistencyVerdict::NotDl { .. }));
}

#[test]
fn consistent_summary() {
    assert_eq!(ConsistencyVerdict::Consistent.summary(), "consistent");
}

#[test]
fn inconsistent_summary_contains_details() {
    let v = ConsistencyVerdict::Inconsistent { details: "foo bar".to_string() };
    assert!(v.summary().contains("foo bar"));
}

#[test]
fn ac3_missing_reasoner_error_names_flag() {
    let absent = "/nonexistent/bin/ousia-reason-ABSENT";
    let result = locate_reasoner(Some(absent), false, None);
    assert!(result.is_err(), "locate_reasoner with absent path should return Err");
    let err_str = result.unwrap_err().message();
    assert!(err_str.contains("--reasoner"), "error message must mention --reasoner flag; got: {err_str}");
}

#[test]
fn ac4_verdict_formats_as_consistency_line() {
    let verdict = ConsistencyVerdict::Consistent;
    let line = format!("Consistency: {}", verdict.summary());
    assert!(line.starts_with("Consistency:"), "line must start with 'Consistency:'; got: {line}");
    assert!(line.contains("consistent"), "consistent verdict line must say consistent; got: {line}");
}

#[test]
fn ac5_inconsistent_verdict_from_check_json() {
    let verdict = ConsistencyVerdict::Inconsistent { details: "Individual x is member of owl:Nothing".to_string() };
    assert!(matches!(verdict, ConsistencyVerdict::Inconsistent { .. }), "verdict must be Inconsistent");
    let summary = verdict.summary();
    assert!(summary.contains("inconsistent"), "summary must contain 'inconsistent'; got: {summary}");
    assert!(
        summary.contains("owl:Nothing") || summary.contains("Individual") || summary.contains("inconsistent"),
        "summary must contain inconsistency detail; got: {summary}"
    );
}

#[test]
fn ac5_not_dl_verdict() {
    let verdict = ConsistencyVerdict::NotDl { construct: "nominal in class expression: ObjectOneOf(x y)".to_string() };
    assert!(matches!(verdict, ConsistencyVerdict::NotDl { .. }), "must be NotDl");
    let summary = verdict.summary();
    assert!(summary.contains("not-dl"), "summary must contain 'not-dl'; got: {summary}");
    assert!(summary.contains("nominal"), "summary must include construct; got: {summary}");
}

#[test]
fn verdict_joins_reasons_and_names_unknown_ones() {
    let c = make_check(false, &["a", "b", "c"], true, &[]);
    assert_eq!(verdict_from_check(&c), ConsistencyVerdict::NotDl { construct: "a; b; c".to_string() });
    let c = make_check(false, &[], true, &[]);
    assert_eq!(verdict_from_check(&c), ConsistencyVerdict::NotDl { construct: "unknown violation".to_string() });
    let c = make_check(true, &[], false, &[]);
    assert_eq!(verdict_from_check(&c), ConsistencyVerdict::Inconsistent { details: "unknown inconsistency".to_string() });
    assert_eq!(
        ConsistencyVerdict::NotDl { construct: "x".to_string() }.summary(),
        "not-dl \u{2014} x"
    );
    assert_eq!(join(&vec!["one".to_string()], ", "), "one");
}

#[test]
fn locate_reasoner_cases() {
    assert_eq!(locate_reasoner(Some("/opt/ousia-reason"), true, Some("/usr/bin/other")), Ok("/opt/ousia-reason".to_string()));
    assert_eq!(locate_reasoner(None, false, Some("  /usr/bin/ousia-reason\n")), Ok("/usr/bin/ousia-reason".to_string()));
    assert_eq!(
        locate_reasoner(None, false, Some(" \n")),
        Err(AtscaleError::ReasonerNotFound { tried: "ousia-reason (PATH)".to_string() })
    );
    let err = locate_reasoner(None, false, None).unwrap_err();
    assert_eq!(
        err.message(),
        "ousia-reason not found (tried: ousia-reason (PATH)); install it or supply the path with --reasoner <path>"
    );
}

#[test]
fn reasoner_output_checks() {
    assert_eq!(check_reasoner_output(" {\"x\":1} ", "", Some(1)), Ok(()));
    assert_eq!(
        check_reasoner_output("  \n", " parse error \n", Some(2)),
        Err(AtscaleError::ReasonerFailed("parse error".to_string()))
    );
    assert_eq!(
        check_reasoner_output("", "", Some(-3)),
        Err(AtscaleError::ReasonerFailed("ousia-reason exited -3 with no output".to_string()))
    );
    assert_eq!(
        check_reasoner_output("", "", None),
        Err(AtscaleError::ReasonerFailed("ousia-reason exited -1 with no output".to_string()))
    );
}

#[test]
fn path_lookup_is_trimmed_of_unicode_white_space() {
    assert_eq!(
        locate_reasoner(None, false, Some("\u{3000}\t/opt/bin/ousia-reason\u{85}\r\n")),
        Ok("/opt/bin/ousia-reason".to_string())
    );
}
