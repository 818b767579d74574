//! Diff tests.

use ousia_atscale::diff::{diff_models, diff_text, DiffResult};
use ousia_atscale::model::{AtscaleModel, Column};
use ousia_atscale::BfoCategory;

fn col(name: &str, ty: &str, aggregation: Option<&str>) -> Column {
    Column {
        name: name.to_string(),
        description: None,
        column_type: ty.to_string(),
        folder: None,
        aggregation: aggregation.map(|a| a.to_string()),
        bfo_hint: None,
    }
}

fn simple_model(columns: Vec<Column>) -> AtscaleModel {
    AtscaleModel {
        catalog: "test".to_string(),
        schema: "s".to_string(),
        table: "t".to_string(),
        description: None,
        columns,
        column_groups: vec![],
    }
}

#[test]
fn ac2_identical_models_all_agree() {
    let m = simple_model(vec![col("revenue", "measure", Some("sum"))]);
    let result = diff_models(&m, &m);
    assert_eq!(result.diverge.len(), 0, "no divergences");
    assert_eq!(result.agree.len(), 1, "one agreement");
    assert!(result.only_in_a.is_empty());
    assert!(result.only_in_b.is_empty());
    assert!(!result.has_divergences());
}

#[test]
fn ac3_different_models_show_uniques() {
    let m_a = simple_model(vec![col("revenue", "measure", Some("sum")), col("region", "attribute", None)]);
    let m_b = simple_model(vec![col("revenue", "measure", Some("sum")), col("cost_centre", "dimension", None)]);
    let result = diff_models(&m_a, &m_b);
    assert_eq!(result.agree.len(), 1);
    assert_eq!(result.only_in_a.len(), 1);
    assert_eq!(result.only_in_b.len(), 1);
    let s = result.summary_line();
    assert!(s.contains("agree"), "summary has agree: {s}");
    assert!(s.contains("unique"), "summary has unique: {s}");
}

#[test]
fn ac4_divergence_detected_exit_nonzero() {
    let m_a = simple_model(vec![col("revenue", "measure", Some("sum"))]);
    let m_b = simple_model(vec![col("revenue", "dimension", None)]);
    let result = diff_models(&m_a, &m_b);
    assert_eq!(result.diverge.len(), 1, "one divergence");
    let d = &result.diverge[0];
    assert_eq!(d.name, "revenue");
    assert_ne!(d.category_a, d.category_b);
    assert!(result.has_divergences(), "exit non-zero");
}

#[test]
fn ac6_case_insensitive_join() {
    let m_a = simple_model(vec![col("Revenue", "measure", Some("sum"))]);
    let m_b = simple_model(vec![col("revenue", "measure", Some("sum"))]);
    let result = diff_models(&m_a, &m_b);
    assert_eq!(result.agree.len(), 1, "case-insensitive match");
    assert_eq!(result.diverge.len(), 0);
    assert!(result.only_in_a.is_empty());
    assert!(result.only_in_b.is_empty());
}

#[test]
fn ac7_exit_code_driven_by_divergences() {
    let m = simple_model(vec![col("x", "measure", Some("sum"))]);
    let r = diff_models(&m, &m);
    assert!(!r.has_divergences());

    let m_a = simple_model(vec![col("x", "measure", Some("sum"))]);
    let m_b = simple_model(vec![col("x", "key", None)]);
    let r2 = diff_models(&m_a, &m_b);
    assert!(r2.has_divergences());
}

#[test]
fn ac4_role_heuristic_divergence() {
    let m_a = simple_model(vec![col("customer_status", "measure", Some("count"))]);
    let m_b = simple_model(vec![col("customer_status", "dimension", None)]);
    let result = diff_models(&m_a, &m_b);
    assert_eq!(result.diverge.len(), 1);
    let d = &result.diverge[0];
    assert_eq!(d.category_a, BfoCategory::InformationGDC);
    assert_eq!(d.category_b, BfoCategory::Role);
}

#[test]
fn summary_line_exact() {
    let m_a = simple_model(vec![col("revenue", "measure", None), col("region", "attribute", None), col("z", "key", None)]);
    let m_b = simple_model(vec![col("revenue", "measure", None), col("cost", "dimension", None)]);
    let result: DiffResult = diff_models(&m_a, &m_b);
    assert_eq!(result.summary_line(), "1 agree, 0 diverge, 3 unique (2 only-A, 1 only-B)");
}

#[test]
fn lists_are_sorted_by_name() {
    let m_a = simple_model(vec![col("zeta", "key", None), col("Alpha", "key", None), col("beta", "key", None), col("gamma", "key", None)]);
    let m_b = simple_model(vec![col("delta", "key", None), col("Charlie", "measure", None)]);
    let r = diff_models(&m_a, &m_b);
    let names: Vec<&str> = r.only_in_a.iter().map(|u| u.name.as_str()).collect();
    assert_eq!(names, vec!["Alpha", "beta", "gamma", "zeta"]);
    let names_b: Vec<&str> = r.only_in_b.iter().map(|u| u.name.as_str()).collect();
    assert_eq!(names_b, vec!["Charlie", "delta"]);
}

#[test]
fn diff_of_model_with_itself_has_no_divergence_or_uniques() {
    let m = simple_model(vec![col("a", "measure", None), col("b", "dimension", None), col("B_status", "dimension", None)]);
    let r = diff_models(&m, &m);
    assert_eq!(r.agree.len(), 3);
    assert!(r.diverge.is_empty() && r.only_in_a.is_empty() && r.only_in_b.is_empty());
}

#[test]
fn only_in_lists_swap_when_models_swap() {
    let m_a = simple_model(vec![col("revenue", "measure", None), col("region", "attribute", None)]);
    let m_b = simple_model(vec![col("REVENUE", "dimension", None), col("cost", "key", None)]);
    let ab = diff_models(&m_a, &m_b);
    let ba = diff_models(&m_b, &m_a);
    assert_eq!(ab.only_in_a.len(), ba.only_in_b.len());
    assert_eq!(ab.only_in_a[0].name, ba.only_in_b[0].name);
    assert_eq!(ab.only_in_b[0].rationale, ba.only_in_a[0].rationale);
    assert_eq!(ab.diverge[0].name, "revenue");
    assert_eq!(ba.diverge[0].name, "REVENUE");
    assert_eq!(ab.diverge[0].category_a, ba.diverge[0].category_b);
}

#[test]
fn later_element_of_a_lowercase_name_wins() {
    let m_a = simple_model(vec![col("Total", "measure", None), col("total", "key", None)]);
    let m_b = simple_model(vec![col("TOTAL", "key", None)]);
    let r = diff_models(&m_a, &m_b);
    assert_eq!(r.agree.len(), 1);
    assert_eq!(r.agree[0].name, "total");
    assert_eq!(r.agree[0].bfo_category, BfoCategory::Quality);
    assert_eq!(r.agree[0].element_type_a, "key");
}

#[test]
fn invalid_hint_makes_that_side_empty() {
    let mut bad = col("revenue", "measure", None);
    bad.bfo_hint = Some("nope".to_string());
    let m_a = simple_model(vec![bad, col("region", "dimension", None)]);
    let m_b = simple_model(vec![col("revenue", "measure", None)]);
    let r = diff_models(&m_a, &m_b);
    assert!(r.agree.is_empty() && r.diverge.is_empty() && r.only_in_a.is_empty());
    assert_eq!(r.only_in_b.len(), 1);
}

#[test]
fn every_name_of_a_reported_once() {
    let m_a = simple_model(vec![
        col("revenue", "measure", None),
        col("Region", "dimension", None),
        col("region", "dimension", None),
        col("cost", "key", None),
        col("only_a", "key", None),
    ]);
    let m_b = simple_model(vec![col("REVENUE", "measure", None), col("cost", "measure", None), col("only_b", "key", None)]);
    let r = diff_models(&m_a, &m_b);
    // four distinct lower-cased names in A: revenue, region, cost, only_a
    assert_eq!(r.agree.len() + r.diverge.len() + r.only_in_a.len(), 4);
    assert_eq!(r.agree.len(), 1);
    assert_eq!(r.diverge.len(), 1);
    assert_eq!(r.only_in_a.len(), 2);
    let back = diff_models(&m_b, &m_a);
    assert_eq!(back.agree.len(), r.agree.len());
    assert_eq!(back.diverge.len(), r.diverge.len());
}

#[test]
fn swapping_the_models_swaps_the_sides_of_a_divergence() {
    let m_a = simple_model(vec![col("Revenue", "measure", Some("sum")), col("region", "attribute", None)]);
    let m_b = simple_model(vec![col("revenue", "dimension", None), col("REGION", "attribute", None)]);
    let ab = diff_models(&m_a, &m_b);
    let ba = diff_models(&m_b, &m_a);
    assert_eq!(ab.diverge.len(), 1);
    assert_eq!(ba.diverge.len(), 1);
    assert_eq!(ab.diverge[0].name, "Revenue");
    assert_eq!(ba.diverge[0].name, "revenue");
    assert_eq!(ab.diverge[0].category_a, ba.diverge[0].category_b);
    assert_eq!(ab.diverge[0].category_b, ba.diverge[0].category_a);
    assert_eq!(ab.diverge[0].element_type_a, ba.diverge[0].element_type_b);
    assert_eq!(ab.diverge[0].rationale_a, ba.diverge[0].rationale_b);
    assert_eq!(ab.agree.len(), 1);
    assert_eq!(ba.agree.len(), 1);
    assert_eq!(ab.agree[0].name, "region");
    assert_eq!(ba.agree[0].name, "REGION");
    assert_eq!(ab.agree[0].bfo_category, ba.agree[0].bfo_category);
}

#[test]
fn diff_text_lists_sections_in_order() {
    let m_a = simple_model(vec![col("revenue", "measure", Some("sum")), col("region", "attribute", None), col("zeta", "measure", Some("sum"))]);
    let m_b = simple_model(vec![col("revenue", "dimension", None), col("zeta", "measure", Some("sum")), col("cost", "measure", Some("sum"))]);
    let r = diff_models(&m_a, &m_b);
    let d = &r.diverge[0];
    let expected = format!(
        "1 agree, 1 diverge, 2 unique (1 only-A, 1 only-B)\n\nDIVERGENCES (1):\n{}\n  revenue : A={} vs B={}\n    A rationale: {}\n    B rationale: {}\n\nONLY IN A (1):\n  region [{}]\n\nONLY IN B (1):\n  cost [{}]\n",
        "-".repeat(80),
        d.category_a.label(),
        d.category_b.label(),
        d.rationale_a,
        d.rationale_b,
        r.only_in_a[0].bfo_category.label(),
        r.only_in_b[0].bfo_category.label(),
    );
    assert_eq!(diff_text(&r, false), expected);
    let verbose = diff_text(&r, true);
    assert_eq!(verbose, format!("{expected}\nAGREE (1):\n  zeta [{}]\n", r.agree[0].bfo_category.label()));
}

#[test]
fn diff_text_of_identical_models_is_the_summary_alone() {
    let m = simple_model(vec![col("revenue", "measure", Some("sum"))]);
    let r = diff_models(&m, &m);
    assert_eq!(diff_text(&r, false), "1 agree, 0 diverge, 0 unique (0 only-A, 0 only-B)\n");
}
