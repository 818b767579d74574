//! Character helpers, ordering and tally tests.

use ousia_atscale::annotate::{domain_module_for, infer_domain_module};
use ousia_atscale::error::AtscaleError;
use ousia_atscale::order::str_lt;
use ousia_atscale::tally::Tally;
use ousia_atscale::text::{i32_to_decimal, str_contains, str_eq, usize_to_decimal};

#[test]
fn decimal_formatting() {
    assert_eq!(usize_to_decimal(0), "0");
    assert_eq!(usize_to_decimal(7), "7");
    assert_eq!(usize_to_decimal(1205), "1205");
    assert_eq!(usize_to_decimal(usize::MAX), usize::MAX.to_string());
    assert_eq!(i32_to_decimal(-1), "-1");
    assert_eq!(i32_to_decimal(i32::MIN), i32::MIN.to_string());
    assert_eq!(i32_to_decimal(42), "42");
}

#[test]
fn substring_and_equality() {
    assert!(str_contains("customer_status", "status"));
    assert!(str_contains("abc", ""));
    assert!(str_contains("abc", "abc"));
    assert!(!str_contains("ab", "abc"));
    assert!(!str_contains("statu", "status"));
    assert!(str_contains("naïve café", "é"));
    assert!(str_eq("abc", "abc"));
    assert!(!str_eq("abc", "abd"));
    assert!(!str_eq("ab", "abc"));
}

#[test]
fn lexicographic_order_matches_str_order() {
    let words = ["", "a", "B", "b", "ab", "abc", "é", "z", "Zeta", "zz"];
    for x in words {
        for y in words {
            assert_eq!(str_lt(x, y), x < y, "{x:?} < {y:?}");
        }
    }
}

#[test]
fn tally_starts_empty() {
    let t = Tally::new();
    assert_eq!(t.len(), 0);
    assert_eq!(t.get("anything"), 0);
}

#[test]
fn domain_modules() {
    assert_eq!(domain_module_for("unit_cost"), "FinancialProcess");
    assert_eq!(domain_module_for("client_id"), "CustomerRole");
    assert_eq!(domain_module_for("sku"), "ProductQuality");
    assert_eq!(domain_module_for("fiscal_year"), "TemporalRegion");
    assert_eq!(domain_module_for("city"), "SpatialRegion");
    assert_eq!(domain_module_for("qty"), "QuantitativeProcess");
    assert_eq!(domain_module_for("misc"), "GeneralSemanticLayer");
    // Lower-casing happens before the tokens are looked up.
    assert_eq!(infer_domain_module("TOTAL_REVENUE"), "FinancialProcess");
    assert_eq!(infer_domain_module("PRODUCT"), "ProductQuality");
}

#[test]
fn error_messages() {
    assert_eq!(AtscaleError::Io("disk".to_string()).message(), "I/O error: disk");
    assert_eq!(AtscaleError::ModelNotFound("m.json".to_string()).message(), "Model file not found: m.json");
    assert_eq!(AtscaleError::InvalidModel("x".to_string()).message(), "Invalid model structure: x");
    assert_eq!(AtscaleError::ReasonerFailed("boom".to_string()).message(), "ousia-reason execution failed: boom");
    assert_eq!(
        AtscaleError::InvalidBfoHint { column: "c".to_string(), hint: "h".to_string() }.message(),
        "Invalid bfo_hint 'h' on column 'c'; valid values are: quality, role, information_gdc, temporal_region, process, disposition, independent_continuant"
    );
}
