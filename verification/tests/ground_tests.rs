//! Grounding, overlay and coverage tests.

use ousia_atscale::{
    annotate::{emit_overlay, GroundedOverlay},
    mapper::{rationale_display, BfoCategory, GroundedElement, Mapper},
    model::{model_source, AtscaleModel, Column, ColumnGroup, ElementKind, ModelElement},
    report::CoverageReport,
    AtscaleError,
};

// ── Fixtures (the sales and finance models, built by calls) ─────────────────

fn column(name: &str, ty: &str, aggregation: Option<&str>) -> Column {
    Column {
        name: name.to_string(),
        description: None,
        column_type: ty.to_string(),
        folder: None,
        aggregation: aggregation.map(|a| a.to_string()),
        bfo_hint: None,
    }
}

fn group(name: &str, ty: &str, columns: &[&str]) -> ColumnGroup {
    ColumnGroup {
        name: name.to_string(),
        description: None,
        group_type: ty.to_string(),
        columns: columns.iter().map(|c| c.to_string()).collect(),
    }
}

fn fixture_model() -> AtscaleModel {
    AtscaleModel {
        catalog: "sales_catalog".to_string(),
        schema: "sales_schema".to_string(),
        table: "sales_model".to_string(),
        description: Some("Retail sales".to_string()),
        columns: vec![
            column("order_key", "key", None),
            column("customer_name", "dimension", None),
            column("customer_status", "dimension", None),
            column("product_category", "attribute", None),
            column("region", "dimension", None),
            column("order_date", "date", None),
            column("ship_time", "time", None),
            column("revenue", "measure", Some("sum")),
            column("unit_price", "measure", Some("avg")),
            column("quantity", "measure", Some("sum")),
        ],
        column_groups: vec![
            group("CustomerHierarchy", "hierarchy", &["customer_name", "region"]),
            group("ProductLevel", "level", &["product_category"]),
            group("TopCustomers", "named_set", &["customer_name"]),
        ],
    }
}

fn finance_model() -> AtscaleModel {
    AtscaleModel {
        catalog: "finance_catalog".to_string(),
        schema: "finance_schema".to_string(),
        table: "finance_model".to_string(),
        description: None,
        columns: vec![
            column("account_key", "key", None),
            column("account_type", "dimension", None),
            column("fiscal_period", "date", None),
            column("amount", "measure", Some("sum")),
            column("cost_center", "dimension", None),
            column("posting_time", "time", None),
        ],
        column_groups: vec![group("AccountHierarchy", "hierarchy", &["account_type"])],
    }
}

fn element<'a>(name: &'a str, kind: ElementKind, aggregation: Option<&'a str>, hint: Option<&'a str>) -> ModelElement<'a> {
    ModelElement {
        name,
        element_type: kind,
        description: None,
        aggregation,
        folder: None,
        bfo_hint: hint,
    }
}

fn coverage_pct(report: &CoverageReport) -> f64 {
    if report.total == 0 {
        return 0.0;
    }
    (report.grounded as f64 / report.total as f64) * 100.0
}

// ── AC #1: ground emits per-element BFO mapping ─────────────────────────────

#[test]
fn test_ground_produces_mapping_for_all_elements() {
    let model = fixture_model();
    let mapper = Mapper::new();
    let grounded = mapper.ground_model(&model).expect("ground_model failed");

    // Model has 10 columns + 3 column_groups = 13 elements.
    assert_eq!(grounded.len(), 13, "expected 13 grounded elements");

    for elem in &grounded {
        assert!(!elem.rationale.is_empty(), "missing rationale for {}", elem.name);
        assert!(
            elem.bfo_iri.starts_with("http://purl.obolibrary.org/obo/BFO_"),
            "invalid BFO IRI for {}: {}",
            elem.name,
            elem.bfo_iri
        );
    }
}

// ── AC #2: explicit testable mapping rules ───────────────────────────────────

#[test]
fn test_measure_maps_to_information_gdc() {
    let mapper = Mapper::new();
    let elem = element("revenue", ElementKind::Measure, Some("sum"), None);
    let result = mapper.ground(&elem).expect("ground failed");
    assert_eq!(result.bfo_category, BfoCategory::InformationGDC, "measures must map to InformationGDC");
}

#[test]
fn test_dimension_maps_to_quality() {
    let mapper = Mapper::new();
    let elem = element("customer_name", ElementKind::Dimension, None, None);
    let result = mapper.ground(&elem).expect("ground failed");
    assert_eq!(result.bfo_category, BfoCategory::Quality, "plain dimension should map to Quality");
}

#[test]
fn test_status_dimension_maps_to_role() {
    let mapper = Mapper::new();
    let elem = element("customer_status", ElementKind::Dimension, None, None);
    let result = mapper.ground(&elem).expect("ground failed");
    assert_eq!(result.bfo_category, BfoCategory::Role, "status/type dimension should map to Role");
}

#[test]
fn test_date_maps_to_temporal_region() {
    let mapper = Mapper::new();
    let elem = element("order_date", ElementKind::Date, None, None);
    let result = mapper.ground(&elem).expect("ground failed");
    assert_eq!(result.bfo_category, BfoCategory::TemporalRegion);
}

#[test]
fn test_time_maps_to_temporal_region() {
    let mapper = Mapper::new();
    let elem = element("ship_time", ElementKind::Time, None, None);
    let result = mapper.ground(&elem).expect("ground failed");
    assert_eq!(result.bfo_category, BfoCategory::TemporalRegion);
}

#[test]
fn test_hierarchy_maps_to_role() {
    let mapper = Mapper::new();
    let elem = element("CustomerHierarchy", ElementKind::Hierarchy, None, None);
    let result = mapper.ground(&elem).expect("ground failed");
    assert_eq!(result.bfo_category, BfoCategory::Role);
}

#[test]
fn test_key_maps_to_quality() {
    let mapper = Mapper::new();
    let elem = element("order_key", ElementKind::Key, None, None);
    let result = mapper.ground(&elem).expect("ground failed");
    assert_eq!(result.bfo_category, BfoCategory::Quality);
}

// ── AC #3: annotate emits overlay without touching source ───────────────────

#[test]
fn test_annotate_emits_overlay_with_annotation_vocabulary() {
    let model = fixture_model();
    let mapper = Mapper::new();
    let grounded = mapper.ground_model(&model).expect("ground_model failed");
    let overlay = emit_overlay(&model, &grounded);

    assert!(!overlay.annotations.is_empty());

    for i in 0..overlay.annotations.len() {
        let name = overlay.annotations.name_at(i);
        let ann = overlay.annotations.annotation_at(i);
        assert!(!ann.philosophical_grounding.iri.is_empty(), "missing philosophicalGrounding.iri for {}", name);
        assert!(!ann.domain_module.is_empty(), "missing domainModule for {}", name);
        assert!(!ann.aristotelian_definition.genus.is_empty(), "missing aristotelianDefinition.genus for {}", name);
    }
}

#[test]
fn test_annotate_does_not_mutate_source() {
    let model = fixture_model();
    let mapper = Mapper::new();
    let grounded = mapper.ground_model(&model).expect("ground_model failed");
    let _overlay = emit_overlay(&model, &grounded);

    let model2 = fixture_model();
    assert_eq!(model2.columns.len(), model.columns.len());
    assert_eq!(model2.table, model.table);
}

// ── AC #4: report prints coverage ───────────────────────────────────────────

#[test]
fn test_report_coverage_on_fixture() {
    let model = fixture_model();
    let mapper = Mapper::new();
    let grounded = mapper.ground_model(&model).expect("ground_model failed");
    let report = CoverageReport::build(&grounded);

    assert_eq!(report.total, 13);
    assert_eq!(report.fallback, 0, "no elements should fall to IC fallback");
    assert!(
        (coverage_pct(&report) - 100.0).abs() < 0.01,
        "coverage should be 100% for well-typed fixture, got {:.1}%",
        coverage_pct(&report)
    );
}

#[test]
fn test_report_coverage_fallback_counted() {
    let mapper = Mapper::new();
    let elem = element("weird_thing", ElementKind::Unknown, None, None);
    let grounded = vec![mapper.ground(&elem).expect("ground failed")];
    let report = CoverageReport::build(&grounded);
    assert_eq!(report.fallback, 1);
    assert!((coverage_pct(&report) - 0.0).abs() < 0.01, "unknown element should yield 0% coverage");
}

// ── AC #5: offline path ──────────────────────────────────────────────────────

#[test]
fn test_offline_path_no_network() {
    let model = fixture_model();
    let mapper = Mapper::new();
    let grounded = mapper.ground_model(&model).expect("ground_model failed");
    assert!(!grounded.is_empty());
}

// ── AC #6: --from-mcp absent errors with actionable message ─────────────────

#[test]
fn test_from_mcp_absent_returns_error() {
    let err = AtscaleError::McpNotAttached;
    let msg = err.message();
    assert!(msg.contains("AtScale MCP connector not attached"), "error message should be actionable, got: {}", msg);
    assert!(msg.contains("--model <json>"), "error should point to offline alternative, got: {}", msg);
}

// ── AC #8: every element appears in the overlay ─────────────────────────────

#[test]
fn test_all_fixture_elements_have_grounding() {
    let model = fixture_model();
    let mapper = Mapper::new();
    let grounded = mapper.ground_model(&model).expect("ground_model failed");
    let overlay = emit_overlay(&model, &grounded);

    for col in &model.columns {
        assert!(overlay.annotations.contains_key(&col.name), "overlay missing annotation for column: {}", col.name);
    }
    for cg in &model.column_groups {
        assert!(overlay.annotations.contains_key(&cg.name), "overlay missing annotation for column_group: {}", cg.name);
    }
}

// ── bfo_hint overrides ───────────────────────────────────────────────────────

#[test]
fn test_bfo_hint_role_overrides_quality_default() {
    let mapper = Mapper::new();
    let elem = element("customer_name", ElementKind::Dimension, None, Some("role"));
    let result = mapper.ground(&elem).expect("ground failed");
    assert_eq!(result.bfo_category, BfoCategory::Role, "bfo_hint='role' must override the Quality heuristic");
    assert!(result.rationale.contains("override"), "rationale must mention override, got: {}", result.rationale);
}

#[test]
fn test_bfo_hint_quality_overrides_role_default() {
    let mapper = Mapper::new();
    let elem = element("customer_status", ElementKind::Dimension, None, Some("quality"));
    let result = mapper.ground(&elem).expect("ground failed");
    assert_eq!(result.bfo_category, BfoCategory::Quality, "bfo_hint='quality' must override the Role heuristic");
    assert!(result.rationale.contains("override"), "rationale must mention override, got: {}", result.rationale);
}

#[test]
fn test_bfo_hint_invalid_errors_loudly() {
    let mapper = Mapper::new();
    let elem = element("some_column", ElementKind::Dimension, None, Some("nonsense"));
    let err = mapper.ground(&elem).expect_err("should have errored on invalid hint");
    let msg = err.message();
    assert!(msg.contains("nonsense"), "error must name the bad hint value, got: {}", msg);
    assert!(msg.contains("quality") || msg.contains("valid"), "error must list valid categories, got: {}", msg);
    assert!(matches!(err, AtscaleError::InvalidBfoHint { .. }), "expected InvalidBfoHint error variant");
}

#[test]
fn test_existing_fixtures_unchanged_without_hint() {
    let mapper = Mapper::new();
    for (label, model) in [("sales", fixture_model()), ("finance", finance_model())] {
        for col in &model.columns {
            assert!(col.bfo_hint.is_none(), "fixture '{}' column '{}' unexpectedly has a bfo_hint", label, col.name);
        }
        let grounded = mapper.ground_model(&model).expect("ground_model failed on existing fixture");
        assert!(!grounded.is_empty(), "no elements grounded for fixture '{}'", label);
    }
}

#[test]
fn test_bfo_hint_overrides_non_dimension_element() {
    let mapper = Mapper::new();
    let elem = element("total_revenue", ElementKind::Measure, Some("sum"), Some("role"));
    let result = mapper.ground(&elem).expect("ground failed");
    assert_eq!(result.bfo_category, BfoCategory::Role, "bfo_hint must work on measure elements too");
    assert!(result.rationale.contains("override"), "rationale must mention override for non-dimension element");
}

// ── Exact groundings ─────────────────────────────────────────────────────────

#[test]
fn ground_measure_exact_fields() {
    let mapper = Mapper::new();
    let g: GroundedElement = mapper.ground(&element("revenue", ElementKind::Measure, None, None)).unwrap();
    assert_eq!(g.name, "revenue");
    assert_eq!(g.element_type, "measure");
    assert_eq!(g.bfo_iri, "http://purl.obolibrary.org/obo/BFO_0000031");
    assert_eq!(
        g.rationale,
        "'revenue' is a measure \u{2014} an information GDC that inheres in a process; it carries propositional content about the magnitude of some activity (BFO:GDC)."
    );
}

#[test]
fn ground_hint_is_case_insensitive_and_exact() {
    let mapper = Mapper::new();
    let g = mapper.ground(&element("order_date", ElementKind::Date, None, Some("Process"))).unwrap();
    assert_eq!(g.bfo_category, BfoCategory::Process);
    assert_eq!(g.bfo_iri, "http://purl.obolibrary.org/obo/BFO_0000015");
    assert_eq!(
        g.rationale,
        "'order_date' carries an explicit bfo_hint override 'Process'; the heuristic for its element type is bypassed (BFO:process)."
    );
}

#[test]
fn ground_invalid_hint_error_fields() {
    let mapper = Mapper::new();
    let err = mapper.ground(&element("x", ElementKind::Key, None, Some("Qualityy"))).unwrap_err();
    assert_eq!(err, AtscaleError::InvalidBfoHint { column: "x".to_string(), hint: "Qualityy".to_string() });
}

#[test]
fn ground_every_kind_category() {
    let mapper = Mapper::new();
    let cases = [
        (ElementKind::Measure, BfoCategory::InformationGDC),
        (ElementKind::Dimension, BfoCategory::Quality),
        (ElementKind::Attribute, BfoCategory::Quality),
        (ElementKind::Key, BfoCategory::Quality),
        (ElementKind::Date, BfoCategory::TemporalRegion),
        (ElementKind::Time, BfoCategory::TemporalRegion),
        (ElementKind::Hierarchy, BfoCategory::Role),
        (ElementKind::Level, BfoCategory::Role),
        (ElementKind::NamedSet, BfoCategory::Quality),
        (ElementKind::Unknown, BfoCategory::IndependentContinuant),
    ];
    for (kind, cat) in cases {
        let g = mapper.ground(&element("plain_name", kind, None, None)).unwrap();
        assert_eq!(g.bfo_category, cat, "{:?}", kind);
        assert_eq!(g.element_type, kind.label());
    }
}

#[test]
fn role_like_tokens_decide_dimension_category() {
    assert!(Mapper::is_role_like("customer_segment"));
    assert!(Mapper::is_role_like("priority_rank"));
    assert!(!Mapper::is_role_like("customer_name"));
    let mapper = Mapper::new();
    // The name is lower-cased before the tokens are looked up.
    let g = mapper.ground(&element("Order_TYPE", ElementKind::Attribute, None, None)).unwrap();
    assert_eq!(g.bfo_category, BfoCategory::Role);
}

#[test]
fn hint_names_all_seven_categories() {
    assert_eq!(Mapper::category_for_hint("information_gdc"), Some(BfoCategory::InformationGDC));
    assert_eq!(Mapper::category_for_hint("temporal_region"), Some(BfoCategory::TemporalRegion));
    assert_eq!(Mapper::category_for_hint("independent_continuant"), Some(BfoCategory::IndependentContinuant));
    assert_eq!(Mapper::category_for_hint("disposition"), Some(BfoCategory::Disposition));
    assert_eq!(Mapper::category_for_hint("Role"), None);
}

#[test]
fn ground_model_fails_on_first_invalid_hint() {
    let mut model = finance_model();
    model.columns[2].bfo_hint = Some("bogus".to_string());
    model.columns[4].bfo_hint = Some("worse".to_string());
    let err = Mapper::new().ground_model(&model).unwrap_err();
    assert_eq!(err, AtscaleError::InvalidBfoHint { column: "fiscal_period".to_string(), hint: "bogus".to_string() });
}

#[test]
fn ground_model_keeps_order_columns_then_groups() {
    let model = fixture_model();
    let grounded = Mapper::new().ground_model(&model).unwrap();
    let names: Vec<&str> = grounded.iter().map(|g| g.name.as_str()).collect();
    assert_eq!(names[0], "order_key");
    assert_eq!(names[9], "quantity");
    assert_eq!(names[10], "CustomerHierarchy");
    assert_eq!(names[12], "TopCustomers");
    assert_eq!(grounded[12].bfo_category, BfoCategory::Quality);
    assert_eq!(grounded[12].element_type, "set");
}

#[test]
fn element_kind_from_strings() {
    assert_eq!(ElementKind::from_kind_str("MEASURE"), ElementKind::Measure);
    assert_eq!(ElementKind::from_kind_str("Dimension"), ElementKind::Dimension);
    assert_eq!(ElementKind::from_kind_str("hierarchy"), ElementKind::Unknown);
    assert_eq!(ElementKind::from_group_type("Named_Set"), ElementKind::NamedSet);
    assert_eq!(ElementKind::from_group_type("set"), ElementKind::NamedSet);
    assert_eq!(ElementKind::from_group_type("LEVEL"), ElementKind::Level);
    assert_eq!(ElementKind::from_group_type("measure"), ElementKind::Unknown);
    assert_eq!(ElementKind::NamedSet.label(), "set");
}

#[test]
fn elements_lists_columns_then_groups() {
    let mut model = fixture_model();
    model.columns[1].bfo_hint = Some("role".to_string());
    let elems = model.elements();
    assert_eq!(elems.len(), 13);
    assert_eq!(elems[1].bfo_hint, Some("role"));
    assert_eq!(elems[7].aggregation, Some("sum"));
    assert_eq!(elems[10].name, "CustomerHierarchy");
    assert_eq!(elems[10].element_type, ElementKind::Hierarchy);
    assert_eq!(elems[10].bfo_hint, None);
}

// ── Coverage report ──────────────────────────────────────────────────────────

#[test]
fn report_tallies_sorted_and_summing_to_total() {
    let mapper = Mapper::new();
    let mut model = fixture_model();
    model.columns.push(column("mystery", "blob", None));
    let grounded = mapper.ground_model(&model).unwrap();
    let report = CoverageReport::build(&grounded);
    assert_eq!(report.total, 14);
    assert_eq!(report.fallback, 1);
    assert_eq!(report.grounded, 13);
    let mut sum = 0;
    for i in 0..report.by_category.len() {
        sum += report.by_category.count(i);
        if i > 0 {
            assert!(report.by_category.key(i - 1) < report.by_category.key(i));
        }
    }
    assert_eq!(sum, 14);
    assert_eq!(report.by_category.get("information generically dependent continuant"), 3);
    assert_eq!(report.by_category.get("independent continuant"), 1);
    assert_eq!(report.by_category.get("process"), 0);
    assert_eq!(report.by_element_type.get("measure"), 3);
    assert_eq!(report.by_element_type.get("unknown"), 1);
    assert_eq!(report.by_element_type.get("set"), 1);
}

// ── Overlay ──────────────────────────────────────────────────────────────────

#[test]
fn overlay_fields_exact() {
    let mapper = Mapper::new();
    let model = fixture_model();
    let grounded = mapper.ground_model(&model).unwrap();
    let overlay: GroundedOverlay = emit_overlay(&model, &grounded);
    assert_eq!(overlay.overlay_version, "ousia-atscale/0.1.0");
    assert_eq!(overlay.model_catalog, "sales_catalog");
    assert_eq!(overlay.annotations.len(), 13);
    let ann = overlay.annotations.get("revenue").unwrap();
    assert_eq!(ann.domain_module, "FinancialProcess");
    assert_eq!(ann.philosophical_grounding.label, "information generically dependent continuant");
    assert_eq!(ann.aristotelian_definition.differentia, "revenue in the context of sales_catalog.sales_schema.sales_model");
    assert_eq!(overlay.annotations.get("CustomerHierarchy").unwrap().domain_module, "CustomerRole");
    assert_eq!(overlay.annotations.get("order_date").unwrap().domain_module, "TemporalRegion");
    assert_eq!(overlay.annotations.get("region").unwrap().domain_module, "SpatialRegion");
    assert_eq!(overlay.annotations.get("quantity").unwrap().domain_module, "QuantitativeProcess");
    assert!(overlay.annotations.get("nothing").is_none());
}

#[test]
fn overlay_last_element_of_a_name_wins() {
    let mapper = Mapper::new();
    let mut model = finance_model();
    model.columns.push(column("amount", "key", None));
    let grounded = mapper.ground_model(&model).unwrap();
    let overlay = emit_overlay(&model, &grounded);
    assert_eq!(overlay.annotations.len(), 7);
    let ann = overlay.annotations.get("amount").unwrap();
    assert_eq!(ann.philosophical_grounding.label, "quality");
}

#[test]
fn rationale_display_cuts_at_sixty_characters() {
    let short = "Measures are processes.";
    assert_eq!(rationale_display(short), short);
    let exact: String = "x".repeat(60);
    assert_eq!(rationale_display(&exact), exact);
    let long: String = "y".repeat(61);
    assert_eq!(rationale_display(&long), format!("{}\u{2026}", "y".repeat(60)));
    let wide: String = "\u{e9}".repeat(31);
    assert_eq!(rationale_display(&wide), wide.clone() + "\u{2026}");
}

#[test]
fn model_source_refuses_a_live_reference() {
    assert_eq!(model_source(Some("m.json"), Some("c.s.t")), Err(AtscaleError::McpNotAttached));
    assert_eq!(model_source(None, Some("c.s.t")), Err(AtscaleError::McpNotAttached));
    assert_eq!(model_source(Some("m.json"), None), Ok(Some("m.json")));
    assert_eq!(model_source(None, None), Ok(None));
}

#[test]
fn kind_labels_read_back_in_any_case() {
    let kinds = [
        ElementKind::Measure,
        ElementKind::Dimension,
        ElementKind::Attribute,
        ElementKind::Key,
        ElementKind::Date,
        ElementKind::Time,
    ];
    for k in kinds {
        assert_eq!(ElementKind::from_kind_str(k.label()), k);
        assert_eq!(ElementKind::from_kind_str(&k.label().to_uppercase()), k);
    }
}
