//! RDF export tests.

use ousia_atscale::annotate;
use ousia_atscale::mapper::{GroundedElement, Mapper};
use ousia_atscale::model::{AtscaleModel, Column, ColumnGroup};
use ousia_atscale::rdf::{
    element_iri, emit_owlxml, emit_turtle, model_iri, to_fragment, xml_escape, RdfError,
    BFO_ONTOLOGY_IRI, RDF_ARISTOTELIAN_DEFINITION_IRI, RDF_DOMAIN_MODULE_IRI,
    RDF_PHILOSOPHICAL_GROUNDING_IRI,
};

fn column(name: &str, ty: &str) -> Column {
    Column {
        name: name.to_string(),
        description: None,
        column_type: ty.to_string(),
        folder: None,
        aggregation: None,
        bfo_hint: None,
    }
}

fn sales_model() -> AtscaleModel {
    AtscaleModel {
        catalog: "sales_catalog".to_string(),
        schema: "sales_schema".to_string(),
        table: "sales_model".to_string(),
        description: None,
        columns: vec![
            column("order_key", "key"),
            column("customer_name", "dimension"),
            column("customer_status", "dimension"),
            column("product_category", "attribute"),
            column("region", "dimension"),
            column("order_date", "date"),
            column("ship_time", "time"),
            column("revenue", "measure"),
            column("unit_price", "measure"),
            column("quantity", "measure"),
        ],
        column_groups: vec![
            ColumnGroup { name: "CustomerHierarchy".to_string(), description: None, group_type: "hierarchy".to_string(), columns: vec![] },
            ColumnGroup { name: "ProductLevel".to_string(), description: None, group_type: "level".to_string(), columns: vec![] },
            ColumnGroup { name: "TopCustomers".to_string(), description: None, group_type: "named_set".to_string(), columns: vec![] },
        ],
    }
}

fn grounded() -> (AtscaleModel, Vec<GroundedElement>) {
    let model = sales_model();
    let mapper = Mapper::new();
    let g = mapper.ground_model(&model).unwrap();
    (model, g)
}

#[test]
fn turtle_is_non_empty() {
    let (m, g) = grounded();
    let bytes = emit_turtle(&m.catalog, &m.schema, &m.table, &g).unwrap();
    assert!(!bytes.is_empty(), "Turtle output must not be empty");
}

#[test]
fn turtle_has_bfo_types() {
    let (m, g) = grounded();
    let bytes = emit_turtle(&m.catalog, &m.schema, &m.table, &g).unwrap();
    let text = String::from_utf8(bytes).unwrap();
    for elem in &g {
        assert!(text.contains(&to_fragment(&elem.name)), "element '{}' must appear in Turtle", elem.name);
    }
    assert!(text.contains("BFO_"), "Turtle must contain at least one BFO_ class IRI");
}

#[test]
fn turtle_individual_count() {
    let (m, g) = grounded();
    let expected = g.len();
    let bytes = emit_turtle(&m.catalog, &m.schema, &m.table, &g).unwrap();
    let text = String::from_utf8(bytes).unwrap();
    let mut found = 0;
    for elem in &g {
        if text.contains(&to_fragment(&elem.name)) {
            found += 1;
        }
    }
    assert_eq!(found, expected, "Expected {expected} individuals in Turtle, found {found}");
}

#[test]
fn turtle_parses_cleanly() {
    let (m, g) = grounded();
    let bytes = emit_turtle(&m.catalog, &m.schema, &m.table, &g).unwrap();
    let mut parser = oxttl::TurtleParser::new().for_slice(&bytes);
    let mut count = 0usize;
    while let Some(result) = parser.next() {
        result.expect("Turtle triple must parse without error");
        count += 1;
    }
    assert!(count > 0, "Must parse at least one triple");
}

#[test]
fn owlxml_has_bfo_import() {
    let (m, g) = grounded();
    let xml = emit_owlxml(&m.catalog, &m.schema, &m.table, &g).unwrap();
    assert!(xml.contains(BFO_ONTOLOGY_IRI), "OWL/XML must contain owl:imports of BFO ontology IRI");
    assert!(xml.contains("<Import>"), "OWL/XML must contain an <Import> element");
}

#[test]
fn owlxml_is_valid_xml() {
    let (m, g) = grounded();
    let xml = emit_owlxml(&m.catalog, &m.schema, &m.table, &g).unwrap();
    assert!(xml.starts_with("<?xml"), "Must start with XML declaration");
    assert!(xml.contains("<Ontology"), "Must contain <Ontology>");
    assert!(xml.ends_with("</Ontology>\n"), "Must end with </Ontology>");
}

#[test]
fn rdf_iris_match_annotate_iris() {
    assert_eq!(RDF_PHILOSOPHICAL_GROUNDING_IRI, annotate::PHILOSOPHICAL_GROUNDING_IRI, "philosophicalGrounding IRI must match annotate module");
    assert_eq!(RDF_DOMAIN_MODULE_IRI, annotate::DOMAIN_MODULE_IRI, "domainModule IRI must match annotate module");
    assert_eq!(RDF_ARISTOTELIAN_DEFINITION_IRI, annotate::ARISTOTELIAN_DEFINITION_IRI, "aristotelianDefinition IRI must match annotate module");
}

#[test]
fn turtle_is_idempotent() {
    let (m, g) = grounded();
    let bytes1 = emit_turtle(&m.catalog, &m.schema, &m.table, &g).unwrap();
    let bytes2 = emit_turtle(&m.catalog, &m.schema, &m.table, &g).unwrap();
    assert_eq!(bytes1, bytes2, "emit_turtle must be deterministic");
}

#[test]
fn turtle_declares_prefixes_and_ontology() {
    let (m, g) = grounded();
    let text = String::from_utf8(emit_turtle(&m.catalog, &m.schema, &m.table, &g).unwrap()).unwrap();
    assert!(text.contains("@prefix model: <https://atscale.example/sales_catalog/sales_schema/sales_model/>"));
    assert!(text.contains("@prefix obo: <http://purl.obolibrary.org/obo/>"));
    assert!(text.contains("owl:imports obo:bfo.owl") || text.contains("<http://purl.obolibrary.org/obo/bfo.owl>"));
    assert!(text.contains("FinancialProcess"));
    assert!(text.contains("revenue in the context of sales_catalog.sales_schema.sales_model"));
}

#[test]
fn turtle_rejects_an_invalid_iri() {
    let (_m, g) = grounded();
    let err = emit_turtle("bad catalog", "s", "t", &g).unwrap_err();
    assert_eq!(
        err,
        RdfError::InvalidIri {
            iri: "https://atscale.example/bad catalog/s/t/".to_string(),
            message: "Invalid IRI code point ' '".to_string(),
        }
    );
}

#[test]
fn owlxml_element_axioms_exact() {
    let mapper = Mapper::new();
    let mut m = sales_model();
    m.columns = vec![column("a<b", "measure")];
    m.column_groups = vec![];
    let g = mapper.ground_model(&m).unwrap();
    let xml = emit_owlxml("c", "s", "t", &g).unwrap();
    let iri = "https://atscale.example/c/s/t#a%3Cb";
    assert!(xml.contains(&format!("  <Declaration><NamedIndividual IRI=\"{iri}\"/></Declaration>\n")));
    assert!(xml.contains("    <Literal>a&lt;b</Literal>\n"));
    assert!(xml.contains("    <Literal>a&lt;b in the context of c.s.t</Literal>\n"));
    assert!(xml.contains("    <Class IRI=\"http://purl.obolibrary.org/obo/BFO_0000031\"/>\n"));
    assert_eq!(xml.matches("<NamedIndividual IRI=").count(), 2);
}

#[test]
fn fragments_and_escapes_exact() {
    assert_eq!(to_fragment("net sales\tq#1"), "net%20sales%09q%231");
    assert_eq!(to_fragment("order date"), "order%20date");
    assert_eq!(to_fragment("a{b}|c\\d^e`f\"g>"), "a%7Bb%7D%7Cc%5Cd%5Ee%60f%22g%3E");
    assert_eq!(xml_escape("<a & 'b' \"c\">"), "&lt;a &amp; &apos;b&apos; &quot;c&quot;&gt;");
    assert_eq!(model_iri("c", "s", "t"), "https://atscale.example/c/s/t");
    assert_eq!(element_iri("c", "s", "t", "x y"), "https://atscale.example/c/s/t#x%20y");
}

fn one_element(name: &str, ty: &str) -> Vec<GroundedElement> {
    let mut m = sales_model();
    m.columns = vec![column(name, ty)];
    m.column_groups = vec![];
    Mapper::new().ground_model(&m).unwrap()
}

/// Every '&' starts one of the five predefined XML entities.
fn ampersands_are_entities(xml: &str) -> bool {
    let entities = ["&amp;", "&lt;", "&gt;", "&quot;", "&apos;"];
    xml.match_indices('&').all(|(i, _)| entities.iter().any(|e| xml[i..].starts_with(e)))
}

#[test]
fn owlxml_escapes_iris_in_attributes() {
    let g = one_element("P&L", "measure");
    let xml = emit_owlxml("c", "s", "t", &g).unwrap();
    assert!(ampersands_are_entities(&xml));
    assert!(xml.contains("<Literal>P&amp;L</Literal>"));
    assert!(xml.contains("<Literal>P&amp;L in the context of c.s.t</Literal>"));
    assert!(xml.contains("<NamedIndividual IRI=\"https://atscale.example/c/s/t#P&amp;L\"/>"));
    assert!(xml.contains("<IRI>https://atscale.example/c/s/t#P&amp;L</IRI>"));
    assert!(!xml.contains("P&L"));
}

#[test]
fn owlxml_escapes_the_ontology_iri() {
    let xml = emit_owlxml("a&b", "s", "t", &[]).unwrap();
    assert!(ampersands_are_entities(&xml));
    assert!(xml.contains("ontologyIRI=\"https://atscale.example/a&amp;b/s/t\">"));
}

#[test]
fn owlxml_of_the_sales_model_is_escaped() {
    let (m, g) = grounded();
    let xml = emit_owlxml(&m.catalog, &m.schema, &m.table, &g).unwrap();
    assert!(ampersands_are_entities(&xml));
    assert_eq!(xml.matches("<ClassAssertion>").count(), g.len());
}

#[test]
fn turtle_percent_encodes_spaces() {
    let g = one_element("order date", "date");
    assert_eq!(g[0].bfo_iri, "http://purl.obolibrary.org/obo/BFO_0000008");
    let text = String::from_utf8(emit_turtle("c", "s", "t", &g).unwrap()).unwrap();
    assert!(text.contains("<https://atscale.example/c/s/t#order%20date>"));
    assert!(text.contains("\"order date\""));
    assert!(text.contains("\"order date in the context of c.s.t\""));
    assert!(text.contains("\"TemporalRegion\""));
    assert!(!text.contains("order_date"));
}

#[test]
fn escaped_text_holds_no_markup() {
    let e = xml_escape("<a href=\"x\">'q' & r</a>");
    assert!(!e.contains('<') && !e.contains('>') && !e.contains('"') && !e.contains('\''));
    assert!(ampersands_are_entities(&e));
}

#[test]
fn overlay_and_owlxml_agree() {
    let (m, g) = grounded();
    let xml = emit_owlxml(&m.catalog, &m.schema, &m.table, &g).unwrap();
    let overlay = annotate::GroundedOverlay::build(&m.catalog, &m.schema, &m.table, &g);
    assert_eq!(overlay.annotations.len(), g.len());
    for i in 0..overlay.annotations.len() {
        let name = overlay.annotations.name_at(i);
        let ann = overlay.annotations.annotation_at(i);
        let iri = xml_escape(&element_iri(&m.catalog, &m.schema, &m.table, name));
        for (prop, value) in [
            (RDF_PHILOSOPHICAL_GROUNDING_IRI, &ann.philosophical_grounding.iri),
            (RDF_DOMAIN_MODULE_IRI, &ann.domain_module),
            (RDF_ARISTOTELIAN_DEFINITION_IRI, &ann.aristotelian_definition.differentia),
        ] {
            let assertion = format!(
                "  <AnnotationAssertion>\n    <AnnotationProperty IRI=\"{prop}\"/>\n    <IRI>{iri}</IRI>\n    <Literal>{}</Literal>\n  </AnnotationAssertion>\n",
                xml_escape(value)
            );
            assert!(xml.contains(&assertion), "missing {assertion}");
        }
    }
}

#[test]
fn owlxml_header_names_the_ontology_and_imports_bfo() {
    let xml = emit_owlxml("c", "s", "t", &[]).unwrap();
    assert!(xml.contains("          ontologyIRI=\"https://atscale.example/c/s/t\">\n"));
    assert!(xml.contains("  <Import>http://purl.obolibrary.org/obo/bfo.owl</Import>\n"));
    for prop in [RDF_PHILOSOPHICAL_GROUNDING_IRI, RDF_DOMAIN_MODULE_IRI, RDF_ARISTOTELIAN_DEFINITION_IRI] {
        assert!(xml.contains(&format!("  <Declaration><AnnotationProperty IRI=\"{prop}\"/></Declaration>\n")));
    }
}

#[test]
fn turtle_types_one_individual_per_element() {
    let (m, g) = grounded();
    let text = String::from_utf8(emit_turtle(&m.catalog, &m.schema, &m.table, &g).unwrap()).unwrap();
    assert_eq!(text.matches("owl:NamedIndividual").count(), g.len());
}
