//! RDF export: a grounded model as OWL/XML or Turtle.
//!
//! Each model element becomes an OWL named individual typed to its BFO class
//! and annotated with the paper's vocabulary, using the same property IRIs as
//! the JSON overlay. IRIs follow the scheme
//! `https://atscale.example/<catalog>/<schema>/<table>#<element-name>`; the
//! model itself is the ontology at the base IRI.
use crate::annotate::{
    differentia, differentia_text, domain_module, infer_domain_module, ARISTOTELIAN_DEFINITION_IRI,
    DOMAIN_MODULE_IRI, PHILOSOPHICAL_GROUNDING_IRI,
};
use crate::mapper::GroundedElement;
use crate::text::{lowercase, occurs_at, owned, push_char, seq_contains};
use vstd::prelude::*;

pub use crate::turtle::emit_turtle;

verus! {

/// The `philosophicalGrounding` property IRI used in the RDF output.
pub const RDF_PHILOSOPHICAL_GROUNDING_IRI: &'static str = PHILOSOPHICAL_GROUNDING_IRI;

/// The `domainModule` property IRI used in the RDF output.
pub const RDF_DOMAIN_MODULE_IRI: &'static str = DOMAIN_MODULE_IRI;

/// The `aristotelianDefinition` property IRI used in the RDF output.
pub const RDF_ARISTOTELIAN_DEFINITION_IRI: &'static str = ARISTOTELIAN_DEFINITION_IRI;

/// The BFO ontology, imported by every export.
pub const BFO_ONTOLOGY_IRI: &'static str = "http://purl.obolibrary.org/obo/bfo.owl";

pub const RDF_TYPE: &'static str = "http://www.w3.org/1999/02/22-rdf-syntax-ns#type";

pub const OWL_NAMED_INDIVIDUAL: &'static str = "http://www.w3.org/2002/07/owl#NamedIndividual";

pub const OWL_ONTOLOGY: &'static str = "http://www.w3.org/2002/07/owl#Ontology";

pub const OWL_IMPORTS: &'static str = "http://www.w3.org/2002/07/owl#imports";

pub const RDFS_LABEL: &'static str = "http://www.w3.org/2000/01/rdf-schema#label";

pub const OBO_PREFIX: &'static str = "http://purl.obolibrary.org/obo/";

/// The hexadecimal digit for `d` (`0 <= d < 16`), upper case.
pub open spec fn hex_digit(d: int) -> char {
    if d < 10 {
        (d + 48) as char
    } else {
        (d + 55) as char
    }
}

/// Characters that are percent-encoded in an IRI fragment: blanks and the
/// characters that IRIs do not allow.
pub open spec fn is_iri_unsafe(c: char) -> bool {
    c == ' ' || c == '\t' || c == '#' || c == '<' || c == '>' || c == '"' || c == '{' || c == '}' || c == '|' || c == '\\'
        || c == '^' || c == '`'
}

/// How one character of an element name appears in an IRI fragment.
pub open spec fn fragment_char(c: char) -> Seq<char> {
    if is_iri_unsafe(c) {
        seq!['%', hex_digit((c as int) / 16), hex_digit((c as int) % 16)]
    } else {
        seq![c]
    }
}

/// The IRI fragment of an element name: blanks and the characters that are
/// unsafe in IRIs are percent-encoded, the rest is kept.
pub open spec fn fragment(s: Seq<char>) -> Seq<char>
    decreases s.len(),
{
    if s.len() == 0 {
        Seq::empty()
    } else {
        fragment(s.drop_last()) + fragment_char(s.last())
    }
}

/// The XML escape of one character.
pub open spec fn xml_char(c: char) -> Seq<char> {
    if c == '&' {
        "&amp;"@
    } else if c == '<' {
        "&lt;"@
    } else if c == '>' {
        "&gt;"@
    } else if c == '"' {
        "&quot;"@
    } else if c == '\'' {
        "&apos;"@
    } else {
        seq![c]
    }
}

/// `s` with the five XML special characters escaped.
pub open spec fn xml_escaped(s: Seq<char>) -> Seq<char>
    decreases s.len(),
{
    if s.len() == 0 {
        Seq::empty()
    } else {
        xml_escaped(s.drop_last()) + xml_char(s.last())
    }
}

/// The IRI of the model `catalog.schema.table`.
pub open spec fn model_iri_of(catalog: Seq<char>, schema: Seq<char>, table: Seq<char>) -> Seq<char> {
    "https://atscale.example/"@ + catalog + "/"@ + schema + "/"@ + table
}

/// The IRI of element `name` of the model `catalog.schema.table`.
pub open spec fn element_iri_of(catalog: Seq<char>, schema: Seq<char>, table: Seq<char>, name: Seq<char>) -> Seq<char> {
    model_iri_of(catalog, schema, table) + "#"@ + fragment(name)
}

fn hex(d: u32) -> (c: char)
    requires
        d < 16,
    ensures
        c == hex_digit(d as int),
{
    if d < 10 {
        let b: u8 = d as u8 + 48;
        b as char
    } else {
        let b: u8 = d as u8 + 55;
        b as char
    }
}

/// The IRI fragment of an element name.
pub fn to_fragment(name: &str) -> (r: String)
    ensures
        r@ == fragment(name@),
{
    let mut out = String::new();
    let n = name.unicode_len();
    for i in 0..n
        invariant
            n == name@.len(),
            out@ == fragment(name@.take(i as int)),
    {
        let ch = name.get_char(i);
        proof {
            assert(name@.take(i + 1).drop_last() =~= name@.take(i as int));
        }
        let ghost before = out@;
        if ch == ' ' || ch == '\t' || ch == '#' || ch == '<' || ch == '>' || ch == '"' || ch == '{' || ch == '}' || ch
            == '|' || ch == '\\' || ch == '^' || ch == '`' {
            let code = ch as u32;
            push_char(&mut out, '%');
            push_char(&mut out, hex(code / 16));
            push_char(&mut out, hex(code % 16));
        } else {
            push_char(&mut out, ch);
        }
        proof {
            assert(out@ =~= before + fragment_char(ch));
        }
    }
    proof {
        assert(name@.take(n as int) =~= name@);
    }
    out
}

/// Minimal XML character escape.
pub fn xml_escape(s: &str) -> (r: String)
    ensures
        r@ == xml_escaped(s@),
{
    let mut out = String::new();
    let n = s.unicode_len();
    for i in 0..n
        invariant
            n == s@.len(),
            out@ == xml_escaped(s@.take(i as int)),
    {
        let ch = s.get_char(i);
        proof {
            assert(s@.take(i + 1).drop_last() =~= s@.take(i as int));
        }
        let ghost before = out@;
        if ch == '&' {
            out.append("&amp;");
        } else if ch == '<' {
            out.append("&lt;");
        } else if ch == '>' {
            out.append("&gt;");
        } else if ch == '"' {
            out.append("&quot;");
        } else if ch == '\'' {
            out.append("&apos;");
        } else {
            push_char(&mut out, ch);
        }
        proof {
            assert(out@ =~= before + xml_char(ch));
        }
    }
    proof {
        assert(s@.take(n as int) =~= s@);
    }
    out
}

/// The IRI of the model `catalog.schema.table`.
pub fn model_iri(catalog: &str, schema: &str, table: &str) -> (r: String)
    ensures
        r@ == model_iri_of(catalog@, schema@, table@),
{
    let mut r = owned("https://atscale.example/");
    r.append(catalog);
    r.append("/");
    r.append(schema);
    r.append("/");
    r.append(table);
    r
}

/// The IRI of element `name` of the model `catalog.schema.table`.
pub fn element_iri(catalog: &str, schema: &str, table: &str, name: &str) -> (r: String)
    ensures
        r@ == element_iri_of(catalog@, schema@, table@, name@),
{
    let mut r = model_iri(catalog, schema, table);
    r.append("#");
    r.append(to_fragment(name).as_str());
    r
}

/// The opening of an OWL/XML document for the ontology `ont_iri`: the XML
/// declaration, the namespaces, the import of BFO and the declarations of the
/// three annotation properties. The IRI is XML-escaped in its attribute.
pub open spec fn owl_header(ont_iri: Seq<char>) -> Seq<char> {
    "<?xml version=\"1.0\" encoding=\"UTF-8\"?>\n"@
        + "<Ontology xmlns=\"http://www.w3.org/2002/07/owl#\"\n"@
        + "          xmlns:rdf=\"http://www.w3.org/1999/02/22-rdf-syntax-ns#\"\n"@
        + "          xmlns:rdfs=\"http://www.w3.org/2000/01/rdf-schema#\"\n"@
        + "          xmlns:xsd=\"http://www.w3.org/2001/XMLSchema#\"\n"@
        + "          ontologyIRI=\""@ + xml_escaped(ont_iri) + "\">\n"@
        + "  <Import>"@ + BFO_ONTOLOGY_IRI@ + "</Import>\n"@
        + "  <Declaration><AnnotationProperty IRI=\""@ + PHILOSOPHICAL_GROUNDING_IRI@ + "\"/></Declaration>\n"@
        + "  <Declaration><AnnotationProperty IRI=\""@ + DOMAIN_MODULE_IRI@ + "\"/></Declaration>\n"@
        + "  <Declaration><AnnotationProperty IRI=\""@ + ARISTOTELIAN_DEFINITION_IRI@ + "\"/></Declaration>\n"@
}

/// An annotation assertion of property `prop` on `subject` with literal `value`
/// (already escaped).
pub open spec fn owl_annotation(prop: Seq<char>, subject: Seq<char>, value: Seq<char>) -> Seq<char> {
    "  <AnnotationAssertion>\n    <AnnotationProperty IRI=\""@ + prop + "\"/>\n    <IRI>"@ + subject
        + "</IRI>\n    <Literal>"@ + value + "</Literal>\n  </AnnotationAssertion>\n"@
}

/// The first axioms of one grounded element: its declaration as a named
/// individual, the assertion of its BFO class and its label. Every IRI and
/// literal is XML-escaped where it is written.
pub open spec fn owl_element_head(catalog: Seq<char>, schema: Seq<char>, table: Seq<char>, g: GroundedElement) -> Seq<char> {
    let iri = xml_escaped(element_iri_of(catalog, schema, table, g.name@));
    "  <Declaration><NamedIndividual IRI=\""@ + iri + "\"/></Declaration>\n"@
        + "  <ClassAssertion>\n    <Class IRI=\""@ + xml_escaped(g.bfo_iri@) + "\"/>\n    <NamedIndividual IRI=\""@ + iri
        + "\"/>\n  </ClassAssertion>\n"@
        + "  <AnnotationAssertion>\n    <AnnotationProperty abbreviatedIRI=\"rdfs:label\"/>\n    <IRI>"@ + iri
        + "</IRI>\n    <Literal>"@ + xml_escaped(g.name@) + "</Literal>\n  </AnnotationAssertion>\n"@
}

/// The axioms of one grounded element: its declaration, class and label, then
/// its three annotations (grounding IRI, domain module, definition).
pub open spec fn owl_element(catalog: Seq<char>, schema: Seq<char>, table: Seq<char>, g: GroundedElement) -> Seq<char> {
    let iri = xml_escaped(element_iri_of(catalog, schema, table, g.name@));
    owl_element_head(catalog, schema, table, g)
        + owl_annotation(PHILOSOPHICAL_GROUNDING_IRI@, iri, xml_escaped(g.bfo_iri@))
        + owl_annotation(DOMAIN_MODULE_IRI@, iri, xml_escaped(domain_module(lowercase(g.name@))))
        + owl_annotation(ARISTOTELIAN_DEFINITION_IRI@, iri, xml_escaped(differentia(g.name@, catalog, schema, table)))
}

/// The axioms of the grounded elements, in order.
pub open spec fn owl_elements(catalog: Seq<char>, schema: Seq<char>, table: Seq<char>, gs: Seq<GroundedElement>) -> Seq<char>
    decreases gs.len(),
{
    if gs.len() == 0 {
        Seq::empty()
    } else {
        owl_elements(catalog, schema, table, gs.drop_last()) + owl_element(catalog, schema, table, gs.last())
    }
}

/// The OWL/XML document of the grounded model `catalog.schema.table`.
pub open spec fn owl_document(catalog: Seq<char>, schema: Seq<char>, table: Seq<char>, gs: Seq<GroundedElement>) -> Seq<char> {
    owl_header(model_iri_of(catalog, schema, table)) + owl_elements(catalog, schema, table, gs) + "</Ontology>\n"@
}

fn push_annotation(out: &mut String, prop: &str, subject: &str, value: &str)
    ensures
        final(out)@ == old(out)@ + owl_annotation(prop@, subject@, value@),
{
    out.append("  <AnnotationAssertion>\n    <AnnotationProperty IRI=\"");
    out.append(prop);
    out.append("\"/>\n    <IRI>");
    out.append(subject);
    out.append("</IRI>\n    <Literal>");
    out.append(value);
    out.append("</Literal>\n  </AnnotationAssertion>\n");
}

fn push_element(out: &mut String, catalog: &str, schema: &str, table: &str, elem: &GroundedElement)
    ensures
        final(out)@ == old(out)@ + owl_element(catalog@, schema@, table@, *elem),
{
    let elem_iri = xml_escape(element_iri(catalog, schema, table, elem.name.as_str()).as_str());
    let iri = elem_iri.as_str();
    let class = xml_escape(elem.bfo_iri.as_str());
    let domain = infer_domain_module(elem.name.as_str());
    let aristo = xml_escape(differentia_text(elem.name.as_str(), catalog, schema, table).as_str());
    let name_esc = xml_escape(elem.name.as_str());
    out.append("  <Declaration><NamedIndividual IRI=\"");
    out.append(iri);
    out.append("\"/></Declaration>\n");
    out.append("  <ClassAssertion>\n    <Class IRI=\"");
    out.append(class.as_str());
    out.append("\"/>\n    <NamedIndividual IRI=\"");
    out.append(iri);
    out.append("\"/>\n  </ClassAssertion>\n");
    out.append("  <AnnotationAssertion>\n    <AnnotationProperty abbreviatedIRI=\"rdfs:label\"/>\n    <IRI>");
    out.append(iri);
    out.append("</IRI>\n    <Literal>");
    out.append(name_esc.as_str());
    out.append("</Literal>\n  </AnnotationAssertion>\n");
    push_annotation(out, PHILOSOPHICAL_GROUNDING_IRI, iri, class.as_str());
    push_annotation(out, DOMAIN_MODULE_IRI, iri, xml_escape(domain.as_str()).as_str());
    push_annotation(out, ARISTOTELIAN_DEFINITION_IRI, iri, aristo.as_str());
    proof {
        assert(final(out)@ =~= old(out)@ + owl_element(catalog@, schema@, table@, *elem));
    }
}

proof fn lemma_concat_assoc(a: Seq<char>, b: Seq<char>, c: Seq<char>)
    ensures
        a + b + c == a + (b + c),
{
    assert(a + b + c =~= a + (b + c));
}

proof fn lemma_owl_elements_step(catalog: Seq<char>, schema: Seq<char>, table: Seq<char>, gs: Seq<GroundedElement>, i: int)
    requires
        0 <= i < gs.len(),
    ensures
        owl_elements(catalog, schema, table, gs.take(i + 1)) == owl_elements(catalog, schema, table, gs.take(i))
            + owl_element(catalog, schema, table, gs[i]),
{
    assert(gs.take(i + 1).drop_last() =~= gs.take(i));
}

/// Emit the grounded model as OWL/XML. It never fails; the `Result` keeps the
/// signature alike to `emit_turtle`.
#[verifier::spinoff_prover]
pub fn emit_owlxml(catalog: &str, schema: &str, table: &str, grounded: &[GroundedElement]) -> (r: Result<String, RdfError>)
    ensures
        r matches Ok(s) && s@ == owl_document(catalog@, schema@, table@, grounded@),
{
    let ont_iri = model_iri(catalog, schema, table);
    let mut out = String::new();
    out.append("<?xml version=\"1.0\" encoding=\"UTF-8\"?>\n");
    out.append("<Ontology xmlns=\"http://www.w3.org/2002/07/owl#\"\n");
    out.append("          xmlns:rdf=\"http://www.w3.org/1999/02/22-rdf-syntax-ns#\"\n");
    out.append("          xmlns:rdfs=\"http://www.w3.org/2000/01/rdf-schema#\"\n");
    out.append("          xmlns:xsd=\"http://www.w3.org/2001/XMLSchema#\"\n");
    out.append("          ontologyIRI=\"");
    out.append(xml_escape(ont_iri.as_str()).as_str());
    out.append("\">\n");
    out.append("  <Import>");
    out.append(BFO_ONTOLOGY_IRI);
    out.append("</Import>\n");
    out.append("  <Declaration><AnnotationProperty IRI=\"");
    out.append(PHILOSOPHICAL_GROUNDING_IRI);
    out.append("\"/></Declaration>\n");
    out.append("  <Declaration><AnnotationProperty IRI=\"");
    out.append(DOMAIN_MODULE_IRI);
    out.append("\"/></Declaration>\n");
    out.append("  <Declaration><AnnotationProperty IRI=\"");
    out.append(ARISTOTELIAN_DEFINITION_IRI);
    out.append("\"/></Declaration>\n");
    let ghost header = out@;
    proof {
        assert(header =~= owl_header(ont_iri@));
    }
    let n = grounded.len();
    for i in 0..n
        invariant
            n == grounded@.len(),
            out@ == header + owl_elements(catalog@, schema@, table@, grounded@.take(i as int)),
    {
        push_element(&mut out, catalog, schema, table, &grounded[i]);
        proof {
            lemma_owl_elements_step(catalog@, schema@, table@, grounded@, i as int);
            lemma_concat_assoc(
                header,
                owl_elements(catalog@, schema@, table@, grounded@.take(i as int)),
                owl_element(catalog@, schema@, table@, grounded@[i as int]),
            );
        }
    }
    out.append("</Ontology>\n");
    proof {
        assert(grounded@.take(n as int) =~= grounded@);
        assert(out@ =~= owl_document(catalog@, schema@, table@, grounded@));
    }
    Ok(out)
}

/// The RDF export and the JSON overlay use the same annotation property IRIs.
pub proof fn lemma_rdf_iris_match()
    ensures
        RDF_PHILOSOPHICAL_GROUNDING_IRI@ == PHILOSOPHICAL_GROUNDING_IRI@,
        RDF_DOMAIN_MODULE_IRI@ == DOMAIN_MODULE_IRI@,
        RDF_ARISTOTELIAN_DEFINITION_IRI@ == ARISTOTELIAN_DEFINITION_IRI@,
{
}

/// An OWL/XML export starts with the XML declaration and ends with the
/// closing `</Ontology>` tag and a newline.
pub proof fn lemma_owl_document_shape(catalog: Seq<char>, schema: Seq<char>, table: Seq<char>, gs: Seq<GroundedElement>)
    ensures
        owl_document(catalog, schema, table, gs).len() >= 5 + 12,
        owl_document(catalog, schema, table, gs).subrange(0, 5) == "<?xml"@,
        owl_document(catalog, schema, table, gs).subrange(
            owl_document(catalog, schema, table, gs).len() - 12,
            owl_document(catalog, schema, table, gs).len() as int,
        ) == "</Ontology>\n"@,
{
    reveal_strlit("<?xml version=\"1.0\" encoding=\"UTF-8\"?>\n");
    reveal_strlit("<?xml");
    reveal_strlit("</Ontology>\n");
    let d = owl_document(catalog, schema, table, gs);
    let first = "<?xml version=\"1.0\" encoding=\"UTF-8\"?>\n"@;
    let h = owl_header(model_iri_of(catalog, schema, table));
    let rest = h.subrange(first.len() as int, h.len() as int);
    assert(h =~= first + rest);
    let body = owl_elements(catalog, schema, table, gs);
    let close = "</Ontology>\n"@;
    assert(d == h + body + close);
    assert(d.subrange(0, 5) =~= "<?xml"@);
    assert(d.subrange(d.len() - 12, d.len() as int) =~= close);
}

/// The OWL/XML axioms of an element carry, XML-escaped, the values of its
/// overlay annotation: its grounding IRI, domain module and definition, under
/// the overlay's property IRIs.
pub proof fn lemma_owl_matches_overlay(
    ann: crate::annotate::ElementAnnotation,
    g: GroundedElement,
    catalog: Seq<char>,
    schema: Seq<char>,
    table: Seq<char>,
)
    requires
        crate::annotate::annotates(ann, g, catalog, schema, table),
    ensures
        owl_element(catalog, schema, table, g) == owl_element_head(catalog, schema, table, g)
            + owl_annotation(
                PHILOSOPHICAL_GROUNDING_IRI@,
                xml_escaped(element_iri_of(catalog, schema, table, g.name@)),
                xml_escaped(ann.philosophical_grounding.iri@),
            )
            + owl_annotation(
                DOMAIN_MODULE_IRI@,
                xml_escaped(element_iri_of(catalog, schema, table, g.name@)),
                xml_escaped(ann.domain_module@),
            )
            + owl_annotation(
                ARISTOTELIAN_DEFINITION_IRI@,
                xml_escaped(element_iri_of(catalog, schema, table, g.name@)),
                xml_escaped(ann.aristotelian_definition.differentia@),
            ),
{
}

/// XML-escaped text holds none of the characters that end an attribute value
/// or open and close a tag: it can stand between quotes and between tags.
pub proof fn lemma_xml_escaped_has_no_markup(s: Seq<char>)
    ensures
        forall|i: int| 0 <= i < xml_escaped(s).len() ==> {
            let c = #[trigger] xml_escaped(s)[i];
            c != '<' && c != '>' && c != '"' && c != '\''
        },
    decreases s.len(),
{
    reveal_strlit("&amp;");
    reveal_strlit("&lt;");
    reveal_strlit("&gt;");
    reveal_strlit("&quot;");
    reveal_strlit("&apos;");
    if s.len() > 0 {
        let pre = xml_escaped(s.drop_last());
        let last = xml_char(s.last());
        lemma_xml_escaped_has_no_markup(s.drop_last());
        assert forall|i: int| 0 <= i < xml_escaped(s).len() implies {
            let c = #[trigger] xml_escaped(s)[i];
            c != '<' && c != '>' && c != '"' && c != '\''
        } by {
            if i < pre.len() {
                assert(xml_escaped(s)[i] == pre[i]);
            } else {
                assert(xml_escaped(s)[i] == last[i - pre.len()]);
            }
        }
    }
}

proof fn lemma_drop_last_concat(a: Seq<GroundedElement>, b: Seq<GroundedElement>)
    requires
        b.len() > 0,
    ensures
        (a + b).drop_last() == a + b.drop_last(),
        (a + b).last() == b.last(),
{
    assert((a + b).drop_last() =~= a + b.drop_last());
}

#[verifier::spinoff_prover]
proof fn lemma_owl_elements_concat(
    catalog: Seq<char>,
    schema: Seq<char>,
    table: Seq<char>,
    a: Seq<GroundedElement>,
    b: Seq<GroundedElement>,
)
    ensures
        owl_elements(catalog, schema, table, a + b) == owl_elements(catalog, schema, table, a) + owl_elements(
            catalog,
            schema,
            table,
            b,
        ),
    decreases b.len(),
{
    if b.len() == 0 {
        assert(a + b =~= a);
    } else {
        lemma_owl_elements_concat(catalog, schema, table, a, b.drop_last());
        lemma_drop_last_concat(a, b);
    }
}

/// The OWL/XML document holds the three annotations of an element's
/// individual, with `ann`'s values as their literals.
pub open spec fn holds_annotations(doc: Seq<char>, element_iri: Seq<char>, ann: crate::annotate::ElementAnnotation) -> bool {
    let iri = xml_escaped(element_iri);
    &&& seq_contains(doc, owl_annotation(PHILOSOPHICAL_GROUNDING_IRI@, iri, xml_escaped(ann.philosophical_grounding.iri@)))
    &&& seq_contains(doc, owl_annotation(DOMAIN_MODULE_IRI@, iri, xml_escaped(ann.domain_module@)))
    &&& seq_contains(doc, owl_annotation(ARISTOTELIAN_DEFINITION_IRI@, iri, xml_escaped(ann.aristotelian_definition.differentia@)))
}

/// Some overlay entry for `g`'s name has its annotations in `doc`.
pub open spec fn overlay_entry_in(
    doc: Seq<char>,
    v: Seq<(Seq<char>, crate::annotate::ElementAnnotation)>,
    g: GroundedElement,
    catalog: Seq<char>,
    schema: Seq<char>,
    table: Seq<char>,
) -> bool {
    exists|i: int|
        0 <= i < v.len() && (#[trigger] v[i]).0 == g.name@ && holds_annotations(
            doc,
            element_iri_of(catalog, schema, table, g.name@),
            v[i].1,
        )
}

proof fn lemma_regroup(a: Seq<char>, b: Seq<char>, c: Seq<char>, d: Seq<char>, f: Seq<char>)
    ensures
        a + (b + c + d) + f == (a + b) + c + (d + f),
{
    assert(a + (b + c + d) + f =~= (a + b) + c + (d + f));
}

proof fn lemma_parts_occur(x: Seq<char>, e: Seq<char>, y: Seq<char>, head: Seq<char>, p1: Seq<char>, p2: Seq<char>, p3: Seq<char>)
    requires
        e == head + p1 + p2 + p3,
    ensures
        seq_contains(x + e + y, p1),
        seq_contains(x + e + y, p2),
        seq_contains(x + e + y, p3),
{
    let d = x + e + y;
    let o1: int = x.len() as int + head.len();
    let o2: int = o1 + p1.len();
    let o3: int = o2 + p2.len();
    assert(d.subrange(o1, o2) =~= p1);
    assert(occurs_at(d, p1, o1));
    assert(d.subrange(o2, o3) =~= p2);
    assert(occurs_at(d, p2, o2));
    assert(d.subrange(o3, o3 + p3.len()) =~= p3);
    assert(occurs_at(d, p3, o3));
}

#[verifier::spinoff_prover]
proof fn lemma_owl_holds_element(
    gs: Seq<GroundedElement>,
    j: int,
    ann: crate::annotate::ElementAnnotation,
    catalog: Seq<char>,
    schema: Seq<char>,
    table: Seq<char>,
)
    requires
        0 <= j < gs.len(),
        crate::annotate::annotates(ann, gs[j], catalog, schema, table),
    ensures
        holds_annotations(owl_document(catalog, schema, table, gs), element_iri_of(catalog, schema, table, gs[j].name@), ann),
{
    let g = gs[j];
    lemma_owl_matches_overlay(ann, g, catalog, schema, table);
    let pre = gs.take(j);
    let post = gs.skip(j + 1);
    assert(gs == pre + seq![g] + post);
    lemma_owl_elements_concat(catalog, schema, table, pre + seq![g], post);
    lemma_owl_elements_concat(catalog, schema, table, pre, seq![g]);
    assert(owl_elements(catalog, schema, table, seq![g]) == owl_element(catalog, schema, table, g)) by {
        assert(seq![g].drop_last() =~= Seq::<GroundedElement>::empty());
        assert(seq![g].last() == g);
        assert(owl_elements(catalog, schema, table, Seq::<GroundedElement>::empty()) =~= Seq::<char>::empty());
        assert(owl_elements(catalog, schema, table, Seq::<GroundedElement>::empty()) + owl_element(catalog, schema, table, g)
            =~= owl_element(catalog, schema, table, g));
    }
    let hdr = owl_header(model_iri_of(catalog, schema, table));
    let e_pre = owl_elements(catalog, schema, table, pre);
    let e = owl_element(catalog, schema, table, g);
    let e_post = owl_elements(catalog, schema, table, post);
    let close = "</Ontology>\n"@;
    assert(owl_document(catalog, schema, table, gs) == hdr + (e_pre + e + e_post) + close);
    lemma_regroup(hdr, e_pre, e, e_post, close);
    let iri = xml_escaped(element_iri_of(catalog, schema, table, g.name@));
    lemma_parts_occur(
        hdr + e_pre,
        e,
        e_post + close,
        owl_element_head(catalog, schema, table, g),
        owl_annotation(PHILOSOPHICAL_GROUNDING_IRI@, iri, xml_escaped(ann.philosophical_grounding.iri@)),
        owl_annotation(DOMAIN_MODULE_IRI@, iri, xml_escaped(ann.domain_module@)),
        owl_annotation(ARISTOTELIAN_DEFINITION_IRI@, iri, xml_escaped(ann.aristotelian_definition.differentia@)),
    );
}

/// The JSON overlay and the OWL/XML export agree: where the element names are
/// distinct, the OWL/XML document of the grounded elements holds, for each
/// element, annotation assertions on its individual whose literals are the
/// XML-escaped grounding IRI, domain module and definition of the overlay's
/// entry for that name.
#[verifier::spinoff_prover]
pub proof fn lemma_overlay_and_owl_agree(
    v: Seq<(Seq<char>, crate::annotate::ElementAnnotation)>,
    gs: Seq<GroundedElement>,
    catalog: Seq<char>,
    schema: Seq<char>,
    table: Seq<char>,
)
    requires
        crate::annotate::annotates_all(v, gs, catalog, schema, table),
        forall|a: int, b: int| 0 <= a < b < gs.len() ==> (#[trigger] gs[a]).name@ != (#[trigger] gs[b]).name@,
    ensures
        forall|j: int|
            0 <= j < gs.len() ==> #[trigger] overlay_entry_in(
                owl_document(catalog, schema, table, gs),
                v,
                gs[j],
                catalog,
                schema,
                table,
            ),
{
    let doc = owl_document(catalog, schema, table, gs);
    assert forall|j: int| 0 <= j < gs.len() implies #[trigger] overlay_entry_in(doc, v, gs[j], catalog, schema, table) by {
        let g = gs[j];
        let i = choose|i: int| 0 <= i < v.len() && v[i].0 == (#[trigger] gs[j]).name@;
        assert(crate::annotate::entry_backed(gs, v[i], catalog, schema, table));
        let jj = choose|jj: int| #[trigger] crate::annotate::is_last_named(gs, jj, v[i].0)
            && crate::annotate::annotates(v[i].1, gs[jj], catalog, schema, table);
        if jj != j {
            if jj < j {
                assert(gs[jj].name@ != gs[j].name@);
            } else {
                assert(gs[j].name@ != gs[jj].name@);
            }
        }
        lemma_owl_holds_element(gs, j, v[i].1, catalog, schema, table);
    }
}

proof fn lemma_occurs_mid(x: Seq<char>, p: Seq<char>, y: Seq<char>)
    ensures
        seq_contains(x + p + y, p),
{
    assert((x + p + y).subrange(x.len() as int, x.len() as int + p.len()) =~= p);
    assert(occurs_at(x + p + y, p, x.len() as int));
}

/// An OWL/XML export names its ontology by the model's IRI (XML-escaped),
/// imports BFO and declares the three annotation properties of the overlay.
#[verifier::rlimit(80)]
#[verifier::spinoff_prover]
pub proof fn lemma_owl_document_header(catalog: Seq<char>, schema: Seq<char>, table: Seq<char>, gs: Seq<GroundedElement>)
    ensures
        seq_contains(
            owl_document(catalog, schema, table, gs),
            "          ontologyIRI=\""@ + xml_escaped(model_iri_of(catalog, schema, table)) + "\">\n"@,
        ),
        seq_contains(owl_document(catalog, schema, table, gs), "  <Import>"@ + BFO_ONTOLOGY_IRI@ + "</Import>\n"@),
        seq_contains(
            owl_document(catalog, schema, table, gs),
            "  <Declaration><AnnotationProperty IRI=\""@ + PHILOSOPHICAL_GROUNDING_IRI@ + "\"/></Declaration>\n"@,
        ),
        seq_contains(
            owl_document(catalog, schema, table, gs),
            "  <Declaration><AnnotationProperty IRI=\""@ + DOMAIN_MODULE_IRI@ + "\"/></Declaration>\n"@,
        ),
        seq_contains(
            owl_document(catalog, schema, table, gs),
            "  <Declaration><AnnotationProperty IRI=\""@ + ARISTOTELIAN_DEFINITION_IRI@ + "\"/></Declaration>\n"@,
        ),
{
    let a = "<?xml version=\"1.0\" encoding=\"UTF-8\"?>\n"@
        + "<Ontology xmlns=\"http://www.w3.org/2002/07/owl#\"\n"@
        + "          xmlns:rdf=\"http://www.w3.org/1999/02/22-rdf-syntax-ns#\"\n"@
        + "          xmlns:rdfs=\"http://www.w3.org/2000/01/rdf-schema#\"\n"@
        + "          xmlns:xsd=\"http://www.w3.org/2001/XMLSchema#\"\n"@;
    let ont = "          ontologyIRI=\""@ + xml_escaped(model_iri_of(catalog, schema, table)) + "\">\n"@;
    let imp = "  <Import>"@ + BFO_ONTOLOGY_IRI@ + "</Import>\n"@;
    let d1 = "  <Declaration><AnnotationProperty IRI=\""@ + PHILOSOPHICAL_GROUNDING_IRI@ + "\"/></Declaration>\n"@;
    let d2 = "  <Declaration><AnnotationProperty IRI=\""@ + DOMAIN_MODULE_IRI@ + "\"/></Declaration>\n"@;
    let d3 = "  <Declaration><AnnotationProperty IRI=\""@ + ARISTOTELIAN_DEFINITION_IRI@ + "\"/></Declaration>\n"@;
    let rest = owl_elements(catalog, schema, table, gs) + "</Ontology>\n"@;
    let doc = owl_document(catalog, schema, table, gs);
    assert(doc =~= a + ont + (imp + d1 + d2 + d3 + rest));
    lemma_occurs_mid(a, ont, imp + d1 + d2 + d3 + rest);
    assert(doc =~= (a + ont) + imp + (d1 + d2 + d3 + rest));
    lemma_occurs_mid(a + ont, imp, d1 + d2 + d3 + rest);
    assert(doc =~= (a + ont + imp) + d1 + (d2 + d3 + rest));
    lemma_occurs_mid(a + ont + imp, d1, d2 + d3 + rest);
    assert(doc =~= (a + ont + imp + d1) + d2 + (d3 + rest));
    lemma_occurs_mid(a + ont + imp + d1, d2, d3 + rest);
    assert(doc =~= (a + ont + imp + d1 + d2) + d3 + rest);
    lemma_occurs_mid(a + ont + imp + d1 + d2, d3, rest);
}

/// What can go wrong while exporting RDF.
#[derive(Debug, Clone, PartialEq, Eq)]
pub enum RdfError {
    /// An IRI that the RDF model refuses, with the message of its parse error.
    InvalidIri { iri: String, message: String },
}

} // verus!
