//! Turtle export through the `oxttl` serializer.
//!
//! The triples of a grounded model are computed here and checked; the
//! serializer of `oxttl` writes them. What it writes is named, not restated:
//! `turtle_document` of the prefixes declared and the triples written.
use crate::annotate::{
    differentia, differentia_text, domain_module, infer_domain_module, ARISTOTELIAN_DEFINITION_IRI,
    DOMAIN_MODULE_IRI, PHILOSOPHICAL_GROUNDING_IRI,
};
use crate::mapper::GroundedElement;
use crate::rdf::{
    element_iri, element_iri_of, model_iri, model_iri_of, RdfError, BFO_ONTOLOGY_IRI, OBO_PREFIX,
    OWL_IMPORTS, OWL_NAMED_INDIVIDUAL, OWL_ONTOLOGY, RDFS_LABEL, RDF_TYPE,
};
use crate::text::{lowercase, owned, string_views};
use oxrdf::{IriParseError, LiteralRef, NamedNode, NamedNodeRef, TermRef, TripleRef};
use oxttl::turtle::WriterTurtleSerializer;
use oxttl::TurtleSerializer;
use vstd::prelude::*;

verus! {

/// `oxttl::TurtleSerializer`, a serializer being set up; opaque here.
#[verifier::external_type_specification]
#[verifier::external_body]
pub struct ExTurtleSerializer(TurtleSerializer);

/// An `oxttl` Turtle serializer that writes into a byte vector. Verus cannot
/// take the declaration of `WriterTurtleSerializer` (its parameter is bound
/// by `std::io::Write`), so the serializer is held here, out of its sight.
#[verifier::external_body]
pub struct TurtleWriter {
    inner: WriterTurtleSerializer<Vec<u8>>,
}

/// `oxrdf::IriParseError`, carried through and mapped to `RdfError`.
#[verifier::external_type_specification]
#[verifier::external_body]
pub struct ExIriParseError(IriParseError);

/// `std::io::Error`, carried through and mapped to `RdfError`.
#[verifier::external_type_specification]
#[verifier::external_body]
pub struct ExIoError(std::io::Error);

/// The object of a triple: an IRI or a simple literal.
#[derive(Debug, Clone)]
pub enum RdfObject {
    Iri(String),
    Literal(String),
}

/// A triple whose subject and predicate are IRIs.
#[derive(Debug, Clone)]
pub struct RdfTriple {
    pub subject: String,
    pub predicate: String,
    pub object: RdfObject,
}

/// A triple as plain values: subject, predicate, whether the object is a
/// literal, and the object's text.
pub open spec fn triple_view(t: RdfTriple) -> (Seq<char>, Seq<char>, bool, Seq<char>) {
    match t.object {
        RdfObject::Iri(o) => (t.subject@, t.predicate@, false, o@),
        RdfObject::Literal(o) => (t.subject@, t.predicate@, true, o@),
    }
}

/// Whether `oxrdf` accepts `s` as an IRI (`NamedNode::new` succeeds); this
/// depends on the characters alone.
pub uninterp spec fn iri_valid(s: Seq<char>) -> bool;

/// The prefix declarations of a serializer being set up, from prefix name to
/// IRI (a later declaration of a name replaces the earlier one).
pub uninterp spec fn serializer_prefixes(s: TurtleSerializer) -> Map<Seq<char>, Seq<char>>;

/// The prefix declarations of a serializer that writes to a byte vector.
pub uninterp spec fn writer_prefixes(w: TurtleWriter) -> Map<Seq<char>, Seq<char>>;

/// The triples written so far by a serializer that writes to a byte vector.
pub uninterp spec fn writer_triples(w: TurtleWriter) -> Seq<(Seq<char>, Seq<char>, bool, Seq<char>)>;

/// The Turtle document that `oxttl` produces for these prefix declarations
/// and triples.
pub uninterp spec fn turtle_document(
    prefixes: Map<Seq<char>, Seq<char>>,
    triples: Seq<(Seq<char>, Seq<char>, bool, Seq<char>)>,
) -> Seq<u8>;

/// The message of the `oxiri` parse error for an IRI that `oxrdf` refuses;
/// it depends on the characters alone.
pub uninterp spec fn iri_error_text(s: Seq<char>) -> Seq<char>;

/// Calls `oxrdf::NamedNode::new`: nothing when it accepts the IRI, else the
/// text of its parse error.
#[verifier::external_body]
fn check_iri(s: &str) -> (r: Option<String>)
    ensures
        r is None <==> iri_valid(s@),
        r matches Some(m) ==> m@ == iri_error_text(s@),
{
    match NamedNode::new(s) {
        Ok(_) => None,
        Err(e) => Some(e.to_string()),
    }
}

/// Calls `oxttl::TurtleSerializer::new`: a serializer with no prefix declared.
#[verifier::external_body]
fn turtle_new() -> (s: TurtleSerializer)
    ensures
        serializer_prefixes(s).dom().is_empty(),
{
    TurtleSerializer::new()
}

/// Calls `TurtleSerializer::with_prefix`. It fails exactly when the IRI does
/// not parse (the same `Iri::parse` as `NamedNode::new`); on success the
/// declaration is inserted into the serializer's map of prefixes, replacing
/// any earlier declaration of the same name.
#[verifier::external_body]
fn turtle_with_prefix(s: TurtleSerializer, name: &str, iri: &str) -> (r: Result<TurtleSerializer, IriParseError>)
    ensures
        r is Ok <==> iri_valid(iri@),
        r matches Ok(s2) ==> serializer_prefixes(s2) == serializer_prefixes(s).insert(name@, iri@),
{
    s.with_prefix(name, iri)
}

/// Calls `TurtleSerializer::for_writer` with an empty byte vector: the
/// declarations are kept and nothing is written yet.
#[verifier::external_body]
fn turtle_for_writer(s: TurtleSerializer) -> (w: TurtleWriter)
    ensures
        writer_prefixes(w) == serializer_prefixes(s),
        writer_triples(w) == Seq::<(Seq<char>, Seq<char>, bool, Seq<char>)>::empty(),
{
    TurtleWriter { inner: s.for_writer(Vec::new()) }
}

/// Calls `WriterTurtleSerializer::serialize_triple` on the triple, its IRIs
/// taken unchecked (they were checked before). It fails only when its writer
/// does, and writing into a byte vector does not fail; the triple is written
/// after the earlier ones.
#[verifier::external_body]
fn turtle_serialize(w: &mut TurtleWriter, t: &RdfTriple) -> (r: Result<(), std::io::Error>)
    ensures
        r is Ok,
        writer_prefixes(*final(w)) == writer_prefixes(*old(w)),
        writer_triples(*final(w)) == writer_triples(*old(w)).push(triple_view(*t)),
{
    let object: TermRef = match &t.object {
        RdfObject::Iri(o) => NamedNodeRef::new_unchecked(o.as_str()).into(),
        RdfObject::Literal(o) => LiteralRef::new_simple_literal(o.as_str()).into(),
    };
    let subject = NamedNodeRef::new_unchecked(t.subject.as_str());
    w.inner.serialize_triple(TripleRef::new(subject, NamedNodeRef::new_unchecked(t.predicate.as_str()), object))
}

/// Calls `WriterTurtleSerializer::finish`. It fails only when its writer
/// does, and writing into a byte vector does not fail; the bytes are the
/// Turtle document of the declarations and triples.
#[verifier::external_body]
fn turtle_finish(w: TurtleWriter) -> (r: Result<Vec<u8>, std::io::Error>)
    ensures
        r is Ok,
        r->Ok_0@ == turtle_document(writer_prefixes(w), writer_triples(w)),
{
    w.inner.finish()
}

/// The prefix declarations (name, IRI) of the Turtle export of
/// `catalog.schema.table`, in the order they are made.
pub open spec fn prefix_declarations(catalog: Seq<char>, schema: Seq<char>, table: Seq<char>) -> Seq<(Seq<char>, Seq<char>)> {
    seq![
        ("rdf"@, "http://www.w3.org/1999/02/22-rdf-syntax-ns#"@),
        ("rdfs"@, "http://www.w3.org/2000/01/rdf-schema#"@),
        ("owl"@, "http://www.w3.org/2002/07/owl#"@),
        ("obo"@, OBO_PREFIX@),
        ("ousia"@, "https://ousia.example/vocab#"@),
        ("model"@, model_iri_of(catalog, schema, table) + "/"@),
    ]
}

/// The prefixes that the Turtle export of `catalog.schema.table` declares,
/// from prefix name to IRI.
pub open spec fn turtle_prefixes(catalog: Seq<char>, schema: Seq<char>, table: Seq<char>) -> Map<Seq<char>, Seq<char>> {
    Map::<Seq<char>, Seq<char>>::empty()
        .insert("rdf"@, "http://www.w3.org/1999/02/22-rdf-syntax-ns#"@)
        .insert("rdfs"@, "http://www.w3.org/2000/01/rdf-schema#"@)
        .insert("owl"@, "http://www.w3.org/2002/07/owl#"@)
        .insert("obo"@, OBO_PREFIX@)
        .insert("ousia"@, "https://ousia.example/vocab#"@)
        .insert("model"@, model_iri_of(catalog, schema, table) + "/"@)
}

/// The triples of one grounded element: typed as a named individual and as its
/// BFO class, labelled, and annotated with its grounding IRI, domain module
/// and definition.
pub open spec fn element_triples(catalog: Seq<char>, schema: Seq<char>, table: Seq<char>, g: GroundedElement) -> Seq<(Seq<char>, Seq<char>, bool, Seq<char>)> {
    let e = element_iri_of(catalog, schema, table, g.name@);
    seq![
        (e, RDF_TYPE@, false, OWL_NAMED_INDIVIDUAL@),
        (e, RDF_TYPE@, false, g.bfo_iri@),
        (e, RDFS_LABEL@, true, g.name@),
        (e, PHILOSOPHICAL_GROUNDING_IRI@, true, g.bfo_iri@),
        (e, DOMAIN_MODULE_IRI@, true, domain_module(lowercase(g.name@))),
        (e, ARISTOTELIAN_DEFINITION_IRI@, true, differentia(g.name@, catalog, schema, table)),
    ]
}

/// The triples of the grounded elements, in order.
pub open spec fn elements_triples(catalog: Seq<char>, schema: Seq<char>, table: Seq<char>, gs: Seq<GroundedElement>) -> Seq<(Seq<char>, Seq<char>, bool, Seq<char>)>
    decreases gs.len(),
{
    if gs.len() == 0 {
        Seq::empty()
    } else {
        elements_triples(catalog, schema, table, gs.drop_last()) + element_triples(catalog, schema, table, gs.last())
    }
}

/// All triples of the Turtle export: the ontology, its import of BFO, then the
/// triples of each element.
pub open spec fn turtle_triples(catalog: Seq<char>, schema: Seq<char>, table: Seq<char>, gs: Seq<GroundedElement>) -> Seq<(Seq<char>, Seq<char>, bool, Seq<char>)> {
    let ont = model_iri_of(catalog, schema, table);
    seq![(ont, RDF_TYPE@, false, OWL_ONTOLOGY@), (ont, OWL_IMPORTS@, false, BFO_ONTOLOGY_IRI@)]
        + elements_triples(catalog, schema, table, gs)
}

/// The IRIs of the elements (element IRI, then BFO class IRI), in order.
pub open spec fn elements_iris(catalog: Seq<char>, schema: Seq<char>, table: Seq<char>, gs: Seq<GroundedElement>) -> Seq<Seq<char>>
    decreases gs.len(),
{
    if gs.len() == 0 {
        Seq::empty()
    } else {
        elements_iris(catalog, schema, table, gs.drop_last()) + seq![element_iri_of(catalog, schema, table, gs.last().name@), gs.last().bfo_iri@]
    }
}

/// The IRIs that the export checks, in the order it checks them: the prefix
/// IRIs, the vocabulary, the model, then each element's IRI and class.
pub open spec fn checked_iris(catalog: Seq<char>, schema: Seq<char>, table: Seq<char>, gs: Seq<GroundedElement>) -> Seq<Seq<char>> {
    prefix_declarations(catalog, schema, table).map_values(|p: (Seq<char>, Seq<char>)| p.1)
        + seq![
        RDF_TYPE@,
        OWL_NAMED_INDIVIDUAL@,
        OWL_ONTOLOGY@,
        OWL_IMPORTS@,
        RDFS_LABEL@,
        BFO_ONTOLOGY_IRI@,
        PHILOSOPHICAL_GROUNDING_IRI@,
        DOMAIN_MODULE_IRI@,
        ARISTOTELIAN_DEFINITION_IRI@,
        model_iri_of(catalog, schema, table),
    ] + elements_iris(catalog, schema, table, gs)
}

/// The first IRI of `iris` that is not valid, if any.
pub open spec fn first_invalid(iris: Seq<Seq<char>>) -> Option<Seq<char>>
    decreases iris.len(),
{
    if iris.len() == 0 {
        None
    } else if !iri_valid(iris[0]) {
        Some(iris[0])
    } else {
        first_invalid(iris.drop_first())
    }
}

proof fn lemma_first_invalid_at(iris: Seq<Seq<char>>, i: int)
    requires
        0 <= i < iris.len(),
        forall|j: int| 0 <= j < i ==> iri_valid(#[trigger] iris[j]),
        !iri_valid(iris[i]),
    ensures
        first_invalid(iris) == Some(iris[i]),
    decreases i,
{
    if i > 0 {
        assert forall|j: int| 0 <= j < i - 1 implies iri_valid(#[trigger] iris.drop_first()[j]) by {
            assert(iris.drop_first()[j] == iris[j + 1]);
        }
        lemma_first_invalid_at(iris.drop_first(), i - 1);
    }
}

proof fn lemma_none_invalid(iris: Seq<Seq<char>>)
    requires
        forall|j: int| 0 <= j < iris.len() ==> iri_valid(#[trigger] iris[j]),
    ensures
        first_invalid(iris) is None,
    decreases iris.len(),
{
    if iris.len() > 0 {
        assert(iri_valid(iris[0]));
        assert forall|j: int| 0 <= j < iris.len() - 1 implies iri_valid(#[trigger] iris.drop_first()[j]) by {
            assert(iris.drop_first()[j] == iris[j + 1]);
        }
        lemma_none_invalid(iris.drop_first());
    }
}

/// The views of a list of triples.
pub open spec fn triple_views(v: Seq<RdfTriple>) -> Seq<(Seq<char>, Seq<char>, bool, Seq<char>)> {
    v.map_values(|t: RdfTriple| triple_view(t))
}

fn push_string(v: &mut Vec<String>, s: &str)
    ensures
        string_views(final(v)@) == string_views(old(v)@).push(s@),
{
    v.push(owned(s));
    proof {
        assert(string_views(final(v)@) =~= string_views(old(v)@).push(s@));
    }
}

/// The IRIs that the Turtle export checks, in order.
fn checked_iri_list(catalog: &str, schema: &str, table: &str, grounded: &[GroundedElement]) -> (r: Vec<String>)
    ensures
        string_views(r@) == checked_iris(catalog@, schema@, table@, grounded@),
{
    let mut v: Vec<String> = Vec::new();
    let mut model_prefix = model_iri(catalog, schema, table);
    model_prefix.append("/");
    push_string(&mut v, "http://www.w3.org/1999/02/22-rdf-syntax-ns#");
    push_string(&mut v, "http://www.w3.org/2000/01/rdf-schema#");
    push_string(&mut v, "http://www.w3.org/2002/07/owl#");
    push_string(&mut v, OBO_PREFIX);
    push_string(&mut v, "https://ousia.example/vocab#");
    push_string(&mut v, model_prefix.as_str());
    push_string(&mut v, RDF_TYPE);
    push_string(&mut v, OWL_NAMED_INDIVIDUAL);
    push_string(&mut v, OWL_ONTOLOGY);
    push_string(&mut v, OWL_IMPORTS);
    push_string(&mut v, RDFS_LABEL);
    push_string(&mut v, BFO_ONTOLOGY_IRI);
    push_string(&mut v, PHILOSOPHICAL_GROUNDING_IRI);
    push_string(&mut v, DOMAIN_MODULE_IRI);
    push_string(&mut v, ARISTOTELIAN_DEFINITION_IRI);
    push_string(&mut v, model_iri(catalog, schema, table).as_str());
    let ghost fixed = string_views(v@);
    proof {
        let ps = prefix_declarations(catalog@, schema@, table@).map_values(|p: (Seq<char>, Seq<char>)| p.1);
        assert(fixed =~= ps + seq![
            RDF_TYPE@,
            OWL_NAMED_INDIVIDUAL@,
            OWL_ONTOLOGY@,
            OWL_IMPORTS@,
            RDFS_LABEL@,
            BFO_ONTOLOGY_IRI@,
            PHILOSOPHICAL_GROUNDING_IRI@,
            DOMAIN_MODULE_IRI@,
            ARISTOTELIAN_DEFINITION_IRI@,
            model_iri_of(catalog@, schema@, table@),
        ]);
    }
    let n = grounded.len();
    for i in 0..n
        invariant
            n == grounded@.len(),
            string_views(v@) == fixed + elements_iris(catalog@, schema@, table@, grounded@.take(i as int)),
    {
        proof {
            assert(grounded@.take(i + 1).drop_last() =~= grounded@.take(i as int));
        }
        push_string(&mut v, element_iri(catalog, schema, table, grounded[i].name.as_str()).as_str());
        push_string(&mut v, grounded[i].bfo_iri.as_str());
        proof {
            assert(string_views(v@) =~= fixed + elements_iris(catalog@, schema@, table@, grounded@.take(i + 1)));
        }
    }
    proof {
        assert(grounded@.take(n as int) =~= grounded@);
    }
    v
}

fn push_triple(v: &mut Vec<RdfTriple>, subject: &str, predicate: &str, literal: bool, object: &str)
    ensures
        triple_views(final(v)@) == triple_views(old(v)@).push((subject@, predicate@, literal, object@)),
{
    let o = if literal {
        RdfObject::Literal(owned(object))
    } else {
        RdfObject::Iri(owned(object))
    };
    let t = RdfTriple { subject: owned(subject), predicate: owned(predicate), object: o };
    v.push(t);
    proof {
        assert(triple_views(final(v)@) =~= triple_views(old(v)@).push(triple_view(t)));
    }
}

/// The triples of the Turtle export, in order.
fn turtle_triple_list(catalog: &str, schema: &str, table: &str, grounded: &[GroundedElement]) -> (r: Vec<RdfTriple>)
    ensures
        triple_views(r@) == turtle_triples(catalog@, schema@, table@, grounded@),
{
    let mut v: Vec<RdfTriple> = Vec::new();
    let ont = model_iri(catalog, schema, table);
    push_triple(&mut v, ont.as_str(), RDF_TYPE, false, OWL_ONTOLOGY);
    push_triple(&mut v, ont.as_str(), OWL_IMPORTS, false, BFO_ONTOLOGY_IRI);
    let ghost fixed = triple_views(v@);
    proof {
        let o = model_iri_of(catalog@, schema@, table@);
        assert(fixed =~= seq![(o, RDF_TYPE@, false, OWL_ONTOLOGY@), (o, OWL_IMPORTS@, false, BFO_ONTOLOGY_IRI@)]);
    }
    let n = grounded.len();
    for i in 0..n
        invariant
            n == grounded@.len(),
            triple_views(v@) == fixed + elements_triples(catalog@, schema@, table@, grounded@.take(i as int)),
    {
        proof {
            assert(grounded@.take(i + 1).drop_last() =~= grounded@.take(i as int));
        }
        let elem = &grounded[i];
        let e = element_iri(catalog, schema, table, elem.name.as_str());
        let domain = infer_domain_module(elem.name.as_str());
        let aristo = differentia_text(elem.name.as_str(), catalog, schema, table);
        let ghost before = triple_views(v@);
        push_triple(&mut v, e.as_str(), RDF_TYPE, false, OWL_NAMED_INDIVIDUAL);
        push_triple(&mut v, e.as_str(), RDF_TYPE, false, elem.bfo_iri.as_str());
        push_triple(&mut v, e.as_str(), RDFS_LABEL, true, elem.name.as_str());
        push_triple(&mut v, e.as_str(), PHILOSOPHICAL_GROUNDING_IRI, true, elem.bfo_iri.as_str());
        push_triple(&mut v, e.as_str(), DOMAIN_MODULE_IRI, true, domain.as_str());
        push_triple(&mut v, e.as_str(), ARISTOTELIAN_DEFINITION_IRI, true, aristo.as_str());
        proof {
            assert(triple_views(v@) =~= before + element_triples(catalog@, schema@, table@, *elem));
            assert(triple_views(v@) =~= fixed + elements_triples(catalog@, schema@, table@, grounded@.take(i + 1)));
        }
    }
    proof {
        assert(grounded@.take(n as int) =~= grounded@);
    }
    v
}

/// `r` is what exporting `gs` as Turtle gives: an error naming the first IRI
/// that does not parse, with the parse error's message; otherwise the Turtle document of the export's
/// prefixes and triples.
pub open spec fn turtle_result(
    r: Result<Vec<u8>, RdfError>,
    catalog: Seq<char>,
    schema: Seq<char>,
    table: Seq<char>,
    gs: Seq<GroundedElement>,
) -> bool {
    match first_invalid(checked_iris(catalog, schema, table, gs)) {
        Some(bad) => r matches Err(RdfError::InvalidIri { iri, message }) && iri@ == bad && message@
            == iri_error_text(bad),
        None => r matches Ok(b) && b@ == turtle_document(
            turtle_prefixes(catalog, schema, table),
            turtle_triples(catalog, schema, table, gs),
        ),
    }
}

/// Emit the grounded model as a Turtle byte string.
pub fn emit_turtle(catalog: &str, schema: &str, table: &str, grounded: &[GroundedElement]) -> (r: Result<Vec<u8>, RdfError>)
    ensures
        turtle_result(r, catalog@, schema@, table@, grounded@),
{
    let iris = checked_iri_list(catalog, schema, table, grounded);
    let ghost iv = string_views(iris@);
    let ni = iris.len();
    for i in 0..ni
        invariant
            ni == iris@.len(),
            iv == string_views(iris@),
            iv == checked_iris(catalog@, schema@, table@, grounded@),
            forall|j: int| 0 <= j < i ==> iri_valid(#[trigger] iv[j]),
    {
        if let Some(message) = check_iri(iris[i].as_str()) {
            proof {
                lemma_first_invalid_at(iv, i as int);
            }
            return Err(RdfError::InvalidIri { iri: owned(iris[i].as_str()), message });
        }
    }
    proof {
        lemma_none_invalid(iv);
    }
    let mut model_prefix = model_iri(catalog, schema, table);
    model_prefix.append("/");
    proof {
        // The prefix IRIs are the first six IRIs checked above.
        assert(iri_valid(iv[0]) && iri_valid(iv[1]) && iri_valid(iv[2]));
        assert(iri_valid(iv[3]) && iri_valid(iv[4]) && iri_valid(iv[5]));
    }
    let ser = turtle_new();
    let ser = turtle_with_prefix(ser, "rdf", "http://www.w3.org/1999/02/22-rdf-syntax-ns#").unwrap();
    let ser = turtle_with_prefix(ser, "rdfs", "http://www.w3.org/2000/01/rdf-schema#").unwrap();
    let ser = turtle_with_prefix(ser, "owl", "http://www.w3.org/2002/07/owl#").unwrap();
    let ser = turtle_with_prefix(ser, "obo", OBO_PREFIX).unwrap();
    let ser = turtle_with_prefix(ser, "ousia", "https://ousia.example/vocab#").unwrap();
    let ser = turtle_with_prefix(ser, "model", model_prefix.as_str()).unwrap();
    let ghost prefixes = turtle_prefixes(catalog@, schema@, table@);
    proof {
        assert(serializer_prefixes(ser) =~= prefixes);
    }
    let mut w = turtle_for_writer(ser);
    let triples = turtle_triple_list(catalog, schema, table, grounded);
    let nt = triples.len();
    for i in 0..nt
        invariant
            nt == triples@.len(),
            writer_prefixes(w) == prefixes,
            writer_triples(w) == triple_views(triples@).take(i as int),
            first_invalid(checked_iris(catalog@, schema@, table@, grounded@)) is None,
    {
        let written = turtle_serialize(&mut w, &triples[i]);
        assert(written is Ok);
        proof {
            assert(triple_views(triples@).take(i + 1) =~= triple_views(triples@).take(i as int).push(triple_view(triples@[i as int])));
        }
    }
    proof {
        assert(triple_views(triples@).take(nt as int) =~= triple_views(triples@));
    }
    Ok(turtle_finish(w).unwrap())
}

/// Exporting the same grounded model twice gives the same result: an error
/// naming the same IRI with the same message, or the same Turtle bytes.
pub proof fn lemma_turtle_deterministic(
    r1: Result<Vec<u8>, RdfError>,
    r2: Result<Vec<u8>, RdfError>,
    catalog: Seq<char>,
    schema: Seq<char>,
    table: Seq<char>,
    gs: Seq<GroundedElement>,
)
    requires
        turtle_result(r1, catalog, schema, table, gs),
        turtle_result(r2, catalog, schema, table, gs),
    ensures
        r1 is Ok <==> r2 is Ok,
        r1 is Ok ==> r1->Ok_0@ == r2->Ok_0@,
        r1 is Err ==> r1->Err_0->iri@ == r2->Err_0->iri@ && r1->Err_0->message@ == r2->Err_0->message@,
{
}

/// The Turtle triples of an element carry the same values as its overlay
/// annotation: its BFO class, grounding IRI, domain module and definition.
pub proof fn lemma_turtle_matches_overlay(
    ann: crate::annotate::ElementAnnotation,
    g: GroundedElement,
    catalog: Seq<char>,
    schema: Seq<char>,
    table: Seq<char>,
)
    requires
        crate::annotate::annotates(ann, g, catalog, schema, table),
    ensures
        element_triples(catalog, schema, table, g)[1].3 == ann.philosophical_grounding.iri@,
        element_triples(catalog, schema, table, g)[3] == (
            element_iri_of(catalog, schema, table, g.name@),
            PHILOSOPHICAL_GROUNDING_IRI@,
            true,
            ann.philosophical_grounding.iri@,
        ),
        element_triples(catalog, schema, table, g)[4] == (
            element_iri_of(catalog, schema, table, g.name@),
            DOMAIN_MODULE_IRI@,
            true,
            ann.domain_module@,
        ),
        element_triples(catalog, schema, table, g)[5] == (
            element_iri_of(catalog, schema, table, g.name@),
            ARISTOTELIAN_DEFINITION_IRI@,
            true,
            ann.aristotelian_definition.differentia@,
        ),
{
}

proof fn lemma_elements_triples_at(catalog: Seq<char>, schema: Seq<char>, table: Seq<char>, gs: Seq<GroundedElement>)
    ensures
        elements_triples(catalog, schema, table, gs).len() == 6 * gs.len(),
        forall|i: int, k: int|
            0 <= i < gs.len() && 0 <= k < 6 ==> #[trigger] elements_triples(catalog, schema, table, gs)[6 * i + k]
                == element_triples(catalog, schema, table, gs[i])[k],
    decreases gs.len(),
{
    if gs.len() > 0 {
        let pre = gs.drop_last();
        lemma_elements_triples_at(catalog, schema, table, pre);
        let t = elements_triples(catalog, schema, table, gs);
        assert forall|i: int, k: int| 0 <= i < gs.len() && 0 <= k < 6 implies #[trigger] t[6 * i + k]
            == element_triples(catalog, schema, table, gs[i])[k] by {
            if i < pre.len() {
                assert(pre[i] == gs[i]);
                assert(t[6 * i + k] == elements_triples(catalog, schema, table, pre)[6 * i + k]);
            } else {
                assert(gs.last() == gs[i]);
            }
        }
    }
}

/// The Turtle export's triples: the ontology and its import of BFO, then for
/// each element, in order, its individual typed as an `owl:NamedIndividual`,
/// typed as its BFO class and labelled with its name. Where no element's class
/// is `owl:NamedIndividual` itself, these typing triples (at positions
/// 2, 8, 14, ...) are the only ones that make an individual: one per element.
pub proof fn lemma_turtle_structure(catalog: Seq<char>, schema: Seq<char>, table: Seq<char>, gs: Seq<GroundedElement>)
    requires
        forall|i: int| 0 <= i < gs.len() ==> (#[trigger] gs[i]).bfo_iri@ != OWL_NAMED_INDIVIDUAL@,
    ensures
        turtle_triples(catalog, schema, table, gs).len() == 2 + 6 * gs.len(),
        turtle_triples(catalog, schema, table, gs)[0] == (
            model_iri_of(catalog, schema, table),
            RDF_TYPE@,
            false,
            OWL_ONTOLOGY@,
        ),
        turtle_triples(catalog, schema, table, gs)[1] == (
            model_iri_of(catalog, schema, table),
            OWL_IMPORTS@,
            false,
            BFO_ONTOLOGY_IRI@,
        ),
        forall|i: int| 0 <= i < gs.len() ==> {
            let e = element_iri_of(catalog, schema, table, (#[trigger] gs[i]).name@);
            let tt = turtle_triples(catalog, schema, table, gs);
            &&& tt[2 + 6 * i] == (e, RDF_TYPE@, false, OWL_NAMED_INDIVIDUAL@)
            &&& tt[3 + 6 * i] == (e, RDF_TYPE@, false, gs[i].bfo_iri@)
            &&& tt[4 + 6 * i] == (e, RDFS_LABEL@, true, gs[i].name@)
        },
        forall|j: int|
            0 <= j < turtle_triples(catalog, schema, table, gs).len() && (#[trigger] turtle_triples(
                catalog,
                schema,
                table,
                gs,
            )[j]).1 == RDF_TYPE@ && !turtle_triples(catalog, schema, table, gs)[j].2 && turtle_triples(
                catalog,
                schema,
                table,
                gs,
            )[j].3 == OWL_NAMED_INDIVIDUAL@ ==> j >= 2 && (j - 2) % 6 == 0,
{
    reveal_strlit("http://www.w3.org/2002/07/owl#NamedIndividual");
    reveal_strlit("http://www.w3.org/2002/07/owl#Ontology");
    lemma_elements_triples_at(catalog, schema, table, gs);
    let tt = turtle_triples(catalog, schema, table, gs);
    let et = elements_triples(catalog, schema, table, gs);
    assert(OWL_ONTOLOGY@ != OWL_NAMED_INDIVIDUAL@) by {
        assert(OWL_ONTOLOGY@.len() != OWL_NAMED_INDIVIDUAL@.len());
    }
    assert forall|i: int| 0 <= i < gs.len() implies {
        let e = element_iri_of(catalog, schema, table, (#[trigger] gs[i]).name@);
        &&& tt[2 + 6 * i] == (e, RDF_TYPE@, false, OWL_NAMED_INDIVIDUAL@)
        &&& tt[3 + 6 * i] == (e, RDF_TYPE@, false, gs[i].bfo_iri@)
        &&& tt[4 + 6 * i] == (e, RDFS_LABEL@, true, gs[i].name@)
    } by {
        assert(tt[2 + 6 * i] == et[6 * i + 0]);
        assert(tt[3 + 6 * i] == et[6 * i + 1]);
        assert(tt[4 + 6 * i] == et[6 * i + 2]);
    }
    assert forall|j: int|
        0 <= j < tt.len() && (#[trigger] tt[j]).1 == RDF_TYPE@ && !tt[j].2 && tt[j].3 == OWL_NAMED_INDIVIDUAL@ implies j >= 2
            && (j - 2) % 6 == 0 by {
        if j == 1 {
            reveal_strlit("http://www.w3.org/2002/07/owl#imports");
            reveal_strlit("http://www.w3.org/1999/02/22-rdf-syntax-ns#type");
            assert(OWL_IMPORTS@.len() != RDF_TYPE@.len());
        } else if j >= 2 {
            let i = (j - 2) / 6;
            let k = (j - 2) % 6;
            assert(j - 2 == 6 * i + k);
            let el = element_triples(catalog, schema, table, gs[i]);
            assert(tt[j] == et[6 * i + k]);
            assert(et[6 * i + k] == el[k]);
            if k == 1 {
                assert(el[1].3 == gs[i].bfo_iri@);
            } else if k > 1 {
                assert(el[k].2);
            }
        }
    }
}

} // verus!
