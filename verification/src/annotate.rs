//! Annotation overlay emitter.
//!
//! The overlay carries, per element name, the paper's annotation vocabulary:
//!   - `philosophicalGrounding`: BFO IRI, label and rationale
//!   - `domainModule`: semantic domain inferred from the element name
//!   - `aristotelianDefinition`: genus (the BFO label) + differentia
//!
//! It is a separate document; the source model is only read.
use crate::mapper::{category_label, ground_all_result, lemma_ground_model_names, model_entries, GroundedElement};
use crate::model::AtscaleModel;
use crate::text::{lowercase, owned, seq_contains, str_contains, str_eq, to_lowercase};
use vstd::prelude::*;

verus! {

/// IRI of the `philosophicalGrounding` annotation property.
pub const PHILOSOPHICAL_GROUNDING_IRI: &'static str = "https://ousia.example/vocab#philosophicalGrounding";

/// IRI of the `domainModule` annotation property.
pub const DOMAIN_MODULE_IRI: &'static str = "https://ousia.example/vocab#domainModule";

/// IRI of the `aristotelianDefinition` annotation property.
pub const ARISTOTELIAN_DEFINITION_IRI: &'static str = "https://ousia.example/vocab#aristotelianDefinition";

/// The version marker written into every overlay.
pub open spec fn overlay_version_text() -> Seq<char> {
    "ousia-atscale/0.1.0"@
}

/// Annotation for one model element.
#[derive(Debug, Clone)]
pub struct ElementAnnotation {
    /// BFO IRI for the proposed category.
    pub philosophical_grounding: PhilosophicalGrounding,
    /// Semantic domain inferred from the element name.
    pub domain_module: String,
    /// Aristotelian definition: genus + differentia.
    pub aristotelian_definition: AristotelianDefinition,
}

#[derive(Debug, Clone)]
pub struct PhilosophicalGrounding {
    pub iri: String,
    pub label: String,
    pub rationale: String,
}

#[derive(Debug, Clone)]
pub struct AristotelianDefinition {
    /// The BFO genus (parent category label).
    pub genus: String,
    /// The differentia that specifies this element within the genus.
    pub differentia: String,
}

/// The semantic domain of an element whose lower-cased name is `n`.
pub open spec fn domain_module(n: Seq<char>) -> Seq<char> {
    if seq_contains(n, "revenue"@) || seq_contains(n, "sales"@) || seq_contains(n, "price"@)
        || seq_contains(n, "amount"@) || seq_contains(n, "cost"@) {
        "FinancialProcess"@
    } else if seq_contains(n, "customer"@) || seq_contains(n, "account"@) || seq_contains(n, "client"@) {
        "CustomerRole"@
    } else if seq_contains(n, "product"@) || seq_contains(n, "item"@) || seq_contains(n, "sku"@) {
        "ProductQuality"@
    } else if seq_contains(n, "date"@) || seq_contains(n, "time"@) || seq_contains(n, "period"@)
        || seq_contains(n, "year"@) || seq_contains(n, "month"@) || seq_contains(n, "day"@) {
        "TemporalRegion"@
    } else if seq_contains(n, "region"@) || seq_contains(n, "country"@) || seq_contains(n, "city"@)
        || seq_contains(n, "location"@) {
        "SpatialRegion"@
    } else if seq_contains(n, "count"@) || seq_contains(n, "qty"@) || seq_contains(n, "quantity"@)
        || seq_contains(n, "num"@) {
        "QuantitativeProcess"@
    } else {
        "GeneralSemanticLayer"@
    }
}

/// The differentia of an element named `name` in table `catalog.schema.table`.
pub open spec fn differentia(name: Seq<char>, catalog: Seq<char>, schema: Seq<char>, table: Seq<char>) -> Seq<char> {
    name + " in the context of "@ + catalog + "."@ + schema + "."@ + table
}

/// The semantic domain of an element whose lower-cased name is `name_lower`.
pub fn domain_module_for(name_lower: &str) -> (r: &'static str)
    ensures
        r@ == domain_module(name_lower@),
{
    let n = name_lower;
    if str_contains(n, "revenue") || str_contains(n, "sales") || str_contains(n, "price")
        || str_contains(n, "amount") || str_contains(n, "cost") {
        "FinancialProcess"
    } else if str_contains(n, "customer") || str_contains(n, "account") || str_contains(n, "client") {
        "CustomerRole"
    } else if str_contains(n, "product") || str_contains(n, "item") || str_contains(n, "sku") {
        "ProductQuality"
    } else if str_contains(n, "date") || str_contains(n, "time") || str_contains(n, "period")
        || str_contains(n, "year") || str_contains(n, "month") || str_contains(n, "day") {
        "TemporalRegion"
    } else if str_contains(n, "region") || str_contains(n, "country") || str_contains(n, "city")
        || str_contains(n, "location") {
        "SpatialRegion"
    } else if str_contains(n, "count") || str_contains(n, "qty") || str_contains(n, "quantity")
        || str_contains(n, "num") {
        "QuantitativeProcess"
    } else {
        "GeneralSemanticLayer"
    }
}

/// The semantic domain of an element named `name` (compared case-insensitively).
pub fn infer_domain_module(name: &str) -> (r: String)
    ensures
        r@ == domain_module(lowercase(name@)),
{
    let lower = to_lowercase(name);
    owned(domain_module_for(lower.as_str()))
}

/// The differentia of an element named `name` in table `catalog.schema.table`.
pub fn differentia_text(name: &str, catalog: &str, schema: &str, table: &str) -> (r: String)
    ensures
        r@ == differentia(name@, catalog@, schema@, table@),
{
    let mut r = owned(name);
    r.append(" in the context of ");
    r.append(catalog);
    r.append(".");
    r.append(schema);
    r.append(".");
    r.append(table);
    r
}

/// `a` is the annotation of grounded element `g` in table `catalog.schema.table`.
pub open spec fn annotates(
    a: ElementAnnotation,
    g: GroundedElement,
    catalog: Seq<char>,
    schema: Seq<char>,
    table: Seq<char>,
) -> bool {
    &&& a.philosophical_grounding.iri@ == g.bfo_iri@
    &&& a.philosophical_grounding.label@ == category_label(g.bfo_category)
    &&& a.philosophical_grounding.rationale@ == g.rationale@
    &&& a.domain_module@ == domain_module(lowercase(g.name@))
    &&& a.aristotelian_definition.genus@ == category_label(g.bfo_category)
    &&& a.aristotelian_definition.differentia@ == differentia(g.name@, catalog, schema, table)
}

/// `j` is the last position in `gs` of an element named `k`.
pub open spec fn is_last_named(gs: Seq<GroundedElement>, j: int, k: Seq<char>) -> bool {
    &&& 0 <= j < gs.len()
    &&& gs[j].name@ == k
    &&& forall|t: int| j < t < gs.len() ==> (#[trigger] gs[t]).name@ != k
}

/// Annotations keyed by element name; each name occurs once. The pairs are
/// held in a vector so that contracts state the contents exactly.
#[derive(Debug, Clone)]
pub struct AnnotationMap {
    entries: Vec<(String, ElementAnnotation)>,
}

impl View for AnnotationMap {
    type V = Seq<(Seq<char>, ElementAnnotation)>;

    closed spec fn view(&self) -> Seq<(Seq<char>, ElementAnnotation)> {
        self.entries@.map_values(|e: (String, ElementAnnotation)| (e.0@, e.1))
    }
}

/// Entry `e` holds the annotation of the last element of `gs` named `e.0`.
pub open spec fn entry_backed(
    gs: Seq<GroundedElement>,
    e: (Seq<char>, ElementAnnotation),
    catalog: Seq<char>,
    schema: Seq<char>,
    table: Seq<char>,
) -> bool {
    exists|j: int| #[trigger] is_last_named(gs, j, e.0) && annotates(e.1, gs[j], catalog, schema, table)
}

/// `v` holds one annotation per element name of `gs`: the annotation of the
/// last element of that name.
pub open spec fn annotates_all(
    v: Seq<(Seq<char>, ElementAnnotation)>,
    gs: Seq<GroundedElement>,
    catalog: Seq<char>,
    schema: Seq<char>,
    table: Seq<char>,
) -> bool {
    &&& forall|i: int, j: int| 0 <= i < j < v.len() ==> (#[trigger] v[i]).0 != (#[trigger] v[j]).0
    &&& forall|i: int| 0 <= i < v.len() ==> #[trigger] entry_backed(gs, v[i], catalog, schema, table)
    &&& forall|j: int| 0 <= j < gs.len() ==> exists|i: int| 0 <= i < v.len() && v[i].0 == (#[trigger] gs[j]).name@
}

impl AnnotationMap {
    proof fn lemma_view_index(&self, i: int)
        requires
            0 <= i < self.entries@.len(),
        ensures
            self@[i] == (self.entries@[i].0@, self.entries@[i].1),
            self@.len() == self.entries@.len(),
    {
    }

    /// The number of annotated names.
    pub fn len(&self) -> (n: usize)
        ensures
            n == self@.len(),
    {
        self.entries.len()
    }

    /// Whether nothing is annotated.
    pub fn is_empty(&self) -> (b: bool)
        ensures
            b == (self@.len() == 0),
    {
        self.entries.len() == 0
    }

    /// The name of entry `i`.
    pub fn name_at(&self, i: usize) -> (k: &str)
        requires
            i < self@.len(),
        ensures
            k@ == self@[i as int].0,
    {
        proof {
            self.lemma_view_index(i as int);
        }
        self.entries[i].0.as_str()
    }

    /// The annotation of entry `i`.
    pub fn annotation_at(&self, i: usize) -> (a: &ElementAnnotation)
        requires
            i < self@.len(),
        ensures
            *a == self@[i as int].1,
    {
        proof {
            self.lemma_view_index(i as int);
        }
        &self.entries[i].1
    }

    /// The position of the entry named `key`, if any.
    pub fn position(&self, key: &str) -> (r: Option<usize>)
        ensures
            match r {
                Some(i) => i < self@.len() && self@[i as int].0 == key@,
                None => forall|i: int| 0 <= i < self@.len() ==> self@[i].0 != key@,
            },
    {
        let n = self.entries.len();
        for i in 0..n
            invariant
                n == self@.len(),
                n == self.entries@.len(),
                forall|j: int| 0 <= j < i ==> self@[j].0 != key@,
        {
            proof {
                self.lemma_view_index(i as int);
            }
            if str_eq(self.entries[i].0.as_str(), key) {
                return Some(i);
            }
        }
        None
    }

    /// Sets the annotation of `name`: replaces the entry of that name, or
    /// appends a new one.
    fn insert(&mut self, name: String, ann: ElementAnnotation)
        ensures
            (exists|p: int| 0 <= p < old(self)@.len() && old(self)@[p].0 == name@ && final(self)@ == old(self)@.update(p, (name@, ann)))
                || ((forall|p: int| 0 <= p < old(self)@.len() ==> old(self)@[p].0 != name@) && final(self)@ == old(self)@.push((name@, ann))),
    {
        let ghost old_v = self@;
        match self.position(name.as_str()) {
            Some(p) => {
                self.entries.set(p, (name, ann));
                proof {
                    assert(self@ =~= old_v.update(p as int, (name@, ann)));
                }
            },
            None => {
                self.entries.push((name, ann));
                proof {
                    assert(self@ =~= old_v.push((name@, ann)));
                }
            },
        }
    }

    /// Whether some entry is named `key`.
    pub fn contains_key(&self, key: &str) -> (b: bool)
        ensures
            b == exists|i: int| 0 <= i < self@.len() && self@[i].0 == key@,
    {
        match self.position(key) {
            Some(i) => true,
            None => false,
        }
    }

    /// The annotation named `key`, if any.
    pub fn get(&self, key: &str) -> (r: Option<&ElementAnnotation>)
        ensures
            match r {
                Some(a) => exists|i: int| 0 <= i < self@.len() && self@[i].0 == key@ && self@[i].1 == *a,
                None => forall|i: int| 0 <= i < self@.len() ==> self@[i].0 != key@,
            },
    {
        match self.position(key) {
            Some(i) => Some(self.annotation_at(i)),
            None => None,
        }
    }
}

proof fn lemma_backed_extend(
    pre: Seq<GroundedElement>,
    elem: GroundedElement,
    e: (Seq<char>, ElementAnnotation),
    catalog: Seq<char>,
    schema: Seq<char>,
    table: Seq<char>,
)
    requires
        entry_backed(pre, e, catalog, schema, table),
        e.0 != elem.name@,
    ensures
        entry_backed(pre.push(elem), e, catalog, schema, table),
{
    let j = choose|j: int| is_last_named(pre, j, e.0) && annotates(e.1, pre[j], catalog, schema, table);
    let post = pre.push(elem);
    assert(post[j] == pre[j]);
    assert forall|t: int| j < t < post.len() implies (#[trigger] post[t]).name@ != e.0 by {
        if t < pre.len() {
            assert(post[t] == pre[t]);
        }
    }
    assert(is_last_named(post, j, e.0));
}

proof fn lemma_backed_new(
    pre: Seq<GroundedElement>,
    elem: GroundedElement,
    ann: ElementAnnotation,
    catalog: Seq<char>,
    schema: Seq<char>,
    table: Seq<char>,
)
    requires
        annotates(ann, elem, catalog, schema, table),
    ensures
        entry_backed(pre.push(elem), (elem.name@, ann), catalog, schema, table),
{
    let post = pre.push(elem);
    assert(post[pre.len() as int] == elem);
    assert(is_last_named(post, pre.len() as int, elem.name@));
    let e = (elem.name@, ann);
    assert(is_last_named(post, pre.len() as int, e.0) && annotates(e.1, post[pre.len() as int], catalog, schema, table));
}

proof fn lemma_annotates_insert(
    old_v: Seq<(Seq<char>, ElementAnnotation)>,
    new_v: Seq<(Seq<char>, ElementAnnotation)>,
    pre: Seq<GroundedElement>,
    elem: GroundedElement,
    ann: ElementAnnotation,
    catalog: Seq<char>,
    schema: Seq<char>,
    table: Seq<char>,
)
    requires
        annotates_all(old_v, pre, catalog, schema, table),
        annotates(ann, elem, catalog, schema, table),
        (exists|p: int| 0 <= p < old_v.len() && old_v[p].0 == elem.name@ && new_v == old_v.update(p, (elem.name@, ann)))
            || ((forall|p: int| 0 <= p < old_v.len() ==> old_v[p].0 != elem.name@) && new_v == old_v.push((elem.name@, ann))),
    ensures
        annotates_all(new_v, pre.push(elem), catalog, schema, table),
{
    let post = pre.push(elem);
    let i = pre.len() as int;
    lemma_backed_new(pre, elem, ann, catalog, schema, table);
    if exists|p: int| 0 <= p < old_v.len() && old_v[p].0 == elem.name@ && new_v == old_v.update(p, (elem.name@, ann)) {
        let p = choose|p: int| 0 <= p < old_v.len() && old_v[p].0 == elem.name@ && new_v == old_v.update(p, (elem.name@, ann));
        assert forall|a: int| 0 <= a < new_v.len() implies #[trigger] entry_backed(post, new_v[a], catalog, schema, table) by {
            if a != p {
                assert(old_v[a].0 != old_v[p].0);
                lemma_backed_extend(pre, elem, old_v[a], catalog, schema, table);
            }
        }
        assert forall|j: int| 0 <= j < post.len() implies exists|a: int|
            0 <= a < new_v.len() && new_v[a].0 == (#[trigger] post[j]).name@ by {
            if j < i {
                assert(post[j] == pre[j]);
                let a = choose|a: int| 0 <= a < old_v.len() && old_v[a].0 == pre[j].name@;
                assert(new_v[a].0 == post[j].name@);
            } else {
                assert(new_v[p].0 == post[j].name@);
            }
        }
    } else {
        assert forall|a: int| 0 <= a < new_v.len() implies #[trigger] entry_backed(post, new_v[a], catalog, schema, table) by {
            if a < old_v.len() {
                lemma_backed_extend(pre, elem, old_v[a], catalog, schema, table);
            }
        }
        assert forall|j: int| 0 <= j < post.len() implies exists|a: int|
            0 <= a < new_v.len() && new_v[a].0 == (#[trigger] post[j]).name@ by {
            if j < i {
                assert(post[j] == pre[j]);
                let a = choose|a: int| 0 <= a < old_v.len() && old_v[a].0 == pre[j].name@;
                assert(new_v[a].0 == post[j].name@);
            } else {
                assert(new_v[old_v.len() as int].0 == post[j].name@);
            }
        }
    }
}

/// Full grounded overlay document.
#[derive(Debug, Clone)]
pub struct GroundedOverlay {
    pub model_catalog: String,
    pub model_schema: String,
    pub model_table: String,
    pub annotations: AnnotationMap,
    /// Overlay version/schema marker.
    pub overlay_version: String,
}

/// The annotation of grounded element `elem` in table `catalog.schema.table`.
pub fn annotation_of(elem: &GroundedElement, catalog: &str, schema: &str, table: &str) -> (a: ElementAnnotation)
    ensures
        annotates(a, *elem, catalog@, schema@, table@),
{
    ElementAnnotation {
        philosophical_grounding: PhilosophicalGrounding {
            iri: elem.bfo_iri.clone(),
            label: owned(elem.bfo_category.label()),
            rationale: elem.rationale.clone(),
        },
        domain_module: infer_domain_module(elem.name.as_str()),
        aristotelian_definition: AristotelianDefinition {
            genus: owned(elem.bfo_category.label()),
            differentia: differentia_text(elem.name.as_str(), catalog, schema, table),
        },
    }
}

impl GroundedOverlay {
    /// Build an overlay from grounded elements and the model's coordinates.
    pub fn build(catalog: &str, schema: &str, table: &str, grounded: &[GroundedElement]) -> (r: Self)
        ensures
            r.model_catalog@ == catalog@,
            r.model_schema@ == schema@,
            r.model_table@ == table@,
            r.overlay_version@ == overlay_version_text(),
            annotates_all(r.annotations@, grounded@, catalog@, schema@, table@),
    {
        let mut annotations = AnnotationMap { entries: Vec::new() };
        let ghost gs = grounded@;
        let n = grounded.len();
        proof {
            assert(annotations@ =~= Seq::<(Seq<char>, ElementAnnotation)>::empty());
        }
        for i in 0..n
            invariant
                n == gs.len(),
                gs == grounded@,
                annotates_all(annotations@, gs.take(i as int), catalog@, schema@, table@),
        {
            let elem = &grounded[i];
            let ann = annotation_of(elem, catalog, schema, table);
            let ghost old_v = annotations@;
            proof {
                assert(gs.take(i + 1) =~= gs.take(i as int).push(*elem));
            }
            annotations.insert(elem.name.clone(), ann);
            proof {
                lemma_annotates_insert(old_v, annotations@, gs.take(i as int), *elem, ann, catalog@, schema@, table@);
            }
        }
        proof {
            assert(gs.take(n as int) =~= gs);
        }
        GroundedOverlay {
            model_catalog: owned(catalog),
            model_schema: owned(schema),
            model_table: owned(table),
            annotations,
            overlay_version: owned("ousia-atscale/0.1.0"),
        }
    }
}

/// The overlay of grounded elements of `model`, in the model's coordinates.
pub fn emit_overlay(model: &AtscaleModel, grounded: &[GroundedElement]) -> (r: GroundedOverlay)
    ensures
        r.model_catalog@ == model.catalog@,
        r.model_schema@ == model.schema@,
        r.model_table@ == model.table@,
        r.overlay_version@ == overlay_version_text(),
        annotates_all(r.annotations@, grounded@, model.catalog@, model.schema@, model.table@),
{
    GroundedOverlay::build(model.catalog.as_str(), model.schema.as_str(), model.table.as_str(), grounded)
}

/// Some entry of `v` is named `name`.
pub open spec fn has_entry_named(v: Seq<(Seq<char>, ElementAnnotation)>, name: Seq<char>) -> bool {
    exists|a: int| 0 <= a < v.len() && v[a].0 == name
}

/// Some grounded element of `gs` is named `name`.
pub open spec fn has_element_named(gs: Seq<GroundedElement>, name: Seq<char>) -> bool {
    exists|j: int| 0 <= j < gs.len() && (#[trigger] gs[j]).name@ == name
}

/// The keys of an overlay are exactly the names of the grounded elements: a
/// name has an entry if and only if some element carries it.
pub proof fn lemma_overlay_keys(
    v: Seq<(Seq<char>, ElementAnnotation)>,
    gs: Seq<GroundedElement>,
    catalog: Seq<char>,
    schema: Seq<char>,
    table: Seq<char>,
)
    requires
        annotates_all(v, gs, catalog, schema, table),
    ensures
        forall|k: Seq<char>| #[trigger] has_entry_named(v, k) <==> has_element_named(gs, k),
{
    assert forall|k: Seq<char>| #[trigger] has_entry_named(v, k) <==> has_element_named(gs, k) by {
        if has_entry_named(v, k) {
            let a = choose|a: int| 0 <= a < v.len() && v[a].0 == k;
            assert(entry_backed(gs, v[a], catalog, schema, table));
            let j = choose|j: int| #[trigger] is_last_named(gs, j, v[a].0) && annotates(v[a].1, gs[j], catalog, schema, table);
            assert(gs[j].name@ == k);
        }
        if has_element_named(gs, k) {
            let j = choose|j: int| 0 <= j < gs.len() && (#[trigger] gs[j]).name@ == k;
            let a = choose|a: int| 0 <= a < v.len() && v[a].0 == gs[j].name@;
            assert(v[a].0 == k);
        }
    }
}

/// Every column and every column group of a grounded model has an entry in
/// its overlay.
pub proof fn lemma_overlay_covers_model(
    m: AtscaleModel,
    gs: Vec<GroundedElement>,
    v: Seq<(Seq<char>, ElementAnnotation)>,
)
    requires
        ground_all_result(Ok(gs), model_entries(m)),
        annotates_all(v, gs@, m.catalog@, m.schema@, m.table@),
    ensures
        forall|i: int| 0 <= i < m.columns@.len() ==> has_entry_named(v, (#[trigger] m.columns@[i]).name@),
        forall|j: int| 0 <= j < m.column_groups@.len() ==> has_entry_named(v, (#[trigger] m.column_groups@[j]).name@),
{
    lemma_ground_model_names(m, gs);
    let nc = m.columns@.len() as int;
    assert forall|i: int| 0 <= i < nc implies has_entry_named(v, (#[trigger] m.columns@[i]).name@) by {
        assert(gs@[i].name@ == m.columns@[i].name@);
        let a = choose|a: int| 0 <= a < v.len() && v[a].0 == gs@[i].name@;
        assert(0 <= a < v.len() && v[a].0 == m.columns@[i].name@);
    }
    assert forall|j: int| 0 <= j < m.column_groups@.len() implies has_entry_named(v, (#[trigger] m.column_groups@[j]).name@) by {
        assert(gs@[nc + j].name@ == m.column_groups@[j].name@);
        let a = choose|a: int| 0 <= a < v.len() && v[a].0 == gs@[nc + j].name@;
        assert(0 <= a < v.len() && v[a].0 == m.column_groups@[j].name@);
    }
}

/// The domain module of an element's annotation follows the tokens of its
/// lower-cased name, the first group that matches winning: revenue, sales,
/// price, amount, cost give FinancialProcess; customer, account, client give
/// CustomerRole; product, item, sku give ProductQuality; date, time, period,
/// year, month, day give TemporalRegion; region, country, city, location give
/// SpatialRegion; count, qty, quantity, num give QuantitativeProcess; any other
/// name gives GeneralSemanticLayer.
pub proof fn lemma_domain_module_tokens(
    a: ElementAnnotation,
    g: GroundedElement,
    catalog: Seq<char>,
    schema: Seq<char>,
    table: Seq<char>,
)
    requires
        annotates(a, g, catalog, schema, table),
    ensures
        seq_contains(lowercase(g.name@), "revenue"@) || seq_contains(lowercase(g.name@), "sales"@) || seq_contains(lowercase(g.name@), "price"@) || seq_contains(lowercase(g.name@), "amount"@) || seq_contains(lowercase(g.name@), "cost"@) ==> a.domain_module@ == "FinancialProcess"@,
        !(seq_contains(lowercase(g.name@), "revenue"@) || seq_contains(lowercase(g.name@), "sales"@) || seq_contains(lowercase(g.name@), "price"@) || seq_contains(lowercase(g.name@), "amount"@) || seq_contains(lowercase(g.name@), "cost"@)) && (seq_contains(lowercase(g.name@), "customer"@) || seq_contains(lowercase(g.name@), "account"@) || seq_contains(lowercase(g.name@), "client"@)) ==> a.domain_module@ == "CustomerRole"@,
        !(seq_contains(lowercase(g.name@), "revenue"@) || seq_contains(lowercase(g.name@), "sales"@) || seq_contains(lowercase(g.name@), "price"@) || seq_contains(lowercase(g.name@), "amount"@) || seq_contains(lowercase(g.name@), "cost"@)) && !(seq_contains(lowercase(g.name@), "customer"@) || seq_contains(lowercase(g.name@), "account"@) || seq_contains(lowercase(g.name@), "client"@)) && (seq_contains(lowercase(g.name@), "product"@) || seq_contains(lowercase(g.name@), "item"@) || seq_contains(lowercase(g.name@), "sku"@)) ==> a.domain_module@ == "ProductQuality"@,
        !(seq_contains(lowercase(g.name@), "revenue"@) || seq_contains(lowercase(g.name@), "sales"@) || seq_contains(lowercase(g.name@), "price"@) || seq_contains(lowercase(g.name@), "amount"@) || seq_contains(lowercase(g.name@), "cost"@)) && !(seq_contains(lowercase(g.name@), "customer"@) || seq_contains(lowercase(g.name@), "account"@) || seq_contains(lowercase(g.name@), "client"@)) && !(seq_contains(lowercase(g.name@), "product"@) || seq_contains(lowercase(g.name@), "item"@) || seq_contains(lowercase(g.name@), "sku"@)) && (seq_contains(lowercase(g.name@), "date"@) || seq_contains(lowercase(g.name@), "time"@) || seq_contains(lowercase(g.name@), "period"@) || seq_contains(lowercase(g.name@), "year"@) || seq_contains(lowercase(g.name@), "month"@) || seq_contains(lowercase(g.name@), "day"@)) ==> a.domain_module@ == "TemporalRegion"@,
        !(seq_contains(lowercase(g.name@), "revenue"@) || seq_contains(lowercase(g.name@), "sales"@) || seq_contains(lowercase(g.name@), "price"@) || seq_contains(lowercase(g.name@), "amount"@) || seq_contains(lowercase(g.name@), "cost"@)) && !(seq_contains(lowercase(g.name@), "customer"@) || seq_contains(lowercase(g.name@), "account"@) || seq_contains(lowercase(g.name@), "client"@)) && !(seq_contains(lowercase(g.name@), "product"@) || seq_contains(lowercase(g.name@), "item"@) || seq_contains(lowercase(g.name@), "sku"@)) && !(seq_contains(lowercase(g.name@), "date"@) || seq_contains(lowercase(g.name@), "time"@) || seq_contains(lowercase(g.name@), "period"@) || seq_contains(lowercase(g.name@), "year"@) || seq_contains(lowercase(g.name@), "month"@) || seq_contains(lowercase(g.name@), "day"@)) && (seq_contains(lowercase(g.name@), "region"@) || seq_contains(lowercase(g.name@), "country"@) || seq_contains(lowercase(g.name@), "city"@) || seq_contains(lowercase(g.name@), "location"@)) ==> a.domain_module@ == "SpatialRegion"@,
        !(seq_contains(lowercase(g.name@), "revenue"@) || seq_contains(lowercase(g.name@), "sales"@) || seq_contains(lowercase(g.name@), "price"@) || seq_contains(lowercase(g.name@), "amount"@) || seq_contains(lowercase(g.name@), "cost"@)) && !(seq_contains(lowercase(g.name@), "customer"@) || seq_contains(lowercase(g.name@), "account"@) || seq_contains(lowercase(g.name@), "client"@)) && !(seq_contains(lowercase(g.name@), "product"@) || seq_contains(lowercase(g.name@), "item"@) || seq_contains(lowercase(g.name@), "sku"@)) && !(seq_contains(lowercase(g.name@), "date"@) || seq_contains(lowercase(g.name@), "time"@) || seq_contains(lowercase(g.name@), "period"@) || seq_contains(lowercase(g.name@), "year"@) || seq_contains(lowercase(g.name@), "month"@) || seq_contains(lowercase(g.name@), "day"@)) && !(seq_contains(lowercase(g.name@), "region"@) || seq_contains(lowercase(g.name@), "country"@) || seq_contains(lowercase(g.name@), "city"@) || seq_contains(lowercase(g.name@), "location"@)) && (seq_contains(lowercase(g.name@), "count"@) || seq_contains(lowercase(g.name@), "qty"@) || seq_contains(lowercase(g.name@), "quantity"@) || seq_contains(lowercase(g.name@), "num"@)) ==> a.domain_module@
            == "QuantitativeProcess"@,
        !(seq_contains(lowercase(g.name@), "revenue"@) || seq_contains(lowercase(g.name@), "sales"@) || seq_contains(lowercase(g.name@), "price"@) || seq_contains(lowercase(g.name@), "amount"@) || seq_contains(lowercase(g.name@), "cost"@)) && !(seq_contains(lowercase(g.name@), "customer"@) || seq_contains(lowercase(g.name@), "account"@) || seq_contains(lowercase(g.name@), "client"@)) && !(seq_contains(lowercase(g.name@), "product"@) || seq_contains(lowercase(g.name@), "item"@) || seq_contains(lowercase(g.name@), "sku"@)) && !(seq_contains(lowercase(g.name@), "date"@) || seq_contains(lowercase(g.name@), "time"@) || seq_contains(lowercase(g.name@), "period"@) || seq_contains(lowercase(g.name@), "year"@) || seq_contains(lowercase(g.name@), "month"@) || seq_contains(lowercase(g.name@), "day"@)) && !(seq_contains(lowercase(g.name@), "region"@) || seq_contains(lowercase(g.name@), "country"@) || seq_contains(lowercase(g.name@), "city"@) || seq_contains(lowercase(g.name@), "location"@)) && !(seq_contains(lowercase(g.name@), "count"@) || seq_contains(lowercase(g.name@), "qty"@) || seq_contains(lowercase(g.name@), "quantity"@) || seq_contains(lowercase(g.name@), "num"@)) ==> a.domain_module@
            == "GeneralSemanticLayer"@,
{
}

} // verus!
