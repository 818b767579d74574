//! BFO category mapping rules.
//!
//! | AtScale element kind | BFO 2020 category      | Rationale |
//! |----------------------|------------------------|-----------|
//! | measure              | InformationGDC         | information *about* a process (revenue is about a sales process) |
//! | dimension/attribute  | Role or Quality        | Role when the lower-cased name contains a relational/status token, Quality otherwise |
//! | date/time            | TemporalRegion         | temporal intervals and instants |
//! | key                  | Quality                | identifiers inhere in the entity identified |
//! | hierarchy/level      | Role                   | a level is a role played within a classification scheme |
//! | set/named_set        | Quality                | a set collects entities sharing a quality |
//! | unknown              | IndependentContinuant  | fallback: the bearer of unclassified properties |
//!
//! An element with a `bfo_hint` takes the hinted category whatever its kind;
//! a hint that names no category is an error.
use crate::error::AtscaleError;
use crate::model::{
    column_kind, group_kind, kind_label, opt_str, opt_string, AtscaleModel, ElementKind,
    ModelElement,
};
use crate::text::{lowercase, owned, push_char, seq_contains, str_contains, str_eq, to_lowercase};
use vstd::prelude::*;

verus! {

/// BFO 2020 upper-level categories used in the mapping.
#[derive(Debug, Clone, Copy, PartialEq, Eq, Structural)]
pub enum BfoCategory {
    /// Generically dependent continuant that carries propositional content.
    InformationGDC,
    /// Specifically dependent continuant that inheres in a bearer.
    Quality,
    /// Realizable entity: a role played by a bearer in a context.
    Role,
    /// A temporal region (interval or instant).
    TemporalRegion,
    /// Fallback for bearers of unknown properties.
    IndependentContinuant,
    /// A process: something that unfolds over time.
    Process,
    /// A disposition: a realizable that can be triggered.
    Disposition,
}

/// The BFO class identifier (the IRI fragment in the OBO namespace).
pub open spec fn category_iri(c: BfoCategory) -> Seq<char> {
    match c {
        BfoCategory::InformationGDC => "BFO_0000031"@,
        BfoCategory::Quality => "BFO_0000019"@,
        BfoCategory::Role => "BFO_0000023"@,
        BfoCategory::TemporalRegion => "BFO_0000008"@,
        BfoCategory::IndependentContinuant => "BFO_0000004"@,
        BfoCategory::Process => "BFO_0000015"@,
        BfoCategory::Disposition => "BFO_0000016"@,
    }
}

/// The human-readable label of a category.
pub open spec fn category_label(c: BfoCategory) -> Seq<char> {
    match c {
        BfoCategory::InformationGDC => "information generically dependent continuant"@,
        BfoCategory::Quality => "quality"@,
        BfoCategory::Role => "role"@,
        BfoCategory::TemporalRegion => "temporal region"@,
        BfoCategory::IndependentContinuant => "independent continuant"@,
        BfoCategory::Process => "process"@,
        BfoCategory::Disposition => "disposition"@,
    }
}

/// The namespace of the BFO class IRIs.
pub open spec fn obo_prefix() -> Seq<char> {
    "http://purl.obolibrary.org/obo/"@
}

impl BfoCategory {
    /// Short IRI fragment in the BFO namespace.
    pub fn bfo_iri(&self) -> (r: &'static str)
        ensures
            r@ == category_iri(*self),
    {
        match self {
            BfoCategory::InformationGDC => "BFO_0000031",
            BfoCategory::Quality => "BFO_0000019",
            BfoCategory::Role => "BFO_0000023",
            BfoCategory::TemporalRegion => "BFO_0000008",
            BfoCategory::IndependentContinuant => "BFO_0000004",
            BfoCategory::Process => "BFO_0000015",
            BfoCategory::Disposition => "BFO_0000016",
        }
    }

    /// Human-readable label.
    pub fn label(&self) -> (r: &'static str)
        ensures
            r@ == category_label(*self),
    {
        match self {
            BfoCategory::InformationGDC => "information generically dependent continuant",
            BfoCategory::Quality => "quality",
            BfoCategory::Role => "role",
            BfoCategory::TemporalRegion => "temporal region",
            BfoCategory::IndependentContinuant => "independent continuant",
            BfoCategory::Process => "process",
            BfoCategory::Disposition => "disposition",
        }
    }
}

/// A model element with its proposed BFO grounding.
#[derive(Debug)]
pub struct GroundedElement {
    pub name: String,
    pub element_type: String,
    pub bfo_category: BfoCategory,
    pub bfo_iri: String,
    pub rationale: String,
}

impl Clone for GroundedElement {
    fn clone(&self) -> (r: Self)
        ensures
            r == *self,
    {
        GroundedElement {
            name: self.name.clone(),
            element_type: self.element_type.clone(),
            bfo_category: self.bfo_category,
            bfo_iri: self.bfo_iri.clone(),
            rationale: self.rationale.clone(),
        }
    }
}

/// Stateless mapper: applies the explicit rules to model elements.
pub struct Mapper;

/// A lower-cased name with one of these tokens suggests a relational role
/// rather than an intrinsic quality.
pub open spec fn role_like(s: Seq<char>) -> bool {
    ||| seq_contains(s, "status"@)
    ||| seq_contains(s, "type"@)
    ||| seq_contains(s, "category"@)
    ||| seq_contains(s, "role"@)
    ||| seq_contains(s, "class"@)
    ||| seq_contains(s, "tier"@)
    ||| seq_contains(s, "segment"@)
    ||| seq_contains(s, "group"@)
    ||| seq_contains(s, "label"@)
    ||| seq_contains(s, "flag"@)
    ||| seq_contains(s, "indicator"@)
    ||| seq_contains(s, "kind"@)
    ||| seq_contains(s, "classification"@)
    ||| seq_contains(s, "designation"@)
    ||| seq_contains(s, "rank"@)
}

/// The category named by an already lower-cased `bfo_hint`, if any.
pub open spec fn hint_category(h: Seq<char>) -> Option<BfoCategory> {
    if h == "quality"@ {
        Some(BfoCategory::Quality)
    } else if h == "role"@ {
        Some(BfoCategory::Role)
    } else if h == "information_gdc"@ {
        Some(BfoCategory::InformationGDC)
    } else if h == "temporal_region"@ {
        Some(BfoCategory::TemporalRegion)
    } else if h == "process"@ {
        Some(BfoCategory::Process)
    } else if h == "disposition"@ {
        Some(BfoCategory::Disposition)
    } else if h == "independent_continuant"@ {
        Some(BfoCategory::IndependentContinuant)
    } else {
        None
    }
}

/// The category the rules assign to an element of kind `kind` whose
/// lower-cased name is `name_lower`.
pub open spec fn rule_category(kind: ElementKind, name_lower: Seq<char>) -> BfoCategory {
    match kind {
        ElementKind::Measure => BfoCategory::InformationGDC,
        ElementKind::Date | ElementKind::Time => BfoCategory::TemporalRegion,
        ElementKind::Key => BfoCategory::Quality,
        ElementKind::Hierarchy | ElementKind::Level => BfoCategory::Role,
        ElementKind::NamedSet => BfoCategory::Quality,
        ElementKind::Dimension | ElementKind::Attribute => if role_like(name_lower) {
            BfoCategory::Role
        } else {
            BfoCategory::Quality
        },
        ElementKind::Unknown => BfoCategory::IndependentContinuant,
    }
}

/// The text that follows the quoted name in the rationale of a rule.
pub open spec fn rule_reason(kind: ElementKind, name_lower: Seq<char>) -> Seq<char> {
    match kind {
        ElementKind::Measure =>
            "' is a measure \u{2014} an information GDC that inheres in a process; it carries propositional content about the magnitude of some activity (BFO:GDC)."@,
        ElementKind::Date | ElementKind::Time =>
            "' is a date/time field \u{2014} a temporal region (interval or instant) at which processes and states are located (BFO:temporal region)."@,
        ElementKind::Key =>
            "' is a key \u{2014} an identifier quality that inheres in the entity it identifies (BFO:quality)."@,
        ElementKind::Hierarchy | ElementKind::Level =>
            "' is a hierarchy/level \u{2014} a role that members play within a classification scheme (BFO:role)."@,
        ElementKind::NamedSet =>
            "' is a named set \u{2014} a grouping of entities sharing a quality; the shared quality grounds the set (BFO:quality)."@,
        ElementKind::Dimension | ElementKind::Attribute => if role_like(name_lower) {
            "' is a dimension/attribute with relational/status semantics \u{2014} it denotes a role played by entities in a social or organisational context (BFO:role)."@
        } else {
            "' is a dimension/attribute \u{2014} a quality that inheres in its bearer, characterising it intrinsically (BFO:quality)."@
        },
        ElementKind::Unknown =>
            "' has an unrecognised element type; defaulting to independent continuant as a conservative bearer placeholder (BFO:independent continuant)."@,
    }
}

/// The rationale of a rule-based assignment.
pub open spec fn rule_rationale(kind: ElementKind, name: Seq<char>, name_lower: Seq<char>) -> Seq<char> {
    "'"@ + name + rule_reason(kind, name_lower)
}

/// The rationale of an assignment fixed by a `bfo_hint`.
pub open spec fn override_rationale(name: Seq<char>, hint: Seq<char>, c: BfoCategory) -> Seq<char> {
    "'"@ + name + "' carries an explicit bfo_hint override '"@ + hint
        + "'; the heuristic for its element type is bypassed (BFO:"@ + category_label(c) + ")."@
}

/// The category and rationale of an element with this name, kind and hint, or
/// `None` when the hint names no category.
pub open spec fn grounding(name: Seq<char>, kind: ElementKind, hint: Option<Seq<char>>) -> Option<
    (BfoCategory, Seq<char>),
> {
    match hint {
        None => Some(
            (rule_category(kind, lowercase(name)), rule_rationale(kind, name, lowercase(name))),
        ),
        Some(h) => match hint_category(lowercase(h)) {
            Some(c) => Some((c, override_rationale(name, h, c))),
            None => None,
        },
    }
}

/// `g` records the grounding of an element with this name and kind into
/// category `c` with rationale `rationale`.
pub open spec fn grounded_as(
    g: GroundedElement,
    name: Seq<char>,
    kind: ElementKind,
    c: BfoCategory,
    rationale: Seq<char>,
) -> bool {
    &&& g.name@ == name
    &&& g.element_type@ == kind_label(kind)
    &&& g.bfo_category == c
    &&& g.bfo_iri@ == obo_prefix() + category_iri(c)
    &&& g.rationale@ == rationale
}

/// What grounding an element with this name, kind and hint gives.
pub open spec fn ground_result(
    r: Result<GroundedElement, AtscaleError>,
    name: Seq<char>,
    kind: ElementKind,
    hint: Option<Seq<char>>,
) -> bool {
    match grounding(name, kind, hint) {
        Some((c, rationale)) => r matches Ok(g) && grounded_as(g, name, kind, c, rationale),
        None => r matches Err(AtscaleError::InvalidBfoHint { column, hint: h }) && column@ == name
            && hint == Some(h@),
    }
}

/// The (name, kind, hint) of each element of `m`: its columns in order, then
/// its column groups in order.
pub open spec fn model_entries(m: AtscaleModel) -> Seq<(Seq<char>, ElementKind, Option<Seq<char>>)> {
    Seq::new(m.columns@.len(), |i: int| (m.columns@[i].name@, column_kind(m.columns@[i].column_type@), opt_string(m.columns@[i].bfo_hint)))
        + Seq::new(m.column_groups@.len(), |j: int| (m.column_groups@[j].name@, group_kind(m.column_groups@[j].group_type@), None::<Seq<char>>))
}

/// The grounding of entry `e` (see `grounding`).
pub open spec fn entry_grounding(e: (Seq<char>, ElementKind, Option<Seq<char>>)) -> Option<(BfoCategory, Seq<char>)> {
    grounding(e.0, e.1, e.2)
}

/// `g` records the grounding of entry `e`, which has one.
pub open spec fn grounds_entry(g: GroundedElement, e: (Seq<char>, ElementKind, Option<Seq<char>>)) -> bool {
    match entry_grounding(e) {
        Some((c, rationale)) => grounded_as(g, e.0, e.1, c, rationale),
        None => false,
    }
}

/// What grounding all of `entries` in order gives: every grounding, or the
/// error of the first entry whose hint names no category.
pub open spec fn ground_all_result(
    r: Result<Vec<GroundedElement>, AtscaleError>,
    entries: Seq<(Seq<char>, ElementKind, Option<Seq<char>>)>,
) -> bool {
    match r {
        Ok(v) => v@.len() == entries.len() && forall|i: int|
            0 <= i < entries.len() ==> grounds_entry(#[trigger] v@[i], entries[i]),
        Err(e) => exists|i: int|
            0 <= i < entries.len() && (forall|k: int| 0 <= k < i ==> #[trigger] entry_grounding(entries[k]) is Some)
                && ground_result(Err(e), entries[i].0, entries[i].1, entries[i].2),
    }
}

impl Mapper {
    pub fn new() -> (m: Self)
        ensures
            m == Mapper,
    {
        Mapper
    }

    /// Whether an already lower-cased name suggests a relational role.
    pub fn is_role_like(name_lower: &str) -> (r: bool)
        ensures
            r == role_like(name_lower@),
    {
        str_contains(name_lower, "status") || str_contains(name_lower, "type")
            || str_contains(name_lower, "category") || str_contains(name_lower, "role")
            || str_contains(name_lower, "class") || str_contains(name_lower, "tier")
            || str_contains(name_lower, "segment") || str_contains(name_lower, "group")
            || str_contains(name_lower, "label") || str_contains(name_lower, "flag")
            || str_contains(name_lower, "indicator") || str_contains(name_lower, "kind")
            || str_contains(name_lower, "classification") || str_contains(name_lower, "designation")
            || str_contains(name_lower, "rank")
    }

    /// The category named by an already lower-cased `bfo_hint`, if any.
    pub fn category_for_hint(hint_lower: &str) -> (r: Option<BfoCategory>)
        ensures
            r == hint_category(hint_lower@),
    {
        if str_eq(hint_lower, "quality") {
            Some(BfoCategory::Quality)
        } else if str_eq(hint_lower, "role") {
            Some(BfoCategory::Role)
        } else if str_eq(hint_lower, "information_gdc") {
            Some(BfoCategory::InformationGDC)
        } else if str_eq(hint_lower, "temporal_region") {
            Some(BfoCategory::TemporalRegion)
        } else if str_eq(hint_lower, "process") {
            Some(BfoCategory::Process)
        } else if str_eq(hint_lower, "disposition") {
            Some(BfoCategory::Disposition)
        } else if str_eq(hint_lower, "independent_continuant") {
            Some(BfoCategory::IndependentContinuant)
        } else {
            None
        }
    }

    /// The rule-based category and rationale of an element of kind `kind`
    /// named `name`, whose lower-cased name is `name_lower`.
    pub fn assign(&self, kind: &ElementKind, name: &str, name_lower: &str) -> (r: (
        BfoCategory,
        String,
    ))
        ensures
            r.0 == rule_category(*kind, name_lower@),
            r.1@ == rule_rationale(*kind, name@, name_lower@),
    {
        let mut rationale = owned("'");
        rationale.append(name);
        let cat = match kind {
            ElementKind::Measure => {
                rationale.append(
                    "' is a measure \u{2014} an information GDC that inheres in a process; it carries propositional content about the magnitude of some activity (BFO:GDC).",
                );
                BfoCategory::InformationGDC
            },
            ElementKind::Date | ElementKind::Time => {
                rationale.append(
                    "' is a date/time field \u{2014} a temporal region (interval or instant) at which processes and states are located (BFO:temporal region).",
                );
                BfoCategory::TemporalRegion
            },
            ElementKind::Key => {
                rationale.append(
                    "' is a key \u{2014} an identifier quality that inheres in the entity it identifies (BFO:quality).",
                );
                BfoCategory::Quality
            },
            ElementKind::Hierarchy | ElementKind::Level => {
                rationale.append(
                    "' is a hierarchy/level \u{2014} a role that members play within a classification scheme (BFO:role).",
                );
                BfoCategory::Role
            },
            ElementKind::NamedSet => {
                rationale.append(
                    "' is a named set \u{2014} a grouping of entities sharing a quality; the shared quality grounds the set (BFO:quality).",
                );
                BfoCategory::Quality
            },
            ElementKind::Dimension | ElementKind::Attribute => {
                if Self::is_role_like(name_lower) {
                    rationale.append(
                        "' is a dimension/attribute with relational/status semantics \u{2014} it denotes a role played by entities in a social or organisational context (BFO:role).",
                    );
                    BfoCategory::Role
                } else {
                    rationale.append(
                        "' is a dimension/attribute \u{2014} a quality that inheres in its bearer, characterising it intrinsically (BFO:quality).",
                    );
                    BfoCategory::Quality
                }
            },
            ElementKind::Unknown => {
                rationale.append(
                    "' has an unrecognised element type; defaulting to independent continuant as a conservative bearer placeholder (BFO:independent continuant).",
                );
                BfoCategory::IndependentContinuant
            },
        };
        (cat, rationale)
    }

    /// Propose a BFO category for a single model element.
    pub fn ground<'a>(&self, elem: &ModelElement<'a>) -> (r: Result<GroundedElement, AtscaleError>)
        ensures
            ground_result(r, elem.name@, elem.element_type, opt_str(elem.bfo_hint)),
    {
        let (cat, rationale) = match elem.bfo_hint {
            Some(hint) => {
                let hint_lower = to_lowercase(hint);
                match Self::category_for_hint(hint_lower.as_str()) {
                    Some(c) => {
                        let mut rationale = owned("'");
                        rationale.append(elem.name);
                        rationale.append("' carries an explicit bfo_hint override '");
                        rationale.append(hint);
                        rationale.append("'; the heuristic for its element type is bypassed (BFO:");
                        rationale.append(c.label());
                        rationale.append(").");
                        (c, rationale)
                    },
                    None => {
                        return Err(
                            AtscaleError::InvalidBfoHint { column: owned(elem.name), hint: owned(hint) },
                        );
                    },
                }
            },
            None => {
                let name_lower = to_lowercase(elem.name);
                self.assign(&elem.element_type, elem.name, name_lower.as_str())
            },
        };
        let mut iri = owned("http://purl.obolibrary.org/obo/");
        iri.append(cat.bfo_iri());
        Ok(
            GroundedElement {
                name: owned(elem.name),
                element_type: owned(elem.element_type.label()),
                bfo_category: cat,
                bfo_iri: iri,
                rationale,
            },
        )
    }

    /// Ground all elements of a model, in the order of `AtscaleModel::elements`;
    /// the first element whose hint names no category makes it fail.
    pub fn ground_model(&self, model: &AtscaleModel) -> (r: Result<Vec<GroundedElement>, AtscaleError>)
        ensures
            ground_all_result(r, model_entries(*model)),
    {
        let elems = model.elements();
        let ghost entries = model_entries(*model);
        let mut out: Vec<GroundedElement> = Vec::new();
        let n = elems.len();
        for i in 0..n
            invariant
                n == elems.len(),
                crate::model::lists_elements_of(elems@, *model),
                entries == model_entries(*model),
                out.len() == i,
                forall|k: int| 0 <= k < i ==> grounds_entry(#[trigger] out@[k], entries[k]),
        {
            proof {
                let nc = model.columns.len() as int;
                if (i as int) < nc {
                    assert(crate::model::is_column_element(elems@[i as int], model.columns@[i as int]));
                } else {
                    assert(crate::model::is_group_element(elems@[nc + (i - nc)], model.column_groups@[i - nc]));
                }
                assert(entries[i as int] == (elems@[i as int].name@, elems@[i as int].element_type, opt_str(elems@[i as int].bfo_hint)));
            }
            let g = self.ground(&elems[i]);
            match g {
                Ok(g) => {
                    out.push(g);
                },
                Err(e) => {
                    proof {
                        assert forall|k: int| 0 <= k < i implies #[trigger] entry_grounding(entries[k]) is Some by {
                            assert(grounds_entry(out@[k], entries[k]));
                        }
                        assert(ground_result(Err(e), entries[i as int].0, entries[i as int].1, entries[i as int].2));
                    }
                    return Err(e);
                },
            }
        }
        Ok(out)
    }
}

/// Every grounded element carries a BFO class IRI in the OBO namespace
/// (`http://purl.obolibrary.org/obo/BFO_...`) and a non-empty rationale.
pub proof fn lemma_grounding_iri_and_rationale(
    g: GroundedElement,
    name: Seq<char>,
    kind: ElementKind,
    hint: Option<Seq<char>>,
)
    requires
        ground_result(Ok(g), name, kind, hint),
    ensures
        g.bfo_iri@.len() > obo_prefix().len() + 4,
        g.bfo_iri@.subrange(0, obo_prefix().len() + 4int) == "http://purl.obolibrary.org/obo/BFO_"@,
        g.rationale@.len() > 0,
{
    reveal_strlit("http://purl.obolibrary.org/obo/");
    reveal_strlit("http://purl.obolibrary.org/obo/BFO_");
    reveal_strlit("'");
    reveal_strlit("BFO_0000031");
    reveal_strlit("BFO_0000019");
    reveal_strlit("BFO_0000023");
    reveal_strlit("BFO_0000008");
    reveal_strlit("BFO_0000004");
    reveal_strlit("BFO_0000015");
    reveal_strlit("BFO_0000016");
    let iri = g.bfo_iri@;
    assert(iri == obo_prefix() + category_iri(g.bfo_category));
    assert(iri.subrange(0, obo_prefix().len() + 4int) =~= "http://purl.obolibrary.org/obo/BFO_"@);
    assert(g.rationale@[0] == '\'');
}

/// A hint that names a category decides the grounding whatever the element's
/// kind; a hint that names none makes grounding fail whatever the kind.
pub proof fn lemma_hint_overrides_kind(name: Seq<char>, k1: ElementKind, k2: ElementKind, hint: Seq<char>)
    ensures
        hint_category(lowercase(hint)) is Some ==> grounding(name, k1, Some(hint)) == grounding(name, k2, Some(hint)),
        hint_category(lowercase(hint)) is None ==> grounding(name, k1, Some(hint)) is None,
{
}

/// Hint values are case-insensitive: two hints with the same lower-case form
/// give the same category.
pub proof fn lemma_hint_case_insensitive(h1: Seq<char>, h2: Seq<char>)
    requires
        lowercase(h1) == lowercase(h2),
    ensures
        hint_category(lowercase(h1)) == hint_category(lowercase(h2)),
{
}

/// Only elements of unknown kind fall back to IndependentContinuant under the
/// rules (without a hint).
pub proof fn lemma_rules_fallback_only_unknown(kind: ElementKind, name_lower: Seq<char>)
    ensures
        (rule_category(kind, name_lower) == BfoCategory::IndependentContinuant) == (kind == ElementKind::Unknown),
{
}

/// Grounding a model gives one element per column and column group, in
/// order, named like them: the columns first, then the groups.
pub proof fn lemma_ground_model_names(m: AtscaleModel, v: Vec<GroundedElement>)
    requires
        ground_all_result(Ok(v), model_entries(m)),
    ensures
        v@.len() == m.columns@.len() + m.column_groups@.len(),
        forall|i: int| 0 <= i < m.columns@.len() ==> (#[trigger] v@[i]).name@ == m.columns@[i].name@,
        forall|j: int|
            0 <= j < m.column_groups@.len() ==> (#[trigger] v@[m.columns@.len() + j]).name@ == m.column_groups@[j].name@,
{
    let es = model_entries(m);
    assert forall|i: int| 0 <= i < m.columns@.len() implies (#[trigger] v@[i]).name@ == m.columns@[i].name@ by {
        assert(grounds_entry(v@[i], es[i]));
    }
    assert forall|j: int|
        0 <= j < m.column_groups@.len() implies (#[trigger] v@[m.columns@.len() + j]).name@ == m.column_groups@[j].name@ by {
        assert(grounds_entry(v@[m.columns@.len() + j], es[m.columns@.len() + j]));
    }
}

impl Default for Mapper {
    fn default() -> (m: Self)
        ensures
            m == Mapper,
    {
        Self::new()
    }
}

/// How a rationale is shown in the grounding table: its first 60 characters,
/// followed by an ellipsis when the rationale is longer than 60 bytes.
pub open spec fn shortened(s: Seq<char>, byte_len: usize) -> Seq<char> {
    let head = if s.len() <= 60 { s } else { s.take(60) };
    if byte_len > 60 {
        head + "\u{2026}"@
    } else {
        head
    }
}

/// The rationale as shown in the grounding table.
pub fn rationale_display(rationale: &str) -> (r: String)
    ensures
        r@ == shortened(rationale@, rationale.len()),
{
    let n = rationale.unicode_len();
    let k: usize = if n < 60 { n } else { 60 };
    let mut out = String::new();
    for i in 0..k
        invariant
            k <= n,
            n == rationale@.len(),
            out@ == rationale@.take(i as int),
    {
        push_char(&mut out, rationale.get_char(i));
        proof {
            assert(out@ =~= rationale@.take(i + 1));
        }
    }
    proof {
        assert(rationale@.take(n as int) =~= rationale@);
    }
    if rationale.len() > 60 {
        out.append("\u{2026}");
    }
    out
}

/// The name carries one of the documented role tokens.
pub open spec fn names_a_role(n: Seq<char>) -> bool {
    seq_contains(n, "status"@) || seq_contains(n, "type"@) || seq_contains(n, "category"@) || seq_contains(n, "role"@) || seq_contains(n, "class"@) || seq_contains(n, "tier"@) || seq_contains(n, "segment"@) || seq_contains(n, "group"@) || seq_contains(n, "label"@) || seq_contains(n, "flag"@) || seq_contains(n, "indicator"@) || seq_contains(n, "kind"@) || seq_contains(n, "classification"@) || seq_contains(n, "designation"@) || seq_contains(n, "rank"@)
}

/// Each category's IRI is its BFO 2020 class, and no two categories share a
/// class.
pub proof fn lemma_category_iris(c1: BfoCategory, c2: BfoCategory)
    ensures
        category_iri(BfoCategory::InformationGDC) == "BFO_0000031"@,
        category_iri(BfoCategory::Quality) == "BFO_0000019"@,
        category_iri(BfoCategory::Role) == "BFO_0000023"@,
        category_iri(BfoCategory::TemporalRegion) == "BFO_0000008"@,
        category_iri(BfoCategory::IndependentContinuant) == "BFO_0000004"@,
        category_iri(BfoCategory::Process) == "BFO_0000015"@,
        category_iri(BfoCategory::Disposition) == "BFO_0000016"@,
        category_iri(c1) == category_iri(c2) ==> c1 == c2,
{
    reveal_strlit("BFO_0000031");
    reveal_strlit("BFO_0000019");
    reveal_strlit("BFO_0000023");
    reveal_strlit("BFO_0000008");
    reveal_strlit("BFO_0000004");
    reveal_strlit("BFO_0000015");
    reveal_strlit("BFO_0000016");
    if category_iri(c1) == category_iri(c2) && c1 != c2 {
        assert(category_iri(c1)[9] != category_iri(c2)[9] || category_iri(c1)[10] != category_iri(c2)[10]);
    }
}

/// Grounding a dimension or attribute without a hint: when its lower-cased
/// name contains one of the role tokens (status, type, category, role, class,
/// tier, segment, group, label, flag, indicator, kind, classification,
/// designation, rank) it is a role, typed to `BFO_0000023`; otherwise it is a
/// quality, typed to `BFO_0000019`.
pub proof fn lemma_role_tokens_ground_to_role(
    r: Result<GroundedElement, AtscaleError>,
    name: Seq<char>,
    kind: ElementKind,
)
    requires
        ground_result(r, name, kind, None),
        kind is Dimension || kind is Attribute,
    ensures
        r is Ok,
        names_a_role(lowercase(name)) ==> r->Ok_0.bfo_category == BfoCategory::Role && r->Ok_0.bfo_iri@
            == "http://purl.obolibrary.org/obo/BFO_0000023"@,
        !names_a_role(lowercase(name)) ==> r->Ok_0.bfo_category == BfoCategory::Quality && r->Ok_0.bfo_iri@
            == "http://purl.obolibrary.org/obo/BFO_0000019"@,
{
    reveal_strlit("http://purl.obolibrary.org/obo/");
    reveal_strlit("BFO_0000023");
    reveal_strlit("BFO_0000019");
    reveal_strlit("http://purl.obolibrary.org/obo/BFO_0000023");
    reveal_strlit("http://purl.obolibrary.org/obo/BFO_0000019");
    assert(obo_prefix() + "BFO_0000023"@ =~= "http://purl.obolibrary.org/obo/BFO_0000023"@);
    assert(obo_prefix() + "BFO_0000019"@ =~= "http://purl.obolibrary.org/obo/BFO_0000019"@);
}

} // verus!
