//! AtScale model types, in the shape of the `describe_model` output.
//!
//! A model holds columns (measures, dimensions, keys, dates, ...) and column
//! groups (hierarchies, levels, sets). `elements` gives a uniform view of both
//! for the mapper.
use crate::error::AtscaleError;
use crate::text::{ascii_lowercase, is_ascii_chars, lowercase, str_eq, to_lowercase};
use vstd::prelude::*;

verus! {

/// The top-level model returned by describe_model.
#[derive(Debug, Clone)]
pub struct AtscaleModel {
    pub catalog: String,
    pub schema: String,
    pub table: String,
    pub description: Option<String>,
    pub columns: Vec<Column>,
    /// Logical groupings (folder-level containers in the AtScale UI).
    pub column_groups: Vec<ColumnGroup>,
}

/// A single column/field within a model.
#[derive(Debug, Clone)]
pub struct Column {
    pub name: String,
    pub description: Option<String>,
    /// "measure", "dimension", "attribute", "key", "date", "time"
    pub column_type: String,
    pub folder: Option<String>,
    /// Aggregation function for measures (sum, avg, count, ...)
    pub aggregation: Option<String>,
    /// Optional explicit BFO category; when present it takes precedence over
    /// all heuristics. Valid values (case-insensitive): "quality", "role",
    /// "information_gdc", "temporal_region", "process", "disposition",
    /// "independent_continuant". Any other value is an error.
    pub bfo_hint: Option<String>,
}

/// A logical column group / hierarchy level.
#[derive(Debug, Clone)]
pub struct ColumnGroup {
    pub name: String,
    pub description: Option<String>,
    /// "hierarchy", "level", "set", "named_set"
    pub group_type: String,
    pub columns: Vec<String>,
}

/// A unified view of any mappable element in the model.
#[derive(Debug, Clone)]
pub struct ModelElement<'a> {
    pub name: &'a str,
    pub element_type: ElementKind,
    pub description: Option<&'a str>,
    pub aggregation: Option<&'a str>,
    pub folder: Option<&'a str>,
    /// Taken from `Column::bfo_hint`; `None` for column-group elements.
    pub bfo_hint: Option<&'a str>,
}

/// Canonical element kind used for BFO mapping decisions.
#[derive(Debug, Clone, Copy, PartialEq, Eq, Structural)]
pub enum ElementKind {
    Measure,
    Dimension,
    Attribute,
    Key,
    Date,
    Time,
    Hierarchy,
    Level,
    /// A "set" or "named_set" group.
    NamedSet,
    Unknown,
}

/// The kind named by an already lower-cased column type.
pub open spec fn kind_of_lower(s: Seq<char>) -> ElementKind {
    if s == "measure"@ {
        ElementKind::Measure
    } else if s == "dimension"@ {
        ElementKind::Dimension
    } else if s == "attribute"@ {
        ElementKind::Attribute
    } else if s == "key"@ {
        ElementKind::Key
    } else if s == "date"@ {
        ElementKind::Date
    } else if s == "time"@ {
        ElementKind::Time
    } else {
        ElementKind::Unknown
    }
}

/// The kind named by an already lower-cased column-group type.
pub open spec fn group_kind_of_lower(s: Seq<char>) -> ElementKind {
    if s == "hierarchy"@ {
        ElementKind::Hierarchy
    } else if s == "level"@ {
        ElementKind::Level
    } else if s == "named_set"@ || s == "set"@ {
        ElementKind::NamedSet
    } else {
        ElementKind::Unknown
    }
}

/// The kind of a column whose type string is `s` (compared case-insensitively).
pub open spec fn column_kind(s: Seq<char>) -> ElementKind {
    kind_of_lower(lowercase(s))
}

/// The kind of a column group whose type string is `s` (case-insensitively).
pub open spec fn group_kind(s: Seq<char>) -> ElementKind {
    group_kind_of_lower(lowercase(s))
}

/// The label of a kind.
pub open spec fn kind_label(k: ElementKind) -> Seq<char> {
    match k {
        ElementKind::Measure => "measure"@,
        ElementKind::Dimension => "dimension"@,
        ElementKind::Attribute => "attribute"@,
        ElementKind::Key => "key"@,
        ElementKind::Date => "date"@,
        ElementKind::Time => "time"@,
        ElementKind::Hierarchy => "hierarchy"@,
        ElementKind::Level => "level"@,
        ElementKind::NamedSet => "set"@,
        ElementKind::Unknown => "unknown"@,
    }
}

impl ElementKind {
    /// The kind of an already lower-cased column type.
    pub fn from_lower_kind_str(s: &str) -> (k: Self)
        ensures
            k == kind_of_lower(s@),
    {
        if str_eq(s, "measure") {
            ElementKind::Measure
        } else if str_eq(s, "dimension") {
            ElementKind::Dimension
        } else if str_eq(s, "attribute") {
            ElementKind::Attribute
        } else if str_eq(s, "key") {
            ElementKind::Key
        } else if str_eq(s, "date") {
            ElementKind::Date
        } else if str_eq(s, "time") {
            ElementKind::Time
        } else {
            ElementKind::Unknown
        }
    }

    /// The kind of an already lower-cased column-group type.
    pub fn from_lower_group_type(s: &str) -> (k: Self)
        ensures
            k == group_kind_of_lower(s@),
    {
        if str_eq(s, "hierarchy") {
            ElementKind::Hierarchy
        } else if str_eq(s, "level") {
            ElementKind::Level
        } else if str_eq(s, "named_set") || str_eq(s, "set") {
            ElementKind::NamedSet
        } else {
            ElementKind::Unknown
        }
    }

    /// The kind of a column type string, compared case-insensitively.
    pub fn from_kind_str(s: &str) -> (k: Self)
        ensures
            k == column_kind(s@),
            is_ascii_chars(s@) ==> k == kind_of_lower(ascii_lowercase(s@)),
    {
        let lower = to_lowercase(s);
        Self::from_lower_kind_str(lower.as_str())
    }

    /// The kind of a column-group type string, compared case-insensitively.
    pub fn from_group_type(s: &str) -> (k: Self)
        ensures
            k == group_kind(s@),
            is_ascii_chars(s@) ==> k == group_kind_of_lower(ascii_lowercase(s@)),
    {
        let lower = to_lowercase(s);
        Self::from_lower_group_type(lower.as_str())
    }

    /// The label of this kind.
    pub fn label(&self) -> (r: &'static str)
        ensures
            r@ == kind_label(*self),
    {
        match self {
            ElementKind::Measure => "measure",
            ElementKind::Dimension => "dimension",
            ElementKind::Attribute => "attribute",
            ElementKind::Key => "key",
            ElementKind::Date => "date",
            ElementKind::Time => "time",
            ElementKind::Hierarchy => "hierarchy",
            ElementKind::Level => "level",
            ElementKind::NamedSet => "set",
            ElementKind::Unknown => "unknown",
        }
    }
}

/// The characters of an optional borrowed string.
pub open spec fn opt_str(o: Option<&str>) -> Option<Seq<char>> {
    match o {
        Some(s) => Some(s@),
        None => None,
    }
}

/// The characters of an optional owned string.
pub open spec fn opt_string(o: Option<String>) -> Option<Seq<char>> {
    match o {
        Some(s) => Some(s@),
        None => None,
    }
}

/// `e` is the element view of column `c`.
pub open spec fn is_column_element(e: ModelElement, c: Column) -> bool {
    &&& e.name@ == c.name@
    &&& e.element_type == column_kind(c.column_type@)
    &&& opt_str(e.description) == opt_string(c.description)
    &&& opt_str(e.aggregation) == opt_string(c.aggregation)
    &&& opt_str(e.folder) == opt_string(c.folder)
    &&& opt_str(e.bfo_hint) == opt_string(c.bfo_hint)
}

/// `e` is the element view of column group `g`.
pub open spec fn is_group_element(e: ModelElement, g: ColumnGroup) -> bool {
    &&& e.name@ == g.name@
    &&& e.element_type == group_kind(g.group_type@)
    &&& opt_str(e.description) == opt_string(g.description)
    &&& e.aggregation is None
    &&& e.folder is None
    &&& e.bfo_hint is None
}

/// `elems` lists the columns of `m` in order, then its column groups in order.
pub open spec fn lists_elements_of(elems: Seq<ModelElement>, m: AtscaleModel) -> bool {
    &&& elems.len() == m.columns.len() + m.column_groups.len()
    &&& forall|i: int| 0 <= i < m.columns.len() ==> is_column_element(#[trigger] elems[i], m.columns@[i])
    &&& forall|j: int|
        0 <= j < m.column_groups.len() ==> is_group_element(
            #[trigger] elems[m.columns.len() + j],
            m.column_groups@[j],
        )
}

fn opt_as_str(o: &Option<String>) -> (r: Option<&str>)
    ensures
        opt_str(r) == opt_string(*o),
{
    match o {
        Some(s) => Some(s.as_str()),
        None => None,
    }
}

impl AtscaleModel {
    /// All model elements: one per column, in order, then one per column group.
    pub fn elements(&self) -> (r: Vec<ModelElement<'_>>)
        ensures
            lists_elements_of(r@, *self),
    {
        let mut elems: Vec<ModelElement<'_>> = Vec::new();
        let nc = self.columns.len();
        for i in 0..nc
            invariant
                nc == self.columns.len(),
                elems.len() == i,
                forall|k: int| 0 <= k < i ==> is_column_element(#[trigger] elems@[k], self.columns@[k]),
        {
            let col = &self.columns[i];
            elems.push(
                ModelElement {
                    name: col.name.as_str(),
                    element_type: ElementKind::from_kind_str(col.column_type.as_str()),
                    description: opt_as_str(&col.description),
                    aggregation: opt_as_str(&col.aggregation),
                    folder: opt_as_str(&col.folder),
                    bfo_hint: opt_as_str(&col.bfo_hint),
                },
            );
        }
        let ng = self.column_groups.len();
        for j in 0..ng
            invariant
                nc == self.columns.len(),
                ng == self.column_groups.len(),
                elems.len() == nc + j,
                forall|k: int| 0 <= k < nc ==> is_column_element(#[trigger] elems@[k], self.columns@[k]),
                forall|k: int|
                    0 <= k < j ==> is_group_element(#[trigger] elems@[nc + k], self.column_groups@[k]),
        {
            let cg = &self.column_groups[j];
            elems.push(
                ModelElement {
                    name: cg.name.as_str(),
                    element_type: ElementKind::from_group_type(cg.group_type.as_str()),
                    description: opt_as_str(&cg.description),
                    aggregation: None,
                    folder: None,
                    bfo_hint: None,
                },
            );
        }
        elems
    }
}

/// Where a model is read from, given the `--model` path and the
/// `--from-mcp` reference: a live MCP reference is refused (the connector is
/// not attached here); otherwise the path, if any, is the source.
pub fn model_source<'a>(model_path: Option<&'a str>, from_mcp: Option<&str>) -> (r: Result<Option<&'a str>, AtscaleError>)
    ensures
        from_mcp is Some ==> r == Err::<Option<&'a str>, AtscaleError>(AtscaleError::McpNotAttached),
        from_mcp is None ==> r == Ok::<Option<&'a str>, AtscaleError>(model_path),
{
    match from_mcp {
        Some(_) => Err(AtscaleError::McpNotAttached),
        None => Ok(model_path),
    }
}

/// The label of each column kind is ASCII and reads back, in any case
/// (through its ASCII lower case), as that kind.
pub proof fn lemma_kind_label_round_trip(k: ElementKind)
    requires
        k is Measure || k is Dimension || k is Attribute || k is Key || k is Date || k is Time,
    ensures
        is_ascii_chars(kind_label(k)),
        ascii_lowercase(kind_label(k)) == kind_label(k),
        kind_of_lower(ascii_lowercase(kind_label(k))) == k,
{
    reveal_strlit("measure");
    reveal_strlit("dimension");
    reveal_strlit("attribute");
    reveal_strlit("key");
    reveal_strlit("date");
    reveal_strlit("time");
    let l = kind_label(k);
    assert(ascii_lowercase(l) =~= l);
    // Labels of different kinds differ in length or in their first letter.
    assert("measure"@[0] != "dimension"@[0] && "measure"@[0] != "attribute"@[0]);
    assert("dimension"@[0] != "attribute"@[0]);
    assert("date"@[0] != "time"@[0]);
}

/// Kind labels name their kinds: the ten labels are the documented words,
/// two kinds never share a label, and the label of each group kind reads back
/// as that kind.
pub proof fn lemma_kind_labels_distinct(k1: ElementKind, k2: ElementKind)
    ensures
        kind_label(ElementKind::Measure) == "measure"@,
        kind_label(ElementKind::Dimension) == "dimension"@,
        kind_label(ElementKind::Attribute) == "attribute"@,
        kind_label(ElementKind::Key) == "key"@,
        kind_label(ElementKind::Date) == "date"@,
        kind_label(ElementKind::Time) == "time"@,
        kind_label(ElementKind::Hierarchy) == "hierarchy"@,
        kind_label(ElementKind::Level) == "level"@,
        kind_label(ElementKind::NamedSet) == "set"@,
        kind_label(ElementKind::Unknown) == "unknown"@,
        kind_label(k1) == kind_label(k2) ==> k1 == k2,
        group_kind_of_lower(kind_label(ElementKind::Hierarchy)) == ElementKind::Hierarchy,
        group_kind_of_lower(kind_label(ElementKind::Level)) == ElementKind::Level,
        group_kind_of_lower(kind_label(ElementKind::NamedSet)) == ElementKind::NamedSet,
{
    reveal_strlit("measure");
    reveal_strlit("dimension");
    reveal_strlit("attribute");
    reveal_strlit("key");
    reveal_strlit("date");
    reveal_strlit("time");
    reveal_strlit("hierarchy");
    reveal_strlit("level");
    reveal_strlit("set");
    reveal_strlit("unknown");
    reveal_strlit("named_set");
    assert("level"@.len() != "hierarchy"@.len());
    assert("set"@.len() != "hierarchy"@.len() && "set"@.len() != "level"@.len());
    assert("set"@.len() != "named_set"@.len());
    let l1 = kind_label(k1);
    let l2 = kind_label(k2);
    if l1 == l2 && k1 != k2 {
        assert(l1.len() == l2.len());
        assert(l1[0] == l2[0]);
        assert(l1[1] == l2[1]);
    }
}

} // verus!
