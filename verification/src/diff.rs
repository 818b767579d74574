//! BFO grounding diff: compare two models element by element.
//!
//! Elements are joined by name, case-insensitively (by their lower-cased
//! names; when a model has several elements whose names lower-case alike, the
//! last one counts). Each joined pair agrees (same BFO category) or diverges
//! (different categories); an element whose name occurs in only one model is
//! unique to it. Every list of the result is in order of element name.
use crate::mapper::{
    category_label,
    entry_grounding, grounds_entry, model_entries, BfoCategory, GroundedElement, Mapper,
};
use crate::model::{kind_label, AtscaleModel, ElementKind};
use crate::order::{lemma_lex_irreflexive, lemma_lex_total, lemma_lex_transitive, lex_lt, str_lt};
use crate::text::{
    ascii_lowercase, decimal, is_ascii_chars, lowercase, push_char, str_eq, to_lowercase, usize_to_decimal,
};
use vstd::prelude::*;

verus! {

/// A pair that agrees (same BFO category).
#[derive(Debug, Clone)]
pub struct AgreePair {
    pub name: String,
    pub bfo_category: BfoCategory,
    pub element_type_a: String,
    pub element_type_b: String,
}

/// A pair that diverges (same name, different BFO category).
#[derive(Debug, Clone)]
pub struct DivergePair {
    pub name: String,
    pub category_a: BfoCategory,
    pub category_b: BfoCategory,
    pub element_type_a: String,
    pub element_type_b: String,
    pub rationale_a: String,
    pub rationale_b: String,
}

/// An element present in only one of the two models.
#[derive(Debug, Clone)]
pub struct UniqueElement {
    pub name: String,
    pub bfo_category: BfoCategory,
    pub element_type: String,
    pub rationale: String,
}

/// The full diff result.
#[derive(Debug, Clone)]
pub struct DiffResult {
    pub agree: Vec<AgreePair>,
    pub diverge: Vec<DivergePair>,
    pub only_in_a: Vec<UniqueElement>,
    pub only_in_b: Vec<UniqueElement>,
}

/// The summary line of a diff with these list lengths.
pub open spec fn summary_text(agree: nat, diverge: nat, only_a: nat, only_b: nat) -> Seq<char> {
    decimal(agree) + " agree, "@ + decimal(diverge) + " diverge, "@ + decimal(only_a + only_b)
        + " unique ("@ + decimal(only_a) + " only-A, "@ + decimal(only_b) + " only-B)"@
}

impl DiffResult {
    /// True when at least one divergence was found (drives a non-zero exit code).
    pub fn has_divergences(&self) -> (b: bool)
        ensures
            b == (self.diverge@.len() > 0),
    {
        self.diverge.len() != 0
    }

    /// Summary line: "N agree, M diverge, P unique (Q only-A, R only-B)".
    pub fn summary_line(&self) -> (r: String)
        requires
            self.only_in_a@.len() + self.only_in_b@.len() <= usize::MAX,
        ensures
            r@ == summary_text(
                self.agree@.len(),
                self.diverge@.len(),
                self.only_in_a@.len(),
                self.only_in_b@.len(),
            ),
    {
        let unique = self.only_in_a.len() + self.only_in_b.len();
        let mut r = usize_to_decimal(self.agree.len());
        r.append(" agree, ");
        r.append(usize_to_decimal(self.diverge.len()).as_str());
        r.append(" diverge, ");
        r.append(usize_to_decimal(unique).as_str());
        r.append(" unique (");
        r.append(usize_to_decimal(self.only_in_a.len()).as_str());
        r.append(" only-A, ");
        r.append(usize_to_decimal(self.only_in_b.len()).as_str());
        r.append(" only-B)");
        r
    }
}

/// Something listed by name in a diff.
pub trait NamedItem {
    spec fn item_name(&self) -> Seq<char>;

    fn name_str(&self) -> (r: &str)
        ensures
            r@ == self.item_name(),
    ;
}

impl NamedItem for AgreePair {
    open spec fn item_name(&self) -> Seq<char> {
        self.name@
    }

    fn name_str(&self) -> (r: &str) {
        self.name.as_str()
    }
}

impl NamedItem for DivergePair {
    open spec fn item_name(&self) -> Seq<char> {
        self.name@
    }

    fn name_str(&self) -> (r: &str) {
        self.name.as_str()
    }
}

impl NamedItem for UniqueElement {
    open spec fn item_name(&self) -> Seq<char> {
        self.name@
    }

    fn name_str(&self) -> (r: &str) {
        self.name.as_str()
    }
}

/// The names in `s` are in strictly increasing order.
pub open spec fn sorted_by_name<T: NamedItem>(s: Seq<T>) -> bool {
    forall|i: int, j: int| 0 <= i < j < s.len() ==> lex_lt(#[trigger] s[i].item_name(), #[trigger] s[j].item_name())
}

/// Inserts `x` at its place in the name order of `v`.
#[verifier::loop_isolation(false)]
fn insert_by_name<T: NamedItem>(v: &mut Vec<T>, x: T)
    requires
        sorted_by_name(old(v)@),
        forall|i: int| 0 <= i < old(v)@.len() ==> (#[trigger] old(v)@[i]).item_name() != x.item_name(),
    ensures
        sorted_by_name(final(v)@),
        exists|p: int| 0 <= p <= old(v)@.len() && final(v)@ == old(v)@.insert(p, x),
{
    let ghost old_v = v@;
    let n = v.len();
    let mut i: usize = 0;
    while i < n
        invariant
            n == v@.len(),
            v@ == old_v,
            i <= n,
            forall|j: int| 0 <= j < i ==> lex_lt(#[trigger] old_v[j].item_name(), x.item_name()),
        decreases n - i,
    {
        if str_lt(x.name_str(), v[i].name_str()) {
            break;
        }
        proof {
            lemma_lex_total(x.item_name(), old_v[i as int].item_name());
        }
        i = i + 1;
    }
    let ghost xn = x.item_name();
    proof {
        // everything from `i` on comes after `x`
        assert forall|j: int| i <= j < n implies lex_lt(xn, #[trigger] old_v[j].item_name()) by {
            if j > i {
                assert(lex_lt(old_v[i as int].item_name(), old_v[j].item_name()));
                lemma_lex_transitive(xn, old_v[i as int].item_name(), old_v[j].item_name());
            }
        }
    }
    v.insert(i, x);
    proof {
        old_v.insert_ensures(i as int, x);
        assert(v@ =~= old_v.insert(i as int, x));
        assert forall|a: int, b: int| 0 <= a < b < v@.len() implies lex_lt(#[trigger] v@[a].item_name(), #[trigger] v@[b].item_name()) by {
            if b < i {
            } else if a < i && b == i {
            } else if a < i && b > i {
                assert(v@[b] == old_v[b - 1]);
                lemma_lex_transitive(old_v[a].item_name(), xn, old_v[b - 1].item_name());
            } else if a == i {
                assert(v@[b] == old_v[b - 1]);
            } else {
                assert(v@[a] == old_v[a - 1]);
                assert(v@[b] == old_v[b - 1]);
            }
        }
    }
}

/// Every item of `l` is related by `rel` to some key of `keys`, and every key
/// of `keys` to some item of `l`.
pub open spec fn covers<T>(l: Seq<T>, keys: Set<Seq<char>>, rel: spec_fn(T, Seq<char>) -> bool) -> bool {
    &&& forall|i: int| 0 <= i < l.len() ==> #[trigger] item_has_key(l[i], keys, rel)
    &&& forall|k: Seq<char>| #[trigger] keys.contains(k) ==> key_has_item(l, k, rel)
}

/// `x` is related by `rel` to some key of `keys`.
pub open spec fn item_has_key<T>(x: T, keys: Set<Seq<char>>, rel: spec_fn(T, Seq<char>) -> bool) -> bool {
    exists|k: Seq<char>| #[trigger] keys.contains(k) && rel(x, k)
}

/// Some item of `l` is related by `rel` to `k`.
pub open spec fn key_has_item<T>(l: Seq<T>, k: Seq<char>, rel: spec_fn(T, Seq<char>) -> bool) -> bool {
    exists|i: int| 0 <= i < l.len() && #[trigger] rel(l[i], k)
}

proof fn lemma_covers_insert<T>(
    l: Seq<T>,
    keys: Set<Seq<char>>,
    rel: spec_fn(T, Seq<char>) -> bool,
    p: int,
    x: T,
    k0: Seq<char>,
)
    requires
        covers(l, keys, rel),
        0 <= p <= l.len(),
        rel(x, k0),
    ensures
        covers(l.insert(p, x), keys.insert(k0), rel),
{
    let l2 = l.insert(p, x);
    let keys2 = keys.insert(k0);
    l.insert_ensures(p, x);
    assert forall|i: int| 0 <= i < l2.len() implies #[trigger] item_has_key(l2[i], keys2, rel) by {
        if i < p {
            assert(item_has_key(l[i], keys, rel));
            let k = choose|k: Seq<char>| #[trigger] keys.contains(k) && rel(l[i], k);
            assert(keys2.contains(k));
        } else if i == p {
            assert(keys2.contains(k0));
        } else {
            assert(l2[i] == l[i - 1]);
            assert(item_has_key(l[i - 1], keys, rel));
            let k = choose|k: Seq<char>| #[trigger] keys.contains(k) && rel(l[i - 1], k);
            assert(keys2.contains(k));
        }
    }
    assert forall|k: Seq<char>| #[trigger] keys2.contains(k) implies key_has_item(l2, k, rel) by {
        if k == k0 {
            assert(rel(l2[p], k));
        } else {
            assert(keys.contains(k));
            let i = choose|i: int| 0 <= i < l.len() && #[trigger] rel(l[i], k);
            if i < p {
                assert(rel(l2[i], k));
            } else {
                assert(l2[i + 1] == l[i]);
                assert(rel(l2[i + 1], k));
            }
        }
    }
}

/// The category of an entry that has a grounding.
pub open spec fn entry_category(e: (Seq<char>, ElementKind, Option<Seq<char>>)) -> BfoCategory {
    match entry_grounding(e) {
        Some((c, rationale)) => c,
        None => BfoCategory::IndependentContinuant,
    }
}

/// The rationale of an entry that has a grounding.
pub open spec fn entry_rationale(e: (Seq<char>, ElementKind, Option<Seq<char>>)) -> Seq<char> {
    match entry_grounding(e) {
        Some((c, rationale)) => rationale,
        None => Seq::empty(),
    }
}

/// Every entry has a grounding (no hint names an unknown category).
pub open spec fn all_groundable(es: Seq<(Seq<char>, ElementKind, Option<Seq<char>>)>) -> bool {
    forall|i: int| 0 <= i < es.len() ==> #[trigger] entry_grounding(es[i]) is Some
}

/// The entries that a diff compares for model `m`: all of them when the model
/// grounds, none when grounding it fails.
pub open spec fn grounded_entries(m: AtscaleModel) -> Seq<(Seq<char>, ElementKind, Option<Seq<char>>)> {
    if all_groundable(model_entries(m)) {
        model_entries(m)
    } else {
        Seq::empty()
    }
}

/// The join key of an entry: its lower-cased name.
pub open spec fn entry_key(e: (Seq<char>, ElementKind, Option<Seq<char>>)) -> Seq<char> {
    lowercase(e.0)
}

/// The join key of an entry with an ASCII name is its ASCII lower case.
pub open spec fn ascii_key(e: (Seq<char>, ElementKind, Option<Seq<char>>)) -> bool {
    is_ascii_chars(e.0) ==> entry_key(e) == ascii_lowercase(e.0)
}

/// The join key of every entry of `es` with an ASCII name is its ASCII lower
/// case (so names that differ only in the case of ASCII letters join).
pub open spec fn ascii_keys(es: Seq<(Seq<char>, ElementKind, Option<Seq<char>>)>) -> bool {
    forall|i: int| 0 <= i < es.len() ==> ascii_key(#[trigger] es[i])
}

/// The entries keyed by their join key; a later entry replaces an earlier one
/// with the same key.
pub open spec fn entry_map(es: Seq<(Seq<char>, ElementKind, Option<Seq<char>>)>) -> Map<
    Seq<char>,
    (Seq<char>, ElementKind, Option<Seq<char>>),
>
    decreases es.len(),
{
    if es.len() == 0 {
        Map::empty()
    } else {
        entry_map(es.drop_last()).insert(entry_key(es.last()), es.last())
    }
}

/// `x` records the agreement of entries `a` (from model A) and `b` (from B).
pub open spec fn agree_of(
    x: AgreePair,
    a: (Seq<char>, ElementKind, Option<Seq<char>>),
    b: (Seq<char>, ElementKind, Option<Seq<char>>),
) -> bool {
    &&& x.name@ == a.0
    &&& x.bfo_category == entry_category(a)
    &&& x.element_type_a@ == kind_label(a.1)
    &&& x.element_type_b@ == kind_label(b.1)
}

/// `x` records the divergence of entries `a` (from model A) and `b` (from B).
pub open spec fn diverge_of(
    x: DivergePair,
    a: (Seq<char>, ElementKind, Option<Seq<char>>),
    b: (Seq<char>, ElementKind, Option<Seq<char>>),
) -> bool {
    &&& x.name@ == a.0
    &&& x.category_a == entry_category(a)
    &&& x.category_b == entry_category(b)
    &&& x.element_type_a@ == kind_label(a.1)
    &&& x.element_type_b@ == kind_label(b.1)
    &&& x.rationale_a@ == entry_rationale(a)
    &&& x.rationale_b@ == entry_rationale(b)
}

/// `x` records entry `a` as found in one model only.
pub open spec fn unique_of(x: UniqueElement, a: (Seq<char>, ElementKind, Option<Seq<char>>)) -> bool {
    &&& x.name@ == a.0
    &&& x.bfo_category == entry_category(a)
    &&& x.element_type@ == kind_label(a.1)
    &&& x.rationale@ == entry_rationale(a)
}

pub open spec fn agree_rel(
    ma: Map<Seq<char>, (Seq<char>, ElementKind, Option<Seq<char>>)>,
    mb: Map<Seq<char>, (Seq<char>, ElementKind, Option<Seq<char>>)>,
) -> spec_fn(AgreePair, Seq<char>) -> bool {
    |x: AgreePair, k: Seq<char>| agree_of(x, ma[k], mb[k])
}

pub open spec fn diverge_rel(
    ma: Map<Seq<char>, (Seq<char>, ElementKind, Option<Seq<char>>)>,
    mb: Map<Seq<char>, (Seq<char>, ElementKind, Option<Seq<char>>)>,
) -> spec_fn(DivergePair, Seq<char>) -> bool {
    |x: DivergePair, k: Seq<char>| diverge_of(x, ma[k], mb[k])
}

pub open spec fn unique_rel(m: Map<Seq<char>, (Seq<char>, ElementKind, Option<Seq<char>>)>) -> spec_fn(
    UniqueElement,
    Seq<char>,
) -> bool {
    |x: UniqueElement, k: Seq<char>| unique_of(x, m[k])
}

/// Keys in both maps whose entries have the same category.
pub open spec fn agree_keys(
    ma: Map<Seq<char>, (Seq<char>, ElementKind, Option<Seq<char>>)>,
    mb: Map<Seq<char>, (Seq<char>, ElementKind, Option<Seq<char>>)>,
) -> Set<Seq<char>> {
    Set::new(|k: Seq<char>| ma.contains_key(k) && mb.contains_key(k) && entry_category(ma[k]) == entry_category(mb[k]))
}

/// Keys in both maps whose entries have different categories.
pub open spec fn diverge_keys(
    ma: Map<Seq<char>, (Seq<char>, ElementKind, Option<Seq<char>>)>,
    mb: Map<Seq<char>, (Seq<char>, ElementKind, Option<Seq<char>>)>,
) -> Set<Seq<char>> {
    Set::new(|k: Seq<char>| ma.contains_key(k) && mb.contains_key(k) && entry_category(ma[k]) != entry_category(mb[k]))
}

/// Keys of `ma` that `mb` lacks.
pub open spec fn only_keys(
    ma: Map<Seq<char>, (Seq<char>, ElementKind, Option<Seq<char>>)>,
    mb: Map<Seq<char>, (Seq<char>, ElementKind, Option<Seq<char>>)>,
) -> Set<Seq<char>> {
    Set::new(|k: Seq<char>| ma.contains_key(k) && !mb.contains_key(k))
}

/// `r` is the diff of the keyed entries `ma` (model A) and `mb` (model B).
pub open spec fn diff_of(
    r: DiffResult,
    ma: Map<Seq<char>, (Seq<char>, ElementKind, Option<Seq<char>>)>,
    mb: Map<Seq<char>, (Seq<char>, ElementKind, Option<Seq<char>>)>,
) -> bool {
    &&& sorted_by_name(r.agree@)
    &&& covers(r.agree@, agree_keys(ma, mb), agree_rel(ma, mb))
    &&& sorted_by_name(r.diverge@)
    &&& covers(r.diverge@, diverge_keys(ma, mb), diverge_rel(ma, mb))
    &&& sorted_by_name(r.only_in_a@)
    &&& covers(r.only_in_a@, only_keys(ma, mb), unique_rel(ma))
    &&& sorted_by_name(r.only_in_b@)
    &&& covers(r.only_in_b@, only_keys(mb, ma), unique_rel(mb))
}

/// `r` is the diff of models `a` and `b`.
pub open spec fn diff_of_models(r: DiffResult, a: AtscaleModel, b: AtscaleModel) -> bool {
    diff_of(r, entry_map(grounded_entries(a)), entry_map(grounded_entries(b)))
}

/// Every entry of `entry_map(es)` is stored under its own key and is one of `es`.
pub proof fn lemma_entry_map_keys(es: Seq<(Seq<char>, ElementKind, Option<Seq<char>>)>, k: Seq<char>)
    requires
        entry_map(es).contains_key(k),
    ensures
        entry_key(entry_map(es)[k]) == k,
    decreases es.len(),
{
    if es.len() > 0 && k != entry_key(es.last()) {
        lemma_entry_map_keys(es.drop_last(), k);
    }
}

/// `v` lists the keys of `m` once each, with, for each, a position in `es`
/// holding its entry.
pub open spec fn indexes(
    v: Seq<(String, usize)>,
    m: Map<Seq<char>, (Seq<char>, ElementKind, Option<Seq<char>>)>,
    es: Seq<(Seq<char>, ElementKind, Option<Seq<char>>)>,
) -> bool {
    &&& forall|i: int, j: int| 0 <= i < j < v.len() ==> (#[trigger] v[i]).0@ != (#[trigger] v[j]).0@
    &&& forall|i: int|
        0 <= i < v.len() ==> (#[trigger] v[i]).1 < es.len() && m.contains_key(v[i].0@) && m[v[i].0@]
            == es[v[i].1 as int]
    &&& forall|k: Seq<char>| #[trigger] m.contains_key(k) ==> exists|i: int| 0 <= i < v.len() && v[i].0@ == k
}

/// The position of `key` in an index.
fn find_key(v: &Vec<(String, usize)>, key: &str) -> (r: Option<usize>)
    ensures
        match r {
            Some(p) => p < v@.len() && v@[p as int].0@ == key@,
            None => forall|p: int| 0 <= p < v@.len() ==> v@[p].0@ != key@,
        },
{
    let n = v.len();
    for p in 0..n
        invariant
            n == v@.len(),
            forall|q: int| 0 <= q < p ==> v@[q].0@ != key@,
    {
        if str_eq(v[p].0.as_str(), key) {
            return Some(p);
        }
    }
    None
}

/// Indexes grounded elements by lower-cased name, the last of equal keys winning.
fn build_index(gs: &Vec<GroundedElement>, Ghost(es): Ghost<Seq<(Seq<char>, ElementKind, Option<Seq<char>>)>>) -> (r: Vec<(String, usize)>)
    requires
        gs@.len() == es.len(),
        forall|i: int| 0 <= i < es.len() ==> grounds_entry(#[trigger] gs@[i], es[i]),
    ensures
        indexes(r@, entry_map(es), es),
        ascii_keys(es),
{
    let mut v: Vec<(String, usize)> = Vec::new();
    let n = gs.len();
    for i in 0..n
        invariant
            n == es.len(),
            gs@.len() == es.len(),
            forall|j: int| 0 <= j < es.len() ==> grounds_entry(#[trigger] gs@[j], es[j]),
            indexes(v@, entry_map(es.take(i as int)), es),
            forall|j: int| 0 <= j < v@.len() ==> (#[trigger] v@[j]).1 < i,
            forall|j: int| 0 <= j < i ==> ascii_key(#[trigger] es[j]),
    {
        let key = to_lowercase(gs[i].name.as_str());
        let ghost old_v = v@;
        let ghost m0 = entry_map(es.take(i as int));
        let ghost m1 = entry_map(es.take(i + 1));
        proof {
            assert(grounds_entry(gs@[i as int], es[i as int]));
            assert(es.take(i + 1).drop_last() =~= es.take(i as int));
            assert(m1 == m0.insert(entry_key(es[i as int]), es[i as int]));
            assert(key@ == entry_key(es[i as int]));
        }
        match find_key(&v, key.as_str()) {
            Some(p) => {
                v.set(p, (key, i));
                proof {
                    assert forall|a: int, b: int| 0 <= a < b < v@.len() implies (#[trigger] v@[a]).0@ != (#[trigger] v@[b]).0@ by {
                        assert(old_v[a].0@ != old_v[b].0@);
                    }
                    assert forall|a: int| 0 <= a < v@.len() implies (#[trigger] v@[a]).1 < es.len() && m1.contains_key(v@[a].0@)
                        && m1[v@[a].0@] == es[v@[a].1 as int] by {
                        if a != p {
                            assert(old_v[a].0@ != old_v[p as int].0@);
                        }
                    }
                    assert forall|k: Seq<char>| #[trigger] m1.contains_key(k) implies exists|a: int| 0 <= a < v@.len() && v@[a].0@ == k by {
                        if k == key@ {
                            assert(v@[p as int].0@ == k);
                        } else {
                            assert(m0.contains_key(k));
                            let a = choose|a: int| 0 <= a < old_v.len() && old_v[a].0@ == k;
                            assert(v@[a].0@ == k);
                        }
                    }
                }
            },
            None => {
                v.push((key, i));
                proof {
                    assert forall|a: int, b: int| 0 <= a < b < v@.len() implies (#[trigger] v@[a]).0@ != (#[trigger] v@[b]).0@ by {
                        if b < old_v.len() {
                            assert(old_v[a].0@ != old_v[b].0@);
                        }
                    }
                    assert forall|a: int| 0 <= a < v@.len() implies (#[trigger] v@[a]).1 < es.len() && m1.contains_key(v@[a].0@)
                        && m1[v@[a].0@] == es[v@[a].1 as int] by {
                        if a < old_v.len() {
                            assert(old_v[a].0@ != key@);
                        }
                    }
                    assert forall|k: Seq<char>| #[trigger] m1.contains_key(k) implies exists|a: int| 0 <= a < v@.len() && v@[a].0@ == k by {
                        if k == key@ {
                            assert(v@[old_v.len() as int].0@ == k);
                        } else {
                            assert(m0.contains_key(k));
                            let a = choose|a: int| 0 <= a < old_v.len() && old_v[a].0@ == k;
                            assert(v@[a].0@ == k);
                        }
                    }
                }
            },
        }
    }
    proof {
        assert(es.take(n as int) =~= es);
    }
    v
}

/// The keys at the first `t` positions of an index.
pub open spec fn keys_upto(v: Seq<(String, usize)>, t: int) -> Set<Seq<char>> {
    Set::new(|k: Seq<char>| exists|s: int| 0 <= s < t && (#[trigger] v[s]).0@ == k)
}

/// A name that no listed item carries: the items stand for keys other than
/// `k0`, and different keys of an entry map have entries of different names.
proof fn lemma_fresh_name<T: NamedItem>(
    l: Seq<T>,
    keys: Set<Seq<char>>,
    rel: spec_fn(T, Seq<char>) -> bool,
    es: Seq<(Seq<char>, ElementKind, Option<Seq<char>>)>,
    k0: Seq<char>,
)
    requires
        covers(l, keys, rel),
        forall|x: T, k: Seq<char>| #[trigger] rel(x, k) ==> x.item_name() == entry_map(es)[k].0,
        forall|k: Seq<char>| #[trigger] keys.contains(k) ==> entry_map(es).contains_key(k) && k != k0,
        entry_map(es).contains_key(k0),
    ensures
        forall|i: int| 0 <= i < l.len() ==> (#[trigger] l[i]).item_name() != entry_map(es)[k0].0,
{
    let m = entry_map(es);
    assert forall|i: int| 0 <= i < l.len() implies (#[trigger] l[i]).item_name() != m[k0].0 by {
        assert(item_has_key(l[i], keys, rel));
        let k = choose|k: Seq<char>| #[trigger] keys.contains(k) && rel(l[i], k);
        lemma_entry_map_keys(es, k);
        lemma_entry_map_keys(es, k0);
    }
}

/// The grounding of `model`, or nothing when grounding fails.
fn grounded_or_empty(mapper: &Mapper, model: &AtscaleModel) -> (r: Vec<GroundedElement>)
    ensures
        r@.len() == grounded_entries(*model).len(),
        forall|i: int| 0 <= i < r@.len() ==> grounds_entry(#[trigger] r@[i], grounded_entries(*model)[i]),
{
    let ghost es = model_entries(*model);
    match mapper.ground_model(model) {
        Ok(v) => {
            proof {
                assert forall|i: int| 0 <= i < es.len() implies #[trigger] entry_grounding(es[i]) is Some by {
                    assert(grounds_entry(v@[i], es[i]));
                }
            }
            v
        },
        Err(e) => {
            proof {
                let i = choose|i: int|
                    0 <= i < es.len() && (forall|k: int| 0 <= k < i ==> #[trigger] entry_grounding(es[k]) is Some)
                        && crate::mapper::ground_result(Err(e), es[i].0, es[i].1, es[i].2);
                assert(entry_grounding(es[i]) is None);
                assert(!all_groundable(es));
            }
            Vec::new()
        },
    }
}

/// Ground both models and diff them element by element.
pub fn diff_models(a: &AtscaleModel, b: &AtscaleModel) -> (r: DiffResult)
    ensures
        diff_of_models(r, *a, *b),
        ascii_keys(grounded_entries(*a)),
        ascii_keys(grounded_entries(*b)),
{
    let mapper = Mapper::new();
    let ghost ea = grounded_entries(*a);
    let ghost eb = grounded_entries(*b);
    let ghost ma = entry_map(ea);
    let ghost mb = entry_map(eb);
    let ga = grounded_or_empty(&mapper, a);
    let gb = grounded_or_empty(&mapper, b);
    let ia = build_index(&ga, Ghost(ea));
    let ib = build_index(&gb, Ghost(eb));
    let mut agree: Vec<AgreePair> = Vec::new();
    let mut diverge: Vec<DivergePair> = Vec::new();
    let mut only_in_a: Vec<UniqueElement> = Vec::new();
    let na = ia.len();
    proof {
        assert(keys_upto(ia@, 0).intersect(agree_keys(ma, mb)) =~= Set::empty());
        assert(keys_upto(ia@, 0).intersect(diverge_keys(ma, mb)) =~= Set::empty());
        assert(keys_upto(ia@, 0).intersect(only_keys(ma, mb)) =~= Set::empty());
    }
    for t in 0..na
        invariant
            na == ia@.len(),
            ga@.len() == ea.len(),
            gb@.len() == eb.len(),
            forall|i: int| 0 <= i < ea.len() ==> grounds_entry(#[trigger] ga@[i], ea[i]),
            forall|i: int| 0 <= i < eb.len() ==> grounds_entry(#[trigger] gb@[i], eb[i]),
            ma == entry_map(ea),
            mb == entry_map(eb),
            indexes(ia@, ma, ea),
            indexes(ib@, mb, eb),
            sorted_by_name(agree@),
            covers(agree@, keys_upto(ia@, t as int).intersect(agree_keys(ma, mb)), agree_rel(ma, mb)),
            sorted_by_name(diverge@),
            covers(diverge@, keys_upto(ia@, t as int).intersect(diverge_keys(ma, mb)), diverge_rel(ma, mb)),
            sorted_by_name(only_in_a@),
            covers(only_in_a@, keys_upto(ia@, t as int).intersect(only_keys(ma, mb)), unique_rel(ma)),
    {
        let key = ia[t].0.as_str();
        let ia_pos = ia[t].1;
        let elem_a = &ga[ia_pos];
        let ghost k0 = key@;
        let ghost up0 = keys_upto(ia@, t as int);
        let ghost up1 = keys_upto(ia@, t + 1);
        proof {
            assert(up1 =~= up0.insert(k0)) by {
                assert forall|k: Seq<char>| up1.contains(k) implies up0.insert(k0).contains(k) by {
                    let s = choose|s: int| 0 <= s < t + 1 && (#[trigger] ia@[s]).0@ == k;
                    if s < t {
                        assert(up0.contains(k));
                    }
                }
                assert forall|k: Seq<char>| up0.insert(k0).contains(k) implies up1.contains(k) by {
                    if k == k0 {
                        assert(ia@[t as int].0@ == k);
                    } else {
                        let s = choose|s: int| 0 <= s < t && (#[trigger] ia@[s]).0@ == k;
                        assert(0 <= s < t + 1 && ia@[s].0@ == k);
                    }
                }
            }
            assert forall|k: Seq<char>| #[trigger] up0.contains(k) implies ma.contains_key(k) && k != k0 by {
                let s = choose|s: int| 0 <= s < t && (#[trigger] ia@[s]).0@ == k;
                assert(ia@[s].0@ != ia@[t as int].0@);
            }
            assert(ma.contains_key(k0));
            assert(ma[k0] == ea[ia_pos as int]);
            assert(grounds_entry(ga@[ia_pos as int], ea[ia_pos as int]));
        }
        match find_key(&ib, key) {
            Some(p) => {
                let ib_pos = ib[p].1;
                let elem_b = &gb[ib_pos];
                proof {
                    assert(mb.contains_key(k0));
                    assert(mb[k0] == eb[ib_pos as int]);
                    assert(grounds_entry(gb@[ib_pos as int], eb[ib_pos as int]));
                    assert(up1.intersect(only_keys(ma, mb)) =~= up0.intersect(only_keys(ma, mb)));
                }
                if elem_a.bfo_category == elem_b.bfo_category {
                    let x = AgreePair {
                        name: elem_a.name.clone(),
                        bfo_category: elem_a.bfo_category,
                        element_type_a: elem_a.element_type.clone(),
                        element_type_b: elem_b.element_type.clone(),
                    };
                    proof {
                        assert(agree_of(x, ma[k0], mb[k0]));
                        assert forall|y: AgreePair, k: Seq<char>| #[trigger] agree_rel(ma, mb)(y, k) implies y.item_name() == ma[k].0 by {}
                        lemma_fresh_name(agree@, up0.intersect(agree_keys(ma, mb)), agree_rel(ma, mb), ea, k0);
                        assert(up1.intersect(agree_keys(ma, mb)) =~= up0.intersect(agree_keys(ma, mb)).insert(k0));
                        assert(up1.intersect(diverge_keys(ma, mb)) =~= up0.intersect(diverge_keys(ma, mb)));
                    }
                    let ghost old_l = agree@;
                    insert_by_name(&mut agree, x);
                    proof {
                        let q = choose|q: int| 0 <= q <= old_l.len() && agree@ == old_l.insert(q, x);
                        lemma_covers_insert(old_l, up0.intersect(agree_keys(ma, mb)), agree_rel(ma, mb), q, x, k0);
                    }
                } else {
                    let x = DivergePair {
                        name: elem_a.name.clone(),
                        category_a: elem_a.bfo_category,
                        category_b: elem_b.bfo_category,
                        element_type_a: elem_a.element_type.clone(),
                        element_type_b: elem_b.element_type.clone(),
                        rationale_a: elem_a.rationale.clone(),
                        rationale_b: elem_b.rationale.clone(),
                    };
                    proof {
                        assert(diverge_of(x, ma[k0], mb[k0]));
                        assert forall|y: DivergePair, k: Seq<char>| #[trigger] diverge_rel(ma, mb)(y, k) implies y.item_name() == ma[k].0 by {}
                        lemma_fresh_name(diverge@, up0.intersect(diverge_keys(ma, mb)), diverge_rel(ma, mb), ea, k0);
                        assert(up1.intersect(diverge_keys(ma, mb)) =~= up0.intersect(diverge_keys(ma, mb)).insert(k0));
                        assert(up1.intersect(agree_keys(ma, mb)) =~= up0.intersect(agree_keys(ma, mb)));
                    }
                    let ghost old_l = diverge@;
                    insert_by_name(&mut diverge, x);
                    proof {
                        let q = choose|q: int| 0 <= q <= old_l.len() && diverge@ == old_l.insert(q, x);
                        lemma_covers_insert(old_l, up0.intersect(diverge_keys(ma, mb)), diverge_rel(ma, mb), q, x, k0);
                    }
                }
            },
            None => {
                let x = UniqueElement {
                    name: elem_a.name.clone(),
                    bfo_category: elem_a.bfo_category,
                    element_type: elem_a.element_type.clone(),
                    rationale: elem_a.rationale.clone(),
                };
                proof {
                    assert(!mb.contains_key(k0)) by {
                        if mb.contains_key(k0) {
                            let i = choose|i: int| 0 <= i < ib@.len() && ib@[i].0@ == k0;
                        }
                    }
                    assert(unique_of(x, ma[k0]));
                    assert forall|y: UniqueElement, k: Seq<char>| #[trigger] unique_rel(ma)(y, k) implies y.item_name() == ma[k].0 by {}
                    lemma_fresh_name(only_in_a@, up0.intersect(only_keys(ma, mb)), unique_rel(ma), ea, k0);
                    assert(up1.intersect(only_keys(ma, mb)) =~= up0.intersect(only_keys(ma, mb)).insert(k0));
                    assert(up1.intersect(agree_keys(ma, mb)) =~= up0.intersect(agree_keys(ma, mb)));
                    assert(up1.intersect(diverge_keys(ma, mb)) =~= up0.intersect(diverge_keys(ma, mb)));
                }
                let ghost old_l = only_in_a@;
                insert_by_name(&mut only_in_a, x);
                proof {
                    let q = choose|q: int| 0 <= q <= old_l.len() && only_in_a@ == old_l.insert(q, x);
                    lemma_covers_insert(old_l, up0.intersect(only_keys(ma, mb)), unique_rel(ma), q, x, k0);
                }
            },
        }
    }
    proof {
        let up = keys_upto(ia@, na as int);
        assert forall|k: Seq<char>| #[trigger] ma.contains_key(k) implies up.contains(k) by {
            let i = choose|i: int| 0 <= i < ia@.len() && ia@[i].0@ == k;
            assert(0 <= i < na && ia@[i].0@ == k);
        }
        assert(up.intersect(agree_keys(ma, mb)) =~= agree_keys(ma, mb));
        assert(up.intersect(diverge_keys(ma, mb)) =~= diverge_keys(ma, mb));
        assert(up.intersect(only_keys(ma, mb)) =~= only_keys(ma, mb));
    }
    let only_in_b = only_in(&ib, &gb, &ia, Ghost(eb), Ghost(ea));
    DiffResult { agree, diverge, only_in_a, only_in_b }
}

/// The elements indexed by `ix` whose key `other` lacks, in name order.
fn only_in(
    ix: &Vec<(String, usize)>,
    gs: &Vec<GroundedElement>,
    other: &Vec<(String, usize)>,
    Ghost(es): Ghost<Seq<(Seq<char>, ElementKind, Option<Seq<char>>)>>,
    Ghost(os): Ghost<Seq<(Seq<char>, ElementKind, Option<Seq<char>>)>>,
) -> (r: Vec<UniqueElement>)
    requires
        gs@.len() == es.len(),
        forall|i: int| 0 <= i < es.len() ==> grounds_entry(#[trigger] gs@[i], es[i]),
        indexes(ix@, entry_map(es), es),
        indexes(other@, entry_map(os), os),
    ensures
        sorted_by_name(r@),
        covers(r@, only_keys(entry_map(es), entry_map(os)), unique_rel(entry_map(es))),
{
    let ghost m = entry_map(es);
    let ghost mo = entry_map(os);
    let mut out: Vec<UniqueElement> = Vec::new();
    let n = ix.len();
    proof {
        assert(keys_upto(ix@, 0).intersect(only_keys(m, mo)) =~= Set::empty());
    }
    for t in 0..n
        invariant
            n == ix@.len(),
            gs@.len() == es.len(),
            forall|i: int| 0 <= i < es.len() ==> grounds_entry(#[trigger] gs@[i], es[i]),
            m == entry_map(es),
            mo == entry_map(os),
            indexes(ix@, m, es),
            indexes(other@, mo, os),
            sorted_by_name(out@),
            covers(out@, keys_upto(ix@, t as int).intersect(only_keys(m, mo)), unique_rel(m)),
    {
        let key = ix[t].0.as_str();
        let pos = ix[t].1;
        let ghost k0 = key@;
        let ghost up0 = keys_upto(ix@, t as int);
        let ghost up1 = keys_upto(ix@, t + 1);
        proof {
            assert(up1 =~= up0.insert(k0)) by {
                assert forall|k: Seq<char>| up1.contains(k) implies up0.insert(k0).contains(k) by {
                    let s = choose|s: int| 0 <= s < t + 1 && (#[trigger] ix@[s]).0@ == k;
                    if s < t {
                        assert(up0.contains(k));
                    }
                }
                assert forall|k: Seq<char>| up0.insert(k0).contains(k) implies up1.contains(k) by {
                    if k == k0 {
                        assert(ix@[t as int].0@ == k);
                    } else {
                        let s = choose|s: int| 0 <= s < t && (#[trigger] ix@[s]).0@ == k;
                        assert(0 <= s < t + 1 && ix@[s].0@ == k);
                    }
                }
            }
            assert forall|k: Seq<char>| #[trigger] up0.contains(k) implies m.contains_key(k) && k != k0 by {
                let s = choose|s: int| 0 <= s < t && (#[trigger] ix@[s]).0@ == k;
                assert(ix@[s].0@ != ix@[t as int].0@);
            }
            assert(m.contains_key(k0));
            assert(m[k0] == es[pos as int]);
            assert(grounds_entry(gs@[pos as int], es[pos as int]));
        }
        match find_key(other, key) {
            Some(p) => {
                proof {
                    assert(mo.contains_key(k0));
                    assert(up1.intersect(only_keys(m, mo)) =~= up0.intersect(only_keys(m, mo)));
                }
            },
            None => {
                let elem = &gs[pos];
                let x = UniqueElement {
                    name: elem.name.clone(),
                    bfo_category: elem.bfo_category,
                    element_type: elem.element_type.clone(),
                    rationale: elem.rationale.clone(),
                };
                proof {
                    assert(!mo.contains_key(k0)) by {
                        if mo.contains_key(k0) {
                            let i = choose|i: int| 0 <= i < other@.len() && other@[i].0@ == k0;
                        }
                    }
                    assert(unique_of(x, m[k0]));
                    assert forall|y: UniqueElement, k: Seq<char>| #[trigger] unique_rel(m)(y, k) implies y.item_name() == m[k].0 by {}
                    lemma_fresh_name(out@, up0.intersect(only_keys(m, mo)), unique_rel(m), es, k0);
                    assert(up1.intersect(only_keys(m, mo)) =~= up0.intersect(only_keys(m, mo)).insert(k0));
                }
                let ghost old_l = out@;
                insert_by_name(&mut out, x);
                proof {
                    let q = choose|q: int| 0 <= q <= old_l.len() && out@ == old_l.insert(q, x);
                    lemma_covers_insert(old_l, up0.intersect(only_keys(m, mo)), unique_rel(m), q, x, k0);
                }
            },
        }
    }
    proof {
        let up = keys_upto(ix@, n as int);
        assert forall|k: Seq<char>| #[trigger] m.contains_key(k) implies up.contains(k) by {
            let i = choose|i: int| 0 <= i < ix@.len() && ix@[i].0@ == k;
            assert(0 <= i < n && ix@[i].0@ == k);
        }
        assert(up.intersect(only_keys(m, mo)) =~= only_keys(m, mo));
    }
    out
}

/// Diffing a model against itself finds no divergence and nothing unique to
/// either side; every joined element agrees.
pub proof fn lemma_diff_self(r: DiffResult, m: AtscaleModel)
    requires
        diff_of_models(r, m, m),
    ensures
        r.diverge@.len() == 0,
        r.only_in_a@.len() == 0,
        r.only_in_b@.len() == 0,
        agree_keys(entry_map(grounded_entries(m)), entry_map(grounded_entries(m))) == entry_map(grounded_entries(m)).dom(),
{
    let mm = entry_map(grounded_entries(m));
    if r.diverge@.len() > 0 {
        assert(item_has_key(r.diverge@[0], diverge_keys(mm, mm), diverge_rel(mm, mm)));
    }
    if r.only_in_a@.len() > 0 {
        assert(item_has_key(r.only_in_a@[0], only_keys(mm, mm), unique_rel(mm)));
    }
    if r.only_in_b@.len() > 0 {
        assert(item_has_key(r.only_in_b@[0], only_keys(mm, mm), unique_rel(mm)));
    }
    assert(agree_keys(mm, mm) =~= mm.dom());
}

/// A diff has a divergence exactly when some joined pair of elements differs
/// in category (this drives the non-zero exit code).
pub proof fn lemma_divergence_iff(
    r: DiffResult,
    ma: Map<Seq<char>, (Seq<char>, ElementKind, Option<Seq<char>>)>,
    mb: Map<Seq<char>, (Seq<char>, ElementKind, Option<Seq<char>>)>,
)
    requires
        diff_of(r, ma, mb),
    ensures
        r.diverge@.len() > 0 <==> exists|k: Seq<char>|
            ma.contains_key(k) && mb.contains_key(k) && entry_category(ma[k]) != entry_category(mb[k]),
{
    if r.diverge@.len() > 0 {
        assert(item_has_key(r.diverge@[0], diverge_keys(ma, mb), diverge_rel(ma, mb)));
    }
    if exists|k: Seq<char>| ma.contains_key(k) && mb.contains_key(k) && entry_category(ma[k]) != entry_category(mb[k]) {
        let k = choose|k: Seq<char>| ma.contains_key(k) && mb.contains_key(k) && entry_category(ma[k]) != entry_category(mb[k]);
        assert(diverge_keys(ma, mb).contains(k));
    }
}

/// Two name-sorted lists that cover the same keys, where an item's name is
/// determined by its key and different keys have different names, list the
/// same keys position by position.
pub proof fn lemma_sorted_covers_unique<T: NamedItem>(
    l1: Seq<T>,
    l2: Seq<T>,
    keys: Set<Seq<char>>,
    rel: spec_fn(T, Seq<char>) -> bool,
    names: spec_fn(Seq<char>) -> Seq<char>,
)
    requires
        sorted_by_name(l1),
        sorted_by_name(l2),
        covers(l1, keys, rel),
        covers(l2, keys, rel),
        forall|x: T, k: Seq<char>| #[trigger] rel(x, k) ==> x.item_name() == names(k),
        forall|k1: Seq<char>, k2: Seq<char>|
            keys.contains(k1) && keys.contains(k2) && #[trigger] names(k1) == #[trigger] names(k2) ==> k1 == k2,
    ensures
        l1.len() == l2.len(),
        forall|i: int| 0 <= i < l1.len() ==> exists|k: Seq<char>| keys.contains(k) && rel(#[trigger] l1[i], k) && rel(l2[i], k),
    decreases l1.len() + l2.len(),
{
    if l1.len() == 0 || l2.len() == 0 {
        if l1.len() > 0 {
            assert(item_has_key(l1[0], keys, rel));
            let k = choose|k: Seq<char>| #[trigger] keys.contains(k) && rel(l1[0], k);
            assert(key_has_item(l2, k, rel));
        }
        if l2.len() > 0 {
            assert(item_has_key(l2[0], keys, rel));
            let k = choose|k: Seq<char>| #[trigger] keys.contains(k) && rel(l2[0], k);
            assert(key_has_item(l1, k, rel));
        }
    } else {
        assert(item_has_key(l1[0], keys, rel));
        let k1 = choose|k: Seq<char>| #[trigger] keys.contains(k) && rel(l1[0], k);
        assert(item_has_key(l2[0], keys, rel));
        let k2 = choose|k: Seq<char>| #[trigger] keys.contains(k) && rel(l2[0], k);
        assert(key_has_item(l1, k2, rel));
        let j = choose|i: int| 0 <= i < l1.len() && #[trigger] rel(l1[i], k2);
        assert(key_has_item(l2, k1, rel));
        let j2 = choose|i: int| 0 <= i < l2.len() && #[trigger] rel(l2[i], k1);
        let n1 = l1[0].item_name();
        let n2 = l2[0].item_name();
        if j > 0 && j2 > 0 {
            assert(lex_lt(n1, l1[j].item_name()));
            assert(lex_lt(n2, l2[j2].item_name()));
            crate::order::lemma_lex_asymmetric(n1, n2);
        } else if j > 0 {
            assert(lex_lt(n1, l1[j].item_name()));
            lemma_lex_irreflexive(n1);
        } else if j2 > 0 {
            assert(lex_lt(n2, l2[j2].item_name()));
            lemma_lex_irreflexive(n2);
        }
        assert(names(k1) == names(k2));
        assert(k1 == k2);
        let t1 = l1.drop_first();
        let t2 = l2.drop_first();
        let keys2 = keys.remove(k1);
        assert forall|i: int| 0 <= i < t1.len() implies #[trigger] item_has_key(t1[i], keys2, rel) by {
            assert(t1[i] == l1[i + 1]);
            assert(item_has_key(l1[i + 1], keys, rel));
            let k = choose|k: Seq<char>| #[trigger] keys.contains(k) && rel(l1[i + 1], k);
            assert(lex_lt(n1, l1[i + 1].item_name()));
            if k == k1 {
                lemma_lex_irreflexive(n1);
            }
            assert(keys2.contains(k));
        }
        assert forall|i: int| 0 <= i < t2.len() implies #[trigger] item_has_key(t2[i], keys2, rel) by {
            assert(t2[i] == l2[i + 1]);
            assert(item_has_key(l2[i + 1], keys, rel));
            let k = choose|k: Seq<char>| #[trigger] keys.contains(k) && rel(l2[i + 1], k);
            assert(lex_lt(n2, l2[i + 1].item_name()));
            if k == k1 {
                lemma_lex_irreflexive(n2);
            }
            assert(keys2.contains(k));
        }
        assert forall|k: Seq<char>| #[trigger] keys2.contains(k) implies key_has_item(t1, k, rel) by {
            assert(key_has_item(l1, k, rel));
            let i = choose|i: int| 0 <= i < l1.len() && #[trigger] rel(l1[i], k);
            if i == 0 {
                assert(names(k) == names(k1));
            }
            assert(rel(t1[i - 1], k));
        }
        assert forall|k: Seq<char>| #[trigger] keys2.contains(k) implies key_has_item(t2, k, rel) by {
            assert(key_has_item(l2, k, rel));
            let i = choose|i: int| 0 <= i < l2.len() && #[trigger] rel(l2[i], k);
            if i == 0 {
                assert(names(k) == names(k1));
            }
            assert(rel(t2[i - 1], k));
        }
        assert forall|a: int, b: int| 0 <= a < b < t1.len() implies lex_lt(#[trigger] t1[a].item_name(), #[trigger] t1[b].item_name()) by {
            assert(t1[a] == l1[a + 1] && t1[b] == l1[b + 1]);
        }
        assert forall|a: int, b: int| 0 <= a < b < t2.len() implies lex_lt(#[trigger] t2[a].item_name(), #[trigger] t2[b].item_name()) by {
            assert(t2[a] == l2[a + 1] && t2[b] == l2[b + 1]);
        }
        lemma_sorted_covers_unique(t1, t2, keys2, rel, names);
        assert forall|i: int| 0 <= i < l1.len() implies exists|k: Seq<char>| keys.contains(k) && rel(#[trigger] l1[i], k) && rel(l2[i], k) by {
            if i == 0 {
                assert(keys.contains(k1) && rel(l1[0], k1) && rel(l2[0], k1));
            } else {
                assert(t1[i - 1] == l1[i] && t2[i - 1] == l2[i]);
                let k = choose|k: Seq<char>| keys2.contains(k) && rel(#[trigger] t1[i - 1], k) && rel(t2[i - 1], k);
                assert(keys.contains(k));
            }
        }
    }
}

/// What model A alone has is the same, item for item, whether A is diffed
/// against B or B against A.
pub proof fn lemma_only_in_symmetric(r1: DiffResult, r2: DiffResult, a: AtscaleModel, b: AtscaleModel)
    requires
        diff_of_models(r1, a, b),
        diff_of_models(r2, b, a),
    ensures
        r1.only_in_a@.len() == r2.only_in_b@.len(),
        forall|i: int| 0 <= i < r1.only_in_a@.len() ==> {
            &&& (#[trigger] r1.only_in_a@[i]).name@ == r2.only_in_b@[i].name@
            &&& r1.only_in_a@[i].bfo_category == r2.only_in_b@[i].bfo_category
            &&& r1.only_in_a@[i].element_type@ == r2.only_in_b@[i].element_type@
            &&& r1.only_in_a@[i].rationale@ == r2.only_in_b@[i].rationale@
        },
{
    let ea = grounded_entries(a);
    let ma = entry_map(ea);
    let mb = entry_map(grounded_entries(b));
    let keys = only_keys(ma, mb);
    let rel = unique_rel(ma);
    let names = |k: Seq<char>| ma[k].0;
    assert forall|x: UniqueElement, k: Seq<char>| #[trigger] rel(x, k) implies x.item_name() == names(k) by {}
    assert forall|k1: Seq<char>, k2: Seq<char>|
        keys.contains(k1) && keys.contains(k2) && #[trigger] names(k1) == #[trigger] names(k2) implies k1 == k2 by {
        lemma_entry_map_keys(ea, k1);
        lemma_entry_map_keys(ea, k2);
    }
    lemma_sorted_covers_unique(r1.only_in_a@, r2.only_in_b@, keys, rel, names);
    assert forall|i: int| 0 <= i < r1.only_in_a@.len() implies {
        &&& (#[trigger] r1.only_in_a@[i]).name@ == r2.only_in_b@[i].name@
        &&& r1.only_in_a@[i].bfo_category == r2.only_in_b@[i].bfo_category
        &&& r1.only_in_a@[i].element_type@ == r2.only_in_b@[i].element_type@
        &&& r1.only_in_a@[i].rationale@ == r2.only_in_b@[i].rationale@
    } by {
        let k = choose|k: Seq<char>| keys.contains(k) && rel(#[trigger] r1.only_in_a@[i], k) && rel(r2.only_in_b@[i], k);
    }
}

/// A name-sorted list that covers a set of keys, where an item's name is
/// determined by its key and different keys have different names, has one
/// item per key.
pub proof fn lemma_covers_len<T: NamedItem>(
    l: Seq<T>,
    keys: Set<Seq<char>>,
    rel: spec_fn(T, Seq<char>) -> bool,
    names: spec_fn(Seq<char>) -> Seq<char>,
)
    requires
        sorted_by_name(l),
        covers(l, keys, rel),
        forall|x: T, k: Seq<char>| #[trigger] rel(x, k) ==> x.item_name() == names(k),
        forall|k1: Seq<char>, k2: Seq<char>|
            keys.contains(k1) && keys.contains(k2) && #[trigger] names(k1) == #[trigger] names(k2) ==> k1 == k2,
    ensures
        keys.finite(),
        l.len() == keys.len(),
    decreases l.len(),
{
    if l.len() == 0 {
        assert forall|k: Seq<char>| !#[trigger] keys.contains(k) by {
            if keys.contains(k) {
                assert(key_has_item(l, k, rel));
            }
        }
        assert(keys =~= Set::<Seq<char>>::empty());
    } else {
        let last = l.len() - 1;
        assert(item_has_key(l[last], keys, rel));
        let k = choose|k: Seq<char>| #[trigger] keys.contains(k) && rel(l[last], k);
        let l2 = l.drop_last();
        let keys2 = keys.remove(k);
        let n = l[last].item_name();
        assert forall|i: int| 0 <= i < l2.len() implies #[trigger] item_has_key(l2[i], keys2, rel) by {
            assert(l2[i] == l[i]);
            assert(item_has_key(l[i], keys, rel));
            let k2 = choose|k2: Seq<char>| #[trigger] keys.contains(k2) && rel(l[i], k2);
            assert(lex_lt(l[i].item_name(), n));
            if k2 == k {
                lemma_lex_irreflexive(n);
            }
            assert(keys2.contains(k2));
        }
        assert forall|k2: Seq<char>| #[trigger] keys2.contains(k2) implies key_has_item(l2, k2, rel) by {
            assert(key_has_item(l, k2, rel));
            let i = choose|i: int| 0 <= i < l.len() && #[trigger] rel(l[i], k2);
            if i == last {
                assert(names(k2) == names(k));
            }
            assert(rel(l2[i], k2));
        }
        assert forall|a: int, b: int| 0 <= a < b < l2.len() implies lex_lt(#[trigger] l2[a].item_name(), #[trigger] l2[b].item_name()) by {
            assert(l2[a] == l[a] && l2[b] == l[b]);
        }
        lemma_covers_len(l2, keys2, rel, names);
        assert(keys =~= keys2.insert(k));
    }
}

/// Diffing A against B and B against A finds as many agreements, and as many
/// divergences, either way.
pub proof fn lemma_diff_counts_symmetric(r1: DiffResult, r2: DiffResult, a: AtscaleModel, b: AtscaleModel)
    requires
        diff_of_models(r1, a, b),
        diff_of_models(r2, b, a),
    ensures
        r1.agree@.len() == r2.agree@.len(),
        r1.diverge@.len() == r2.diverge@.len(),
        r1.only_in_a@.len() == r2.only_in_b@.len(),
        r1.only_in_b@.len() == r2.only_in_a@.len(),
{
    let ea = grounded_entries(a);
    let eb = grounded_entries(b);
    let ma = entry_map(ea);
    let mb = entry_map(eb);
    let names_a = |k: Seq<char>| ma[k].0;
    let names_b = |k: Seq<char>| mb[k].0;
    assert(agree_keys(ma, mb) =~= agree_keys(mb, ma));
    assert(diverge_keys(ma, mb) =~= diverge_keys(mb, ma));
    assert forall|k1: Seq<char>, k2: Seq<char>|
        ma.contains_key(k1) && ma.contains_key(k2) && #[trigger] names_a(k1) == #[trigger] names_a(k2) implies k1 == k2 by {
        lemma_entry_map_keys(ea, k1);
        lemma_entry_map_keys(ea, k2);
    }
    assert forall|k1: Seq<char>, k2: Seq<char>|
        mb.contains_key(k1) && mb.contains_key(k2) && #[trigger] names_b(k1) == #[trigger] names_b(k2) implies k1 == k2 by {
        lemma_entry_map_keys(eb, k1);
        lemma_entry_map_keys(eb, k2);
    }
    assert forall|x: AgreePair, k: Seq<char>| #[trigger] agree_rel(ma, mb)(x, k) implies x.item_name() == names_a(k) by {}
    assert forall|x: AgreePair, k: Seq<char>| #[trigger] agree_rel(mb, ma)(x, k) implies x.item_name() == names_b(k) by {}
    assert forall|x: DivergePair, k: Seq<char>| #[trigger] diverge_rel(ma, mb)(x, k) implies x.item_name() == names_a(k) by {}
    assert forall|x: DivergePair, k: Seq<char>| #[trigger] diverge_rel(mb, ma)(x, k) implies x.item_name() == names_b(k) by {}
    lemma_covers_len(r1.agree@, agree_keys(ma, mb), agree_rel(ma, mb), names_a);
    lemma_covers_len(r2.agree@, agree_keys(mb, ma), agree_rel(mb, ma), names_b);
    lemma_covers_len(r1.diverge@, diverge_keys(ma, mb), diverge_rel(ma, mb), names_a);
    lemma_covers_len(r2.diverge@, diverge_keys(mb, ma), diverge_rel(mb, ma), names_b);
    lemma_only_in_symmetric(r1, r2, a, b);
    lemma_only_in_symmetric(r2, r1, b, a);
}

/// Every element name of model A (up to case) is reported exactly once: as an
/// agreement, a divergence, or as unique to A.
pub proof fn lemma_diff_partition(r: DiffResult, a: AtscaleModel, b: AtscaleModel)
    requires
        diff_of_models(r, a, b),
    ensures
        entry_map(grounded_entries(a)).dom().finite(),
        r.agree@.len() + r.diverge@.len() + r.only_in_a@.len() == entry_map(grounded_entries(a)).dom().len(),
{
    let ea = grounded_entries(a);
    let ma = entry_map(ea);
    let mb = entry_map(grounded_entries(b));
    let names_a = |k: Seq<char>| ma[k].0;
    assert forall|k1: Seq<char>, k2: Seq<char>|
        ma.contains_key(k1) && ma.contains_key(k2) && #[trigger] names_a(k1) == #[trigger] names_a(k2) implies k1 == k2 by {
        lemma_entry_map_keys(ea, k1);
        lemma_entry_map_keys(ea, k2);
    }
    assert forall|x: AgreePair, k: Seq<char>| #[trigger] agree_rel(ma, mb)(x, k) implies x.item_name() == names_a(k) by {}
    assert forall|x: DivergePair, k: Seq<char>| #[trigger] diverge_rel(ma, mb)(x, k) implies x.item_name() == names_a(k) by {}
    assert forall|x: UniqueElement, k: Seq<char>| #[trigger] unique_rel(ma)(x, k) implies x.item_name() == names_a(k) by {}
    let ka = agree_keys(ma, mb);
    let kd = diverge_keys(ma, mb);
    let ko = only_keys(ma, mb);
    lemma_covers_len(r.agree@, ka, agree_rel(ma, mb), names_a);
    lemma_covers_len(r.diverge@, kd, diverge_rel(ma, mb), names_a);
    lemma_covers_len(r.only_in_a@, ko, unique_rel(ma), names_a);
    assert(ka.disjoint(kd));
    vstd::set_lib::lemma_set_disjoint_lens(ka, kd);
    assert((ka + kd).disjoint(ko));
    vstd::set_lib::lemma_set_disjoint_lens(ka + kd, ko);
    assert(ma.dom() =~= ka + kd + ko);
}

/// `y` is the divergence `x` seen from the other side: the same element (its
/// name lower-cased alike), with the two categories, element types and
/// rationales exchanged.
pub open spec fn swapped_divergence(x: DivergePair, y: DivergePair) -> bool {
    &&& lowercase(y.name@) == lowercase(x.name@)
    &&& y.category_a == x.category_b
    &&& y.category_b == x.category_a
    &&& y.element_type_a@ == x.element_type_b@
    &&& y.element_type_b@ == x.element_type_a@
    &&& y.rationale_a@ == x.rationale_b@
    &&& y.rationale_b@ == x.rationale_a@
}

/// `y` is the agreement `x` seen from the other side: the same element (its
/// name lower-cased alike), the same category, the element types exchanged.
pub open spec fn swapped_agreement(x: AgreePair, y: AgreePair) -> bool {
    &&& lowercase(y.name@) == lowercase(x.name@)
    &&& y.bfo_category == x.bfo_category
    &&& y.element_type_a@ == x.element_type_b@
    &&& y.element_type_b@ == x.element_type_a@
}

/// `x` and `y` record the same element, found in one model only.
pub open spec fn same_unique(x: UniqueElement, y: UniqueElement) -> bool {
    &&& x.name@ == y.name@
    &&& x.bfo_category == y.bfo_category
    &&& x.element_type@ == y.element_type@
    &&& x.rationale@ == y.rationale@
}

/// Some divergence of `l` is `x` seen from the other side.
pub open spec fn has_swapped_divergence(x: DivergePair, l: Seq<DivergePair>) -> bool {
    exists|j: int| 0 <= j < l.len() && #[trigger] swapped_divergence(x, l[j])
}

/// Some agreement of `l` is `x` seen from the other side.
pub open spec fn has_swapped_agreement(x: AgreePair, l: Seq<AgreePair>) -> bool {
    exists|j: int| 0 <= j < l.len() && #[trigger] swapped_agreement(x, l[j])
}

proof fn lemma_swapped_one_way(r1: DiffResult, r2: DiffResult, a: AtscaleModel, b: AtscaleModel)
    requires
        diff_of_models(r1, a, b),
        diff_of_models(r2, b, a),
    ensures
        forall|i: int| 0 <= i < r1.diverge@.len() ==> #[trigger] has_swapped_divergence(r1.diverge@[i], r2.diverge@),
        forall|i: int| 0 <= i < r1.agree@.len() ==> #[trigger] has_swapped_agreement(r1.agree@[i], r2.agree@),
{
    let ea = grounded_entries(a);
    let eb = grounded_entries(b);
    let ma = entry_map(ea);
    let mb = entry_map(eb);
    assert forall|i: int| 0 <= i < r1.diverge@.len() implies #[trigger] has_swapped_divergence(r1.diverge@[i], r2.diverge@) by {
        let x = r1.diverge@[i];
        assert(item_has_key(x, diverge_keys(ma, mb), diverge_rel(ma, mb)));
        let k = choose|k: Seq<char>| #[trigger] diverge_keys(ma, mb).contains(k) && diverge_rel(ma, mb)(x, k);
        assert(diverge_keys(mb, ma).contains(k));
        assert(key_has_item(r2.diverge@, k, diverge_rel(mb, ma)));
        let j = choose|j: int| 0 <= j < r2.diverge@.len() && #[trigger] diverge_rel(mb, ma)(r2.diverge@[j], k);
        lemma_entry_map_keys(ea, k);
        lemma_entry_map_keys(eb, k);
        assert(swapped_divergence(x, r2.diverge@[j]));
    }
    assert forall|i: int| 0 <= i < r1.agree@.len() implies #[trigger] has_swapped_agreement(r1.agree@[i], r2.agree@) by {
        let x = r1.agree@[i];
        assert(item_has_key(x, agree_keys(ma, mb), agree_rel(ma, mb)));
        let k = choose|k: Seq<char>| #[trigger] agree_keys(ma, mb).contains(k) && agree_rel(ma, mb)(x, k);
        assert(agree_keys(mb, ma).contains(k));
        assert(key_has_item(r2.agree@, k, agree_rel(mb, ma)));
        let j = choose|j: int| 0 <= j < r2.agree@.len() && #[trigger] agree_rel(mb, ma)(r2.agree@[j], k);
        lemma_entry_map_keys(ea, k);
        lemma_entry_map_keys(eb, k);
        assert(swapped_agreement(x, r2.agree@[j]));
    }
}

/// Swapping the two models swaps the sides of the diff: each divergence of
/// A against B is a divergence of B against A with the two sides exchanged,
/// each agreement is an agreement of the same element either way, and what is
/// unique to A on one side is unique to it on the other.
pub proof fn lemma_diff_swap(r1: DiffResult, r2: DiffResult, a: AtscaleModel, b: AtscaleModel)
    requires
        diff_of_models(r1, a, b),
        diff_of_models(r2, b, a),
    ensures
        r1.diverge@.len() == r2.diverge@.len(),
        r1.agree@.len() == r2.agree@.len(),
        forall|i: int| 0 <= i < r1.diverge@.len() ==> #[trigger] has_swapped_divergence(r1.diverge@[i], r2.diverge@),
        forall|j: int| 0 <= j < r2.diverge@.len() ==> #[trigger] has_swapped_divergence(r2.diverge@[j], r1.diverge@),
        forall|i: int| 0 <= i < r1.agree@.len() ==> #[trigger] has_swapped_agreement(r1.agree@[i], r2.agree@),
        forall|j: int| 0 <= j < r2.agree@.len() ==> #[trigger] has_swapped_agreement(r2.agree@[j], r1.agree@),
        r1.only_in_a@.len() == r2.only_in_b@.len(),
        r1.only_in_b@.len() == r2.only_in_a@.len(),
        forall|i: int| 0 <= i < r1.only_in_a@.len() ==> same_unique(#[trigger] r1.only_in_a@[i], r2.only_in_b@[i]),
        forall|i: int| 0 <= i < r1.only_in_b@.len() ==> same_unique(#[trigger] r1.only_in_b@[i], r2.only_in_a@[i]),
{
    lemma_diff_counts_symmetric(r1, r2, a, b);
    lemma_swapped_one_way(r1, r2, a, b);
    lemma_swapped_one_way(r2, r1, b, a);
    lemma_only_in_symmetric(r1, r2, a, b);
    lemma_only_in_symmetric(r2, r1, b, a);
}

/// The entries of model `m` that a diff joins, keyed by lower-cased name.
pub open spec fn keyed_entries(m: AtscaleModel) -> Map<Seq<char>, (Seq<char>, ElementKind, Option<Seq<char>>)> {
    entry_map(grounded_entries(m))
}

/// Some item of `l` has the lower-cased name `k`.
pub open spec fn lists_key<T: NamedItem>(l: Seq<T>, k: Seq<char>) -> bool {
    exists|i: int| 0 <= i < l.len() && lowercase(#[trigger] l[i].item_name()) == k
}

proof fn lemma_covered_names<T: NamedItem>(
    l: Seq<T>,
    keys: Set<Seq<char>>,
    rel: spec_fn(T, Seq<char>) -> bool,
    m: Map<Seq<char>, (Seq<char>, ElementKind, Option<Seq<char>>)>,
)
    requires
        sorted_by_name(l),
        covers(l, keys, rel),
        forall|x: T, k: Seq<char>| #[trigger] rel(x, k) ==> x.item_name() == m[k].0,
        forall|k: Seq<char>| #[trigger] keys.contains(k) ==> lowercase(m[k].0) == k,
    ensures
        forall|i: int| 0 <= i < l.len() ==> keys.contains(lowercase(#[trigger] l[i].item_name())) && rel(
            l[i],
            lowercase(l[i].item_name()),
        ),
        forall|k: Seq<char>| #[trigger] keys.contains(k) ==> lists_key(l, k),
        forall|i: int, j: int|
            0 <= i < j < l.len() ==> lowercase(#[trigger] l[i].item_name()) != lowercase(#[trigger] l[j].item_name()),
{
    assert forall|i: int| 0 <= i < l.len() implies keys.contains(lowercase(#[trigger] l[i].item_name())) && rel(
        l[i],
        lowercase(l[i].item_name()),
    ) by {
        assert(item_has_key(l[i], keys, rel));
        let k = choose|k: Seq<char>| #[trigger] keys.contains(k) && rel(l[i], k);
        assert(lowercase(l[i].item_name()) == k);
    }
    assert forall|k: Seq<char>| #[trigger] keys.contains(k) implies lists_key(l, k) by {
        assert(key_has_item(l, k, rel));
        let i = choose|i: int| 0 <= i < l.len() && #[trigger] rel(l[i], k);
        assert(lowercase(l[i].item_name()) == k);
    }
    assert forall|i: int, j: int| 0 <= i < j < l.len() implies lowercase(#[trigger] l[i].item_name()) != lowercase(
        #[trigger] l[j].item_name(),
    ) by {
        let ki = lowercase(l[i].item_name());
        let kj = lowercase(l[j].item_name());
        assert(rel(l[i], ki) && rel(l[j], kj));
        if ki == kj {
            assert(l[i].item_name() == l[j].item_name());
            assert(lex_lt(l[i].item_name(), l[j].item_name()));
            lemma_lex_irreflexive(l[i].item_name());
        }
    }
}

/// A diff joins the two models by lower-cased name: each agreement and each
/// divergence is an element name of both models, with the categories of its
/// two sides (equal for an agreement, different for a divergence); each
/// element of one model only is listed as unique to it; every joined name is
/// listed, and no list holds a name twice.
pub proof fn lemma_diff_join(r: DiffResult, a: AtscaleModel, b: AtscaleModel)
    requires
        diff_of_models(r, a, b),
    ensures
        forall|i: int| 0 <= i < r.agree@.len() ==> {
            let k = lowercase(#[trigger] r.agree@[i].name@);
            &&& keyed_entries(a).contains_key(k) && keyed_entries(b).contains_key(k)
            &&& r.agree@[i].name@ == keyed_entries(a)[k].0
            &&& r.agree@[i].bfo_category == entry_category(keyed_entries(a)[k])
            &&& entry_category(keyed_entries(a)[k]) == entry_category(keyed_entries(b)[k])
        },
        forall|i: int| 0 <= i < r.diverge@.len() ==> {
            let k = lowercase(#[trigger] r.diverge@[i].name@);
            &&& keyed_entries(a).contains_key(k) && keyed_entries(b).contains_key(k)
            &&& r.diverge@[i].name@ == keyed_entries(a)[k].0
            &&& r.diverge@[i].category_a == entry_category(keyed_entries(a)[k])
            &&& r.diverge@[i].category_b == entry_category(keyed_entries(b)[k])
            &&& r.diverge@[i].category_a != r.diverge@[i].category_b
        },
        forall|i: int| 0 <= i < r.only_in_a@.len() ==> {
            let k = lowercase(#[trigger] r.only_in_a@[i].name@);
            &&& keyed_entries(a).contains_key(k) && !keyed_entries(b).contains_key(k)
            &&& r.only_in_a@[i].name@ == keyed_entries(a)[k].0
        },
        forall|i: int| 0 <= i < r.only_in_b@.len() ==> {
            let k = lowercase(#[trigger] r.only_in_b@[i].name@);
            &&& keyed_entries(b).contains_key(k) && !keyed_entries(a).contains_key(k)
            &&& r.only_in_b@[i].name@ == keyed_entries(b)[k].0
        },
        forall|k: Seq<char>|
            #![trigger keyed_entries(a).contains_key(k), keyed_entries(b).contains_key(k)]
            keyed_entries(a).contains_key(k) && keyed_entries(b).contains_key(k) ==> lists_key(r.agree@, k)
                || lists_key(r.diverge@, k),
        forall|k: Seq<char>|
            #![trigger keyed_entries(a).contains_key(k)]
            keyed_entries(a).contains_key(k) && !keyed_entries(b).contains_key(k) ==> lists_key(r.only_in_a@, k),
        forall|k: Seq<char>|
            #![trigger keyed_entries(b).contains_key(k)]
            keyed_entries(b).contains_key(k) && !keyed_entries(a).contains_key(k) ==> lists_key(r.only_in_b@, k),
        forall|i: int, j: int|
            0 <= i < j < r.agree@.len() ==> lowercase(#[trigger] r.agree@[i].name@) != lowercase(#[trigger] r.agree@[j].name@),
        forall|i: int, j: int|
            0 <= i < j < r.diverge@.len() ==> lowercase(#[trigger] r.diverge@[i].name@) != lowercase(
                #[trigger] r.diverge@[j].name@,
            ),
        forall|i: int, j: int|
            0 <= i < j < r.only_in_a@.len() ==> lowercase(#[trigger] r.only_in_a@[i].name@) != lowercase(
                #[trigger] r.only_in_a@[j].name@,
            ),
        forall|i: int, j: int|
            0 <= i < j < r.only_in_b@.len() ==> lowercase(#[trigger] r.only_in_b@[i].name@) != lowercase(
                #[trigger] r.only_in_b@[j].name@,
            ),
{
    let ea = grounded_entries(a);
    let eb = grounded_entries(b);
    let ma = entry_map(ea);
    let mb = entry_map(eb);
    assert forall|k: Seq<char>| #[trigger] ma.contains_key(k) implies lowercase(ma[k].0) == k by {
        lemma_entry_map_keys(ea, k);
    }
    assert forall|k: Seq<char>| #[trigger] mb.contains_key(k) implies lowercase(mb[k].0) == k by {
        lemma_entry_map_keys(eb, k);
    }
    assert forall|x: AgreePair, k: Seq<char>| #[trigger] agree_rel(ma, mb)(x, k) implies x.item_name() == ma[k].0 by {}
    assert forall|x: DivergePair, k: Seq<char>| #[trigger] diverge_rel(ma, mb)(x, k) implies x.item_name() == ma[k].0 by {}
    assert forall|x: UniqueElement, k: Seq<char>| #[trigger] unique_rel(ma)(x, k) implies x.item_name() == ma[k].0 by {}
    assert forall|x: UniqueElement, k: Seq<char>| #[trigger] unique_rel(mb)(x, k) implies x.item_name() == mb[k].0 by {}
    assert forall|k: Seq<char>| #[trigger] agree_keys(ma, mb).contains(k) implies lowercase(ma[k].0) == k by {
        assert(ma.contains_key(k));
    }
    assert forall|k: Seq<char>| #[trigger] diverge_keys(ma, mb).contains(k) implies lowercase(ma[k].0) == k by {
        assert(ma.contains_key(k));
    }
    assert forall|k: Seq<char>| #[trigger] only_keys(ma, mb).contains(k) implies lowercase(ma[k].0) == k by {
        assert(ma.contains_key(k));
    }
    assert forall|k: Seq<char>| #[trigger] only_keys(mb, ma).contains(k) implies lowercase(mb[k].0) == k by {
        assert(mb.contains_key(k));
    }
    lemma_covered_names(r.agree@, agree_keys(ma, mb), agree_rel(ma, mb), ma);
    lemma_covered_names(r.diverge@, diverge_keys(ma, mb), diverge_rel(ma, mb), ma);
    lemma_covered_names(r.only_in_a@, only_keys(ma, mb), unique_rel(ma), ma);
    lemma_covered_names(r.only_in_b@, only_keys(mb, ma), unique_rel(mb), mb);
    assert forall|i: int| 0 <= i < r.agree@.len() implies {
        let k = lowercase(#[trigger] r.agree@[i].name@);
        &&& keyed_entries(a).contains_key(k) && keyed_entries(b).contains_key(k)
        &&& r.agree@[i].name@ == keyed_entries(a)[k].0
        &&& r.agree@[i].bfo_category == entry_category(keyed_entries(a)[k])
        &&& entry_category(keyed_entries(a)[k]) == entry_category(keyed_entries(b)[k])
    } by {
        let k = lowercase(r.agree@[i].item_name());
        assert(agree_keys(ma, mb).contains(k) && agree_rel(ma, mb)(r.agree@[i], k));
    }
    assert forall|i: int| 0 <= i < r.diverge@.len() implies {
        let k = lowercase(#[trigger] r.diverge@[i].name@);
        &&& keyed_entries(a).contains_key(k) && keyed_entries(b).contains_key(k)
        &&& r.diverge@[i].name@ == keyed_entries(a)[k].0
        &&& r.diverge@[i].category_a == entry_category(keyed_entries(a)[k])
        &&& r.diverge@[i].category_b == entry_category(keyed_entries(b)[k])
        &&& r.diverge@[i].category_a != r.diverge@[i].category_b
    } by {
        let k = lowercase(r.diverge@[i].item_name());
        assert(diverge_keys(ma, mb).contains(k) && diverge_rel(ma, mb)(r.diverge@[i], k));
    }
    assert forall|i: int, j: int| 0 <= i < j < r.agree@.len() implies lowercase(#[trigger] r.agree@[i].name@)
        != lowercase(#[trigger] r.agree@[j].name@) by {
        assert(lowercase(r.agree@[i].item_name()) != lowercase(r.agree@[j].item_name()));
    }
    assert forall|i: int, j: int| 0 <= i < j < r.diverge@.len() implies lowercase(#[trigger] r.diverge@[i].name@)
        != lowercase(#[trigger] r.diverge@[j].name@) by {
        assert(lowercase(r.diverge@[i].item_name()) != lowercase(r.diverge@[j].item_name()));
    }
    assert forall|i: int, j: int| 0 <= i < j < r.only_in_a@.len() implies lowercase(#[trigger] r.only_in_a@[i].name@)
        != lowercase(#[trigger] r.only_in_a@[j].name@) by {
        assert(lowercase(r.only_in_a@[i].item_name()) != lowercase(r.only_in_a@[j].item_name()));
    }
    assert forall|i: int, j: int| 0 <= i < j < r.only_in_b@.len() implies lowercase(#[trigger] r.only_in_b@[i].name@)
        != lowercase(#[trigger] r.only_in_b@[j].name@) by {
        assert(lowercase(r.only_in_b@[i].item_name()) != lowercase(r.only_in_b@[j].item_name()));
    }
    assert forall|i: int| 0 <= i < r.only_in_a@.len() implies {
        let k = lowercase(#[trigger] r.only_in_a@[i].name@);
        &&& keyed_entries(a).contains_key(k) && !keyed_entries(b).contains_key(k)
        &&& r.only_in_a@[i].name@ == keyed_entries(a)[k].0
    } by {
        let k = lowercase(r.only_in_a@[i].item_name());
        assert(only_keys(ma, mb).contains(k) && unique_rel(ma)(r.only_in_a@[i], k));
    }
    assert forall|i: int| 0 <= i < r.only_in_b@.len() implies {
        let k = lowercase(#[trigger] r.only_in_b@[i].name@);
        &&& keyed_entries(b).contains_key(k) && !keyed_entries(a).contains_key(k)
        &&& r.only_in_b@[i].name@ == keyed_entries(b)[k].0
    } by {
        let k = lowercase(r.only_in_b@[i].item_name());
        assert(only_keys(mb, ma).contains(k) && unique_rel(mb)(r.only_in_b@[i], k));
    }
    assert forall|k: Seq<char>|
        #![trigger keyed_entries(a).contains_key(k), keyed_entries(b).contains_key(k)]
        keyed_entries(a).contains_key(k) && keyed_entries(b).contains_key(k) implies lists_key(r.agree@, k)
            || lists_key(r.diverge@, k) by {
        if entry_category(ma[k]) == entry_category(mb[k]) {
            assert(agree_keys(ma, mb).contains(k));
        } else {
            assert(diverge_keys(ma, mb).contains(k));
        }
    }
    assert forall|k: Seq<char>|
        #![trigger keyed_entries(a).contains_key(k)]
        keyed_entries(a).contains_key(k) && !keyed_entries(b).contains_key(k) implies lists_key(r.only_in_a@, k) by {
        assert(only_keys(ma, mb).contains(k));
    }
    assert forall|k: Seq<char>|
        #![trigger keyed_entries(b).contains_key(k)]
        keyed_entries(b).contains_key(k) && !keyed_entries(a).contains_key(k) implies lists_key(r.only_in_b@, k) by {
        assert(only_keys(mb, ma).contains(k));
    }
}

/// A line of 80 dashes (without its newline).
pub open spec fn dash_line() -> Seq<char> {
    Seq::new(80, |i: int| '-')
}

/// The text lines of one divergence: the name and both categories, then the
/// rationale of each side.
pub open spec fn divergence_text(d: DivergePair) -> Seq<char> {
    "  "@ + d.name@ + " : A="@ + category_label(d.category_a) + " vs B="@ + category_label(d.category_b) + "\n"@
        + "    A rationale: "@ + d.rationale_a@ + "\n"@ + "    B rationale: "@ + d.rationale_b@ + "\n"@
}

/// The text lines of the divergences, in order.
pub open spec fn divergences_text(ds: Seq<DivergePair>) -> Seq<char>
    decreases ds.len(),
{
    if ds.len() == 0 {
        Seq::empty()
    } else {
        divergences_text(ds.drop_last()) + divergence_text(ds.last())
    }
}

/// The line of an element found in one model only: its name and category.
pub open spec fn unique_text(u: UniqueElement) -> Seq<char> {
    "  "@ + u.name@ + " ["@ + category_label(u.bfo_category) + "]\n"@
}

/// The lines of the elements found in one model only, in order.
pub open spec fn uniques_text(us: Seq<UniqueElement>) -> Seq<char>
    decreases us.len(),
{
    if us.len() == 0 {
        Seq::empty()
    } else {
        uniques_text(us.drop_last()) + unique_text(us.last())
    }
}

/// The line of an agreement: its name and category.
pub open spec fn agreement_text(a: AgreePair) -> Seq<char> {
    "  "@ + a.name@ + " ["@ + category_label(a.bfo_category) + "]\n"@
}

/// The lines of the agreements, in order.
pub open spec fn agreements_text(ags: Seq<AgreePair>) -> Seq<char>
    decreases ags.len(),
{
    if ags.len() == 0 {
        Seq::empty()
    } else {
        agreements_text(ags.drop_last()) + agreement_text(ags.last())
    }
}

/// The divergences section: empty when there are none, else a heading with
/// their count, a rule of 80 dashes and the lines of each divergence.
pub open spec fn divergences_section(ds: Seq<DivergePair>) -> Seq<char> {
    if ds.len() > 0 {
        "\nDIVERGENCES ("@ + decimal(ds.len()) + "):\n"@ + dash_line() + "\n"@ + divergences_text(ds)
    } else {
        Seq::empty()
    }
}

/// A section of elements found in one model only, under `heading`: empty
/// when there are none.
pub open spec fn uniques_section(heading: Seq<char>, us: Seq<UniqueElement>) -> Seq<char> {
    if us.len() > 0 {
        heading + decimal(us.len()) + "):\n"@ + uniques_text(us)
    } else {
        Seq::empty()
    }
}

/// The agreements section: shown only when `verbose` is set and some element
/// agrees.
pub open spec fn agreements_section(ags: Seq<AgreePair>, verbose: bool) -> Seq<char> {
    if verbose && ags.len() > 0 {
        "\nAGREE ("@ + decimal(ags.len()) + "):\n"@ + agreements_text(ags)
    } else {
        Seq::empty()
    }
}

/// The text report of a diff: the summary line; the divergences, when there
/// are any, under a heading with their count and a rule of 80 dashes; the
/// elements only in A, then only in B, each when there are any; and the
/// agreements when `verbose` is set and there are any.
pub open spec fn diff_text_spec(
    agree: Seq<AgreePair>,
    diverge: Seq<DivergePair>,
    only_in_a: Seq<UniqueElement>,
    only_in_b: Seq<UniqueElement>,
    verbose: bool,
) -> Seq<char> {
    summary_text(agree.len(), diverge.len(), only_in_a.len(), only_in_b.len()) + "\n"@ + divergences_section(diverge)
        + uniques_section("\nONLY IN A ("@, only_in_a) + uniques_section("\nONLY IN B ("@, only_in_b)
        + agreements_section(agree, verbose)
}

#[verifier::spinoff_prover]
fn push_dash_line(out: &mut String)
    ensures
        final(out)@ == old(out)@ + dash_line(),
{
    let ghost start = out@;
    for i in 0..80usize
        invariant
            out@ == start + Seq::new(i as nat, |j: int| '-'),
    {
        push_char(out, '-');
        proof {
            assert(out@ =~= start + Seq::new((i + 1) as nat, |j: int| '-'));
        }
    }
    proof {
        assert(out@ =~= start + dash_line());
    }
}

#[verifier::spinoff_prover]
fn push_divergence(out: &mut String, d: &DivergePair)
    ensures
        final(out)@ == old(out)@ + divergence_text(*d),
{
    out.append("  ");
    out.append(d.name.as_str());
    out.append(" : A=");
    out.append(d.category_a.label());
    out.append(" vs B=");
    out.append(d.category_b.label());
    out.append("\n");
    out.append("    A rationale: ");
    out.append(d.rationale_a.as_str());
    out.append("\n");
    out.append("    B rationale: ");
    out.append(d.rationale_b.as_str());
    out.append("\n");
    proof {
        assert(out@ =~= old(out)@ + divergence_text(*d));
    }
}

#[verifier::spinoff_prover]
fn push_divergences(out: &mut String, ds: &Vec<DivergePair>)
    ensures
        final(out)@ == old(out)@ + divergences_text(ds@),
{
    let ghost start = out@;
    let n = ds.len();
    for i in 0..n
        invariant
            n == ds@.len(),
            out@ == start + divergences_text(ds@.take(i as int)),
    {
        proof {
            assert(ds@.take(i + 1).drop_last() =~= ds@.take(i as int));
        }
        push_divergence(out, &ds[i]);
        proof {
            assert(out@ =~= start + divergences_text(ds@.take(i + 1)));
        }
    }
    proof {
        assert(ds@.take(n as int) =~= ds@);
    }
}

#[verifier::spinoff_prover]
fn push_uniques(out: &mut String, us: &Vec<UniqueElement>)
    ensures
        final(out)@ == old(out)@ + uniques_text(us@),
{
    let ghost start = out@;
    let n = us.len();
    for i in 0..n
        invariant
            n == us@.len(),
            out@ == start + uniques_text(us@.take(i as int)),
    {
        proof {
            assert(us@.take(i + 1).drop_last() =~= us@.take(i as int));
        }
        let u = &us[i];
        let ghost before = out@;
        out.append("  ");
        out.append(u.name.as_str());
        out.append(" [");
        out.append(u.bfo_category.label());
        out.append("]\n");
        proof {
            assert(out@ =~= before + unique_text(*u));
            assert(out@ =~= start + uniques_text(us@.take(i + 1)));
        }
    }
    proof {
        assert(us@.take(n as int) =~= us@);
    }
}

#[verifier::spinoff_prover]
fn push_agreements(out: &mut String, ags: &Vec<AgreePair>)
    ensures
        final(out)@ == old(out)@ + agreements_text(ags@),
{
    let ghost start = out@;
    let n = ags.len();
    for i in 0..n
        invariant
            n == ags@.len(),
            out@ == start + agreements_text(ags@.take(i as int)),
    {
        proof {
            assert(ags@.take(i + 1).drop_last() =~= ags@.take(i as int));
        }
        let a = &ags[i];
        let ghost before = out@;
        out.append("  ");
        out.append(a.name.as_str());
        out.append(" [");
        out.append(a.bfo_category.label());
        out.append("]\n");
        proof {
            assert(out@ =~= before + agreement_text(*a));
            assert(out@ =~= start + agreements_text(ags@.take(i + 1)));
        }
    }
    proof {
        assert(ags@.take(n as int) =~= ags@);
    }
}

#[verifier::spinoff_prover]
fn push_divergences_section(out: &mut String, ds: &Vec<DivergePair>)
    ensures
        final(out)@ == old(out)@ + divergences_section(ds@),
{
    if ds.len() > 0 {
        let ghost start = out@;
        out.append("\nDIVERGENCES (");
        out.append(usize_to_decimal(ds.len()).as_str());
        out.append("):\n");
        push_dash_line(out);
        out.append("\n");
        let ghost mid = out@;
        push_divergences(out, ds);
        proof {
            assert(mid =~= start + "\nDIVERGENCES ("@ + decimal(ds@.len()) + "):\n"@ + dash_line() + "\n"@);
            assert(out@ =~= start + divergences_section(ds@));
        }
    } else {
        proof {
            assert(out@ =~= old(out)@ + divergences_section(ds@));
        }
    }
}

#[verifier::spinoff_prover]
fn push_uniques_section(out: &mut String, heading: &str, us: &Vec<UniqueElement>)
    ensures
        final(out)@ == old(out)@ + uniques_section(heading@, us@),
{
    if us.len() > 0 {
        let ghost start = out@;
        out.append(heading);
        out.append(usize_to_decimal(us.len()).as_str());
        out.append("):\n");
        push_uniques(out, us);
        proof {
            assert(out@ =~= start + uniques_section(heading@, us@));
        }
    } else {
        proof {
            assert(out@ =~= old(out)@ + uniques_section(heading@, us@));
        }
    }
}

#[verifier::spinoff_prover]
fn push_agreements_section(out: &mut String, ags: &Vec<AgreePair>, verbose: bool)
    ensures
        final(out)@ == old(out)@ + agreements_section(ags@, verbose),
{
    if verbose && ags.len() > 0 {
        let ghost start = out@;
        out.append("\nAGREE (");
        out.append(usize_to_decimal(ags.len()).as_str());
        out.append("):\n");
        push_agreements(out, ags);
        proof {
            assert(out@ =~= start + agreements_section(ags@, verbose));
        }
    } else {
        proof {
            assert(out@ =~= old(out)@ + agreements_section(ags@, verbose));
        }
    }
}

/// The human-readable text of a diff, as the command line prints it (each
/// line ends with a newline).
pub fn diff_text(result: &DiffResult, verbose: bool) -> (r: String)
    requires
        result.only_in_a@.len() + result.only_in_b@.len() <= usize::MAX,
    ensures
        r@ == diff_text_spec(result.agree@, result.diverge@, result.only_in_a@, result.only_in_b@, verbose),
{
    let mut out = result.summary_line();
    out.append("\n");
    push_divergences_section(&mut out, &result.diverge);
    push_uniques_section(&mut out, "\nONLY IN A (", &result.only_in_a);
    push_uniques_section(&mut out, "\nONLY IN B (", &result.only_in_b);
    push_agreements_section(&mut out, &result.agree, verbose);
    out
}

} // verus!
