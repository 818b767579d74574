//! Coverage reporting: how many model elements got a BFO category other than
//! the IndependentContinuant fallback.
use crate::mapper::{
    category_label, ground_all_result, ground_result, grounds_entry, lemma_rules_fallback_only_unknown,
    BfoCategory, GroundedElement,
};
use crate::model::ElementKind;
use crate::text::lowercase;
use crate::tally::{tallies, tally_sum, Tally};
use crate::text::owned;
use vstd::prelude::*;

verus! {

/// The category label of each grounded element, in order.
pub open spec fn category_labels(gs: Seq<GroundedElement>) -> Seq<Seq<char>> {
    gs.map_values(|g: GroundedElement| category_label(g.bfo_category))
}

/// The element type of each grounded element, in order.
pub open spec fn element_types(gs: Seq<GroundedElement>) -> Seq<Seq<char>> {
    gs.map_values(|g: GroundedElement| g.element_type@)
}

/// How many of `gs` fell back to IndependentContinuant.
pub open spec fn fallback_count(gs: Seq<GroundedElement>) -> nat
    decreases gs.len(),
{
    if gs.len() == 0 {
        0
    } else {
        fallback_count(gs.drop_last()) + if gs.last().bfo_category == BfoCategory::IndependentContinuant {
            1nat
        } else {
            0nat
        }
    }
}

/// Coverage statistics for a grounded model.
#[derive(Debug, Clone)]
pub struct CoverageReport {
    pub total: usize,
    pub grounded: usize,
    pub fallback: usize,
    /// Number of elements per category label.
    pub by_category: Tally,
    /// Number of elements per element type.
    pub by_element_type: Tally,
}

/// `r` is the coverage report of `gs`.
pub open spec fn reports(r: CoverageReport, gs: Seq<GroundedElement>) -> bool {
    &&& r.total == gs.len()
    &&& r.fallback == fallback_count(gs)
    &&& r.grounded + r.fallback == r.total
    &&& tallies(r.by_category@, category_labels(gs))
    &&& tallies(r.by_element_type@, element_types(gs))
    &&& tally_sum(r.by_category@) == r.total
    &&& tally_sum(r.by_element_type@) == r.total
}

impl CoverageReport {
    /// Tallies the grounded elements.
    pub fn build(grounded: &[GroundedElement]) -> (r: Self)
        ensures
            reports(r, grounded@),
    {
        let total = grounded.len();
        let mut by_category = Tally::new();
        let mut by_element_type = Tally::new();
        let mut fallback: usize = 0;
        let ghost gs = grounded@;
        for i in 0..total
            invariant
                total == gs.len(),
                gs == grounded@,
                tallies(by_category@, category_labels(gs.take(i as int))),
                tallies(by_element_type@, element_types(gs.take(i as int))),
                tally_sum(by_category@) == i,
                tally_sum(by_element_type@) == i,
                fallback == fallback_count(gs.take(i as int)),
                fallback <= i,
        {
            let elem = &grounded[i];
            proof {
                assert(category_labels(gs.take(i as int)).len() == i);
                assert(category_labels(gs.take(i + 1)) =~= category_labels(gs.take(i as int)).push(
                    category_label(elem.bfo_category),
                ));
                assert(element_types(gs.take(i + 1)) =~= element_types(gs.take(i as int)).push(
                    elem.element_type@,
                ));
                assert(gs.take(i + 1).drop_last() =~= gs.take(i as int));
            }
            let label = owned(elem.bfo_category.label());
            by_category.add(label.as_str(), Ghost(category_labels(gs.take(i as int))));
            by_element_type.add(elem.element_type.as_str(), Ghost(element_types(gs.take(i as int))));
            if elem.bfo_category == BfoCategory::IndependentContinuant {
                fallback = fallback + 1;
            }
        }
        proof {
            assert(gs.take(total as int) =~= gs);
        }
        CoverageReport { total, grounded: total - fallback, fallback, by_category, by_element_type }
    }
}

proof fn lemma_fallback_none(gs: Seq<GroundedElement>)
    requires
        forall|i: int| 0 <= i < gs.len() ==> (#[trigger] gs[i]).bfo_category != BfoCategory::IndependentContinuant,
    ensures
        fallback_count(gs) == 0,
    decreases gs.len(),
{
    if gs.len() > 0 {
        assert(gs.last() == gs[gs.len() - 1]);
        lemma_fallback_none(gs.drop_last());
    }
}

/// When no element of a model has an unknown kind or a hint, grounding it
/// leaves no element on the IndependentContinuant fallback: full coverage.
pub proof fn lemma_known_kinds_full_coverage(
    es: Seq<(Seq<char>, ElementKind, Option<Seq<char>>)>,
    v: Vec<GroundedElement>,
)
    requires
        ground_all_result(Ok(v), es),
        forall|i: int| 0 <= i < es.len() ==> (#[trigger] es[i]).1 != ElementKind::Unknown && es[i].2 is None,
    ensures
        fallback_count(v@) == 0,
{
    assert forall|i: int| 0 <= i < v@.len() implies (#[trigger] v@[i]).bfo_category != BfoCategory::IndependentContinuant by {
        assert(grounds_entry(v@[i], es[i]));
        lemma_rules_fallback_only_unknown(es[i].1, lowercase(es[i].0));
    }
    lemma_fallback_none(v@);
}

/// An element of unknown kind without a hint always falls back.
pub proof fn lemma_unknown_falls_back(g: GroundedElement, name: Seq<char>)
    requires
        ground_result(Ok(g), name, ElementKind::Unknown, None),
    ensures
        fallback_count(seq![g]) == 1,
{
    let s = seq![g];
    assert(s.drop_last() =~= Seq::<GroundedElement>::empty());
    assert(s.last() == g);
    assert(g.bfo_category == BfoCategory::IndependentContinuant);
    assert(fallback_count(s.drop_last()) == 0);
}

} // verus!
