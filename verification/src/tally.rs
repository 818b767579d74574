//! A tally of string keys: how many times each distinct key was counted, with
//! the keys kept in lexicographic order.
use crate::order::{lemma_lex_irreflexive, lemma_lex_total, lemma_lex_transitive, lex_lt, str_lt};
use crate::text::{owned, str_eq};
use vstd::prelude::*;

verus! {

/// How many times `k` occurs in `keys`.
pub open spec fn count_of(keys: Seq<Seq<char>>, k: Seq<char>) -> nat
    decreases keys.len(),
{
    if keys.len() == 0 {
        0
    } else {
        count_of(keys.drop_last(), k) + if keys.last() == k {
            1nat
        } else {
            0nat
        }
    }
}

/// The sum of the counts of a tally view.
pub open spec fn tally_sum(v: Seq<(Seq<char>, nat)>) -> nat
    decreases v.len(),
{
    if v.len() == 0 {
        0
    } else {
        tally_sum(v.drop_last()) + v.last().1
    }
}

/// The keys of `v` are in strictly increasing order.
pub open spec fn keys_sorted(v: Seq<(Seq<char>, nat)>) -> bool {
    forall|i: int, j: int| 0 <= i < j < v.len() ==> lex_lt(#[trigger] v[i].0, #[trigger] v[j].0)
}

/// `v` tallies `keys`: one entry per distinct key, in order, with its number
/// of occurrences.
pub open spec fn tallies(v: Seq<(Seq<char>, nat)>, keys: Seq<Seq<char>>) -> bool {
    &&& keys_sorted(v)
    &&& forall|i: int|
        0 <= i < v.len() ==> (#[trigger] v[i]).1 == count_of(keys, v[i].0) && keys.contains(v[i].0)
    &&& forall|k: Seq<char>| #[trigger] keys.contains(k) ==> exists|i: int| 0 <= i < v.len() && v[i].0 == k
}

/// Counts per key, in lexicographic order of the keys, held in a sorted
/// vector so that contracts state the contents exactly.
#[derive(Debug, Clone)]
pub struct Tally {
    entries: Vec<(String, usize)>,
}

impl View for Tally {
    type V = Seq<(Seq<char>, nat)>;

    closed spec fn view(&self) -> Seq<(Seq<char>, nat)> {
        self.entries@.map_values(|e: (String, usize)| (e.0@, e.1 as nat))
    }
}

proof fn lemma_count_absent(keys: Seq<Seq<char>>, k: Seq<char>)
    requires
        !keys.contains(k),
    ensures
        count_of(keys, k) == 0,
    decreases keys.len(),
{
    if keys.len() > 0 {
        assert(!keys.drop_last().contains(k)) by {
            if keys.drop_last().contains(k) {
                let i = choose|i: int| 0 <= i < keys.drop_last().len() && keys.drop_last()[i] == k;
                assert(keys[i] == k);
            }
        }
        assert(keys.last() != k) by {
            assert(keys[keys.len() - 1] == keys.last());
        }
        lemma_count_absent(keys.drop_last(), k);
    }
}

proof fn lemma_count_bound(keys: Seq<Seq<char>>, k: Seq<char>)
    ensures
        count_of(keys, k) <= keys.len(),
    decreases keys.len(),
{
    if keys.len() > 0 {
        lemma_count_bound(keys.drop_last(), k);
    }
}

proof fn lemma_sum_update(v: Seq<(Seq<char>, nat)>, i: int, x: (Seq<char>, nat))
    requires
        0 <= i < v.len(),
    ensures
        tally_sum(v.update(i, x)) + v[i].1 == tally_sum(v) + x.1,
    decreases v.len(),
{
    if i == v.len() - 1 {
        assert(v.update(i, x).drop_last() =~= v.drop_last());
    } else {
        assert(v.update(i, x).drop_last() =~= v.drop_last().update(i, x));
        lemma_sum_update(v.drop_last(), i, x);
    }
}

proof fn lemma_sum_insert(v: Seq<(Seq<char>, nat)>, i: int, x: (Seq<char>, nat))
    requires
        0 <= i <= v.len(),
    ensures
        tally_sum(v.insert(i, x)) == tally_sum(v) + x.1,
    decreases v.len(),
{
    if i == v.len() {
        assert(v.insert(i, x).drop_last() =~= v);
    } else {
        assert(v.insert(i, x).drop_last() =~= v.drop_last().insert(i, x));
        lemma_sum_insert(v.drop_last(), i, x);
    }
}

impl Tally {
    /// The entry at `i` of the view is the entry at `i` of the vector.
    proof fn lemma_view_index(&self, i: int)
        requires
            0 <= i < self.entries@.len(),
        ensures
            self@[i] == (self.entries@[i].0@, self.entries@[i].1 as nat),
            self@.len() == self.entries@.len(),
    {
    }

    /// An empty tally.
    pub fn new() -> (t: Self)
        ensures
            t@ == Seq::<(Seq<char>, nat)>::empty(),
    {
        let t = Tally { entries: Vec::new() };
        assert(t@ =~= Seq::<(Seq<char>, nat)>::empty());
        t
    }

    /// The number of distinct keys.
    pub fn len(&self) -> (n: usize)
        ensures
            n == self@.len(),
    {
        self.entries.len()
    }

    /// The key of entry `i`.
    pub fn key(&self, i: usize) -> (k: &str)
        requires
            i < self@.len(),
        ensures
            k@ == self@[i as int].0,
    {
        proof {
            self.lemma_view_index(i as int);
        }
        self.entries[i].0.as_str()
    }

    /// The count of entry `i`.
    pub fn count(&self, i: usize) -> (c: usize)
        requires
            i < self@.len(),
        ensures
            c == self@[i as int].1,
    {
        proof {
            self.lemma_view_index(i as int);
        }
        self.entries[i].1
    }

    /// The count recorded for `key`, 0 when it was never counted.
    pub fn get(&self, key: &str) -> (c: usize)
        ensures
            (exists|i: int| 0 <= i < self@.len() && self@[i].0 == key@ && self@[i].1 == c) || (c == 0
                && forall|i: int| 0 <= i < self@.len() ==> self@[i].0 != key@),
    {
        let n = self.entries.len();
        for i in 0..n
            invariant
                n == self@.len(),
                n == self.entries@.len(),
                forall|j: int| 0 <= j < i ==> self@[j].0 != key@,
        {
            proof {
                self.lemma_view_index(i as int);
            }
            if str_eq(self.entries[i].0.as_str(), key) {
                return self.entries[i].1;
            }
        }
        0
    }

    /// Counts one more occurrence of `key`.
    #[verifier::loop_isolation(false)]
    pub(crate) fn add(&mut self, key: &str, Ghost(keys): Ghost<Seq<Seq<char>>>)
        requires
            tallies(old(self)@, keys),
            tally_sum(old(self)@) == keys.len(),
            keys.len() < usize::MAX,
        ensures
            tallies(final(self)@, keys.push(key@)),
            tally_sum(final(self)@) == keys.len() + 1,
    {
        let ghost old_v = self@;
        let ghost new_keys = keys.push(key@);
        proof {
            assert(new_keys.drop_last() =~= keys);
            assert forall|x: Seq<char>| #[trigger] new_keys.contains(x) <==> keys.contains(x) || x == key@ by {
                if new_keys.contains(x) && x != key@ {
                    let i = choose|i: int| 0 <= i < new_keys.len() && new_keys[i] == x;
                    assert(keys[i] == x);
                }
                if keys.contains(x) {
                    let i = choose|i: int| 0 <= i < keys.len() && keys[i] == x;
                    assert(new_keys[i] == x);
                }
                if x == key@ {
                    assert(new_keys[keys.len() as int] == x);
                }
            }
        }
        let n = self.entries.len();
        let mut i: usize = 0;
        while i < n
            invariant
                n == self.entries@.len(),
                self@ == old_v,
                i <= n,
                forall|j: int| 0 <= j < i ==> lex_lt(#[trigger] self@[j].0, key@),
            decreases n - i,
        {
            proof {
                self.lemma_view_index(i as int);
            }
            if str_eq(self.entries[i].0.as_str(), key) {
                let c = self.entries[i].1;
                proof {
                    lemma_count_bound(keys, key@);
                }
                let k = owned(key);
                self.entries.set(i, (k, c + 1));
                proof {
                    assert(self@ =~= old_v.update(i as int, (key@, (c + 1) as nat)));
                    lemma_sum_update(old_v, i as int, (key@, (c + 1) as nat));
                    assert forall|j: int| 0 <= j < self@.len() implies (#[trigger] self@[j]).1 == count_of(new_keys, self@[j].0) && new_keys.contains(self@[j].0) by {
                        assert(count_of(new_keys, self@[j].0) == count_of(keys, self@[j].0) + if key@ == self@[j].0 { 1nat } else { 0nat });
                        if j != i {
                            assert(self@[j] == old_v[j]);
                            if j < i {
                                lemma_lex_irreflexive(key@);
                            } else {
                                assert(lex_lt(old_v[i as int].0, old_v[j].0));
                                lemma_lex_irreflexive(key@);
                            }
                        }
                    }
                    assert forall|x: Seq<char>| #[trigger] new_keys.contains(x) implies exists|j: int| 0 <= j < self@.len() && self@[j].0 == x by {
                        if x == key@ {
                            assert(self@[i as int].0 == x);
                        } else {
                            let j = choose|j: int| 0 <= j < old_v.len() && old_v[j].0 == x;
                            assert(self@[j].0 == x);
                        }
                    }
                }
                return;
            }
            if str_lt(key, self.entries[i].0.as_str()) {
                break;
            }
            proof {
                lemma_lex_total(key@, self@[i as int].0);
            }
            i = i + 1;
        }
        // `key` is new: it goes at position `i`, before every larger key.
        proof {
            assert forall|j: int| 0 <= j < old_v.len() implies old_v[j].0 != key@ by {
                if j < i {
                    lemma_lex_irreflexive(key@);
                } else {
                    assert(lex_lt(key@, old_v[i as int].0));
                    if j > i {
                        assert(lex_lt(old_v[i as int].0, old_v[j].0));
                        lemma_lex_transitive(key@, old_v[i as int].0, old_v[j].0);
                    }
                    lemma_lex_irreflexive(key@);
                }
            }
            assert(!keys.contains(key@)) by {
                if keys.contains(key@) {
                    let j = choose|j: int| 0 <= j < old_v.len() && old_v[j].0 == key@;
                }
            }
            lemma_count_absent(keys, key@);
        }
        let k = owned(key);
        self.entries.insert(i, (k, 1));
        proof {
            let x = (key@, 1nat);
            assert(self@ =~= old_v.insert(i as int, x));
            lemma_sum_insert(old_v, i as int, x);
            assert forall|a: int, b: int| 0 <= a < b < self@.len() implies lex_lt(#[trigger] self@[a].0, #[trigger] self@[b].0) by {
                if b < i {
                } else if a < i && b == i {
                } else if a < i && b > i {
                    assert(lex_lt(old_v[a].0, key@));
                    assert(i < old_v.len());
                    assert(lex_lt(key@, old_v[i as int].0));
                    if b - 1 > i {
                        assert(lex_lt(old_v[i as int].0, old_v[b - 1].0));
                        lemma_lex_transitive(key@, old_v[i as int].0, old_v[b - 1].0);
                    }
                    lemma_lex_transitive(old_v[a].0, key@, old_v[b - 1].0);
                } else if a == i {
                    assert(lex_lt(key@, old_v[i as int].0));
                    if b - 1 > i {
                        assert(lex_lt(old_v[i as int].0, old_v[b - 1].0));
                        lemma_lex_transitive(key@, old_v[i as int].0, old_v[b - 1].0);
                    }
                } else {
                    assert(lex_lt(old_v[a - 1].0, old_v[b - 1].0));
                }
            }
            assert forall|j: int| 0 <= j < self@.len() implies (#[trigger] self@[j]).1 == count_of(new_keys, self@[j].0) && new_keys.contains(self@[j].0) by {
                assert(count_of(new_keys, self@[j].0) == count_of(keys, self@[j].0) + if key@ == self@[j].0 { 1nat } else { 0nat });
                if j < i {
                    assert(self@[j] == old_v[j]);
                } else if j > i {
                    assert(self@[j] == old_v[j - 1]);
                }
            }
            assert forall|y: Seq<char>| #[trigger] new_keys.contains(y) implies exists|j: int| 0 <= j < self@.len() && self@[j].0 == y by {
                if y == key@ {
                    assert(self@[i as int].0 == y);
                } else {
                    let j = choose|j: int| 0 <= j < old_v.len() && old_v[j].0 == y;
                    if j < i {
                        assert(self@[j].0 == y);
                    } else {
                        assert(self@[j + 1].0 == y);
                    }
                }
            }
        }
    }
}

} // verus!
