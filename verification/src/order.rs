//! The lexicographic order of character sequences, which is the order of
//! Rust's `str` comparison (UTF-8 byte order agrees with code-point order).
use vstd::prelude::*;

verus! {

/// `a` comes strictly before `b`: at the first position where they differ, the
/// character of `a` is smaller, or `a` is a proper prefix of `b`.
pub open spec fn lex_lt(a: Seq<char>, b: Seq<char>) -> bool {
    exists|i: int| #[trigger] differs_first_at(a, b, i)
}

/// `i` is the first position where `a` and `b` disagree, and there `a` is smaller.
pub open spec fn differs_first_at(a: Seq<char>, b: Seq<char>, i: int) -> bool {
    &&& 0 <= i <= a.len()
    &&& i <= b.len()
    &&& forall|k: int| 0 <= k < i ==> a[k] == b[k]
    &&& ((i == a.len() && i < b.len()) || (i < a.len() && i < b.len() && (a[i] as int) < (b[i] as int)))
}

/// Whether `a` comes strictly before `b`.
pub fn str_lt(a: &str, b: &str) -> (r: bool)
    ensures
        r == lex_lt(a@, b@),
{
    let n = a.unicode_len();
    let m = b.unicode_len();
    let mut i: usize = 0;
    while i < n && i < m
        invariant
            n == a@.len(),
            m == b@.len(),
            i <= n,
            i <= m,
            forall|k: int| 0 <= k < i ==> a@[k] == b@[k],
        decreases n - i,
    {
        let ca = a.get_char(i);
        let cb = b.get_char(i);
        if ca != cb {
            let r = ca < cb;
            proof {
                if r {
                    assert(differs_first_at(a@, b@, i as int));
                } else {
                    assert forall|j: int| !differs_first_at(a@, b@, j) by {
                        if differs_first_at(a@, b@, j) {
                            if j < i {
                                assert(a@[j] == b@[j]);
                            } else if j > i {
                                assert(a@[i as int] == b@[i as int]);
                            }
                        }
                    }
                }
            }
            return r;
        }
        i = i + 1;
    }
    let r = i == n && i < m;
    proof {
        if r {
            assert(differs_first_at(a@, b@, i as int));
        } else {
            assert forall|j: int| !differs_first_at(a@, b@, j) by {
                if differs_first_at(a@, b@, j) {
                    if j > i {
                        assert(a@[i as int] == b@[i as int]);
                    }
                }
            }
        }
    }
    r
}

/// No sequence comes before itself.
pub proof fn lemma_lex_irreflexive(a: Seq<char>)
    ensures
        !lex_lt(a, a),
{
    assert forall|i: int| !differs_first_at(a, a, i) by {}
}

/// Two different sequences are ordered one way or the other.
pub proof fn lemma_lex_total(a: Seq<char>, b: Seq<char>)
    requires
        a != b,
    ensures
        lex_lt(a, b) || lex_lt(b, a),
{
    if forall|k: int| 0 <= k < a.len() && k < b.len() ==> a[k] == b[k] {
        if a.len() < b.len() {
            assert(differs_first_at(a, b, a.len() as int));
        } else if b.len() < a.len() {
            assert(differs_first_at(b, a, b.len() as int));
        } else {
            assert(a =~= b);
        }
    } else {
        let k0 = choose|k: int| 0 <= k < a.len() && k < b.len() && a[k] != b[k];
        lemma_first_difference(a, b, k0);
    }
}

proof fn lemma_first_difference(a: Seq<char>, b: Seq<char>, k0: int)
    requires
        0 <= k0 < a.len(),
        k0 < b.len(),
        a[k0] != b[k0],
    ensures
        lex_lt(a, b) || lex_lt(b, a),
    decreases k0,
{
    if exists|k: int| 0 <= k < k0 && a[k] != b[k] {
        let k1 = choose|k: int| 0 <= k < k0 && a[k] != b[k];
        lemma_first_difference(a, b, k1);
    } else {
        if (a[k0] as int) < (b[k0] as int) {
            assert(differs_first_at(a, b, k0));
        } else {
            assert((b[k0] as int) < (a[k0] as int));
            assert(differs_first_at(b, a, k0));
        }
    }
}

/// The order is asymmetric.
pub proof fn lemma_lex_asymmetric(a: Seq<char>, b: Seq<char>)
    requires
        lex_lt(a, b),
    ensures
        !lex_lt(b, a),
{
    let i = choose|i: int| differs_first_at(a, b, i);
    assert forall|j: int| !differs_first_at(b, a, j) by {
        if differs_first_at(b, a, j) {
            if j < i {
                assert(a[j] == b[j]);
            } else if i < j {
                assert(b[i] == a[i]);
            }
        }
    }
}

/// The order is transitive.
pub proof fn lemma_lex_transitive(a: Seq<char>, b: Seq<char>, c: Seq<char>)
    requires
        lex_lt(a, b),
        lex_lt(b, c),
    ensures
        lex_lt(a, c),
{
    let i = choose|i: int| differs_first_at(a, b, i);
    let j = choose|j: int| differs_first_at(b, c, j);
    if i < j {
        assert(differs_first_at(a, c, i));
    } else if j < i {
        assert(differs_first_at(a, c, j));
    } else {
        assert(differs_first_at(a, c, i));
    }
}

} // verus!
