//! First-match lookup over sequences, shared by the keyed buckets.

use vstd::prelude::*;

verus! {

/// The index of the first element satisfying `pred`, or -1.
pub open spec fn first_match<T>(s: Seq<T>, pred: spec_fn(T) -> bool) -> int
    decreases s.len(),
{
    if s.len() == 0 {
        -1
    } else if pred(s[0]) {
        0
    } else {
        let r = first_match(s.drop_first(), pred);
        if r == -1 {
            -1
        } else {
            r + 1
        }
    }
}

/// `first_match` returns -1 when no element matches, else the first matching
/// index.
pub proof fn lemma_first_match<T>(s: Seq<T>, pred: spec_fn(T) -> bool)
    ensures
        -1 <= first_match(s, pred) < s.len(),
        first_match(s, pred) == -1 ==> forall|j: int| 0 <= j < s.len() ==> !pred(#[trigger] s[j]),
        first_match(s, pred) >= 0 ==> pred(s[first_match(s, pred)]) && forall|j: int|
            0 <= j < first_match(s, pred) ==> !pred(#[trigger] s[j]),
    decreases s.len(),
{
    if s.len() > 0 {
        if !pred(s[0]) {
            let t = s.drop_first();
            lemma_first_match(t, pred);
            let f = first_match(s, pred);
            if first_match(t, pred) == -1 {
                assert forall|j: int| 0 <= j < s.len() implies !pred(#[trigger] s[j]) by {
                    if j >= 1 {
                        assert(t[j - 1] == s[j]);
                        assert(!pred(t[j - 1]));
                    }
                }
            } else {
                assert(f == first_match(t, pred) + 1);
                assert(pred(t[f - 1]));
                assert(t[f - 1] == s[f]);
                assert forall|j: int| 0 <= j < f implies !pred(#[trigger] s[j]) by {
                    if j >= 1 {
                        assert(t[j - 1] == s[j]);
                        assert(!pred(t[j - 1]));
                    }
                }
            }
        }
    }
}

/// Appending one element moves the first match only when nothing matched
/// before and the new element matches.
pub proof fn lemma_first_match_push<T>(s: Seq<T>, x: T, pred: spec_fn(T) -> bool)
    ensures
        first_match(s.push(x), pred) == if first_match(s, pred) >= 0 {
            first_match(s, pred)
        } else if pred(x) {
            s.len() as int
        } else {
            -1
        },
{
    lemma_first_match(s, pred);
    lemma_first_match(s.push(x), pred);
    let f0 = first_match(s, pred);
    let f = first_match(s.push(x), pred);
    if f0 >= 0 {
        assert(pred(s.push(x)[f0]));
        if f > f0 {
            assert(!pred(s.push(x)[f0]));
        }
        if 0 <= f < f0 {
            assert(s.push(x)[f] == s[f]);
            assert(!pred(s[f]));
        }
        if f == -1 {
            assert(!pred(s.push(x)[f0]));
        }
    } else {
        if pred(x) {
            assert(pred(s.push(x)[s.len() as int]));
            if f == -1 {
                assert(!pred(s.push(x)[s.len() as int]));
            }
            if 0 <= f < s.len() {
                assert(s.push(x)[f] == s[f]);
                assert(!pred(s[f]));
            }
        } else {
            if f >= 0 {
                if f < s.len() {
                    assert(s.push(x)[f] == s[f]);
                    assert(pred(s[f]));
                } else {
                    assert(s.push(x)[f] == x);
                }
            }
        }
    }
}

} // verus!
