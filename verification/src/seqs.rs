//! Facts about sequences.

use vstd::prelude::*;

verus! {

/// What a sequence holds after an insertion.
pub proof fn lemma_insert_contains<A>(s: Seq<A>, at: int, x: A, e: A)
    requires
        0 <= at <= s.len(),
    ensures
        s.insert(at, x).contains(e) <==> s.contains(e) || e == x,
{
    let t = s.insert(at, x);
    assert(t[at] == x);
    if s.contains(e) {
        let k = choose|k: int| 0 <= k < s.len() && s[k] == e;
        if k < at {
            assert(t[k] == e);
        } else {
            assert(t[k + 1] == e);
        }
    }
    if t.contains(e) && e != x {
        let k = choose|k: int| 0 <= k < t.len() && t[k] == e;
        if k < at {
            assert(s[k] == e);
        } else {
            assert(s[k - 1] == e);
        }
    }
}

/// What a sequence holds with one more element at its end.
pub proof fn lemma_push_contains<A>(s: Seq<A>, x: A, e: A)
    ensures
        s.push(x).contains(e) <==> s.contains(e) || e == x,
{
    assert(s.push(x) =~= s.insert(s.len() as int, x));
    lemma_insert_contains(s, s.len() as int, x, e);
}

/// What is kept of a sequence is what is in it and is to be kept.
pub proof fn lemma_filter_contains<A>(s: Seq<A>, keep: spec_fn(A) -> bool, x: A)
    ensures
        s.filter(keep).contains(x) <==> s.contains(x) && keep(x),
    decreases s.len(),
{
    reveal(Seq::filter);
    if s.len() > 0 {
        let before = s.drop_last();
        let last = s.last();
        lemma_filter_contains(before, keep, x);
        lemma_push_contains(before, last, x);
        lemma_push_contains(before.filter(keep), last, x);
        assert(s =~= before.push(last));
    }
}

/// What is kept of a sequence without duplicates has none.
pub proof fn lemma_filter_no_duplicates<A>(s: Seq<A>, keep: spec_fn(A) -> bool)
    requires
        s.no_duplicates(),
    ensures
        s.filter(keep).no_duplicates(),
    decreases s.len(),
{
    reveal(Seq::filter);
    if s.len() > 0 {
        let before = s.drop_last();
        let last = s.last();
        let kept = before.filter(keep);
        lemma_filter_no_duplicates(before, keep);
        lemma_filter_contains(before, keep, last);
        assert(!before.contains(last));
        assert(!kept.contains(last));
    }
}

} // verus!
