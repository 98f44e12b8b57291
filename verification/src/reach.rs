//! Reachability: the least set that holds some roots and follows some steps.
use vstd::prelude::*;

verus! {

/// `s` holds the roots and everything that a step leads to from inside it.
pub open spec fn is_closed<A>(s: Set<A>, roots: Set<A>, step: spec_fn(A, A) -> bool) -> bool {
    &&& roots.subset_of(s)
    &&& forall|p: A, q: A| s.contains(p) && #[trigger] step(p, q) ==> s.contains(q)
}

/// `q` can be reached: every set that holds the roots and follows the steps
/// holds it.
pub open spec fn is_reachable<A>(roots: Set<A>, step: spec_fn(A, A) -> bool, q: A) -> bool {
    forall|s: Set<A>| #[trigger] is_closed(s, roots, step) ==> s.contains(q)
}

/// One more step from what can be reached.
pub proof fn lemma_reachable_step<A>(roots: Set<A>, step: spec_fn(A, A) -> bool, p: A, q: A)
    requires
        is_reachable(roots, step, p),
        step(p, q),
    ensures
        is_reachable(roots, step, q),
{
    assert forall|s: Set<A>| #[trigger] is_closed(s, roots, step) implies s.contains(q) by {
        assert(s.contains(p));
    }
}

/// A root can be reached.
pub proof fn lemma_reachable_root<A>(roots: Set<A>, step: spec_fn(A, A) -> bool, q: A)
    requires
        roots.contains(q),
    ensures
        is_reachable(roots, step, q),
{
    assert forall|s: Set<A>| #[trigger] is_closed(s, roots, step) implies s.contains(q) by {}
}

/// A set of positions below `n` has at most `n` members.
pub proof fn lemma_positions_bound(positions: Set<int>, n: int)
    requires
        0 <= n,
        forall|i: int| #[trigger] positions.contains(i) ==> 0 <= i < n,
    ensures
        positions.finite(),
        positions.len() <= n,
{
    let all = vstd::set_lib::set_int_range(0, n);
    vstd::set_lib::lemma_int_range(0, n);
    assert(positions.subset_of(all));
    vstd::set_lib::lemma_len_subset(positions, all);
}

/// What a sequence holds after one more item came to its end.
pub proof fn lemma_push_contains<A>(s: Seq<A>, x: A)
    ensures
        forall|q: A| #[trigger] s.push(x).contains(q) <==> s.contains(q) || q == x,
{
    assert forall|q: A| #[trigger] s.push(x).contains(q) <==> s.contains(q) || q == x by {
        if s.contains(q) {
            let k = s.index_of(q);
            assert(s.push(x)[k] == q);
        }
        if q == x {
            assert(s.push(x)[s.len() as int] == q);
        }
        if s.push(x).contains(q) {
            let k = s.push(x).index_of(q);
            assert(s.push(x)[k] == q);
            if k < s.len() {
                assert(s[k] == q);
            }
        }
    }
}

} // verus!
