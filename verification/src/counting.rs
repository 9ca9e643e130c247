//! Counting arguments shared by the tree walks.
use vstd::prelude::*;
use vstd::set_lib::{set_int_range, lemma_int_range, lemma_map_size, lemma_len_subset};

verus! {

/// A walk that visits `n + 1` positions among `n` possible ones visits some
/// position twice.
pub proof fn lemma_walk_repeats(f: spec_fn(int) -> int, n: nat)
    requires
        forall|t: int| 0 <= t <= n ==> 0 <= #[trigger] f(t) < n,
    ensures
        exists|i: int, j: int| 0 <= i < j <= n && #[trigger] f(i) == #[trigger] f(j),
{
    let x = set_int_range(0, n as int + 1);
    let y = x.map(f);
    lemma_int_range(0, n as int + 1);
    lemma_int_range(0, n as int);
    if forall|a: int, b: int| x.contains(a) && x.contains(b) && #[trigger] f(a) == #[trigger] f(b) ==> a == b {
        assert(vstd::relations::injective_on(f, x));
        lemma_map_size(x, y, f);
        assert(y.subset_of(set_int_range(0, n as int))) by {
            assert forall|v: int| y.contains(v) implies set_int_range(0, n as int).contains(v) by {
                let t = choose|t: int| x.contains(t) && f(t) == v;
            }
        }
        lemma_len_subset(y, set_int_range(0, n as int));
        assert(false);
    } else {
        let (a, b) = choose|a: int, b: int| x.contains(a) && x.contains(b) && #[trigger] f(a) == #[trigger] f(b) && a != b;
        if a < b {
            assert(0 <= a < b <= n && f(a) == f(b));
        } else {
            assert(0 <= b < a <= n && f(b) == f(a));
        }
    }
}


/// A walk that visits `n + 1` positions, all in a finite set of at most `n`
/// elements, visits some position twice.
pub proof fn lemma_walk_repeats_in_set<A>(f: spec_fn(int) -> A, s: Set<A>, n: nat)
    requires
        s.finite(),
        s.len() <= n,
        forall|t: int| 0 <= t <= n ==> s.contains(#[trigger] f(t)),
    ensures
        exists|i: int, j: int| 0 <= i < j <= n && #[trigger] f(i) == #[trigger] f(j),
{
    let x = set_int_range(0, n as int + 1);
    let y = x.map(f);
    lemma_int_range(0, n as int + 1);
    if forall|a: int, b: int| x.contains(a) && x.contains(b) && #[trigger] f(a) == #[trigger] f(b) ==> a == b {
        assert(vstd::relations::injective_on(f, x));
        lemma_map_size(x, y, f);
        assert(y.subset_of(s)) by {
            assert forall|v: A| y.contains(v) implies s.contains(v) by {
                let t = choose|t: int| x.contains(t) && f(t) == v;
            }
        }
        lemma_len_subset(y, s);
        assert(false);
    } else {
        let (a, b) = choose|a: int, b: int| x.contains(a) && x.contains(b) && #[trigger] f(a) == #[trigger] f(b) && a != b;
        if a < b {
            assert(0 <= a < b <= n && f(a) == f(b));
        } else {
            assert(0 <= b < a <= n && f(b) == f(a));
        }
    }
}

} // verus!
