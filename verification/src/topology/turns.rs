//! Cycles that are the same cycle: one begun at another edge or run the other
//! way round. Being the same cycle is an equivalence.

use vstd::prelude::*;
use crate::shape::store::Handle;
use crate::topology::{
    backward, forward, least_at, same_cycle, turned, turned_back,
};

verus! {

/// `(i + k) mod n`, for positions `i` and `k` below `n`.
pub open spec fn ahead_of(i: int, k: int, n: int) -> int {
    if i + k < n {
        i + k
    } else {
        i + k - n
    }
}

/// `(k - i) mod n`, for positions `i` and `k` below `n`.
pub open spec fn behind_of(i: int, k: int, n: int) -> int {
    if i <= k {
        k - i
    } else {
        k - i + n
    }
}

/// `ahead_of` is the remainder that it is said to be.
pub proof fn lemma_ahead(i: int, k: int, n: int)
    requires
        0 <= i < n,
        0 <= k < n,
    ensures
        (i + k) % n == ahead_of(i, k, n),
        0 <= ahead_of(i, k, n) < n,
{
    if i + k < n {
        vstd::arithmetic::div_mod::lemma_small_mod((i + k) as nat, n as nat);
    } else {
        vstd::arithmetic::div_mod::lemma_small_mod((i + k - n) as nat, n as nat);
        vstd::arithmetic::div_mod::lemma_mod_sub_multiples_vanish(i + k, n);
    }
}

/// `behind_of` is the remainder that it is said to be.
pub proof fn lemma_behind(i: int, k: int, n: int)
    requires
        0 <= i < n,
        0 <= k < n,
    ensures
        (k - i) % n == behind_of(i, k, n),
        0 <= behind_of(i, k, n) < n,
{
    if i <= k {
        vstd::arithmetic::div_mod::lemma_small_mod((k - i) as nat, n as nat);
    } else {
        vstd::arithmetic::div_mod::lemma_small_mod((k + n - i) as nat, n as nat);
        vstd::arithmetic::div_mod::lemma_mod_add_multiples_vanish(k - i, n);
    }
}

/// What `turned` says, with the remainders worked out.
pub proof fn lemma_turned(a: Seq<Handle>, b: Seq<Handle>, k: int)
    requires
        a.len() == b.len(),
        0 <= k < a.len(),
    ensures
        turned(a, b, k) <==> forall|i: int|
            0 <= i < b.len() ==> #[trigger] b[i] == a[ahead_of(i, k, a.len() as int)],
{
    let n = a.len() as int;
    assert forall|i: int| 0 <= i < n implies (i + k) % n == ahead_of(i, k, n) by {
        lemma_ahead(i, k, n);
    }
    if turned(a, b, k) {
        assert forall|i: int| 0 <= i < b.len() implies #[trigger] b[i] == a[ahead_of(i, k, n)] by {
            lemma_ahead(i, k, n);
        }
    }
    if forall|i: int| 0 <= i < b.len() ==> #[trigger] b[i] == a[ahead_of(i, k, n)] {
        assert forall|i: int| 0 <= i < b.len() implies b[i] == a[(i + k) % n] by {
            lemma_ahead(i, k, n);
        }
    }
}

/// What `turned_back` says, with the remainders worked out.
pub proof fn lemma_turned_back(a: Seq<Handle>, b: Seq<Handle>, k: int)
    requires
        a.len() == b.len(),
        0 <= k < a.len(),
    ensures
        turned_back(a, b, k) <==> forall|i: int|
            0 <= i < b.len() ==> #[trigger] b[i] == a[behind_of(i, k, a.len() as int)],
{
    let n = a.len() as int;
    if turned_back(a, b, k) {
        assert forall|i: int| 0 <= i < b.len() implies #[trigger] b[i] == a[behind_of(i, k, n)] by {
            lemma_behind(i, k, n);
        }
    }
    if forall|i: int| 0 <= i < b.len() ==> #[trigger] b[i] == a[behind_of(i, k, n)] {
        assert forall|i: int| 0 <= i < b.len() implies b[i] == a[(k - i) % n] by {
            lemma_behind(i, k, n);
        }
    }
}

/// A cycle begun at another edge is the same cycle.
pub proof fn lemma_forward_same(cycle: Seq<Handle>, k: int)
    requires
        0 <= k < cycle.len(),
    ensures
        turned(cycle, forward(cycle, k), k),
        same_cycle(cycle, forward(cycle, k)),
{
    reveal(same_cycle);
    assert(turned(cycle, forward(cycle, k), k));
}

/// A cycle run the other way round is the same cycle.
pub proof fn lemma_backward_same(cycle: Seq<Handle>, k: int)
    requires
        0 <= k < cycle.len(),
    ensures
        turned_back(cycle, backward(cycle, k), k),
        same_cycle(cycle, backward(cycle, k)),
{
    reveal(same_cycle);
    assert(turned_back(cycle, backward(cycle, k), k));
}

/// If `b` is `a` begun at another edge, `a` is `b` begun at another edge.
proof fn lemma_turned_inverse(a: Seq<Handle>, b: Seq<Handle>, k: int)
    requires
        0 <= k < a.len(),
        turned(a, b, k),
    ensures
        turned(b, a, behind_of(k, 0, a.len() as int)),
        0 <= behind_of(k, 0, a.len() as int) < a.len(),
{
    let n = a.len() as int;
    let l = behind_of(k, 0, n);
    lemma_turned(a, b, k);
    assert forall|j: int| 0 <= j < n implies #[trigger] a[j] == b[ahead_of(j, l, n)] by {
        let m = ahead_of(j, l, n);
        assert(b[m] == a[ahead_of(m, k, n)]);
    }
    lemma_turned(b, a, l);
}

/// If `b` is `a` run backwards from an edge, `a` is `b` run backwards from it.
proof fn lemma_turned_back_inverse(a: Seq<Handle>, b: Seq<Handle>, k: int)
    requires
        0 <= k < a.len(),
        turned_back(a, b, k),
    ensures
        turned_back(b, a, k),
{
    let n = a.len() as int;
    lemma_turned_back(a, b, k);
    assert forall|j: int| 0 <= j < n implies #[trigger] a[j] == b[behind_of(j, k, n)] by {
        let m = behind_of(j, k, n);
        assert(b[m] == a[behind_of(m, k, n)]);
    }
    lemma_turned_back(b, a, k);
}

/// Being the same cycle is symmetric.
pub proof fn lemma_same_cycle_symmetric(a: Seq<Handle>, b: Seq<Handle>)
    requires
        same_cycle(a, b),
    ensures
        same_cycle(b, a),
{
    reveal(same_cycle);
    if a.len() > 0 {
        let k = choose|k: int| 0 <= k < a.len() && (turned(a, b, k) || turned_back(a, b, k));
        if turned(a, b, k) {
            lemma_turned_inverse(a, b, k);
        } else {
            lemma_turned_back_inverse(a, b, k);
        }
    }
}

/// Being the same cycle is transitive.
pub proof fn lemma_same_cycle_transitive(a: Seq<Handle>, b: Seq<Handle>, c: Seq<Handle>)
    requires
        same_cycle(a, b),
        same_cycle(b, c),
    ensures
        same_cycle(a, c),
{
    reveal(same_cycle);
    let n = a.len() as int;
    if n > 0 {
        let k = choose|k: int| 0 <= k < a.len() && (turned(a, b, k) || turned_back(a, b, k));
        let l = choose|l: int| 0 <= l < b.len() && (turned(b, c, l) || turned_back(b, c, l));
        if turned(a, b, k) {
            lemma_turned(a, b, k);
            if turned(b, c, l) {
                lemma_turned(b, c, l);
                let m = ahead_of(k, l, n);
                assert forall|i: int| 0 <= i < n implies #[trigger] c[i] == a[ahead_of(i, m, n)] by {
                    assert(c[i] == b[ahead_of(i, l, n)]);
                    assert(b[ahead_of(i, l, n)] == a[ahead_of(ahead_of(i, l, n), k, n)]);
                }
                lemma_turned(a, c, m);
            } else {
                lemma_turned_back(b, c, l);
                let m = ahead_of(k, l, n);
                assert forall|i: int| 0 <= i < n implies #[trigger] c[i] == a[behind_of(i, m, n)] by {
                    assert(c[i] == b[behind_of(i, l, n)]);
                    assert(b[behind_of(i, l, n)] == a[ahead_of(behind_of(i, l, n), k, n)]);
                }
                lemma_turned_back(a, c, m);
            }
        } else {
            lemma_turned_back(a, b, k);
            if turned(b, c, l) {
                lemma_turned(b, c, l);
                let m = behind_of(l, k, n);
                assert forall|i: int| 0 <= i < n implies #[trigger] c[i] == a[behind_of(i, m, n)] by {
                    assert(c[i] == b[ahead_of(i, l, n)]);
                    assert(b[ahead_of(i, l, n)] == a[behind_of(ahead_of(i, l, n), k, n)]);
                }
                lemma_turned_back(a, c, m);
            } else {
                lemma_turned_back(b, c, l);
                let m = behind_of(l, k, n);
                assert forall|i: int| 0 <= i < n implies #[trigger] c[i] == a[ahead_of(i, m, n)] by {
                    assert(c[i] == b[behind_of(i, l, n)]);
                    assert(b[behind_of(i, l, n)] == a[behind_of(behind_of(i, l, n), k, n)]);
                }
                lemma_turned(a, c, m);
            }
        }
    }
}

/// The same cycle holds the same handles.
pub proof fn lemma_same_handles(a: Seq<Handle>, b: Seq<Handle>)
    requires
        same_cycle(a, b),
    ensures
        a.len() == b.len(),
        forall|i: int| 0 <= i < b.len() ==> a.contains(#[trigger] b[i]),
{
    reveal(same_cycle);
    let n = a.len() as int;
    if n > 0 {
        let k = choose|k: int| 0 <= k < a.len() && (turned(a, b, k) || turned_back(a, b, k));
        assert forall|i: int| 0 <= i < n implies a.contains(#[trigger] b[i]) by {
            lemma_ahead(i, k, n);
            lemma_behind(i, k, n);
            if turned(a, b, k) {
                assert(b[i] == a[ahead_of(i, k, n)]);
            } else {
                assert(b[i] == a[behind_of(i, k, n)]);
            }
        }
    }
}

/// A cycle begun at another edge, in either direction, is the same cycle and
/// holds the same handles.
pub proof fn lemma_turn_same(cycle: Seq<Handle>, k: int, turn: Seq<Handle>)
    requires
        0 <= k < cycle.len(),
        turn == forward(cycle, k) || turn == backward(cycle, k),
    ensures
        same_cycle(cycle, turn),
        same_cycle(turn, cycle),
        turn.len() == cycle.len(),
        forall|i: int| 0 <= i < turn.len() ==> cycle.contains(#[trigger] turn[i]),
{
    lemma_forward_same(cycle, k);
    lemma_backward_same(cycle, k);
    lemma_same_cycle_symmetric(cycle, turn);
    lemma_same_handles(cycle, turn);
}

/// A cycle of at least one edge has a first position of its least handle.
pub proof fn lemma_least(cycle: Seq<Handle>)
    requires
        cycle.len() > 0,
    ensures
        exists|k: int| least_at(cycle, k),
{
    lemma_least_exists(cycle, cycle.len());
}

/// Whether `k` is the first position at which the first `m` handles of
/// `cycle` hold their least.
pub open spec fn least_among(cycle: Seq<Handle>, m: int, k: int) -> bool {
    &&& 0 <= k < m
    &&& forall|j: int| 0 <= j < m ==> cycle[k].index <= (#[trigger] cycle[j]).index
    &&& forall|j: int| 0 <= j < k ==> cycle[k].index < (#[trigger] cycle[j]).index
}

/// Among the first `m` handles of a cycle, one is the first of the least.
proof fn lemma_least_exists(cycle: Seq<Handle>, m: nat)
    requires
        0 < m <= cycle.len(),
    ensures
        exists|k: int| least_among(cycle, m as int, k),
        m == cycle.len() ==> exists|k: int| least_at(cycle, k),
    decreases m,
{
    if m == 1 {
        assert(least_among(cycle, 1, 0));
        if cycle.len() == 1 {
            assert(least_at(cycle, 0));
        }
    } else {
        let shorter = (m - 1) as nat;
        lemma_least_exists(cycle, shorter);
        let before = shorter as int;
        let p = choose|k: int| least_among(cycle, before, k);
        let k = if cycle[m - 1].index < cycle[p].index {
            m - 1
        } else {
            p
        };
        assert(least_among(cycle, m as int, k));
        if m == cycle.len() {
            assert(least_at(cycle, k));
        }
    }
}

} // verus!
