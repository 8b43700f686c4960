//! The order after a drag: every slot sorted by where it now stands on the
//! primary axis, the dragged slot behind the slots it has reached.

use vstd::prelude::*;
use crate::types::{DockKey, DockOrder, KeyView};

verus! {

/// Whether slot `i` comes before slot `j` once the slot `dragged` is let go.
/// A smaller coordinate comes first. Among equal coordinates the dragged slot
/// comes last, and the others keep the order they had.
pub open spec fn comes_before(coords: Seq<i64>, dragged: int, i: int, j: int) -> bool {
    coords[i] < coords[j] || (coords[i] == coords[j] && i != j && (j == dragged || (i != dragged
        && i < j)))
}

/// Whether `perm` lists the slots `0..coords.len()` in the order that
/// `comes_before` gives: each slot once, and each before all that follow it.
pub open spec fn is_reordering(coords: Seq<i64>, dragged: int, perm: Seq<usize>) -> bool {
    &&& perm.len() == coords.len() <= usize::MAX
    &&& forall|k: int| 0 <= k < perm.len() ==> 0 <= #[trigger] perm[k] < coords.len()
    &&& forall|i: usize| i < coords.len() ==> #[trigger] perm.contains(i)
    &&& forall|k: int, l: int|
        0 <= k < l < perm.len() ==> comes_before(
            coords,
            dragged,
            #[trigger] perm[k] as int,
            #[trigger] perm[l] as int,
        )
}

/// The keys of `order` in the sequence that `perm` names.
pub open spec fn permuted(order: Seq<KeyView>, perm: Seq<usize>) -> Seq<KeyView> {
    Seq::new(perm.len(), |k: int| order[perm[k] as int])
}

/// There is one reordering and no other: two lists that both meet
/// `is_reordering` agree in their first `n` places, whatever `n`.
pub proof fn lemma_reordering_unique_upto(
    coords: Seq<i64>,
    dragged: int,
    p: Seq<usize>,
    q: Seq<usize>,
    n: int,
)
    requires
        is_reordering(coords, dragged, p),
        is_reordering(coords, dragged, q),
        0 <= n <= coords.len(),
    ensures
        forall|k: int| 0 <= k < n ==> p[k] == q[k],
    decreases n,
{
    if n > 0 {
        lemma_reordering_unique_upto(coords, dragged, p, q, n - 1);
        let k = n - 1;
        if p[k] != q[k] {
            assert(q.contains(p[k]));
            let l = choose|l: int| 0 <= l < q.len() && q[l] == p[k];
            assert(p.contains(q[k]));
            let m = choose|m: int| 0 <= m < p.len() && p[m] == q[k];
            if l < k {
                assert(p[l] == q[l]);
                assert(comes_before(coords, dragged, p[l] as int, p[k] as int));
            } else if m < k {
                assert(p[m] == q[m]);
                assert(comes_before(coords, dragged, q[m] as int, q[k] as int));
            } else {
                assert(comes_before(coords, dragged, q[k] as int, q[l] as int));
                assert(comes_before(coords, dragged, p[k] as int, p[m] as int));
            }
        }
    }
}

/// The reordering is unique.
pub proof fn lemma_reordering_unique(coords: Seq<i64>, dragged: int, p: Seq<usize>, q: Seq<usize>)
    requires
        is_reordering(coords, dragged, p),
        is_reordering(coords, dragged, q),
    ensures
        p == q,
{
    lemma_reordering_unique_upto(coords, dragged, p, q, coords.len() as int);
    assert(p =~= q);
}

/// A reordering moves keys and neither adds nor drops one: an order without
/// duplicates stays without duplicates, and holds the same keys.
pub proof fn lemma_permuted_same_keys(
    coords: Seq<i64>,
    dragged: int,
    perm: Seq<usize>,
    order: Seq<KeyView>,
)
    requires
        is_reordering(coords, dragged, perm),
        order.len() == coords.len(),
    ensures
        permuted(order, perm).len() == order.len(),
        forall|key: KeyView| permuted(order, perm).contains(key) <==> order.contains(key),
        order.no_duplicates() ==> permuted(order, perm).no_duplicates(),
{
    let new = permuted(order, perm);
    assert forall|key: KeyView| new.contains(key) <==> order.contains(key) by {
        if new.contains(key) {
            let k = choose|k: int| 0 <= k < new.len() && new[k] == key;
            assert(order[perm[k] as int] == key);
        }
        if order.contains(key) {
            let i = choose|i: int| 0 <= i < order.len() && order[i] == key;
            assert(perm.contains(i as usize));
            let k = choose|k: int| 0 <= k < perm.len() && perm[k] == i as usize;
            assert(new[k] == key);
        }
    }
    if order.no_duplicates() {
        assert forall|a: int, b: int| 0 <= a < new.len() && 0 <= b < new.len() && a != b implies new[a]
            != new[b] by {
            if a < b {
                assert(comes_before(coords, dragged, perm[a] as int, perm[b] as int));
            } else {
                assert(comes_before(coords, dragged, perm[b] as int, perm[a] as int));
            }
        }
    }
}

/// The `k`-th of the slots other than `dragged`, counted from zero.
pub open spec fn other_slot(dragged: int, k: int) -> int {
    if k < dragged {
        k
    } else {
        k + 1
    }
}

/// The order in which only the dragged slot has moved: it stands at
/// `landing`, and the other slots stand around it in the order they had.
pub open spec fn moved_one(len: nat, dragged: int, landing: int) -> Seq<usize> {
    Seq::new(
        len,
        |k: int|
            if k < landing {
                other_slot(dragged, k) as usize
            } else if k == landing {
                dragged as usize
            } else {
                other_slot(dragged, k - 1) as usize
            },
    )
}

/// Where the other slots stand in their order already, a drag moves the
/// dragged slot alone. It lands behind the slots whose coordinate it has
/// reached and before the slots whose coordinate it has not: at `landing`,
/// when `landing` other slots lie at or before its coordinate and all
/// further ones lie beyond. Every slot between its old place and its new one
/// moves by one place towards the old one; every other slot stays.
pub proof fn lemma_drag_moves_one_slot(
    coords: Seq<i64>,
    dragged: int,
    landing: int,
    perm: Seq<usize>,
)
    requires
        is_reordering(coords, dragged, perm),
        0 <= dragged < coords.len(),
        0 <= landing < coords.len(),
        forall|i: int, j: int|
            0 <= i < j < coords.len() && i != dragged && j != dragged ==> coords[i] <= coords[j],
        forall|k: int|
            0 <= k < landing ==> coords[#[trigger] other_slot(dragged, k)] <= coords[dragged],
        forall|k: int|
            landing <= k < coords.len() - 1 ==> coords[#[trigger] other_slot(dragged, k)]
                > coords[dragged],
    ensures
        perm == moved_one(coords.len(), dragged, landing),
        perm[landing] == dragged,
        forall|k: int| dragged <= k < landing ==> perm[k] == k + 1,
        forall|k: int| landing < k <= dragged ==> perm[k] == k - 1,
        forall|k: int|
            0 <= k < coords.len() && (k < dragged && k < landing || k > dragged && k > landing)
                ==> perm[k] == k,
{
    let n = coords.len() as int;
    let q = moved_one(coords.len(), dragged, landing);
    assert forall|i: usize| i < coords.len() implies #[trigger] q.contains(i) by {
        if i as int == dragged {
            assert(q[landing] == i);
        } else {
            let k = if (i as int) < dragged { i as int } else { i as int - 1 };
            assert(other_slot(dragged, k) == i as int);
            let at = if k < landing { k } else { k + 1 };
            assert(q[at] == i);
        }
    }
    assert forall|a: int, b: int| 0 <= a < b < q.len() implies comes_before(
        coords,
        dragged,
        #[trigger] q[a] as int,
        #[trigger] q[b] as int,
    ) by {
        if a == landing {
            assert(q[b] as int == other_slot(dragged, b - 1));
        } else if b == landing {
            assert(q[a] as int == other_slot(dragged, a));
        } else {
            let ka = if a < landing { a } else { a - 1 };
            let kb = if b < landing { b } else { b - 1 };
            assert(q[a] as int == other_slot(dragged, ka));
            assert(q[b] as int == other_slot(dragged, kb));
        }
    }
    lemma_reordering_unique(coords, dragged, perm, q);
}

/// Whether slot `i` comes before slot `j`.
fn before(coords: &Vec<i64>, dragged: usize, i: usize, j: usize) -> (r: bool)
    requires
        i < coords@.len(),
        j < coords@.len(),
    ensures
        r == comes_before(coords@, dragged as int, i as int, j as int),
{
    coords[i] < coords[j] || (coords[i] == coords[j] && i != j && (j == dragged || (i != dragged
        && i < j)))
}

/// Sorts the slots by their coordinate on the primary axis. `coords[i]` is
/// where slot `i` stands now; `dragged` is the slot that was let go. The
/// result names, for each new place, the slot that takes it.
pub fn reordering(coords: &Vec<i64>, dragged: usize) -> (perm: Vec<usize>)
    ensures
        is_reordering(coords@, dragged as int, perm@),
{
    let n = coords.len();
    let mut perm: Vec<usize> = Vec::new();
    let mut i: usize = 0;
    while i < n
        invariant
            i <= n,
            n == coords@.len(),
            perm@.len() == i,
            forall|k: int| 0 <= k < perm@.len() ==> 0 <= #[trigger] perm@[k] < i,
            forall|j: usize| j < i ==> #[trigger] perm@.contains(j),
            forall|k: int, l: int|
                0 <= k < l < perm@.len() ==> comes_before(
                    coords@,
                    dragged as int,
                    #[trigger] perm@[k] as int,
                    #[trigger] perm@[l] as int,
                ),
        decreases n - i,
    {
        let mut at: usize = 0;
        while at < perm.len() && !before(coords, dragged, i, perm[at])
            invariant
                at <= perm@.len(),
                perm@.len() == i,
                i < n,
                n == coords@.len(),
                forall|k: int| 0 <= k < perm@.len() ==> 0 <= #[trigger] perm@[k] < i,
                forall|k: int|
                    0 <= k < at ==> !comes_before(
                        coords@,
                        dragged as int,
                        i as int,
                        #[trigger] perm@[k] as int,
                    ),
            decreases perm@.len() - at,
        {
            at += 1;
        }
        let ghost old_perm = perm@;
        perm.insert(at, i);
        proof {
            assert forall|j: usize| j < i + 1 implies #[trigger] perm@.contains(j) by {
                if j < i {
                    assert(old_perm.contains(j));
                    let k = choose|k: int| 0 <= k < old_perm.len() && old_perm[k] == j;
                    let k2 = if k < at { k } else { k + 1 };
                    assert(perm@[k2] == j);
                } else {
                    assert(perm@[at as int] == i);
                }
            }
            assert forall|k: int, l: int| 0 <= k < l < perm@.len() implies comes_before(
                coords@,
                dragged as int,
                #[trigger] perm@[k] as int,
                #[trigger] perm@[l] as int,
            ) by {
                let k0 = if k < at { k } else { k - 1 };
                let l0 = if l < at { l } else { l - 1 };
                if k == at {
                    // The new slot comes before the slot it was put in front of,
                    // and that one before all behind it.
                    assert(perm@[l] == old_perm[l0]);
                    assert(comes_before(coords@, dragged as int, i as int, old_perm[at as int] as int));
                    if l0 > at {
                        assert(comes_before(
                            coords@,
                            dragged as int,
                            old_perm[at as int] as int,
                            old_perm[l0] as int,
                        ));
                    }
                } else if l == at {
                    assert(perm@[k] == old_perm[k0]);
                    assert(!comes_before(coords@, dragged as int, i as int, old_perm[k0] as int));
                } else {
                    assert(perm@[k] == old_perm[k0]);
                    assert(perm@[l] == old_perm[l0]);
                }
            }
        }
        i += 1;
    }
    perm
}

impl DockOrder {
    /// The keys of this order in the sequence that `perm` names.
    pub fn permute(&self, perm: &Vec<usize>) -> (r: DockOrder)
        requires
            forall|k: int| 0 <= k < perm@.len() ==> #[trigger] perm@[k] < self@.len(),
        ensures
            r@ == permuted(self@, perm@),
    {
        let mut keys: Vec<DockKey> = Vec::new();
        let mut k: usize = 0;
        while k < perm.len()
            invariant
                k <= perm@.len(),
                keys@.len() == k,
                forall|j: int| 0 <= j < perm@.len() ==> #[trigger] perm@[j] < self@.len(),
                forall|j: int| 0 <= j < k ==> keys@[j]@ == self@[perm@[j] as int],
            decreases perm@.len() - k,
        {
            keys.push(self.0[perm[k]].clone());
            k += 1;
        }
        let r = DockOrder(keys);
        assert(r@ =~= permuted(self@, perm@));
        r
    }
}

} // verus!
