//! The dock as a mathematical state, the transitions that change it, and the
//! invariant that every transition keeps.

use vstd::prelude::*;
use crate::seqs::{first_position, lemma_first_position};
use crate::types::{addresses, classes, ClientView, KeyView};

verus! {

/// The state of a dock: the windows that are open (the registry), the classes
/// that are pinned, the slots in visual order, and whether the layout has to
/// be computed again.
pub struct DockView {
    pub clients: Seq<ClientView>,
    pub favorites: Seq<Seq<char>>,
    pub order: Seq<KeyView>,
    pub dirty: bool,
}

impl DockView {
    /// A dock with nothing in it.
    pub open spec fn empty() -> DockView {
        DockView { clients: Seq::empty(), favorites: Seq::empty(), order: Seq::empty(), dirty: false }
    }

    /// Whether a window with this address is in the registry.
    pub open spec fn has_window(self, address: Seq<char>) -> bool {
        addresses(self.clients).contains(address)
    }

    /// Whether some window of this class is in the registry.
    pub open spec fn class_running(self, class: Seq<char>) -> bool {
        classes(self.clients).contains(class)
    }

    /// A window opens. One whose address the registry already holds is the
    /// same window, and nothing changes. Otherwise the window joins the
    /// registry; it takes the slot of its class's placeholder where there is
    /// one, and a new slot at the end where there is none.
    pub open spec fn open_window(self, c: ClientView) -> DockView {
        if self.has_window(c.address) {
            self
        } else {
            let p = first_position(self.order, KeyView::Pinned(c.class));
            DockView {
                clients: self.clients.push(c),
                favorites: self.favorites,
                order: if p < self.order.len() {
                    self.order.update(p, KeyView::Running(c.address))
                } else {
                    self.order.push(KeyView::Running(c.address))
                },
                dirty: true,
            }
        }
    }

    /// A window closes. An address that the registry does not hold changes
    /// nothing. Otherwise the window leaves the registry. Its slot turns into
    /// the placeholder of its class when the class is pinned and has no
    /// placeholder yet; in every other case the slot is removed.
    pub open spec fn close_window(self, address: Seq<char>) -> DockView {
        let i = first_position(addresses(self.clients), address);
        if i >= self.clients.len() {
            self
        } else {
            let class = self.clients[i].class;
            let k = first_position(self.order, KeyView::Running(address));
            DockView {
                clients: self.clients.remove(i),
                favorites: self.favorites,
                order: if k >= self.order.len() {
                    self.order
                } else if self.favorites.contains(class) && !self.order.contains(
                    KeyView::Pinned(class),
                ) {
                    self.order.update(k, KeyView::Pinned(class))
                } else {
                    self.order.remove(k)
                },
                dirty: true,
            }
        }
    }

    /// A class is pinned: it joins the favourites, with a placeholder at the
    /// end of the order when no window of the class is open.
    pub open spec fn pin(self, class: Seq<char>) -> DockView {
        DockView {
            clients: self.clients,
            favorites: self.favorites.push(class),
            order: if self.class_running(class) {
                self.order
            } else {
                self.order.push(KeyView::Pinned(class))
            },
            dirty: true,
        }
    }

    /// A class is unpinned: it leaves the favourites, and its placeholder,
    /// where there is one, leaves the order. Slots of running windows stay.
    pub open spec fn unpin(self, class: Seq<char>) -> DockView {
        let f = first_position(self.favorites, class);
        let k = first_position(self.order, KeyView::Pinned(class));
        DockView {
            clients: self.clients,
            favorites: if f < self.favorites.len() {
                self.favorites.remove(f)
            } else {
                self.favorites
            },
            order: if k < self.order.len() {
                self.order.remove(k)
            } else {
                self.order
            },
            dirty: true,
        }
    }

    /// The pin of a class is switched: a pinned class is unpinned, any other
    /// class is pinned.
    pub open spec fn toggle_favorite(self, class: Seq<char>) -> DockView {
        if self.favorites.contains(class) {
            self.unpin(class)
        } else {
            self.pin(class)
        }
    }

    /// The invariant of a dock. No address, no favourite and no key occurs
    /// twice; the running keys are exactly the registry's addresses; every
    /// placeholder belongs to a favourite; and every favourite without a
    /// window has its placeholder.
    pub open spec fn wf(self) -> bool {
        &&& addresses(self.clients).no_duplicates()
        &&& self.favorites.no_duplicates()
        &&& self.order.no_duplicates()
        &&& forall|i: int|
            0 <= i < self.clients.len() ==> self.order.contains(
                KeyView::Running(#[trigger] self.clients[i].address),
            )
        &&& forall|k: int|
            0 <= k < self.order.len() && (#[trigger] self.order[k]) is Running ==> self.has_window(
                self.order[k]->Running_0,
            )
        &&& forall|k: int|
            0 <= k < self.order.len() && (#[trigger] self.order[k]) is Pinned
                ==> self.favorites.contains(self.order[k]->Pinned_0)
        &&& forall|f: int|
            0 <= f < self.favorites.len() && !self.class_running(#[trigger] self.favorites[f])
                ==> self.order.contains(KeyView::Pinned(self.favorites[f]))
    }
}

/// The empty dock is well formed.
pub proof fn lemma_empty_wf()
    ensures
        DockView::empty().wf(),
{
}

/// Opening a window keeps the invariant.
pub proof fn lemma_open_window_wf(s: DockView, c: ClientView)
    requires
        s.wf(),
    ensures
        s.open_window(c).wf(),
{
    let t = s.open_window(c);
    if !s.has_window(c.address) {
        let running = KeyView::Running(c.address);
        let p = first_position(s.order, KeyView::Pinned(c.class));
        lemma_first_position(s.order, KeyView::Pinned(c.class));
        assert(!s.order.contains(running)) by {
            if s.order.contains(running) {
                let k = choose|k: int| 0 <= k < s.order.len() && s.order[k] == running;
                assert(s.order[k] is Running);
            }
        }
        assert(addresses(t.clients) =~= addresses(s.clients).push(c.address));
        assert(classes(t.clients) =~= classes(s.clients).push(c.class));
        let n = s.clients.len() as int;
        assert(addresses(t.clients)[n] == c.address);
        assert(classes(t.clients)[n] == c.class);
        assert(t.class_running(c.class));
        assert(t.has_window(c.address));
        let slot = if p < s.order.len() { p } else { s.order.len() as int };
        assert(t.order[slot] == running);
        assert forall|i: int| 0 <= i < t.clients.len() implies t.order.contains(
            KeyView::Running(#[trigger] t.clients[i].address),
        ) by {
            if i < n {
                assert(t.clients[i] == s.clients[i]);
                let key = KeyView::Running(s.clients[i].address);
                assert(s.order.contains(key));
                let k = choose|k: int| 0 <= k < s.order.len() && s.order[k] == key;
                assert(t.order[k] == key);
            } else {
                assert(t.clients[i] == c);
            }
        }
        assert forall|k: int|
            0 <= k < t.order.len() && (#[trigger] t.order[k]) is Running implies t.has_window(
            t.order[k]->Running_0,
        ) by {
            if k != slot {
                assert(t.order[k] == s.order[k]);
                let a = s.order[k]->Running_0;
                assert(s.has_window(a));
                let j = choose|j: int|
                    0 <= j < addresses(s.clients).len() && addresses(s.clients)[j] == a;
                assert(addresses(t.clients)[j] == a);
            }
        }
        assert forall|k: int|
            0 <= k < t.order.len() && (#[trigger] t.order[k]) is Pinned
                implies t.favorites.contains(t.order[k]->Pinned_0) by {
            assert(k != slot);
            assert(t.order[k] == s.order[k]);
        }
        assert forall|f: int|
            0 <= f < t.favorites.len() && !t.class_running(
                #[trigger] t.favorites[f],
            ) implies t.order.contains(KeyView::Pinned(t.favorites[f])) by {
            let class = s.favorites[f];
            if s.class_running(class) {
                let j = choose|j: int|
                    0 <= j < classes(s.clients).len() && classes(s.clients)[j] == class;
                assert(classes(t.clients)[j] == class);
            }
            let key = KeyView::Pinned(class);
            assert(s.order.contains(key));
            let k = choose|k: int| 0 <= k < s.order.len() && s.order[k] == key;
            assert(class != c.class);
            assert(t.order[k] == key);
        }
    }
}

/// Closing a window keeps the invariant.
pub proof fn lemma_close_window_wf(s: DockView, address: Seq<char>)
    requires
        s.wf(),
    ensures
        s.close_window(address).wf(),
{
    let t = s.close_window(address);
    let i = first_position(addresses(s.clients), address);
    lemma_first_position(addresses(s.clients), address);
    if i < s.clients.len() {
        let class = s.clients[i].class;
        let running = KeyView::Running(address);
        let placeholder = KeyView::Pinned(class);
        let k = first_position(s.order, running);
        lemma_first_position(s.order, running);
        assert(s.clients[i].address == address);
        assert(s.order.contains(KeyView::Running(s.clients[i].address)));
        assert(k < s.order.len());
        let demote = s.favorites.contains(class) && !s.order.contains(placeholder);
        assert(addresses(t.clients) =~= addresses(s.clients).remove(i));
        assert(classes(t.clients) =~= classes(s.clients).remove(i));
        // Every other window is still in the registry.
        assert forall|j: int| 0 <= j < s.clients.len() && j != i implies t.has_window(
            #[trigger] s.clients[j].address,
        ) && t.class_running(s.clients[j].class) by {
            let j2 = if j < i { j } else { j - 1 };
            assert(addresses(t.clients)[j2] == s.clients[j].address);
            assert(classes(t.clients)[j2] == s.clients[j].class);
        }
        // Every slot but the closed window's is still in the order.
        assert forall|m: int| 0 <= m < s.order.len() && m != k implies t.order.contains(
            #[trigger] s.order[m],
        ) by {
            if demote {
                assert(t.order[m] == s.order[m]);
            } else {
                let m2 = if m < k { m } else { m - 1 };
                assert(t.order[m2] == s.order[m]);
            }
        }
        // Every slot of the new order is an old slot, or the new placeholder.
        assert forall|m: int| 0 <= m < t.order.len() implies (demote && m == k && t.order[m]
            == placeholder) || (exists|m0: int|
            0 <= m0 < s.order.len() && m0 != k && s.order[m0] == #[trigger] t.order[m]) by {
            if demote {
                if m != k {
                    assert(s.order[m] == t.order[m]);
                }
            } else {
                let m0 = if m < k { m } else { m + 1 };
                assert(s.order[m0] == t.order[m]);
            }
        }
        assert(t.order.no_duplicates()) by {
            if demote {
                assert forall|a: int, b: int|
                    0 <= a < t.order.len() && 0 <= b < t.order.len() && a != b implies t.order[a]
                    != t.order[b] by {
                    if a == k {
                        assert(s.order[b] == t.order[b]);
                    } else if b == k {
                        assert(s.order[a] == t.order[a]);
                    }
                }
            }
        }
        assert forall|j: int| 0 <= j < t.clients.len() implies t.order.contains(
            KeyView::Running(#[trigger] t.clients[j].address),
        ) by {
            let j0 = if j < i { j } else { j + 1 };
            assert(t.clients[j] == s.clients[j0]);
            let key = KeyView::Running(s.clients[j0].address);
            assert(s.order.contains(key));
            let m = choose|m: int| 0 <= m < s.order.len() && s.order[m] == key;
            assert(addresses(s.clients)[j0] == s.clients[j0].address);
            assert(addresses(s.clients)[i] == address);
            assert(m != k);
            assert(t.order.contains(s.order[m]));
        }
        assert forall|m: int|
            0 <= m < t.order.len() && (#[trigger] t.order[m]) is Running implies t.has_window(
            t.order[m]->Running_0,
        ) by {
            let m0 = choose|m0: int|
                0 <= m0 < s.order.len() && m0 != k && s.order[m0] == t.order[m];
            let a = s.order[m0]->Running_0;
            assert(s.has_window(a));
            let j = choose|j: int|
                0 <= j < addresses(s.clients).len() && addresses(s.clients)[j] == a;
            assert(s.clients[j].address == a);
            assert(j != i);
        }
        assert forall|m: int|
            0 <= m < t.order.len() && (#[trigger] t.order[m]) is Pinned
                implies t.favorites.contains(t.order[m]->Pinned_0) by {
            if !(demote && m == k) {
                let m0 = choose|m0: int|
                    0 <= m0 < s.order.len() && m0 != k && s.order[m0] == t.order[m];
                assert(s.order[m0] is Pinned);
            }
        }
        assert forall|f: int|
            0 <= f < t.favorites.len() && !t.class_running(
                #[trigger] t.favorites[f],
            ) implies t.order.contains(KeyView::Pinned(t.favorites[f])) by {
            let fav = s.favorites[f];
            let key = KeyView::Pinned(fav);
            if s.order.contains(key) {
                let m = choose|m: int| 0 <= m < s.order.len() && s.order[m] == key;
                assert(m != k);
                assert(t.order.contains(s.order[m]));
            } else {
                assert(s.class_running(fav));
                let j = choose|j: int|
                    0 <= j < classes(s.clients).len() && classes(s.clients)[j] == fav;
                assert(s.clients[j].class == fav);
                if j != i {
                    assert(t.has_window(s.clients[j].address));
                }
                assert(s.favorites.contains(class));
                assert(demote);
                assert(t.order[k] == key);
            }
        }
    }
}

/// Pinning a class that is not pinned keeps the invariant.
pub proof fn lemma_pin_wf(s: DockView, class: Seq<char>)
    requires
        s.wf(),
        !s.favorites.contains(class),
    ensures
        s.pin(class).wf(),
{
    let t = s.pin(class);
    let key = KeyView::Pinned(class);
    let n = s.favorites.len() as int;
    assert(!s.order.contains(key)) by {
        if s.order.contains(key) {
            let k = choose|k: int| 0 <= k < s.order.len() && s.order[k] == key;
            assert(s.order[k] is Pinned);
        }
    }
    assert forall|m: int| 0 <= m < s.order.len() implies t.order.contains(
        #[trigger] s.order[m],
    ) by {
        assert(t.order[m] == s.order[m]);
    }
    assert forall|f: int| 0 <= f < s.favorites.len() implies t.favorites.contains(
        #[trigger] s.favorites[f],
    ) by {
        assert(t.favorites[f] == s.favorites[f]);
    }
    assert forall|k: int|
        0 <= k < t.order.len() && (#[trigger] t.order[k]) is Pinned implies t.favorites.contains(
        t.order[k]->Pinned_0,
    ) by {
        if k < s.order.len() {
            assert(t.order[k] == s.order[k]);
            let fav = s.order[k]->Pinned_0;
            assert(s.favorites.contains(fav));
            let f = choose|f: int| 0 <= f < s.favorites.len() && s.favorites[f] == fav;
            assert(t.favorites.contains(s.favorites[f]));
        } else {
            assert(t.favorites[n] == class);
        }
    }
    assert forall|f: int|
        0 <= f < t.favorites.len() && !t.class_running(
            #[trigger] t.favorites[f],
        ) implies t.order.contains(KeyView::Pinned(t.favorites[f])) by {
        if f < n {
            let key_f = KeyView::Pinned(s.favorites[f]);
            assert(s.order.contains(key_f));
            let m = choose|m: int| 0 <= m < s.order.len() && s.order[m] == key_f;
            assert(t.order.contains(s.order[m]));
        } else {
            assert(t.order[s.order.len() as int] == key);
        }
    }
    assert forall|i: int| 0 <= i < t.clients.len() implies t.order.contains(
        KeyView::Running(#[trigger] t.clients[i].address),
    ) by {
        let key_i = KeyView::Running(s.clients[i].address);
        assert(s.order.contains(key_i));
        let m = choose|m: int| 0 <= m < s.order.len() && s.order[m] == key_i;
        assert(t.order.contains(s.order[m]));
    }
}

/// Unpinning a class keeps the invariant.
pub proof fn lemma_unpin_wf(s: DockView, class: Seq<char>)
    requires
        s.wf(),
    ensures
        s.unpin(class).wf(),
{
    let t = s.unpin(class);
    let key = KeyView::Pinned(class);
    let f0 = first_position(s.favorites, class);
    let k0 = first_position(s.order, key);
    lemma_first_position(s.favorites, class);
    lemma_first_position(s.order, key);
    // Every slot but the placeholder's is still in the order.
    assert forall|m: int| 0 <= m < s.order.len() && m != k0 implies t.order.contains(
        #[trigger] s.order[m],
    ) by {
        if k0 < s.order.len() {
            let m2 = if m < k0 { m } else { m - 1 };
            assert(t.order[m2] == s.order[m]);
        } else {
            assert(t.order[m] == s.order[m]);
        }
    }
    assert forall|m: int| 0 <= m < t.order.len() implies exists|m0: int|
        0 <= m0 < s.order.len() && m0 != k0 && s.order[m0] == #[trigger] t.order[m] by {
        if k0 < s.order.len() {
            let m0 = if m < k0 { m } else { m + 1 };
            assert(s.order[m0] == t.order[m]);
        } else {
            assert(s.order[m] == t.order[m]);
        }
    }
    assert forall|f: int| 0 <= f < s.favorites.len() && f != f0 implies t.favorites.contains(
        #[trigger] s.favorites[f],
    ) by {
        if f0 < s.favorites.len() {
            let f2 = if f < f0 { f } else { f - 1 };
            assert(t.favorites[f2] == s.favorites[f]);
        } else {
            assert(t.favorites[f] == s.favorites[f]);
        }
    }
    assert forall|f: int| 0 <= f < t.favorites.len() implies exists|g: int|
        0 <= g < s.favorites.len() && g != f0 && s.favorites[g] == #[trigger] t.favorites[f] by {
        if f0 < s.favorites.len() {
            let g = if f < f0 { f } else { f + 1 };
            assert(s.favorites[g] == t.favorites[f]);
        } else {
            assert(s.favorites[f] == t.favorites[f]);
        }
    }
    assert forall|i: int| 0 <= i < t.clients.len() implies t.order.contains(
        KeyView::Running(#[trigger] t.clients[i].address),
    ) by {
        let key_i = KeyView::Running(s.clients[i].address);
        assert(s.order.contains(key_i));
        let m = choose|m: int| 0 <= m < s.order.len() && s.order[m] == key_i;
        assert(t.order.contains(s.order[m]));
    }
    assert forall|k: int|
        0 <= k < t.order.len() && (#[trigger] t.order[k]) is Running implies t.has_window(
        t.order[k]->Running_0,
    ) by {
        let m0 = choose|m0: int| 0 <= m0 < s.order.len() && m0 != k0 && s.order[m0] == t.order[k];
        assert(s.order[m0] is Running);
    }
    assert forall|k: int|
        0 <= k < t.order.len() && (#[trigger] t.order[k]) is Pinned implies t.favorites.contains(
        t.order[k]->Pinned_0,
    ) by {
        let m0 = choose|m0: int| 0 <= m0 < s.order.len() && m0 != k0 && s.order[m0] == t.order[k];
        assert(s.order[m0] is Pinned);
        let fav = s.order[m0]->Pinned_0;
        assert(s.favorites.contains(fav));
        let f = choose|f: int| 0 <= f < s.favorites.len() && s.favorites[f] == fav;
        if f == f0 {
            assert(s.order[m0] == key);
            if k0 < s.order.len() {
                assert(s.order[k0] == key);
            }
        }
        assert(t.favorites.contains(s.favorites[f]));
    }
    assert forall|f: int|
        0 <= f < t.favorites.len() && !t.class_running(
            #[trigger] t.favorites[f],
        ) implies t.order.contains(KeyView::Pinned(t.favorites[f])) by {
        let g = choose|g: int|
            0 <= g < s.favorites.len() && g != f0 && s.favorites[g] == t.favorites[f];
        let key_f = KeyView::Pinned(s.favorites[g]);
        assert(s.order.contains(key_f));
        let m = choose|m: int| 0 <= m < s.order.len() && s.order[m] == key_f;
        if m == k0 {
            assert(s.favorites[g] == class);
            assert(s.favorites.contains(class));
            assert(s.favorites[f0] == class);
        }
        assert(t.order.contains(s.order[m]));
    }
}

/// Switching the pin of a class keeps the invariant.
pub proof fn lemma_toggle_favorite_wf(s: DockView, class: Seq<char>)
    requires
        s.wf(),
    ensures
        s.toggle_favorite(class).wf(),
{
    if s.favorites.contains(class) {
        lemma_unpin_wf(s, class);
    } else {
        lemma_pin_wf(s, class);
    }
}

} // verus!
