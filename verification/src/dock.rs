//! The dock itself: the registry, the favourites and the order in one value,
//! changed only through the transitions of the model.

use vstd::prelude::*;
use crate::model::{
    lemma_close_window_wf, lemma_open_window_wf, lemma_pin_wf, lemma_unpin_wf, DockView,
};
use crate::seqs::first_position;
use crate::types::{
    addresses, Client, ClientList, ClientView, DockKey, DockOrder, Favorites, KeyView,
    ReorderTrigger,
};

verus! {

/// What a transition did to the order, for whoever draws the dock.
#[derive(Debug, Clone, Copy, PartialEq, Eq, Structural)]
pub enum Change {
    /// Nothing changed.
    Unchanged,
    /// The placeholder in this slot became a running window.
    Promoted { index: usize },
    /// A new slot was added at this index, the end of the order.
    Appended { index: usize },
    /// The running window in this slot became a placeholder.
    Demoted { index: usize },
    /// The slot at this index was removed; later slots moved up by one.
    Removed { index: usize },
    /// The registry or the favourites changed and the order did not.
    Hidden,
}

/// The whole state of a dock.
#[derive(Debug, PartialEq, Eq)]
pub struct Dock {
    pub clients: ClientList,
    pub favorites: Favorites,
    pub order: DockOrder,
    pub reorder_trigger: ReorderTrigger,
}

impl View for Dock {
    type V = DockView;

    open spec fn view(&self) -> DockView {
        DockView {
            clients: self.clients@,
            favorites: self.favorites@,
            order: self.order@,
            dirty: self.reorder_trigger.0,
        }
    }
}

impl DockView {
    /// What opening a window does to the order.
    pub open spec fn open_change(self, c: ClientView) -> Change {
        let p = first_position(self.order, KeyView::Pinned(c.class));
        if self.has_window(c.address) {
            Change::Unchanged
        } else if p < self.order.len() {
            Change::Promoted { index: p as usize }
        } else {
            Change::Appended { index: self.order.len() as usize }
        }
    }

    /// What closing a window does to the order.
    pub open spec fn close_change(self, address: Seq<char>) -> Change {
        let i = first_position(addresses(self.clients), address);
        let k = first_position(self.order, KeyView::Running(address));
        if i >= self.clients.len() {
            Change::Unchanged
        } else if k >= self.order.len() {
            Change::Hidden
        } else if self.favorites.contains(self.clients[i].class) && !self.order.contains(
            KeyView::Pinned(self.clients[i].class),
        ) {
            Change::Demoted { index: k as usize }
        } else {
            Change::Removed { index: k as usize }
        }
    }

    /// What switching the pin of a class does to the order.
    pub open spec fn toggle_change(self, class: Seq<char>) -> Change {
        let k = first_position(self.order, KeyView::Pinned(class));
        if self.favorites.contains(class) {
            if k < self.order.len() {
                Change::Removed { index: k as usize }
            } else {
                Change::Hidden
            }
        } else if self.class_running(class) {
            Change::Hidden
        } else {
            Change::Appended { index: self.order.len() as usize }
        }
    }
}

impl Dock {
    /// A dock with nothing in it.
    pub fn empty() -> (d: Dock)
        ensures
            d@ == DockView::empty(),
            d@.wf(),
    {
        let d = Dock {
            clients: ClientList(Vec::new()),
            favorites: Favorites(Vec::new()),
            order: DockOrder(Vec::new()),
            reorder_trigger: ReorderTrigger(false),
        };
        assert(d@.clients =~= Seq::empty());
        assert(d@.favorites =~= Seq::empty());
        assert(d@.order =~= Seq::empty());
        d
    }

    /// Takes a window that has opened into the dock.
    pub fn open_window(&mut self, client: Client) -> (change: Change)
        ensures
            final(self)@ == old(self)@.open_window(client@),
            change == old(self)@.open_change(client@),
            old(self)@.wf() ==> final(self)@.wf(),
    {
        proof {
            if self@.wf() {
                lemma_open_window_wf(self@, client@);
            }
        }
        let ghost before = self@;
        if self.clients.position(client.address.as_str()) < self.clients.0.len() {
            return Change::Unchanged;
        }
        let placeholder = DockKey::Pinned(client.class.clone());
        let key = DockKey::Running(client.address.clone());
        let p = self.order.position(&placeholder);
        self.clients.0.push(client);
        self.reorder_trigger.0 = true;
        if p < self.order.0.len() {
            self.order.0.set(p, key);
            assert(self@.clients =~= before.clients.push(client@));
            assert(self@.order =~= before.order.update(p as int, key@));
            Change::Promoted { index: p }
        } else {
            self.order.0.push(key);
            assert(self@.clients =~= before.clients.push(client@));
            assert(self@.order =~= before.order.push(key@));
            Change::Appended { index: p }
        }
    }

    /// Takes a window that has closed out of the dock.
    pub fn close_window(&mut self, address: &str) -> (change: Change)
        ensures
            final(self)@ == old(self)@.close_window(address@),
            change == old(self)@.close_change(address@),
            old(self)@.wf() ==> final(self)@.wf(),
    {
        proof {
            if self@.wf() {
                lemma_close_window_wf(self@, address@);
            }
        }
        let ghost before = self@;
        let i = self.clients.position(address);
        if i >= self.clients.0.len() {
            return Change::Unchanged;
        }
        let closed = self.clients.0.remove(i);
        assert(closed@ == before.clients[i as int]);
        assert(self@.clients =~= before.clients.remove(i as int));
        self.reorder_trigger.0 = true;
        let key = DockKey::Running(address.to_owned());
        let k = self.order.position(&key);
        if k >= self.order.0.len() {
            return Change::Hidden;
        }
        let placeholder = DockKey::Pinned(closed.class.clone());
        if self.favorites.contains(closed.class.as_str()) && self.order.position(&placeholder)
            >= self.order.0.len() {
            self.order.0.set(k, placeholder);
            assert(self@.order =~= before.order.update(k as int, placeholder@));
            Change::Demoted { index: k }
        } else {
            let _ = self.order.0.remove(k);
            assert(self@.order =~= before.order.remove(k as int));
            Change::Removed { index: k }
        }
    }

    /// Switches the pin of a class.
    pub fn toggle_favorite(&mut self, class: &str) -> (change: Change)
        ensures
            final(self)@ == old(self)@.toggle_favorite(class@),
            change == old(self)@.toggle_change(class@),
            old(self)@.wf() ==> final(self)@.wf(),
    {
        let ghost before = self@;
        let f = self.favorites.position(class);
        let placeholder = DockKey::Pinned(class.to_owned());
        self.reorder_trigger.0 = true;
        if f < self.favorites.0.len() {
            proof {
                if before.wf() {
                    lemma_unpin_wf(before, class@);
                }
            }
            let _ = self.favorites.0.remove(f);
            assert(self@.favorites =~= before.favorites.remove(f as int));
            let k = self.order.position(&placeholder);
            if k < self.order.0.len() {
                let _ = self.order.0.remove(k);
                assert(self@.order =~= before.order.remove(k as int));
                Change::Removed { index: k }
            } else {
                Change::Hidden
            }
        } else {
            proof {
                if before.wf() {
                    lemma_pin_wf(before, class@);
                }
            }
            self.favorites.0.push(class.to_owned());
            assert(self@.favorites =~= before.favorites.push(class@));
            if self.clients.class_position(class) < self.clients.0.len() {
                Change::Hidden
            } else {
                let n = self.order.0.len();
                self.order.0.push(placeholder);
                assert(self@.order =~= before.order.push(placeholder@));
                Change::Appended { index: n }
            }
        }
    }

    /// Hands out the flag that asks for a new layout pass, and clears it.
    pub fn take_reorder_trigger(&mut self) -> (dirty: bool)
        ensures
            dirty == old(self)@.dirty,
            final(self)@ == (DockView { dirty: false, ..old(self)@ }),
    {
        let dirty = self.reorder_trigger.0;
        self.reorder_trigger.0 = false;
        dirty
    }
}

} // verus!
