//! Keeping the registry in step with a snapshot of the window manager: what
//! has opened, what has closed, and the dock after both.

use vstd::prelude::*;
use crate::dock::{Change, Dock};
use crate::model::{lemma_close_window_wf, lemma_open_window_wf, lemma_pin_wf, DockView};
use crate::seqs::{first_position, lemma_first_position};
use crate::types::{
    addresses, client_views, text_views, Client, ClientList, ClientView,
};

verus! {

/// The test that picks the windows whose address is not among `known`.
pub open spec fn is_new_window(known: Seq<Seq<char>>) -> spec_fn(ClientView) -> bool {
    |c: ClientView| !known.contains(c.address)
}

/// The test that picks the addresses that are not among `known`.
pub open spec fn is_gone(known: Seq<Seq<char>>) -> spec_fn(Seq<char>) -> bool {
    |a: Seq<char>| !known.contains(a)
}

/// The windows of the snapshot `new` that the registry `old` does not hold,
/// in the snapshot's order.
pub open spec fn opened_windows(old: Seq<ClientView>, new: Seq<ClientView>) -> Seq<ClientView> {
    new.filter(is_new_window(addresses(old)))
}

/// The addresses of the registry `old` that the snapshot `new` does not hold,
/// in the registry's order.
pub open spec fn closed_addresses(old: Seq<ClientView>, new: Seq<ClientView>) -> Seq<Seq<char>> {
    addresses(old).filter(is_gone(addresses(new)))
}

impl DockView {
    /// The dock after each of these windows has closed, first to last.
    pub open spec fn close_windows(self, closed: Seq<Seq<char>>) -> DockView
        decreases closed.len(),
    {
        if closed.len() == 0 {
            self
        } else {
            self.close_windows(closed.drop_last()).close_window(closed.last())
        }
    }

    /// The dock after each of these windows has opened, first to last.
    pub open spec fn open_windows(self, opened: Seq<ClientView>) -> DockView
        decreases opened.len(),
    {
        if opened.len() == 0 {
            self
        } else {
            self.open_windows(opened.drop_last()).open_window(opened.last())
        }
    }

    /// The dock brought in step with a snapshot: the windows that the
    /// snapshot lacks close, then the windows that the registry lacks open.
    pub open spec fn sync(self, snapshot: Seq<ClientView>) -> DockView {
        self.close_windows(closed_addresses(self.clients, snapshot)).open_windows(
            opened_windows(self.clients, snapshot),
        )
    }

    /// The dock with `class` pinned, unchanged where it is pinned already.
    pub open spec fn pin_once(self, class: Seq<char>) -> DockView {
        if self.favorites.contains(class) {
            self
        } else {
            self.pin(class)
        }
    }

    /// The dock after each of these classes has been pinned, first to last.
    pub open spec fn pin_all(self, classes: Seq<Seq<char>>) -> DockView
        decreases classes.len(),
    {
        if classes.len() == 0 {
            self
        } else {
            self.pin_all(classes.drop_last()).pin_once(classes.last())
        }
    }

    /// The dock at the start of a session: every favourite has its slot, in
    /// the favourites' order; then the windows open in the snapshot's order,
    /// so that the first window of a favourite takes the favourite's slot
    /// and every other window follows behind.
    pub open spec fn initial(favorites: Seq<Seq<char>>, snapshot: Seq<ClientView>) -> DockView {
        DockView {
            dirty: false,
            ..DockView::empty().pin_all(favorites).open_windows(snapshot)
        }
    }
}

/// Closing any windows keeps the invariant.
pub proof fn lemma_close_windows_wf(s: DockView, closed: Seq<Seq<char>>)
    requires
        s.wf(),
    ensures
        s.close_windows(closed).wf(),
    decreases closed.len(),
{
    if closed.len() > 0 {
        lemma_close_windows_wf(s, closed.drop_last());
        lemma_close_window_wf(s.close_windows(closed.drop_last()), closed.last());
    }
}

/// Opening any windows keeps the invariant.
pub proof fn lemma_open_windows_wf(s: DockView, opened: Seq<ClientView>)
    requires
        s.wf(),
    ensures
        s.open_windows(opened).wf(),
    decreases opened.len(),
{
    if opened.len() > 0 {
        lemma_open_windows_wf(s, opened.drop_last());
        lemma_open_window_wf(s.open_windows(opened.drop_last()), opened.last());
    }
}

/// Pinning any classes keeps the invariant.
pub proof fn lemma_pin_all_wf(s: DockView, classes: Seq<Seq<char>>)
    requires
        s.wf(),
    ensures
        s.pin_all(classes).wf(),
    decreases classes.len(),
{
    if classes.len() > 0 {
        lemma_pin_all_wf(s, classes.drop_last());
        let t = s.pin_all(classes.drop_last());
        if !t.favorites.contains(classes.last()) {
            lemma_pin_wf(t, classes.last());
        }
    }
}

/// A dock brought in step with a snapshot is well formed, and so is the dock
/// at the start of a session.
pub proof fn lemma_sync_wf(s: DockView, snapshot: Seq<ClientView>)
    requires
        s.wf(),
    ensures
        s.sync(snapshot).wf(),
{
    lemma_close_windows_wf(s, closed_addresses(s.clients, snapshot));
    lemma_open_windows_wf(
        s.close_windows(closed_addresses(s.clients, snapshot)),
        opened_windows(s.clients, snapshot),
    );
}

/// The dock at the start of a session is well formed.
pub proof fn lemma_initial_wf(favorites: Seq<Seq<char>>, snapshot: Seq<ClientView>)
    ensures
        DockView::initial(favorites, snapshot).wf(),
{
    lemma_pin_all_wf(DockView::empty(), favorites);
    lemma_open_windows_wf(DockView::empty().pin_all(favorites), snapshot);
}

/// What the filter of the opened windows holds: the windows of the snapshot
/// whose address the registry lacks. And what the filter of the closed
/// addresses holds: the addresses of the registry that the snapshot lacks.
pub proof fn lemma_diff_members(old: Seq<ClientView>, new: Seq<ClientView>)
    ensures
        forall|c: ClientView|
            (#[trigger] opened_windows(old, new).contains(c)) ==> new.contains(c) && !addresses(
                old,
            ).contains(c.address),
        forall|c: ClientView|
            (#[trigger] new.contains(c)) && !addresses(old).contains(c.address) ==> opened_windows(
                old,
                new,
            ).contains(c),
        forall|a: Seq<char>|
            (#[trigger] closed_addresses(old, new).contains(a)) ==> addresses(old).contains(a)
                && !addresses(new).contains(a),
        forall|a: Seq<char>|
            (#[trigger] addresses(old).contains(a)) && !addresses(new).contains(a)
                ==> closed_addresses(old, new).contains(a),
{
    let fresh = is_new_window(addresses(old));
    let gone = is_gone(addresses(new));
    assert forall|c: ClientView|
        opened_windows(old, new).contains(c) <==> new.contains(c) && !addresses(old).contains(
            c.address,
        ) by {
        if new.filter(fresh).contains(c) {
            new.lemma_filter_contains_rev(fresh, c);
            let i = choose|i: int| 0 <= i < new.filter(fresh).len() && new.filter(fresh)[i] == c;
            new.lemma_filter_pred(fresh, i);
        }
        if new.contains(c) && fresh(c) {
            let i = choose|i: int| 0 <= i < new.len() && new[i] == c;
            new.lemma_filter_contains(fresh, i);
        }
    }
    let olds = addresses(old);
    assert forall|a: Seq<char>|
        closed_addresses(old, new).contains(a) <==> olds.contains(a) && !addresses(new).contains(
            a,
        ) by {
        if olds.filter(gone).contains(a) {
            olds.lemma_filter_contains_rev(gone, a);
            let i = choose|i: int| 0 <= i < olds.filter(gone).len() && olds.filter(gone)[i] == a;
            olds.lemma_filter_pred(gone, i);
        }
        if olds.contains(a) && gone(a) {
            let i = choose|i: int| 0 <= i < olds.len() && olds[i] == a;
            olds.lemma_filter_contains(gone, i);
        }
    }
}

/// A window that closes leaves the registry, and no other window does.
pub proof fn lemma_close_window_registry(s: DockView, address: Seq<char>)
    requires
        addresses(s.clients).no_duplicates(),
    ensures
        addresses(s.close_window(address).clients).no_duplicates(),
        forall|a: Seq<char>|
            s.close_window(address).has_window(a) <==> s.has_window(a) && a != address,
{
    let t = s.close_window(address);
    let i = first_position(addresses(s.clients), address);
    lemma_first_position(addresses(s.clients), address);
    if i < s.clients.len() {
        assert(addresses(t.clients) =~= addresses(s.clients).remove(i));
        assert forall|a: Seq<char>| t.has_window(a) <==> s.has_window(a) && a != address by {
            if t.has_window(a) {
                let j = choose|j: int|
                    0 <= j < addresses(t.clients).len() && addresses(t.clients)[j] == a;
                let j0 = if j < i { j } else { j + 1 };
                assert(addresses(s.clients)[j0] == a);
            }
            if s.has_window(a) && a != address {
                let j = choose|j: int|
                    0 <= j < addresses(s.clients).len() && addresses(s.clients)[j] == a;
                let j2 = if j < i { j } else { j - 1 };
                assert(addresses(t.clients)[j2] == a);
            }
        }
    }
}

/// A window that opens joins the registry, and no other window does.
pub proof fn lemma_open_window_registry(s: DockView, c: ClientView)
    requires
        addresses(s.clients).no_duplicates(),
    ensures
        addresses(s.open_window(c).clients).no_duplicates(),
        forall|a: Seq<char>| s.open_window(c).has_window(a) <==> s.has_window(a) || a == c.address,
{
    let t = s.open_window(c);
    if !s.has_window(c.address) {
        let n = s.clients.len() as int;
        assert(addresses(t.clients) =~= addresses(s.clients).push(c.address));
        assert forall|a: Seq<char>| t.has_window(a) <==> s.has_window(a) || a == c.address by {
            if s.has_window(a) {
                let j = choose|j: int|
                    0 <= j < addresses(s.clients).len() && addresses(s.clients)[j] == a;
                assert(addresses(t.clients)[j] == a);
            }
            if a == c.address {
                assert(addresses(t.clients)[n] == a);
            }
        }
    }
}

/// After these windows have closed the registry holds the windows it held,
/// but for them.
pub proof fn lemma_close_windows_registry(s: DockView, closed: Seq<Seq<char>>)
    requires
        addresses(s.clients).no_duplicates(),
    ensures
        addresses(s.close_windows(closed).clients).no_duplicates(),
        forall|a: Seq<char>|
            s.close_windows(closed).has_window(a) <==> s.has_window(a) && !closed.contains(a),
    decreases closed.len(),
{
    if closed.len() > 0 {
        let front = closed.drop_last();
        lemma_close_windows_registry(s, front);
        lemma_close_window_registry(s.close_windows(front), closed.last());
        assert forall|a: Seq<char>|
            s.close_windows(closed).has_window(a) <==> s.has_window(a) && !closed.contains(a) by {
            let mid = s.close_windows(front);
            assert(mid.has_window(a) <==> s.has_window(a) && !front.contains(a));
            assert(mid.close_window(closed.last()).has_window(a) <==> mid.has_window(a) && a
                != closed.last());
            if closed.contains(a) {
                let i = choose|i: int| 0 <= i < closed.len() && closed[i] == a;
                if i < front.len() {
                    assert(front[i] == a);
                }
            }
            if front.contains(a) {
                let i = choose|i: int| 0 <= i < front.len() && front[i] == a;
                assert(closed[i] == a);
            }
            if a == closed.last() {
                assert(closed[closed.len() - 1] == a);
            }
        }
    }
}

/// After these windows have opened the registry holds the windows it held,
/// and them.
pub proof fn lemma_open_windows_registry(s: DockView, opened: Seq<ClientView>)
    requires
        addresses(s.clients).no_duplicates(),
    ensures
        addresses(s.open_windows(opened).clients).no_duplicates(),
        forall|a: Seq<char>|
            s.open_windows(opened).has_window(a) <==> s.has_window(a) || addresses(
                opened,
            ).contains(a),
    decreases opened.len(),
{
    if opened.len() > 0 {
        let front = opened.drop_last();
        lemma_open_windows_registry(s, front);
        lemma_open_window_registry(s.open_windows(front), opened.last());
        assert forall|a: Seq<char>|
            s.open_windows(opened).has_window(a) <==> s.has_window(a) || addresses(
                opened,
            ).contains(a) by {
            let mid = s.open_windows(front);
            assert(mid.has_window(a) <==> s.has_window(a) || addresses(front).contains(a));
            assert(mid.open_window(opened.last()).has_window(a) <==> mid.has_window(a) || a
                == opened.last().address);
            if addresses(opened).contains(a) {
                let i = choose|i: int| 0 <= i < addresses(opened).len() && addresses(opened)[i] == a;
                if i < front.len() {
                    assert(addresses(front)[i] == a);
                }
            }
            if addresses(front).contains(a) {
                let i = choose|i: int| 0 <= i < addresses(front).len() && addresses(front)[i] == a;
                assert(addresses(opened)[i] == a);
            }
            if a == opened.last().address {
                assert(addresses(opened)[opened.len() - 1] == a);
            }
        }
    }
}

/// A dock brought in step with a snapshot holds the windows of the
/// snapshot and no others.
pub proof fn lemma_sync_mirrors_snapshot(s: DockView, snapshot: Seq<ClientView>)
    requires
        addresses(s.clients).no_duplicates(),
    ensures
        forall|a: Seq<char>| s.sync(snapshot).has_window(a) <==> addresses(snapshot).contains(a),
{
    let closed = closed_addresses(s.clients, snapshot);
    let opened = opened_windows(s.clients, snapshot);
    let mid = s.close_windows(closed);
    lemma_diff_members(s.clients, snapshot);
    lemma_close_windows_registry(s, closed);
    lemma_open_windows_registry(mid, opened);
    assert forall|a: Seq<char>|
        s.sync(snapshot).has_window(a) <==> addresses(snapshot).contains(a) by {
        assert(mid.has_window(a) <==> s.has_window(a) && !closed.contains(a));
        assert(mid.open_windows(opened).has_window(a) <==> mid.has_window(a) || addresses(
            opened,
        ).contains(a));
        assert(closed.contains(a) <==> s.has_window(a) && !addresses(snapshot).contains(a)) by {
            if closed.contains(a) {
                assert(closed_addresses(s.clients, snapshot).contains(a));
            }
            if s.has_window(a) && !addresses(snapshot).contains(a) {
                assert(addresses(s.clients).contains(a) && !addresses(snapshot).contains(a));
            }
        }
        if addresses(opened).contains(a) {
            let i = choose|i: int| 0 <= i < addresses(opened).len() && addresses(opened)[i] == a;
            let c = opened[i];
            assert(opened_windows(s.clients, snapshot).contains(c));
            assert(snapshot.contains(c));
            let j = choose|j: int| 0 <= j < snapshot.len() && snapshot[j] == c;
            assert(addresses(snapshot)[j] == a);
            assert(!s.has_window(a));
        }
        if addresses(snapshot).contains(a) && !s.has_window(a) {
            let j = choose|j: int|
                0 <= j < addresses(snapshot).len() && addresses(snapshot)[j] == a;
            let c = snapshot[j];
            assert(snapshot.contains(c) && !addresses(s.clients).contains(c.address));
            assert(opened_windows(s.clients, snapshot).contains(c));
            let i = choose|i: int| 0 <= i < opened.len() && opened[i] == c;
            assert(addresses(opened)[i] == a);
        }
    }
}

impl ClientList {
    /// The windows that the registry holds at the moment.
    pub fn snapshot(&self) -> (windows: Vec<Client>)
        ensures
            client_views(windows@) == self@,
    {
        clone_clients(&self.0)
    }

    /// Compares the registry with a snapshot: the windows that have opened
    /// and the addresses that have closed.
    pub fn diff(&self, snapshot: &Vec<Client>) -> (r: (Vec<Client>, Vec<String>))
        ensures
            client_views(r.0@) == opened_windows(self@, client_views(snapshot@)),
            text_views(r.1@) == closed_addresses(self@, client_views(snapshot@)),
    {
        let ghost new = client_views(snapshot@);
        let ghost fresh = is_new_window(addresses(self@));
        let ghost gone = is_gone(addresses(new));
        let mut opened: Vec<Client> = Vec::new();
        let mut i: usize = 0;
        proof {
            reveal(Seq::filter);
            assert(new.take(0) =~= Seq::empty());
            assert(client_views(opened@) =~= new.take(0).filter(fresh));
        }
        while i < snapshot.len()
            invariant
                i <= snapshot.len(),
                new == client_views(snapshot@),
                fresh == is_new_window(addresses(self@)),
                client_views(opened@) == new.take(i as int).filter(fresh),
            decreases snapshot.len() - i,
        {
            let ghost before = client_views(opened@);
            if self.position(snapshot[i].address.as_str()) >= self.0.len() {
                opened.push(snapshot[i].clone());
                assert(client_views(opened@) =~= before.push(new[i as int]));
            }
            proof {
                reveal(Seq::filter);
                assert(new.take(i + 1).drop_last() =~= new.take(i as int));
                assert(new.take(i + 1).last() == new[i as int]);
            }
            i += 1;
        }
        assert(new.take(i as int) =~= new);
        let current = ClientList(clone_clients(snapshot));
        let mut closed: Vec<String> = Vec::new();
        let ghost old = addresses(self@);
        let mut k: usize = 0;
        proof {
            reveal(Seq::filter);
            assert(old.take(0) =~= Seq::empty());
            assert(text_views(closed@) =~= old.take(0).filter(gone));
        }
        while k < self.0.len()
            invariant
                k <= self.0.len(),
                old == addresses(self@),
                current@ == new,
                gone == is_gone(addresses(new)),
                text_views(closed@) == old.take(k as int).filter(gone),
            decreases self.0.len() - k,
        {
            let ghost before = text_views(closed@);
            if current.position(self.0[k].address.as_str()) >= current.0.len() {
                closed.push(self.0[k].address.clone());
                assert(text_views(closed@) =~= before.push(old[k as int]));
            }
            proof {
                reveal(Seq::filter);
                assert(old.take(k + 1).drop_last() =~= old.take(k as int));
                assert(old.take(k + 1).last() == old[k as int]);
            }
            k += 1;
        }
        assert(old.take(k as int) =~= old);
        (opened, closed)
    }
}

/// A copy of a list of windows.
pub fn clone_clients(clients: &Vec<Client>) -> (copy: Vec<Client>)
    ensures
        client_views(copy@) == client_views(clients@),
{
    let mut copy: Vec<Client> = Vec::new();
    let mut i: usize = 0;
    while i < clients.len()
        invariant
            i <= clients.len(),
            copy@.len() == i,
            forall|j: int| 0 <= j < i ==> copy@[j]@ == clients@[j]@,
        decreases clients.len() - i,
    {
        copy.push(clients[i].clone());
        i += 1;
    }
    assert(client_views(copy@) =~= client_views(clients@));
    copy
}

impl Dock {
    /// Takes the windows that have closed out of the dock, first to last.
    pub fn process_closed_windows(&mut self, closed: &Vec<String>) -> (changes: Vec<Change>)
        ensures
            final(self)@ == old(self)@.close_windows(text_views(closed@)),
            changes@.len() == closed@.len(),
            forall|i: int|
                0 <= i < closed@.len() ==> changes@[i] == old(self)@.close_windows(
                    text_views(closed@).take(i),
                ).close_change(#[trigger] text_views(closed@)[i]),
            old(self)@.wf() ==> final(self)@.wf(),
    {
        let ghost before = self@;
        let ghost all = text_views(closed@);
        let mut changes: Vec<Change> = Vec::new();
        let mut i: usize = 0;
        assert(all.take(0) =~= Seq::empty());
        while i < closed.len()
            invariant
                i <= closed.len(),
                all == text_views(closed@),
                self@ == before.close_windows(all.take(i as int)),
                changes@.len() == i,
                forall|j: int|
                    0 <= j < i ==> changes@[j] == before.close_windows(all.take(j)).close_change(
                        #[trigger] all[j],
                    ),
                before.wf() ==> self@.wf(),
            decreases closed.len() - i,
        {
            let change = self.close_window(closed[i].as_str());
            changes.push(change);
            assert(all.take(i + 1).drop_last() =~= all.take(i as int));
            assert(all.take(i + 1).last() == all[i as int]);
            i += 1;
        }
        assert(all.take(i as int) =~= all);
        changes
    }

    /// Takes the windows that have opened into the dock, first to last.
    pub fn process_new_windows(&mut self, opened: &Vec<Client>) -> (changes: Vec<Change>)
        ensures
            final(self)@ == old(self)@.open_windows(client_views(opened@)),
            changes@.len() == opened@.len(),
            forall|i: int|
                0 <= i < opened@.len() ==> changes@[i] == old(self)@.open_windows(
                    client_views(opened@).take(i),
                ).open_change(#[trigger] client_views(opened@)[i]),
            old(self)@.wf() ==> final(self)@.wf(),
    {
        let ghost before = self@;
        let ghost all = client_views(opened@);
        let mut changes: Vec<Change> = Vec::new();
        let mut i: usize = 0;
        assert(all.take(0) =~= Seq::empty());
        while i < opened.len()
            invariant
                i <= opened.len(),
                all == client_views(opened@),
                self@ == before.open_windows(all.take(i as int)),
                changes@.len() == i,
                forall|j: int|
                    0 <= j < i ==> changes@[j] == before.open_windows(all.take(j)).open_change(
                        #[trigger] all[j],
                    ),
                before.wf() ==> self@.wf(),
            decreases opened.len() - i,
        {
            let change = self.open_window(opened[i].clone());
            changes.push(change);
            assert(all.take(i + 1).drop_last() =~= all.take(i as int));
            assert(all.take(i + 1).last() == all[i as int]);
            i += 1;
        }
        assert(all.take(i as int) =~= all);
        changes
    }

    /// Brings the dock in step with a snapshot of the window manager. The
    /// result holds the windows that closed with what each did to the order,
    /// and the windows that opened with what each did.
    pub fn update_client_list(&mut self, snapshot: &Vec<Client>) -> (r: (
        Vec<String>,
        Vec<Change>,
        Vec<Client>,
        Vec<Change>,
    ))
        ensures
            final(self)@ == old(self)@.sync(client_views(snapshot@)),
            text_views(r.0@) == closed_addresses(old(self)@.clients, client_views(snapshot@)),
            client_views(r.2@) == opened_windows(old(self)@.clients, client_views(snapshot@)),
            r.1@.len() == r.0@.len(),
            r.3@.len() == r.2@.len(),
            forall|i: int|
                0 <= i < r.0@.len() ==> r.1@[i] == old(self)@.close_windows(
                    text_views(r.0@).take(i),
                ).close_change(#[trigger] text_views(r.0@)[i]),
            forall|i: int|
                0 <= i < r.2@.len() ==> r.3@[i] == old(self)@.close_windows(
                    text_views(r.0@),
                ).open_windows(client_views(r.2@).take(i)).open_change(
                    #[trigger] client_views(r.2@)[i],
                ),
            old(self)@.wf() ==> final(self)@.wf(),
    {
        let (opened, closed) = self.clients.diff(snapshot);
        let closed_changes = self.process_closed_windows(&closed);
        let opened_changes = self.process_new_windows(&opened);
        (closed, closed_changes, opened, opened_changes)
    }

    /// The dock at the start of a session, from the stored favourites and a
    /// first snapshot of the window manager.
    pub fn new(favorites: &Vec<String>, snapshot: &Vec<Client>) -> (dock: Dock)
        ensures
            dock@ == DockView::initial(text_views(favorites@), client_views(snapshot@)),
            dock@.wf(),
    {
        let ghost favs = text_views(favorites@);
        let mut dock = Dock::empty();
        let mut i: usize = 0;
        assert(favs.take(0) =~= Seq::empty());
        while i < favorites.len()
            invariant
                i <= favorites.len(),
                favs == text_views(favorites@),
                dock@ == DockView::empty().pin_all(favs.take(i as int)),
            decreases favorites.len() - i,
        {
            if !dock.favorites.contains(favorites[i].as_str()) {
                let _ = dock.toggle_favorite(favorites[i].as_str());
            }
            assert(favs.take(i + 1).drop_last() =~= favs.take(i as int));
            assert(favs.take(i + 1).last() == favs[i as int]);
            i += 1;
        }
        assert(favs.take(i as int) =~= favs);
        let _ = dock.process_new_windows(snapshot);
        dock.reorder_trigger.0 = false;
        proof {
            lemma_initial_wf(favs, client_views(snapshot@));
        }
        dock
    }
}

} // verus!
