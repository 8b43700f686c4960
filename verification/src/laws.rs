//! What holds of every well-formed dock: how many slots it has, that a pin
//! can be switched without moving a running window, and that a window takes
//! the slot that was kept for it.

use vstd::prelude::*;
use crate::model::DockView;
use crate::seqs::{first_position, lemma_first_position, lemma_first_position_no_duplicates};
use crate::types::{addresses, classes, ClientView, KeyView};

verus! {

/// The addresses of the running keys of an order, in the order's sequence.
pub open spec fn running_addresses(order: Seq<KeyView>) -> Seq<Seq<char>>
    decreases order.len(),
{
    if order.len() == 0 {
        Seq::empty()
    } else {
        let rest = running_addresses(order.drop_last());
        match order.last() {
            KeyView::Running(a) => rest.push(a),
            KeyView::Pinned(_) => rest,
        }
    }
}

/// The classes of the placeholders of an order, in the order's sequence.
pub open spec fn placeholder_classes(order: Seq<KeyView>) -> Seq<Seq<char>>
    decreases order.len(),
{
    if order.len() == 0 {
        Seq::empty()
    } else {
        let rest = placeholder_classes(order.drop_last());
        match order.last() {
            KeyView::Running(_) => rest,
            KeyView::Pinned(c) => rest.push(c),
        }
    }
}

/// The classes of the windows whose class is pinned, one for each such
/// window, in the registry's sequence.
pub open spec fn favorite_window_classes(
    clients: Seq<ClientView>,
    favorites: Seq<Seq<char>>,
) -> Seq<Seq<char>>
    decreases clients.len(),
{
    if clients.len() == 0 {
        Seq::empty()
    } else {
        let rest = favorite_window_classes(clients.drop_last(), favorites);
        if favorites.contains(clients.last().class) {
            rest.push(clients.last().class)
        } else {
            rest
        }
    }
}

/// The number of windows whose class is not pinned.
pub open spec fn running_non_favorite_count(clients: Seq<ClientView>, favorites: Seq<Seq<char>>) -> nat
    decreases clients.len(),
{
    if clients.len() == 0 {
        0
    } else {
        running_non_favorite_count(clients.drop_last(), favorites) + if favorites.contains(
            clients.last().class,
        ) {
            0nat
        } else {
            1nat
        }
    }
}

impl DockView {
    /// The number of placeholders in the order.
    pub open spec fn placeholder_count(self) -> nat {
        placeholder_classes(self.order).len()
    }

    /// Whether every favourite stands in the dock once: no placeholder has a
    /// running window of its class beside it, and no two windows share a
    /// pinned class.
    pub open spec fn each_favorite_once(self) -> bool {
        self.placeholders_stand_alone() && self.one_window_per_favorite()
    }

    /// Whether no placeholder has a running window of its class beside it.
    pub open spec fn placeholders_stand_alone(self) -> bool {
        forall|k: int|
            0 <= k < self.order.len() && (#[trigger] self.order[k]) is Pinned ==> !self.class_running(
                self.order[k]->Pinned_0,
            )
    }

    /// Whether every pinned class has one running window at most.
    pub open spec fn one_window_per_favorite(self) -> bool {
        forall|i: int, j: int|
            0 <= i < j < self.clients.len() && (#[trigger] self.clients[i]).class
                == (#[trigger] self.clients[j]).class ==> !self.favorites.contains(
                self.clients[i].class,
            )
    }

    /// Whether the dock has one slot for every window of a class that is
    /// not pinned and one for every favourite, and no others.
    pub open spec fn has_slot_per_entry(self) -> bool {
        self.order.len() == running_non_favorite_count(self.clients, self.favorites)
            + self.favorites.len()
    }
}

/// Two sequences without duplicates that hold the same elements have the
/// same length.
pub proof fn lemma_same_elements_same_length<A>(x: Seq<A>, y: Seq<A>)
    requires
        x.no_duplicates(),
        y.no_duplicates(),
        forall|a: A| x.contains(a) <==> y.contains(a),
    ensures
        x.len() == y.len(),
{
    assert(x.to_set() =~= y.to_set());
    x.unique_seq_to_set();
    y.unique_seq_to_set();
}

/// The running keys and the placeholders of an order are all its keys; each
/// list holds what the order holds of its kind, and holds nothing twice
/// where the order holds nothing twice.
pub proof fn lemma_order_parts(order: Seq<KeyView>)
    ensures
        running_addresses(order).len() + placeholder_classes(order).len() == order.len(),
        forall|a: Seq<char>|
            running_addresses(order).contains(a) <==> order.contains(KeyView::Running(a)),
        forall|c: Seq<char>|
            placeholder_classes(order).contains(c) <==> order.contains(KeyView::Pinned(c)),
        order.no_duplicates() ==> running_addresses(order).no_duplicates() && placeholder_classes(
            order,
        ).no_duplicates(),
    decreases order.len(),
{
    if order.len() > 0 {
        let front = order.drop_last();
        let last = order.last();
        let n = front.len() as int;
        lemma_order_parts(front);
        let ra = running_addresses(order);
        let pc = placeholder_classes(order);
        let ra0 = running_addresses(front);
        let pc0 = placeholder_classes(front);
        assert forall|key: KeyView| order.contains(key) <==> front.contains(key) || key == last by {
            if order.contains(key) {
                let i = choose|i: int| 0 <= i < order.len() && order[i] == key;
                if i < n {
                    assert(front[i] == key);
                }
            }
            if front.contains(key) {
                let i = choose|i: int| 0 <= i < front.len() && front[i] == key;
                assert(order[i] == key);
            }
            if key == last {
                assert(order[n] == key);
            }
        }
        assert forall|a: Seq<char>| ra.contains(a) <==> order.contains(KeyView::Running(a)) by {
            match last {
                KeyView::Running(b) => {
                    if ra.contains(a) {
                        let i = choose|i: int| 0 <= i < ra.len() && ra[i] == a;
                        if i < ra0.len() {
                            assert(ra0[i] == a);
                        }
                    }
                    if ra0.contains(a) {
                        let i = choose|i: int| 0 <= i < ra0.len() && ra0[i] == a;
                        assert(ra[i] == a);
                    }
                    if a == b {
                        assert(ra[ra0.len() as int] == a);
                    }
                },
                KeyView::Pinned(_) => {},
            }
        }
        assert forall|c: Seq<char>| pc.contains(c) <==> order.contains(KeyView::Pinned(c)) by {
            match last {
                KeyView::Pinned(b) => {
                    if pc.contains(c) {
                        let i = choose|i: int| 0 <= i < pc.len() && pc[i] == c;
                        if i < pc0.len() {
                            assert(pc0[i] == c);
                        }
                    }
                    if pc0.contains(c) {
                        let i = choose|i: int| 0 <= i < pc0.len() && pc0[i] == c;
                        assert(pc[i] == c);
                    }
                    if c == b {
                        assert(pc[pc0.len() as int] == c);
                    }
                },
                KeyView::Running(_) => {},
            }
        }
        if order.no_duplicates() {
            assert(front.no_duplicates());
            assert(!front.contains(last)) by {
                if front.contains(last) {
                    let i = choose|i: int| 0 <= i < front.len() && front[i] == last;
                    assert(order[i] == order[n]);
                }
            }
            match last {
                KeyView::Running(b) => {
                    assert(!ra0.contains(b));
                    assert forall|i: int, j: int|
                        0 <= i < ra.len() && 0 <= j < ra.len() && i != j implies ra[i] != ra[j] by {
                        if i < ra0.len() {
                            assert(ra0.contains(ra0[i]));
                        }
                        if j < ra0.len() {
                            assert(ra0.contains(ra0[j]));
                        }
                    }
                },
                KeyView::Pinned(b) => {
                    assert(!pc0.contains(b));
                    assert forall|i: int, j: int|
                        0 <= i < pc.len() && 0 <= j < pc.len() && i != j implies pc[i] != pc[j] by {
                        if i < pc0.len() {
                            assert(pc0.contains(pc0[i]));
                        }
                        if j < pc0.len() {
                            assert(pc0.contains(pc0[j]));
                        }
                    }
                },
            }
        }
    }
}

/// The windows whose class is pinned and the windows whose class is not are
/// all the windows; the list of the former holds the classes that are
/// pinned and running.
pub proof fn lemma_client_parts(clients: Seq<ClientView>, favorites: Seq<Seq<char>>)
    ensures
        favorite_window_classes(clients, favorites).len() + running_non_favorite_count(
            clients,
            favorites,
        ) == clients.len(),
        forall|c: Seq<char>|
            favorite_window_classes(clients, favorites).contains(c) <==> favorites.contains(c)
                && classes(clients).contains(c),
    decreases clients.len(),
{
    if clients.len() > 0 {
        let front = clients.drop_last();
        let last = clients.last();
        let n = front.len() as int;
        lemma_client_parts(front, favorites);
        let fc = favorite_window_classes(clients, favorites);
        let fc0 = favorite_window_classes(front, favorites);
        assert(classes(front) =~= classes(clients).drop_last());
        assert forall|c: Seq<char>|
            classes(clients).contains(c) <==> classes(front).contains(c) || c == last.class by {
            if classes(clients).contains(c) {
                let i = choose|i: int| 0 <= i < classes(clients).len() && classes(clients)[i] == c;
                if i < n {
                    assert(classes(front)[i] == c);
                }
            }
            if classes(front).contains(c) {
                let i = choose|i: int| 0 <= i < classes(front).len() && classes(front)[i] == c;
                assert(classes(clients)[i] == c);
            }
            if c == last.class {
                assert(classes(clients)[n] == c);
            }
        }
        assert forall|c: Seq<char>|
            fc.contains(c) <==> favorites.contains(c) && classes(clients).contains(c) by {
            assert(fc0.contains(c) <==> favorites.contains(c) && classes(front).contains(c));
            assert(classes(clients).contains(c) <==> classes(front).contains(c) || c
                == last.class);
            if favorites.contains(last.class) {
                assert(fc == fc0.push(last.class));
                if fc.contains(c) {
                    let i = choose|i: int| 0 <= i < fc.len() && fc[i] == c;
                    if i < fc0.len() {
                        assert(fc0[i] == c);
                    }
                }
                if fc0.contains(c) {
                    let i = choose|i: int| 0 <= i < fc0.len() && fc0[i] == c;
                    assert(fc[i] == c);
                }
                if c == last.class {
                    assert(fc[fc0.len() as int] == c);
                }
            }
        }
    }
}

/// Where no two windows share a pinned class, the list of the pinned
/// classes that are running holds no class twice.
pub proof fn lemma_favorite_windows_distinct(clients: Seq<ClientView>, favorites: Seq<Seq<char>>)
    requires
        forall|i: int, j: int|
            0 <= i < j < clients.len() && (#[trigger] clients[i]).class == (
            #[trigger] clients[j]).class ==> !favorites.contains(clients[i].class),
    ensures
        favorite_window_classes(clients, favorites).no_duplicates(),
    decreases clients.len(),
{
    if clients.len() > 0 {
        let front = clients.drop_last();
        let last = clients.last();
        let n = front.len() as int;
        assert forall|i: int, j: int|
            0 <= i < j < front.len() && (#[trigger] front[i]).class == (
            #[trigger] front[j]).class implies !favorites.contains(front[i].class) by {
            assert(clients[i] == front[i] && clients[j] == front[j]);
        }
        lemma_favorite_windows_distinct(front, favorites);
        lemma_client_parts(front, favorites);
        let fc0 = favorite_window_classes(front, favorites);
        if favorites.contains(last.class) {
            assert(!fc0.contains(last.class)) by {
                if fc0.contains(last.class) {
                    assert(classes(front).contains(last.class));
                    let i = choose|i: int|
                        0 <= i < classes(front).len() && classes(front)[i] == last.class;
                    assert(clients[i].class == clients[n].class);
                }
            }
        }
    }
}

/// A well-formed dock has one slot for every window and one for every
/// placeholder, and no others.
pub proof fn lemma_order_length(s: DockView)
    requires
        s.wf(),
    ensures
        s.order.no_duplicates(),
        s.order.len() == s.clients.len() + s.placeholder_count(),
{
    lemma_order_parts(s.order);
    let ra = running_addresses(s.order);
    assert forall|a: Seq<char>| ra.contains(a) <==> addresses(s.clients).contains(a) by {
        if ra.contains(a) {
            let key = KeyView::Running(a);
            let k = choose|k: int| 0 <= k < s.order.len() && s.order[k] == key;
            assert(s.order[k] is Running);
        }
        if addresses(s.clients).contains(a) {
            let i = choose|i: int|
                0 <= i < addresses(s.clients).len() && addresses(s.clients)[i] == a;
            assert(s.clients[i].address == a);
        }
    }
    lemma_same_elements_same_length(ra, addresses(s.clients));
}

/// A well-formed dock in which every favourite stands once has as many
/// slots as there are windows of classes that are not pinned, and
/// favourites.
pub proof fn lemma_order_length_by_favorites(s: DockView)
    requires
        s.wf(),
        s.each_favorite_once(),
    ensures
        s.order.len() == running_non_favorite_count(s.clients, s.favorites) + s.favorites.len(),
{
    lemma_order_length(s);
    lemma_order_parts(s.order);
    lemma_client_parts(s.clients, s.favorites);
    lemma_favorite_windows_distinct(s.clients, s.favorites);
    let pc = placeholder_classes(s.order);
    let fc = favorite_window_classes(s.clients, s.favorites);
    let both = pc + fc;
    assert forall|i: int, j: int| 0 <= i < pc.len() && 0 <= j < fc.len() implies pc[i] != fc[j] by {
        if pc[i] == fc[j] {
            let c = pc[i];
            assert(pc.contains(c));
            assert(fc.contains(c));
            let k = choose|k: int| 0 <= k < s.order.len() && s.order[k] == KeyView::Pinned(c);
            assert(s.order[k] is Pinned);
        }
    }
    vstd::seq_lib::lemma_no_dup_in_concat(pc, fc);
    assert forall|c: Seq<char>| both.contains(c) <==> s.favorites.contains(c) by {
        if both.contains(c) {
            let i = choose|i: int| 0 <= i < both.len() && both[i] == c;
            if i < pc.len() {
                assert(pc[i] == c);
                assert(pc.contains(c));
                let k = choose|k: int| 0 <= k < s.order.len() && s.order[k] == KeyView::Pinned(c);
                assert(s.order[k] is Pinned);
            } else {
                assert(fc[i - pc.len()] == c);
                assert(fc.contains(c));
            }
        }
        if s.favorites.contains(c) {
            let f = choose|f: int| 0 <= f < s.favorites.len() && s.favorites[f] == c;
            if s.class_running(c) {
                assert(fc.contains(c));
                let i = choose|i: int| 0 <= i < fc.len() && fc[i] == c;
                assert(both[pc.len() + i] == c);
            } else {
                assert(s.order.contains(KeyView::Pinned(s.favorites[f])));
                assert(pc.contains(c));
                let i = choose|i: int| 0 <= i < pc.len() && pc[i] == c;
                assert(both[i] == c);
            }
        }
    }
    lemma_same_elements_same_length(both, s.favorites);
}

/// In a well-formed dock with one slot for every entry, where every pinned
/// class has one window at most, no placeholder has a window of its class
/// beside it: a placeholder and a window of one favourite would be one slot
/// too many.
pub proof fn lemma_slot_per_entry_stands_alone(s: DockView)
    requires
        s.wf(),
        s.one_window_per_favorite(),
        s.has_slot_per_entry(),
    ensures
        s.placeholders_stand_alone(),
        s.each_favorite_once(),
{
    lemma_order_length(s);
    lemma_order_parts(s.order);
    lemma_client_parts(s.clients, s.favorites);
    lemma_favorite_windows_distinct(s.clients, s.favorites);
    let pc = placeholder_classes(s.order);
    let fc = favorite_window_classes(s.clients, s.favorites);
    let p = pc.to_set();
    let f = fc.to_set();
    let all = s.favorites.to_set();
    vstd::seq_lib::seq_to_set_is_finite(pc);
    vstd::seq_lib::seq_to_set_is_finite(fc);
    vstd::seq_lib::seq_to_set_is_finite(s.favorites);
    pc.unique_seq_to_set();
    fc.unique_seq_to_set();
    s.favorites.unique_seq_to_set();
    assert(p + f =~= all) by {
        assert forall|c: Seq<char>| (p + f).contains(c) <==> all.contains(c) by {
            if pc.contains(c) {
                let k = choose|k: int| 0 <= k < s.order.len() && s.order[k] == KeyView::Pinned(c);
                assert(s.order[k] is Pinned);
            }
            if s.favorites.contains(c) && !s.class_running(c) {
                let g = choose|g: int| 0 <= g < s.favorites.len() && s.favorites[g] == c;
                assert(s.order.contains(KeyView::Pinned(s.favorites[g])));
            }
        }
    }
    vstd::set_lib::lemma_set_intersect_union_lens(p, f);
    assert(p.intersect(f).len() == 0);
    assert forall|k: int|
        0 <= k < s.order.len() && (#[trigger] s.order[k]) is Pinned implies !s.class_running(
        s.order[k]->Pinned_0,
    ) by {
        let c = s.order[k]->Pinned_0;
        if s.class_running(c) {
            assert(s.order.contains(KeyView::Pinned(c)));
            assert(pc.contains(c));
            assert(s.favorites.contains(c));
            assert(fc.contains(c));
            assert(p.intersect(f).contains(c));
            vstd::set::axiom_set_contains_len(p.intersect(f), c);
        }
    }
}

/// A window that opens leaves every placeholder alone: it takes the
/// placeholder of its own class, and is of no other placeholder's class.
pub proof fn lemma_open_keeps_placeholders_alone(s: DockView, c: ClientView)
    requires
        s.wf(),
        s.placeholders_stand_alone(),
    ensures
        s.open_window(c).placeholders_stand_alone(),
{
    let t = s.open_window(c);
    if !s.has_window(c.address) {
        let key = KeyView::Pinned(c.class);
        let p = first_position(s.order, key);
        lemma_first_position(s.order, key);
        assert(classes(t.clients) =~= classes(s.clients).push(c.class));
        assert forall|k: int|
            0 <= k < t.order.len() && (#[trigger] t.order[k]) is Pinned implies !t.class_running(
            t.order[k]->Pinned_0,
        ) by {
            let x = t.order[k]->Pinned_0;
            assert(k < s.order.len() && k != p);
            assert(s.order[k] == t.order[k]);
            assert(!s.class_running(x));
            if x == c.class {
                if p < s.order.len() {
                    assert(s.order[p] == s.order[k]);
                } else {
                    assert(s.order.contains(key));
                }
            }
            if t.class_running(x) {
                let j = choose|j: int|
                    0 <= j < classes(t.clients).len() && classes(t.clients)[j] == x;
                if j < s.clients.len() {
                    assert(classes(s.clients)[j] == x);
                }
            }
        }
    }
}

/// A window that closes leaves every placeholder alone, where every pinned
/// class had one window at most: the placeholder it turns into is that of a
/// class without another window.
pub proof fn lemma_close_keeps_placeholders_alone(s: DockView, address: Seq<char>)
    requires
        s.wf(),
        s.each_favorite_once(),
    ensures
        s.close_window(address).placeholders_stand_alone(),
        s.close_window(address).one_window_per_favorite(),
{
    let t = s.close_window(address);
    let i = first_position(addresses(s.clients), address);
    lemma_first_position(addresses(s.clients), address);
    if i < s.clients.len() {
        let class = s.clients[i].class;
        let running = KeyView::Running(address);
        let k0 = first_position(s.order, running);
        lemma_first_position(s.order, running);
        assert(classes(t.clients) =~= classes(s.clients).remove(i));
        // A class that runs after the window has closed ran before, in
        // another window.
        assert forall|x: Seq<char>| t.class_running(x) implies exists|j: int|
            0 <= j < s.clients.len() && j != i && (#[trigger] s.clients[j]).class == x by {
            let j = choose|j: int| 0 <= j < classes(t.clients).len() && classes(t.clients)[j] == x;
            let j0 = if j < i { j } else { j + 1 };
            assert(s.clients[j0].class == x);
        }
        assert forall|a: int, b: int|
            0 <= a < b < t.clients.len() && (#[trigger] t.clients[a]).class == (
            #[trigger] t.clients[b]).class implies !t.favorites.contains(t.clients[a].class) by {
            let a0 = if a < i { a } else { a + 1 };
            let b0 = if b < i { b } else { b + 1 };
            assert(t.clients[a] == s.clients[a0] && t.clients[b] == s.clients[b0]);
        }
        assert forall|k: int|
            0 <= k < t.order.len() && (#[trigger] t.order[k]) is Pinned implies !t.class_running(
            t.order[k]->Pinned_0,
        ) by {
            let x = t.order[k]->Pinned_0;
            if t.class_running(x) {
                let j = choose|j: int|
                    0 <= j < s.clients.len() && j != i && (#[trigger] s.clients[j]).class == x;
                assert(classes(s.clients)[j] == x);
                assert(s.class_running(x));
                let demote = s.favorites.contains(class) && !s.order.contains(
                    KeyView::Pinned(class),
                );
                if k0 < s.order.len() && demote && k == k0 {
                    // The new placeholder: its class is pinned and had this
                    // one window.
                    assert(x == class);
                    if j < i {
                        assert(s.clients[j].class == s.clients[i].class);
                    } else {
                        assert(s.clients[i].class == s.clients[j].class);
                    }
                } else if k0 < s.order.len() && !demote {
                    let m = if k < k0 { k } else { k + 1 };
                    assert(s.order[m] == t.order[k]);
                } else {
                    assert(s.order[k] == t.order[k]);
                }
            }
        }
    }
}

/// Switching the pin of a class that has a window, and no placeholder
/// beside it, moves no slot.
pub proof fn lemma_toggle_keeps_order(s: DockView, class: Seq<char>)
    requires
        s.class_running(class),
        !s.order.contains(KeyView::Pinned(class)),
    ensures
        s.toggle_favorite(class).order == s.order,
        s.toggle_favorite(class).clients == s.clients,
{
    lemma_first_position(s.order, KeyView::Pinned(class));
}

/// Pinning the class of a running window, unpinning it and pinning it again
/// leaves every slot where it was: the window's slot among them.
pub proof fn lemma_pin_round_trip(s: DockView, class: Seq<char>, address: Seq<char>)
    requires
        s.class_running(class),
        !s.order.contains(KeyView::Pinned(class)),
    ensures
        s.toggle_favorite(class).order == s.order,
        s.toggle_favorite(class).toggle_favorite(class).order == s.order,
        s.toggle_favorite(class).toggle_favorite(class).toggle_favorite(class).order == s.order,
        first_position(
            s.toggle_favorite(class).toggle_favorite(class).toggle_favorite(class).order,
            KeyView::Running(address),
        ) == first_position(s.order, KeyView::Running(address)),
{
    lemma_toggle_keeps_order(s, class);
    let a = s.toggle_favorite(class);
    lemma_toggle_keeps_order(a, class);
    let b = a.toggle_favorite(class);
    lemma_toggle_keeps_order(b, class);
}

/// A window that opens where its class has a placeholder takes the
/// placeholder's slot: the order keeps its length, the slot holds the window,
/// and every other slot holds what it held.
pub proof fn lemma_open_takes_placeholder(s: DockView, c: ClientView, i: int)
    requires
        s.wf(),
        !s.has_window(c.address),
        0 <= i < s.order.len(),
        s.order[i] == KeyView::Pinned(c.class),
    ensures
        s.open_window(c).order.len() == s.order.len(),
        s.open_window(c).order[i] == KeyView::Running(c.address),
        forall|j: int| 0 <= j < s.order.len() && j != i ==> s.open_window(c).order[j] == s.order[j],
        s.open_window(c).order == s.order.update(i, KeyView::Running(c.address)),
{
    lemma_first_position_no_duplicates(s.order, i);
}

/// A window that closes without being in the registry changes nothing.
pub proof fn lemma_close_unknown_window(s: DockView, address: Seq<char>)
    requires
        !s.has_window(address),
    ensures
        s.close_window(address) == s,
{
    lemma_first_position(addresses(s.clients), address);
}

} // verus!
