//! Reconciliation: the events of the window manager, applied to the dock one
//! by one in the order in which they arrived.

use vstd::prelude::*;
use crate::dock::{Change, Dock};
use crate::events::{EventView, HyprIpcEvent};
use crate::laws::{
    lemma_close_keeps_placeholders_alone, lemma_open_keeps_placeholders_alone,
    lemma_order_length, lemma_order_length_by_favorites, lemma_slot_per_entry_stands_alone,
    running_non_favorite_count,
};
use crate::model::{lemma_close_window_wf, lemma_open_window_wf, DockView};
use crate::types::{Client, ClientView};

verus! {

/// The window that an event of an opened window describes.
pub open spec fn opened_client(address: Seq<char>, class: Seq<char>, title: Seq<char>) -> ClientView {
    ClientView { class, address, name: Some(title) }
}

impl DockView {
    /// The dock after one event.
    pub open spec fn apply_event(self, e: EventView) -> DockView {
        match e {
            EventView::OpenWindow { address, workspace, class, title } => self.open_window(
                opened_client(address, class, title),
            ),
            EventView::CloseWindow { address } => self.close_window(address),
            EventView::Other(_) => self,
        }
    }

    /// What one event does to the order.
    pub open spec fn event_change(self, e: EventView) -> Change {
        match e {
            EventView::OpenWindow { address, workspace, class, title } => self.open_change(
                opened_client(address, class, title),
            ),
            EventView::CloseWindow { address } => self.close_change(address),
            EventView::Other(_) => Change::Unchanged,
        }
    }

    /// The dock after a sequence of events, applied first to last.
    pub open spec fn apply_events(self, events: Seq<EventView>) -> DockView
        decreases events.len(),
    {
        if events.len() == 0 {
            self
        } else {
            self.apply_events(events.drop_last()).apply_event(events.last())
        }
    }
}

/// One event keeps the invariant of the dock.
pub proof fn lemma_apply_event_wf(s: DockView, e: EventView)
    requires
        s.wf(),
    ensures
        s.apply_event(e).wf(),
{
    match e {
        EventView::OpenWindow { address, workspace, class, title } => {
            lemma_open_window_wf(s, opened_client(address, class, title));
        },
        EventView::CloseWindow { address } => {
            lemma_close_window_wf(s, address);
        },
        EventView::Other(_) => {},
    }
}

/// Whatever events arrive, in whatever order, the dock stays well formed
/// after each of them: in particular its order never holds a key twice.
pub proof fn lemma_apply_events_wf(s: DockView, events: Seq<EventView>)
    requires
        s.wf(),
    ensures
        s.apply_events(events).wf(),
        s.apply_events(events).order.no_duplicates(),
        forall|n: int| 0 <= n <= events.len() ==> (#[trigger] s.apply_events(events.take(n))).wf(),
    decreases events.len(),
{
    if events.len() > 0 {
        let front = events.drop_last();
        lemma_apply_events_wf(s, front);
        lemma_apply_event_wf(s.apply_events(front), events.last());
        assert forall|n: int| 0 <= n <= events.len() implies (#[trigger] s.apply_events(
            events.take(n),
        )).wf() by {
            if n < events.len() {
                assert(events.take(n) =~= front.take(n));
            } else {
                assert(events.take(n) =~= events);
            }
        }
    } else {
        assert forall|n: int| 0 <= n <= events.len() implies (#[trigger] s.apply_events(
            events.take(n),
        )).wf() by {
            assert(events.take(n) =~= events);
        }
    }
}

/// Whatever events arrive, the dock has one slot for every window and one
/// for every placeholder, and each key once.
pub proof fn lemma_apply_events_order_length(s: DockView, events: Seq<EventView>)
    requires
        s.wf(),
    ensures
        s.apply_events(events).order.no_duplicates(),
        s.apply_events(events).order.len() == s.apply_events(events).clients.len() + s.apply_events(
            events,
        ).placeholder_count(),
{
    lemma_apply_events_wf(s, events);
    lemma_order_length(s.apply_events(events));
}

/// One event keeps every favourite standing once, where every pinned class
/// has one window at most after the event too.
pub proof fn lemma_apply_event_each_favorite_once(s: DockView, e: EventView)
    requires
        s.wf(),
        s.each_favorite_once(),
        s.apply_event(e).one_window_per_favorite(),
    ensures
        s.apply_event(e).each_favorite_once(),
{
    match e {
        EventView::OpenWindow { address, workspace, class, title } => {
            lemma_open_keeps_placeholders_alone(s, opened_client(address, class, title));
        },
        EventView::CloseWindow { address } => {
            lemma_close_keeps_placeholders_alone(s, address);
        },
        EventView::Other(_) => {},
    }
}

/// A well-formed dock that has one slot for every window of a class that is
/// not pinned and one for every favourite keeps that number of slots after
/// every event of any queue, as long as no pinned class has two windows at
/// any time.
pub proof fn lemma_apply_events_slot_per_entry(s: DockView, events: Seq<EventView>)
    requires
        s.wf(),
        s.has_slot_per_entry(),
        forall|n: int|
            0 <= n <= events.len() ==> (#[trigger] s.apply_events(
                events.take(n),
            )).one_window_per_favorite(),
    ensures
        forall|n: int|
            0 <= n <= events.len() ==> (#[trigger] s.apply_events(
                events.take(n),
            )).has_slot_per_entry(),
        s.apply_events(events).has_slot_per_entry(),
        s.apply_events(events).order.len() == running_non_favorite_count(
            s.apply_events(events).clients,
            s.apply_events(events).favorites,
        ) + s.apply_events(events).favorites.len(),
        s.apply_events(events).each_favorite_once(),
    decreases events.len(),
{
    lemma_apply_events_wf(s, events);
    if events.len() == 0 {
        assert(events.take(0) =~= events);
        assert(s.apply_events(events.take(0)).one_window_per_favorite());
        lemma_slot_per_entry_stands_alone(s);
        assert forall|n: int| 0 <= n <= events.len() implies (#[trigger] s.apply_events(
            events.take(n),
        )).has_slot_per_entry() by {
            assert(events.take(n) =~= events);
        }
    } else {
        let front = events.drop_last();
        assert forall|n: int| 0 <= n <= front.len() implies (#[trigger] s.apply_events(
            front.take(n),
        )).one_window_per_favorite() by {
            assert(front.take(n) =~= events.take(n));
        }
        lemma_apply_events_slot_per_entry(s, front);
        lemma_apply_events_wf(s, front);
        let mid = s.apply_events(front);
        let t = s.apply_events(events);
        assert(events.take(events.len() as int) =~= events);
        assert(s.apply_events(events.take(events.len() as int)).one_window_per_favorite());
        lemma_apply_event_each_favorite_once(mid, events.last());
        lemma_order_length_by_favorites(t);
        assert forall|n: int| 0 <= n <= events.len() implies (#[trigger] s.apply_events(
            events.take(n),
        )).has_slot_per_entry() by {
            if n < events.len() {
                assert(events.take(n) =~= front.take(n));
            } else {
                assert(events.take(n) =~= events);
            }
        }
    }
}

/// The views of a sequence of events.
pub open spec fn event_views(events: Seq<HyprIpcEvent>) -> Seq<EventView> {
    events.map_values(|e: HyprIpcEvent| e@)
}

impl Dock {
    /// Applies one event to the dock.
    pub fn handle_event(&mut self, event: &HyprIpcEvent) -> (change: Change)
        ensures
            final(self)@ == old(self)@.apply_event(event@),
            change == old(self)@.event_change(event@),
            old(self)@.wf() ==> final(self)@.wf(),
    {
        match event {
            HyprIpcEvent::OpenWindow { address, workspace, class, title } => {
                let client = Client {
                    class: class.clone(),
                    address: address.clone(),
                    name: Some(title.clone()),
                };
                self.open_window(client)
            },
            HyprIpcEvent::CloseWindow { address } => self.close_window(address.as_str()),
            HyprIpcEvent::Other(_) => Change::Unchanged,
        }
    }

    /// Applies the events of one tick, first to last, and reports what each
    /// of them did.
    pub fn process_hyprland_events(&mut self, events: &Vec<HyprIpcEvent>) -> (changes: Vec<Change>)
        ensures
            final(self)@ == old(self)@.apply_events(event_views(events@)),
            changes@.len() == events@.len(),
            forall|i: int|
                0 <= i < events@.len() ==> changes@[i] == old(self)@.apply_events(
                    event_views(events@).take(i),
                ).event_change(#[trigger] event_views(events@)[i]),
            old(self)@.wf() ==> final(self)@.wf(),
    {
        let ghost before = self@;
        let ghost all = event_views(events@);
        let mut changes: Vec<Change> = Vec::new();
        let mut i: usize = 0;
        assert(all.take(0) =~= Seq::empty());
        while i < events.len()
            invariant
                i <= events.len(),
                all == event_views(events@),
                self@ == before.apply_events(all.take(i as int)),
                changes@.len() == i,
                forall|j: int|
                    0 <= j < i ==> changes@[j] == before.apply_events(all.take(j)).event_change(
                        #[trigger] all[j],
                    ),
                before.wf() ==> self@.wf(),
            decreases events.len() - i,
        {
            let change = self.handle_event(&events[i]);
            changes.push(change);
            assert(all.take(i + 1).drop_last() =~= all.take(i as int));
            assert(all.take(i + 1).last() == all[i as int]);
            i += 1;
        }
        assert(all.take(i as int) =~= all);
        changes
    }
}

} // verus!
