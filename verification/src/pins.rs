//! Pinning by pointer: the right button switches the pin of the class whose
//! icon is hovered.

use vstd::prelude::*;
use crate::dock::{Change, Dock};
use crate::hover::Icon;
use crate::model::DockView;
use crate::seqs::{first_position, lemma_first_position_is};
use crate::types::{addresses, option_text, DockKey, KeyView};

verus! {

/// For each icon, whether it is hovered.
pub open spec fn hovered_flags(icons: Seq<Icon>) -> Seq<bool> {
    icons.map_values(|icon: Icon| icon.hover.is_hovered)
}

impl DockView {
    /// The class of the application in slot `i`: a placeholder's own class,
    /// and for a running window the class that the registry holds for it.
    pub open spec fn slot_class(self, i: int) -> Option<Seq<char>> {
        if 0 <= i < self.order.len() {
            match self.order[i] {
                KeyView::Pinned(class) => Some(class),
                KeyView::Running(address) => {
                    let p = first_position(addresses(self.clients), address);
                    if p < self.clients.len() {
                        Some(self.clients[p].class)
                    } else {
                        None
                    }
                },
            }
        } else {
            None
        }
    }

    /// The slot whose pin a release of the right button switches, with its
    /// class: the first slot whose icon is hovered.
    pub open spec fn toggled_slot(self, just_released: bool, icons: Seq<Icon>) -> Option<
        (int, Seq<char>),
    > {
        let i = first_position(hovered_flags(icons), true);
        if just_released && i < icons.len() {
            match self.slot_class(i) {
                Some(class) => Some((i, class)),
                None => None,
            }
        } else {
            None
        }
    }
}

/// What a switch of a pin by pointer has done.
#[derive(Debug, PartialEq, Eq)]
pub struct FavoriteToggle {
    /// The slot whose icon was hovered.
    pub slot: usize,
    /// The class whose pin was switched.
    pub class: String,
    /// What the switch did to the order.
    pub change: Change,
}

/// The first slot whose icon is hovered, or the number of icons when none
/// is.
pub fn hovered_slot(icons: &Vec<Icon>) -> (r: usize)
    ensures
        r == first_position(hovered_flags(icons@), true),
        r <= icons@.len(),
{
    let ghost flags = hovered_flags(icons@);
    let mut i: usize = 0;
    while i < icons.len()
        invariant
            i <= icons@.len(),
            flags == hovered_flags(icons@),
            forall|j: int| 0 <= j < i ==> !flags[j],
        decreases icons@.len() - i,
    {
        if icons[i].hover.is_hovered {
            proof {
                lemma_first_position_is(flags, true, i as int);
            }
            return i;
        }
        i += 1;
    }
    proof {
        lemma_first_position_is(flags, true, i as int);
    }
    i
}

impl Dock {
    /// The class of the application in the slot at `index`.
    pub fn slot_class(&self, index: usize) -> (class: Option<String>)
        ensures
            option_text(class) == self@.slot_class(index as int),
    {
        if index >= self.order.0.len() {
            return None;
        }
        match &self.order.0[index] {
            DockKey::Pinned(class) => Some(class.clone()),
            DockKey::Running(address) => {
                let p = self.clients.position(address.as_str());
                if p < self.clients.0.len() {
                    Some(self.clients.0[p].class.clone())
                } else {
                    None
                }
            },
        }
    }
}

/// Answers a release of the right button: the pin of the class whose icon
/// is hovered is switched. `icons` holds the icon of each slot in the order
/// of the slots. Without a release, without a hovered icon, or where the
/// hovered icon has no slot with a class, nothing changes.
pub fn toggle_favorite_system(dock: &mut Dock, just_released: bool, icons: &Vec<Icon>) -> (done:
    Option<FavoriteToggle>)
    ensures
        match old(dock)@.toggled_slot(just_released, icons@) {
            Some((slot, class)) => {
                &&& done is Some
                &&& done->0.slot == slot
                &&& done->0.class@ == class
                &&& done->0.change == old(dock)@.toggle_change(class)
                &&& final(dock)@ == old(dock)@.toggle_favorite(class)
            },
            None => done is None && final(dock)@ == old(dock)@,
        },
        old(dock)@.wf() ==> final(dock)@.wf(),
{
    if !just_released {
        return None;
    }
    let slot = hovered_slot(icons);
    if slot >= icons.len() {
        return None;
    }
    match dock.slot_class(slot) {
        Some(class) => {
            let change = dock.toggle_favorite(class.as_str());
            Some(FavoriteToggle { slot, class, change })
        },
        None => None,
    }
}

} // verus!
