//! What a click or a number key asks for: the window of a running slot is
//! to be focused, the application of a placeholder is to be launched.

use vstd::prelude::*;
use crate::config::Config;
use crate::dock::Dock;
use crate::drag::UiState;
use crate::geometry::{axis_gap, gap, Vec2};
use crate::hover::Icon;
use crate::scroll::{first_visible, first_visible_index, ScrollState};
use crate::seqs::{first_position, lemma_first_position_is};
use crate::text::starts_with;
use crate::types::{DockKey, KeyView};

verus! {

/// What the dock asks of the world outside it.
#[derive(Debug, PartialEq, Eq)]
pub enum Activation {
    /// The application of this class is to be launched.
    Launch(String),
    /// The window with this address is to be focused. The address is in
    /// the form that the window manager takes.
    Focus(String),
}

/// The view of an [`Activation`].
pub enum ActivationView {
    Launch(Seq<char>),
    Focus(Seq<char>),
}

impl View for Activation {
    type V = ActivationView;

    open spec fn view(&self) -> ActivationView {
        match self {
            Activation::Launch(class) => ActivationView::Launch(class@),
            Activation::Focus(address) => ActivationView::Focus(address@),
        }
    }
}

/// The text that the address of a window starts with where the window
/// manager is addressed.
pub open spec fn address_prefix() -> Seq<char> {
    "address:"@
}

/// An address in the form that the window manager takes: behind the text
/// `address:`, unless it has that text in front already.
pub open spec fn focus_target_of(address: Seq<char>) -> Seq<char> {
    if address_prefix().is_prefix_of(address) {
        address
    } else {
        address_prefix() + address
    }
}

/// What activating a slot with this key asks for.
pub open spec fn activation_of(key: KeyView) -> ActivationView {
    match key {
        KeyView::Running(address) => ActivationView::Focus(focus_target_of(address)),
        KeyView::Pinned(class) => ActivationView::Launch(class),
    }
}

/// An address in the form that the window manager takes.
pub fn focus_target(address: &str) -> (target: String)
    ensures
        target@ == focus_target_of(address@),
{
    if starts_with(address, "address:") {
        address.to_owned()
    } else {
        String::from_str("address:").concat(address)
    }
}

impl DockKey {
    /// What activating a slot with this key asks for.
    pub fn activation(&self) -> (a: Activation)
        ensures
            a@ == activation_of(self@),
    {
        match self {
            DockKey::Running(address) => Activation::Focus(focus_target(address.as_str())),
            DockKey::Pinned(class) => Activation::Launch(class.clone()),
        }
    }
}

impl Dock {
    /// What activating the slot at `index` asks for; nothing where the dock
    /// has no such slot.
    pub fn activation(&self, index: usize) -> (a: Option<Activation>)
        ensures
            activation_view(a) == if index < self@.order.len() {
                Some(activation_of(self@.order[index as int]))
            } else {
                None
            },
    {
        if index < self.order.0.len() {
            Some(self.order.0[index].activation())
        } else {
            None
        }
    }
}

/// Whether the point `p` lies on an icon of the size `icon_size` around
/// `center`. The border belongs to the icon.
pub open spec fn on_icon(center: Vec2, icon_size: i64, p: Vec2) -> bool {
    2 * gap(p.x, center.x) <= icon_size && 2 * gap(p.y, center.y) <= icon_size
}

/// Whether a click at `p` is a click on this icon: the icon is hovered, and
/// `p` lies on it.
pub open spec fn clicked(icon: Icon, icon_size: i64, p: Vec2) -> bool {
    icon.hover.is_hovered && on_icon(icon.center(), icon_size, p)
}

/// For each icon, whether a click at `p` is a click on it.
pub open spec fn clicked_flags(icons: Seq<Icon>, icon_size: i64, p: Vec2) -> Seq<bool> {
    icons.map_values(|icon: Icon| clicked(icon, icon_size, p))
}

/// The view of what may be an activation.
pub open spec fn activation_view(a: Option<Activation>) -> Option<ActivationView> {
    match a {
        Some(act) => Some(act@),
        None => None,
    }
}

/// What a release of the left button asks for. While a slot is dragged, or
/// without a pointer, or where the pointer is on no hovered icon, it asks
/// for nothing. Otherwise it activates the first slot whose icon it is on.
pub open spec fn click_activation(
    order: Seq<KeyView>,
    dragging: bool,
    just_released: bool,
    world_cursor: Option<Vec2>,
    icon_size: i64,
    icons: Seq<Icon>,
) -> Option<ActivationView> {
    if just_released && !dragging && world_cursor is Some {
        let i = first_position(clicked_flags(icons, icon_size, world_cursor->0), true);
        if i < icons.len() && i < order.len() {
            Some(activation_of(order[i]))
        } else {
            None
        }
    } else {
        None
    }
}

/// Whether the point `p` lies on an icon.
fn point_on_icon(center: Vec2, icon_size: i64, p: Vec2) -> (r: bool)
    ensures
        r == on_icon(center, icon_size, p),
{
    if icon_size < 0 {
        return false;
    }
    let dx = axis_gap(p.x, center.x);
    let dy = axis_gap(p.y, center.y);
    let half: u64 = (icon_size / 2) as u64;
    dx <= half && dy <= half
}

/// The first slot whose icon a click at `p` is on, or the number of icons
/// when it is on none.
pub fn clicked_slot(icons: &Vec<Icon>, icon_size: i64, p: Vec2) -> (r: usize)
    ensures
        r == first_position(clicked_flags(icons@, icon_size, p), true),
        r <= icons@.len(),
{
    let ghost flags = clicked_flags(icons@, icon_size, p);
    let mut i: usize = 0;
    while i < icons.len()
        invariant
            i <= icons@.len(),
            flags == clicked_flags(icons@, icon_size, p),
            forall|j: int| 0 <= j < i ==> !flags[j],
        decreases icons@.len() - i,
    {
        let icon = icons[i];
        if icon.hover.is_hovered && point_on_icon(
            Vec2 { x: icon.translation.x, y: icon.translation.y },
            icon_size,
            p,
        ) {
            proof {
                lemma_first_position_is(flags, true, i as int);
            }
            return i;
        }
        i += 1;
    }
    proof {
        lemma_first_position_is(flags, true, i as int);
    }
    i
}

/// Answers a release of the left button. `icons` holds the icon of each
/// slot in the order of the slots.
pub fn icon_click_system(
    dock: &Dock,
    ui: &UiState,
    just_released: bool,
    world_cursor: Option<Vec2>,
    config: &Config,
    icons: &Vec<Icon>,
) -> (a: Option<Activation>)
    ensures
        activation_view(a) == click_activation(
            dock@.order,
            ui.dragging is Some,
            just_released,
            world_cursor,
            config.icon_size,
            icons@,
        ),
{
    if !just_released || ui.dragging.is_some() {
        return None;
    }
    match world_cursor {
        Some(p) => {
            let i = clicked_slot(icons, config.icon_size, p);
            if i < icons.len() {
                dock.activation(i)
            } else {
                None
            }
        },
        None => None,
    }
}

/// The slot that the number key `key` stands for, counted from zero: the
/// first visible slot for the first key, and so on, for as many keys as
/// slots are visible. A key beyond those stands for no slot.
pub open spec fn keybind_slot(scroll: ScrollState, config: Config, key: int) -> Option<int> {
    if 0 <= key < 10 && key < config.visible_items {
        Some(first_visible(scroll.total_scroll_distance as int, config) + key)
    } else {
        None
    }
}

/// What a press of the number key `key` asks for: it activates the slot that
/// the key stands for, where the dock has that slot.
pub open spec fn keybind_activation(
    order: Seq<KeyView>,
    scroll: ScrollState,
    config: Config,
    key: int,
) -> Option<ActivationView> {
    match keybind_slot(scroll, config, key) {
        Some(slot) => if slot < order.len() {
            Some(activation_of(order[slot]))
        } else {
            None
        },
        None => None,
    }
}

/// Answers a press of the number key `key`, counted from zero.
pub fn keybind_launch_visible_icons(
    dock: &Dock,
    scroll: &ScrollState,
    config: &Config,
    key: usize,
) -> (a: Option<Activation>)
    ensures
        activation_view(a) == keybind_activation(dock@.order, *scroll, *config, key as int),
{
    if key < 10 && key < config.visible_items {
        let first = first_visible_index(scroll, config);
        let len = dock.order.0.len();
        if first < len as u64 && key < len - first as usize {
            dock.activation(first as usize + key)
        } else {
            None
        }
    } else {
        None
    }
}

} // verus!
