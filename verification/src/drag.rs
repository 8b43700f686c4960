//! Dragging a slot to a new place: idle, then a press that has not moved
//! far yet, then a slot held by the pointer, then idle again.

use vstd::prelude::*;
use crate::dock::Dock;
use crate::geometry::{Vec2, Vec3, MAX_COORD, UNIT};
use crate::hover::{HoverTarget, Icon};
use crate::model::DockView;
use crate::reorder::{is_reordering, lemma_permuted_same_keys, permuted, reordering};
use crate::types::KeyView;

verus! {

/// How far the pointer has to move from where it was pressed before a drag
/// starts.
pub const DRAG_THRESHOLD: i64 = 10000;

/// How far in front of its place a dragged icon is drawn.
pub const DRAG_LIFT: i64 = 10000;

/// The factor by which a dragged icon is drawn larger.
pub const DRAG_SCALE: i64 = 1200;

/// The pointer's hold on the dock. `dragging` is the slot that is held;
/// `click_origin` is where the button went down, while it is down.
#[derive(Clone, Copy, Debug, PartialEq, Eq)]
pub struct UiState {
    pub dragging: Option<usize>,
    pub click_origin: Option<Vec2>,
}

/// The offset of the pointer from the centre of the icon it holds.
#[derive(Clone, Copy, Debug, PartialEq, Eq, Structural)]
pub struct Dragging {
    pub offset: Vec2,
}

/// The three states of a drag.
pub enum DragPhase {
    /// No button is down.
    Idle,
    /// The button is down and no slot is held.
    Candidate,
    /// A slot is held.
    Dragging,
}

/// The number of icons among the first `n` that the pointer at `p` touches.
pub open spec fn touch_count(icons: Seq<Icon>, icon_size: i64, p: Vec2, n: int) -> int
    decreases n,
{
    if n <= 0 {
        0
    } else {
        touch_count(icons, icon_size, p, n - 1) + if icons[n - 1].touched(icon_size, p) {
            1int
        } else {
            0int
        }
    }
}

/// Whether slot `i` is the one slot whose icon the pointer at `p` touches.
pub open spec fn only_hit(icons: Seq<Icon>, icon_size: i64, p: Vec2, i: int) -> bool {
    &&& 0 <= i < icons.len()
    &&& forall|j: int|
        0 <= j < icons.len() ==> ((#[trigger] icons[j]).touched(icon_size, p) <==> j == i)
}

/// Exactly one of the first `n` icons is touched when one of them is the
/// only one that is.
pub proof fn lemma_touch_count(icons: Seq<Icon>, icon_size: i64, p: Vec2, n: int)
    requires
        0 <= n <= icons.len(),
    ensures
        0 <= touch_count(icons, icon_size, p, n) <= n,
        touch_count(icons, icon_size, p, n) == 0 <==> forall|j: int|
            0 <= j < n ==> !(#[trigger] icons[j]).touched(icon_size, p),
        touch_count(icons, icon_size, p, n) == 1 <==> exists|i: int|
            only_hit(icons.take(n), icon_size, p, i),
    decreases n,
{
    if n > 0 {
        lemma_touch_count(icons, icon_size, p, n - 1);
        let front = icons.take(n - 1);
        let now = icons.take(n);
        let last_hit = icons[n - 1].touched(icon_size, p);
        let count = touch_count(icons, icon_size, p, n);
        assert forall|j: int| 0 <= j < n - 1 implies front[j] == icons[j] && now[j] == icons[j] by {}
        assert(now[n - 1] == icons[n - 1]);
        if count == 1 {
            if last_hit {
                assert(only_hit(now, icon_size, p, n - 1));
            } else {
                let i = choose|i: int| only_hit(front, icon_size, p, i);
                assert forall|j: int| 0 <= j < now.len() implies ((#[trigger] now[j]).touched(
                    icon_size,
                    p,
                ) <==> j == i) by {
                    if j < n - 1 {
                        assert(front[j] == now[j]);
                    }
                }
                assert(only_hit(now, icon_size, p, i));
            }
        }
        if exists|i: int| only_hit(now, icon_size, p, i) {
            let i = choose|i: int| only_hit(now, icon_size, p, i);
            if last_hit {
                assert(i == n - 1) by {
                    assert(now[n - 1] == icons[n - 1]);
                }
                assert forall|j: int| 0 <= j < n - 1 implies !(#[trigger] icons[j]).touched(
                    icon_size,
                    p,
                ) by {
                    assert(now[j] == icons[j]);
                }
            } else {
                assert(i != n - 1) by {
                    assert(now[n - 1] == icons[n - 1]);
                }
                assert forall|j: int| 0 <= j < front.len() implies ((#[trigger] front[j]).touched(
                    icon_size,
                    p,
                ) <==> j == i) by {
                    assert(front[j] == now[j]);
                }
                assert(only_hit(front, icon_size, p, i));
            }
        }
    } else {
        assert(!exists|i: int| only_hit(icons.take(n), icon_size, p, i));
    }
}

impl UiState {
    /// The state in which nothing is pressed and nothing is held.
    pub open spec fn idle() -> UiState {
        UiState { dragging: None, click_origin: None }
    }

    /// The phase of the drag that this state is in.
    pub open spec fn phase(self) -> DragPhase {
        if self.dragging is Some {
            DragPhase::Dragging
        } else if self.click_origin is Some {
            DragPhase::Candidate
        } else {
            DragPhase::Idle
        }
    }
}

impl Default for UiState {
    fn default() -> (r: Self)
        ensures
            r == UiState::idle(),
    {
        UiState { dragging: None, click_origin: None }
    }
}

/// The slot that a drag takes hold of, if it does. The button has to be
/// down with no slot held yet, the pointer has to have moved farther than
/// `DRAG_THRESHOLD` from where it went down, and the pointer has to be in
/// the hit region of exactly one slot.
pub open spec fn captured_slot(
    ui: UiState,
    pressed: bool,
    cursor: Option<Vec2>,
    world_cursor: Option<Vec2>,
    icon_size: i64,
    icons: Seq<Icon>,
) -> Option<int> {
    if pressed && ui.dragging is None && ui.click_origin is Some && cursor is Some
        && ui.click_origin->0.farther_than(cursor->0, DRAG_THRESHOLD) && world_cursor is Some
        && exists|i: int| only_hit(icons, icon_size, world_cursor->0, i) {
        Some(choose|i: int| only_hit(icons, icon_size, world_cursor->0, i))
    } else {
        None
    }
}

/// A drag starts only from a press that waits for it: while a slot is held
/// no other slot is taken, and without a press none is.
pub proof fn lemma_capture_needs_candidate(
    ui: UiState,
    pressed: bool,
    cursor: Option<Vec2>,
    world_cursor: Option<Vec2>,
    icon_size: i64,
    icons: Seq<Icon>,
)
    requires
        captured_slot(ui, pressed, cursor, world_cursor, icon_size, icons) is Some,
    ensures
        ui.phase() is Candidate,
        pressed,
        only_hit(
            icons,
            icon_size,
            world_cursor->0,
            captured_slot(ui, pressed, cursor, world_cursor, icon_size, icons)->0,
        ),
{
}

/// Remembers where the button went down.
pub fn drag_register_click_system(ui: &mut UiState, just_pressed: bool, cursor: Option<Vec2>)
    ensures
        final(ui).dragging == old(ui).dragging,
        final(ui).click_origin == if just_pressed {
            cursor
        } else {
            old(ui).click_origin
        },
{
    if just_pressed {
        ui.click_origin = cursor;
    }
}

/// Starts a drag where one is due, and forgets the press when the button
/// is let go. `cursor` is the pointer on the screen, `world_cursor` the
/// pointer in the plane of the icons, and `icons` holds the icon of each slot
/// in the order of the slots. The result is the offset at which the slot is
/// held, when a drag has started.
pub fn drag_check_system(
    ui: &mut UiState,
    pressed: bool,
    just_released: bool,
    cursor: Option<Vec2>,
    world_cursor: Option<Vec2>,
    icon_size: i64,
    icons: &Vec<Icon>,
) -> (held: Option<Dragging>)
    requires
        world_cursor is Some ==> world_cursor->0.in_range(),
        forall|i: int| 0 <= i < icons@.len() ==> (#[trigger] icons@[i]).in_range(),
    ensures
        match captured_slot(*old(ui), pressed, cursor, world_cursor, icon_size, icons@) {
            Some(i) => {
                &&& final(ui).dragging == Some(i as usize)
                &&& held == Some(
                    Dragging {
                        offset: Vec2 {
                            x: (world_cursor->0.x - icons@[i].translation.x) as i64,
                            y: (world_cursor->0.y - icons@[i].translation.y) as i64,
                        },
                    },
                )
            },
            None => final(ui).dragging == old(ui).dragging && held is None,
        },
        final(ui).click_origin == if just_released {
            None
        } else {
            old(ui).click_origin
        },
{
    let mut held: Option<Dragging> = None;
    if pressed && ui.dragging.is_none() {
        match (ui.click_origin, cursor, world_cursor) {
            (Some(origin), Some(at), Some(world)) => {
                if origin.is_farther_than(at, DRAG_THRESHOLD) {
                    let mut hits: usize = 0;
                    let mut slot: usize = 0;
                    let mut i: usize = 0;
                    while i < icons.len()
                        invariant
                            i <= icons@.len(),
                            hits == touch_count(icons@, icon_size, world, i as int),
                            hits <= i,
                            hits >= 1 ==> slot < i && icons@[slot as int].touched(icon_size, world),
                        decreases icons@.len() - i,
                    {
                        if icons[i].is_touched(icon_size, world) {
                            hits += 1;
                            slot = i;
                        }
                        i += 1;
                    }
                    proof {
                        lemma_touch_count(icons@, icon_size, world, icons@.len() as int);
                        assert(icons@.take(icons@.len() as int) =~= icons@);
                    }
                    if hits == 1 {
                        let icon = icons[slot];
                        proof {
                            let k = choose|k: int| only_hit(icons@, icon_size, world, k);
                            assert(k == slot);
                            assert(only_hit(icons@, icon_size, world, slot as int));
                            assert forall|k2: int|
                                only_hit(icons@, icon_size, world, k2) implies k2 == slot by {}
                            assert(icons@[slot as int].in_range());
                        }
                        ui.dragging = Some(slot);
                        held = Some(
                            Dragging {
                                offset: Vec2 {
                                    x: world.x - icon.translation.x,
                                    y: world.y - icon.translation.y,
                                },
                            },
                        );
                    }
                }
            },
            _ => {},
        }
    }
    if just_released {
        ui.click_origin = None;
    }
    held
}

/// Where a held icon is drawn: under the pointer, at the offset at which it
/// was taken, in front of its place by `DRAG_LIFT`, and larger by
/// `DRAG_SCALE`.
pub open spec fn dragged_placement(held: Dragging, hover: HoverTarget, world: Vec2) -> (Vec3, i64) {
    (
        Vec3 {
            x: (world.x - held.offset.x) as i64,
            y: (world.y - held.offset.y) as i64,
            z: (hover.original_z + DRAG_LIFT) as i64,
        },
        (hover.original_scale * DRAG_SCALE / (UNIT as int)) as i64,
    )
}

/// Moves the held icon with the pointer. Without a held slot or without a
/// pointer nothing is to be drawn anew.
pub fn drag_update_system(ui: &UiState, held: &Dragging, hover: &HoverTarget, world_cursor: Option<Vec2>) -> (r:
    Option<(Vec3, i64)>)
    requires
        hover.in_range(),
        world_cursor is Some ==> world_cursor->0.in_range(),
        -2 * MAX_COORD <= held.offset.x <= 2 * MAX_COORD,
        -2 * MAX_COORD <= held.offset.y <= 2 * MAX_COORD,
    ensures
        r == if ui.dragging is Some && world_cursor is Some {
            Some(dragged_placement(*held, *hover, world_cursor->0))
        } else {
            None
        },
{
    match (ui.dragging, world_cursor) {
        (Some(_), Some(world)) => {
            assert(0 <= hover.original_scale * DRAG_SCALE <= 1_200_000_000_000_000)
                by (nonlinear_arith)
                requires
                    0 <= hover.original_scale <= 1_000_000_000_000,
                    DRAG_SCALE == 1200,
            ;
            let scale: i128 = (hover.original_scale as i128) * (DRAG_SCALE as i128) / (UNIT as i128);
            Some(
                (
                    Vec3 {
                        x: world.x - held.offset.x,
                        y: world.y - held.offset.y,
                        z: hover.original_z + DRAG_LIFT,
                    },
                    scale as i64,
                ),
            )
        },
        _ => None,
    }
}

/// Gives up a drag when Escape is pressed: the slot is let go, and the
/// result is the place to which its icon goes back. The order of the dock is
/// not touched.
pub fn reset_positions_system(ui: &mut UiState, escape_pressed: bool, hover: &HoverTarget) -> (back: Option<
    Vec3,
>)
    ensures
        final(ui).click_origin == old(ui).click_origin,
        escape_pressed && old(ui).dragging is Some ==> final(ui).dragging is None && back == Some(
            Vec3 {
                x: hover.original_position.x,
                y: hover.original_position.y,
                z: hover.original_z,
            },
        ),
        !(escape_pressed && old(ui).dragging is Some) ==> final(ui).dragging == old(ui).dragging
            && back is None,
{
    if escape_pressed && ui.dragging.is_some() {
        ui.dragging = None;
        Some(
            Vec3 {
                x: hover.original_position.x,
                y: hover.original_position.y,
                z: hover.original_z,
            },
        )
    } else {
        None
    }
}

impl DockView {
    /// The dock with its slots in the sequence that `perm` names.
    pub open spec fn reorder(self, perm: Seq<usize>) -> DockView {
        DockView {
            clients: self.clients,
            favorites: self.favorites,
            order: permuted(self.order, perm),
            dirty: true,
        }
    }
}

/// Letting go of a dragged slot keeps the invariant of the dock: the order
/// holds the keys it held, each once.
pub proof fn lemma_reorder_wf(s: DockView, coords: Seq<i64>, dragged: int, perm: Seq<usize>)
    requires
        s.wf(),
        coords.len() == s.order.len(),
        is_reordering(coords, dragged, perm),
    ensures
        s.reorder(perm).wf(),
{
    lemma_permuted_same_keys(coords, dragged, perm, s.order);
    let t = s.reorder(perm);
    assert forall|i: int| 0 <= i < t.clients.len() implies t.order.contains(
        KeyView::Running(#[trigger] t.clients[i].address),
    ) by {
        assert(s.order.contains(KeyView::Running(s.clients[i].address)));
    }
    assert forall|k: int|
        0 <= k < t.order.len() && (#[trigger] t.order[k]) is Running implies t.has_window(
        t.order[k]->Running_0,
    ) by {
        assert(t.order.contains(t.order[k]));
        let m = choose|m: int| 0 <= m < s.order.len() && s.order[m] == t.order[k];
        assert(s.order[m] is Running);
    }
    assert forall|k: int|
        0 <= k < t.order.len() && (#[trigger] t.order[k]) is Pinned implies t.favorites.contains(
        t.order[k]->Pinned_0,
    ) by {
        assert(t.order.contains(t.order[k]));
        let m = choose|m: int| 0 <= m < s.order.len() && s.order[m] == t.order[k];
        assert(s.order[m] is Pinned);
    }
    assert forall|f: int|
        0 <= f < t.favorites.len() && !t.class_running(
            #[trigger] t.favorites[f],
        ) implies t.order.contains(KeyView::Pinned(t.favorites[f])) by {
        assert(s.order.contains(KeyView::Pinned(s.favorites[f])));
    }
}

/// Ends a drag when the button is let go. `coords[i]` is where the icon
/// of slot `i` stands on the primary axis at that moment. The held slot
/// is let go in any case. Where `coords` has one coordinate for each slot
/// and the held slot is one of them, the order is written anew, sorted by
/// coordinate with the held slot behind those it has reached, and the
/// result names for each new place the slot that took it. Otherwise the
/// order stays as it is.
pub fn drag_end_system(
    dock: &mut Dock,
    ui: &mut UiState,
    just_released: bool,
    coords: &Vec<i64>,
) -> (moved: Option<Vec<usize>>)
    ensures
        final(ui).click_origin == old(ui).click_origin,
        final(ui).dragging == if just_released {
            None
        } else {
            old(ui).dragging
        },
        just_released && old(ui).dragging is Some && old(ui).dragging->0 < coords@.len()
            && coords@.len() == old(dock)@.order.len() ==> {
            &&& moved is Some
            &&& is_reordering(coords@, old(ui).dragging->0 as int, moved->0@)
            &&& final(dock)@ == old(dock)@.reorder(moved->0@)
        },
        !(just_released && old(ui).dragging is Some && old(ui).dragging->0 < coords@.len()
            && coords@.len() == old(dock)@.order.len()) ==> moved is None && final(dock)@
            == old(dock)@,
        old(dock)@.wf() ==> final(dock)@.wf(),
{
    if !just_released {
        return None;
    }
    let held = ui.dragging;
    ui.dragging = None;
    match held {
        Some(dragged) => {
            if dragged < coords.len() && coords.len() == dock.order.0.len() {
                let perm = reordering(coords, dragged);
                proof {
                    if dock@.wf() {
                        lemma_reorder_wf(dock@, coords@, dragged as int, perm@);
                    }
                }
                let order = dock.order.permute(&perm);
                dock.order = order;
                dock.reorder_trigger.0 = true;
                Some(perm)
            } else {
                None
            }
        },
        None => None,
    }
}

} // verus!
