//! Which icon the pointer hovers over: the frontmost of those it touches,
//! with a short delay before an icon that it has left stops being hovered.

use vstd::prelude::*;
use crate::geometry::{hit_region_contains, in_hit_region, Vec2, Vec3, MAX_COORD};

verus! {

/// The milliseconds for which an icon stays hovered after the pointer has
/// left it.
pub const HOVER_EXIT_DELAY: u64 = 100;

/// The mark that an icon keeps of where it belongs and of whether the
/// pointer hovers over it.
#[derive(Clone, Copy, Debug, PartialEq, Eq)]
pub struct HoverTarget {
    pub original_position: Vec2,
    pub original_z: i64,
    pub original_scale: i64,
    pub index: usize,
    pub is_hovered: bool,
    /// The milliseconds for which the pointer has been gone, while the icon
    /// still counts as hovered.
    pub hover_exit_timer: Option<u64>,
}

/// The icon of one slot: where it is drawn at the moment, and its mark.
#[derive(Clone, Copy, Debug, PartialEq, Eq)]
pub struct Icon {
    pub translation: Vec3,
    pub hover: HoverTarget,
}

impl HoverTarget {
    /// Whether the stored place and scale are ones that the layout gives.
    pub open spec fn in_range(self) -> bool {
        &&& self.original_position.in_range()
        &&& -MAX_COORD <= self.original_z <= MAX_COORD
        &&& 0 <= self.original_scale <= MAX_COORD
    }

    /// Whether the stored place and scale are ones that the layout gives.
    pub fn is_in_range(&self) -> (r: bool)
        ensures
            r == self.in_range(),
    {
        self.original_position.is_in_range() && -MAX_COORD <= self.original_z && self.original_z
            <= MAX_COORD && 0 <= self.original_scale && self.original_scale <= MAX_COORD
    }

    /// The mark after a tick in which its icon is the one hovered over.
    pub open spec fn entered(self) -> HoverTarget {
        HoverTarget { is_hovered: true, hover_exit_timer: None, ..self }
    }

    /// The mark after a tick in which the pointer touches its icon behind
    /// another one.
    pub open spec fn covered(self) -> HoverTarget {
        HoverTarget { is_hovered: false, hover_exit_timer: None, ..self }
    }

    /// The mark after a tick of `dt` milliseconds in which the pointer does
    /// not touch its icon. A hovered icon stays hovered until the pointer
    /// has been gone for `HOVER_EXIT_DELAY`.
    pub open spec fn left(self, dt: u64) -> HoverTarget {
        if !self.is_hovered {
            self
        } else {
            let gone = match self.hover_exit_timer {
                Some(t) => t + dt,
                None => dt as int,
            };
            if gone >= HOVER_EXIT_DELAY {
                HoverTarget { is_hovered: false, hover_exit_timer: None, ..self }
            } else {
                HoverTarget { hover_exit_timer: Some(gone as u64), ..self }
            }
        }
    }
}

impl Icon {
    /// The centre of the icon in the plane.
    pub open spec fn center(self) -> Vec2 {
        Vec2 { x: self.translation.x, y: self.translation.y }
    }

    /// Whether the icon is drawn at a place that the layout takes.
    pub open spec fn in_range(self) -> bool {
        self.center().in_range()
    }

    /// Whether the pointer at `p` touches the icon.
    pub open spec fn touched(self, icon_size: i64, p: Vec2) -> bool {
        in_hit_region(self.center(), icon_size, self.hover.original_scale, p)
    }

    /// Whether the pointer at `p` touches the icon.
    pub fn is_touched(&self, icon_size: i64, p: Vec2) -> (r: bool)
        ensures
            r == self.touched(icon_size, p),
    {
        hit_region_contains(
            Vec2 { x: self.translation.x, y: self.translation.y },
            icon_size,
            self.hover.original_scale,
            p,
        )
    }
}

/// Whether icon `i` is the frontmost of the icons that the pointer touches:
/// none that is touched lies in front of it, and none at the same depth
/// comes before it.
pub open spec fn is_frontmost(icons: Seq<Icon>, icon_size: i64, p: Vec2, i: int) -> bool {
    &&& 0 <= i < icons.len()
    &&& icons[i].touched(icon_size, p)
    &&& forall|j: int|
        0 <= j < icons.len() && (#[trigger] icons[j]).touched(icon_size, p) ==> icons[j].translation.z
            < icons[i].translation.z || (icons[j].translation.z == icons[i].translation.z && i <= j)
}

/// Whether the pointer at `p` touches no icon at all.
pub open spec fn touches_none(icons: Seq<Icon>, icon_size: i64, p: Vec2) -> bool {
    forall|j: int| 0 <= j < icons.len() ==> !(#[trigger] icons[j]).touched(icon_size, p)
}

/// At most one icon is frontmost.
pub proof fn lemma_frontmost_unique(icons: Seq<Icon>, icon_size: i64, p: Vec2, i: int, j: int)
    requires
        is_frontmost(icons, icon_size, p, i),
        is_frontmost(icons, icon_size, p, j),
    ensures
        i == j,
{
}

/// The frontmost icon under the pointer.
pub fn frontmost(icons: &Vec<Icon>, icon_size: i64, p: Vec2) -> (front: Option<usize>)
    ensures
        match front {
            Some(i) => is_frontmost(icons@, icon_size, p, i as int),
            None => touches_none(icons@, icon_size, p),
        },
{
    let mut front: Option<usize> = None;
    let mut i: usize = 0;
    while i < icons.len()
        invariant
            i <= icons@.len(),
            match front {
                Some(f) => is_frontmost(icons@.take(i as int), icon_size, p, f as int),
                None => touches_none(icons@.take(i as int), icon_size, p),
            },
        decreases icons@.len() - i,
    {
        let ghost seen = icons@.take(i as int);
        let ghost next = icons@.take(i + 1);
        assert forall|j: int| 0 <= j < i implies seen[j] == next[j] by {}
        assert(next[i as int] == icons@[i as int]);
        if icons[i].is_touched(icon_size, p) {
            match front {
                Some(f) => {
                    if icons[i].translation.z > icons[f].translation.z {
                        front = Some(i);
                        assert forall|j: int|
                            0 <= j < next.len() && (#[trigger] next[j]).touched(
                                icon_size,
                                p,
                            ) implies next[j].translation.z < next[i as int].translation.z || (
                        next[j].translation.z == next[i as int].translation.z && i <= j) by {
                            if j < i {
                                assert(seen[j].touched(icon_size, p));
                            }
                        }
                    } else {
                        assert forall|j: int|
                            0 <= j < next.len() && (#[trigger] next[j]).touched(
                                icon_size,
                                p,
                            ) implies next[j].translation.z < next[f as int].translation.z || (
                        next[j].translation.z == next[f as int].translation.z && f <= j) by {
                            if j < i {
                                assert(seen[j].touched(icon_size, p));
                            }
                        }
                    }
                },
                None => {
                    front = Some(i);
                    assert forall|j: int|
                        0 <= j < next.len() && (#[trigger] next[j]).touched(
                            icon_size,
                            p,
                        ) implies next[j].translation.z < next[i as int].translation.z || (
                    next[j].translation.z == next[i as int].translation.z && i <= j) by {
                        if j < i {
                            assert(seen[j].touched(icon_size, p));
                        }
                    }
                },
            }
        } else {
            match front {
                Some(f) => {
                    assert forall|j: int|
                        0 <= j < next.len() && (#[trigger] next[j]).touched(
                            icon_size,
                            p,
                        ) implies next[j].translation.z < next[f as int].translation.z || (
                    next[j].translation.z == next[f as int].translation.z && f <= j) by {
                        if j < i {
                            assert(seen[j].touched(icon_size, p));
                        }
                    }
                },
                None => {
                    assert forall|j: int| 0 <= j < next.len() implies !(#[trigger] next[j]).touched(
                        icon_size,
                        p,
                    ) by {
                        if j < i {
                            assert(!seen[j].touched(icon_size, p));
                        }
                    }
                },
            }
        }
        i += 1;
    }
    assert(icons@.take(i as int) =~= icons@);
    front
}

/// The mark of icon `i` after one tick. While a slot is dragged no mark
/// changes. Otherwise the frontmost icon under the pointer is hovered at
/// once, every other icon that the pointer touches is not hovered, and an
/// icon that the pointer does not touch stays hovered for a while.
pub open spec fn hover_after(
    icons: Seq<Icon>,
    dragging: bool,
    world_cursor: Option<Vec2>,
    icon_size: i64,
    dt: u64,
    i: int,
) -> HoverTarget {
    if dragging {
        icons[i].hover
    } else {
        match world_cursor {
            Some(p) => if is_frontmost(icons, icon_size, p, i) {
                icons[i].hover.entered()
            } else if icons[i].touched(icon_size, p) {
                icons[i].hover.covered()
            } else {
                icons[i].hover.left(dt)
            },
            None => icons[i].hover.left(dt),
        }
    }
}

impl HoverTarget {
    /// Counts `dt` more milliseconds without the pointer.
    pub fn leave(&mut self, dt: u64)
        ensures
            *final(self) == old(self).left(dt),
    {
        if self.is_hovered {
            let gone: u64 = match self.hover_exit_timer {
                Some(t) => t.saturating_add(dt),
                None => dt,
            };
            if gone >= HOVER_EXIT_DELAY {
                self.is_hovered = false;
                self.hover_exit_timer = None;
            } else {
                self.hover_exit_timer = Some(gone);
            }
        }
    }
}

/// Brings the marks of all icons up to date for one tick of `dt`
/// milliseconds. `dragging` says whether a slot is held by the pointer, and
/// `world_cursor` is the pointer in the plane of the icons, if it is there.
pub fn hover_system(
    icons: &mut Vec<Icon>,
    dragging: bool,
    world_cursor: Option<Vec2>,
    icon_size: i64,
    dt: u64,
)
    ensures
        final(icons)@.len() == old(icons)@.len(),
        forall|i: int|
            0 <= i < old(icons)@.len() ==> (#[trigger] final(icons)@[i]).translation == old(
                icons,
            )@[i].translation && final(icons)@[i].hover == hover_after(
                old(icons)@,
                dragging,
                world_cursor,
                icon_size,
                dt,
                i,
            ),
{
    if dragging {
        return ;
    }
    let ghost before = icons@;
    let front: Option<usize> = match world_cursor {
        Some(p) => frontmost(icons, icon_size, p),
        None => None,
    };
    let mut i: usize = 0;
    while i < icons.len()
        invariant
            i <= icons@.len(),
            icons@.len() == before.len(),
            !dragging,
            match world_cursor {
                Some(p) => match front {
                    Some(f) => is_frontmost(before, icon_size, p, f as int),
                    None => touches_none(before, icon_size, p),
                },
                None => true,
            },
            forall|j: int| i <= j < before.len() ==> icons@[j] == before[j],
            forall|j: int|
                0 <= j < i ==> (#[trigger] icons@[j]).translation == before[j].translation
                    && icons@[j].hover == hover_after(
                    before,
                    dragging,
                    world_cursor,
                    icon_size,
                    dt,
                    j,
                ),
        decreases icons@.len() - i,
    {
        let mut icon = icons[i];
        match world_cursor {
            Some(p) => {
                let is_front = match front {
                    Some(f) => f == i,
                    None => false,
                };
                if is_front {
                    icon.hover.is_hovered = true;
                    icon.hover.hover_exit_timer = None;
                } else if icon.is_touched(icon_size, p) {
                    icon.hover.is_hovered = false;
                    icon.hover.hover_exit_timer = None;
                } else {
                    icon.hover.leave(dt);
                }
            },
            None => {
                icon.hover.leave(dt);
            },
        }
        icons.set(i, icon);
        i += 1;
    }
}

} // verus!
