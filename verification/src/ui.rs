//! Small pieces of state around the dock: whether titles are shown, whether
//! a scroll is still fading out, and how faint a placeholder is drawn.

use vstd::prelude::*;
use crate::geometry::UNIT;

verus! {

/// The milliseconds for which the dock counts as scrolling after the last
/// movement of the wheel.
pub const SCROLL_ANIMATION_TIME: u64 = 300;

/// The opacity of a placeholder: a favourite that is not running.
pub const PLACEHOLDER_ALPHA: i64 = 500;

/// Whether the titles of the icons are shown.
#[derive(Clone, Copy, Debug, PartialEq, Eq, Structural)]
pub struct ShowTitles(pub bool);

/// Whether the wheel has moved a moment ago.
#[derive(Clone, Copy, Debug, PartialEq, Eq, Structural)]
pub struct ScrollAnimationState {
    pub is_scrolling: bool,
    /// The milliseconds since the wheel last moved.
    pub timer: u64,
}

impl ScrollAnimationState {
    /// The state one tick of `dt` milliseconds later. A movement of the
    /// wheel starts the time anew; without one the time runs, and when
    /// `SCROLL_ANIMATION_TIME` has passed the scrolling is over.
    pub open spec fn after(self, wheel_moved: bool, dt: u64) -> ScrollAnimationState {
        if wheel_moved {
            ScrollAnimationState { is_scrolling: true, timer: 0 }
        } else if self.is_scrolling {
            let timer = if self.timer + dt > u64::MAX {
                u64::MAX
            } else {
                (self.timer + dt) as u64
            };
            ScrollAnimationState { is_scrolling: timer < SCROLL_ANIMATION_TIME, timer }
        } else {
            self
        }
    }
}

impl Default for ScrollAnimationState {
    fn default() -> (r: Self)
        ensures
            r == (ScrollAnimationState { is_scrolling: false, timer: 0 }),
    {
        ScrollAnimationState { is_scrolling: false, timer: 0 }
    }
}

/// Follows the wheel for one tick of `dt` milliseconds.
pub fn icon_scale_animation_system(state: &mut ScrollAnimationState, wheel_moved: bool, dt: u64)
    ensures
        *final(state) == old(state).after(wheel_moved, dt),
{
    if wheel_moved {
        state.is_scrolling = true;
        state.timer = 0;
    } else if state.is_scrolling {
        state.timer = state.timer.saturating_add(dt);
        if state.timer >= SCROLL_ANIMATION_TIME {
            state.is_scrolling = false;
        }
    }
}

/// Switches the titles on or off when the key for it is pressed. The result
/// is the new setting, when it has changed.
pub fn toggle_titles(show: &mut ShowTitles, key_pressed: bool) -> (changed: Option<bool>)
    ensures
        final(show).0 == (old(show).0 != key_pressed),
        changed == if key_pressed {
            Some(!old(show).0)
        } else {
            None::<bool>
        },
{
    if key_pressed {
        show.0 = !show.0;
        Some(show.0)
    } else {
        None
    }
}

/// The opacity of an icon, in thousandths: a favourite that is not running
/// is drawn at `PLACEHOLDER_ALPHA`, every other icon in full.
pub fn update_sprite_alpha(is_pinned: bool, is_running: bool) -> (alpha: i64)
    ensures
        alpha == if is_pinned && !is_running {
            PLACEHOLDER_ALPHA
        } else {
            UNIT
        },
{
    if is_pinned && !is_running {
        PLACEHOLDER_ALPHA
    } else {
        UNIT
    }
}

} // verus!
