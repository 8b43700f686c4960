//! Putting the icons where the order says: each slot's icon gets its target
//! from the layout calculator and moves a part of the way towards it.

use vstd::prelude::*;
use crate::config::Config;
use crate::geometry::{Vec2, Vec3, MAX_COORD, UNIT};
use crate::hover::{HoverTarget, Icon};
use crate::layout::{
    calculate_icon_transform, icon_transform, is_direction, toward_zero, MAX_SLOTS,
};

verus! {

/// The part of the way to its target that an icon moves in one pass.
pub const REORDER_STEP: i64 = 200;

/// The value the part `t` of the way from `start` to `end`.
pub open spec fn lerp_of(start: int, end: int, t: int) -> int {
    start + toward_zero((end - start) * t, UNIT as int)
}

/// The icon of slot `index` after one pass: its mark holds the target that
/// the layout calculator gives, its depth is the target's, and in the plane
/// it has moved `REORDER_STEP` of the way to the target.
pub open spec fn placed(
    icon: Icon,
    index: nat,
    start_pos: Vec2,
    direction: Vec2,
    config: Config,
    scroll_offset: Vec2,
) -> Icon {
    let (target, scale) = icon_transform(index, start_pos, direction, config, scroll_offset);
    Icon {
        translation: Vec3 {
            x: lerp_of(icon.translation.x as int, target.x as int, REORDER_STEP as int) as i64,
            y: lerp_of(icon.translation.y as int, target.y as int, REORDER_STEP as int) as i64,
            z: target.z,
        },
        hover: HoverTarget {
            original_position: Vec2 { x: target.x, y: target.y },
            original_z: target.z,
            original_scale: scale,
            index: index as usize,
            is_hovered: icon.hover.is_hovered,
            hover_exit_timer: icon.hover.hover_exit_timer,
        },
    }
}

/// The value the part `t` of the way from `start` to `end`.
pub fn lerp(start: i64, end: i64, t: i64) -> (r: i64)
    requires
        0 <= t <= UNIT,
    ensures
        r == lerp_of(start as int, end as int, t as int),
        start <= end ==> start <= r <= end,
        end <= start ==> end <= r <= start,
{
    let span: i128 = (end as i128) - (start as i128);
    assert(span >= 0 ==> 0 <= span * t <= span * 1000) by (nonlinear_arith)
        requires
            0 <= t <= 1000,
    ;
    assert(span <= 0 ==> span * 1000 <= span * t <= 0) by (nonlinear_arith)
        requires
            0 <= t <= 1000,
    ;
    let product: i128 = span * (t as i128);
    let step: i128 = if product >= 0 {
        product / 1000
    } else {
        -((-product) / 1000)
    };
    ((start as i128) + step) as i64
}

/// Moves every icon towards the place of its slot and renews its mark.
/// `icons` holds the icon of each slot in the order of the slots.
pub fn reorder_icons_system(
    icons: &mut Vec<Icon>,
    start_pos: Vec2,
    direction: Vec2,
    config: &Config,
    scroll_offset: Vec2,
)
    requires
        old(icons)@.len() <= MAX_SLOTS,
        config.places_icons(),
        start_pos.in_range(),
        scroll_offset.in_range(),
        is_direction(direction),
    ensures
        final(icons)@.len() == old(icons)@.len(),
        forall|i: int|
            0 <= i < old(icons)@.len() ==> #[trigger] final(icons)@[i] == placed(
                old(icons)@[i],
                i as nat,
                start_pos,
                direction,
                *config,
                scroll_offset,
            ),
{
    let ghost before = icons@;
    let mut i: usize = 0;
    while i < icons.len()
        invariant
            i <= icons@.len(),
            icons@.len() == before.len() <= MAX_SLOTS,
            config.places_icons(),
            start_pos.in_range(),
            scroll_offset.in_range(),
            is_direction(direction),
            forall|j: int| i <= j < before.len() ==> icons@[j] == before[j],
            forall|j: int|
                0 <= j < i ==> #[trigger] icons@[j] == placed(
                    before[j],
                    j as nat,
                    start_pos,
                    direction,
                    *config,
                    scroll_offset,
                ),
        decreases icons@.len() - i,
    {
        let (target, scale) = calculate_icon_transform(
            i,
            start_pos,
            direction,
            config,
            scroll_offset,
        );
        let icon = icons[i];
        let moved = Icon {
            translation: Vec3 {
                x: lerp(icon.translation.x, target.x, REORDER_STEP),
                y: lerp(icon.translation.y, target.y, REORDER_STEP),
                z: target.z,
            },
            hover: HoverTarget {
                original_position: Vec2 { x: target.x, y: target.y },
                original_z: target.z,
                original_scale: scale,
                index: i,
                is_hovered: icon.hover.is_hovered,
                hover_exit_timer: icon.hover.hover_exit_timer,
            },
        };
        icons.set(i, moved);
        i += 1;
    }
}

/// The icon of slot `index` as it is first drawn: at the place of its slot
/// in a dock that is not scrolled, and not hovered.
pub open spec fn spawned(index: nat, start_pos: Vec2, direction: Vec2, config: Config) -> Icon {
    let (target, scale) = icon_transform(index, start_pos, direction, config, Vec2 { x: 0, y: 0 });
    Icon {
        translation: target,
        hover: HoverTarget {
            original_position: Vec2 { x: target.x, y: target.y },
            original_z: target.z,
            original_scale: scale,
            index: index as usize,
            is_hovered: false,
            hover_exit_timer: None,
        },
    }
}

/// The icon of slot `index` as it is first drawn.
pub fn spawn_icon(index: usize, start_pos: Vec2, direction: Vec2, config: &Config) -> (icon: Icon)
    requires
        index <= MAX_SLOTS,
        config.places_icons(),
        start_pos.in_range(),
        is_direction(direction),
    ensures
        icon == spawned(index as nat, start_pos, direction, *config),
{
    let (target, scale) = calculate_icon_transform(
        index,
        start_pos,
        direction,
        config,
        Vec2 { x: 0, y: 0 },
    );
    Icon {
        translation: target,
        hover: HoverTarget {
            original_position: Vec2 { x: target.x, y: target.y },
            original_z: target.z,
            original_scale: scale,
            index,
            is_hovered: false,
            hover_exit_timer: None,
        },
    }
}

/// The icons of a dock of `count` slots as they are first drawn, one for
/// each slot in the order of the slots.
pub fn setup_icons(count: usize, start_pos: Vec2, direction: Vec2, config: &Config) -> (icons: Vec<
    Icon,
>)
    requires
        count <= MAX_SLOTS,
        config.places_icons(),
        start_pos.in_range(),
        is_direction(direction),
    ensures
        icons@.len() == count,
        forall|i: int|
            0 <= i < count ==> #[trigger] icons@[i] == spawned(
                i as nat,
                start_pos,
                direction,
                *config,
            ),
{
    let mut icons: Vec<Icon> = Vec::new();
    let mut i: usize = 0;
    while i < count
        invariant
            i <= count <= MAX_SLOTS,
            config.places_icons(),
            start_pos.in_range(),
            is_direction(direction),
            icons@.len() == i,
            forall|j: int|
                0 <= j < i ==> #[trigger] icons@[j] == spawned(
                    j as nat,
                    start_pos,
                    direction,
                    *config,
                ),
        decreases count - i,
    {
        icons.push(spawn_icon(i, start_pos, direction, config));
        i += 1;
    }
    icons
}

/// The place of the first slot in a window of the given size: the window's
/// lower left corner, moved in by the margins.
pub open spec fn start_position_of(width: i64, height: i64, config: Config) -> Vec2 {
    Vec2 {
        x: (config.margin_x - width / 2) as i64,
        y: (config.margin_y - height / 2) as i64,
    }
}

/// The point that the dock runs towards: above the window's centre by the
/// part `tilt_y` of the window's height, and below it where the tilt is
/// negative.
pub open spec fn curve_target_of(height: i64, config: Config) -> Vec2 {
    Vec2 { x: 0, y: toward_zero(height * config.tilt_y, UNIT as int) as i64 }
}

/// The direction in which the dock runs in a window of the given size:
/// from the place of the first slot towards the point above the centre.
pub open spec fn dock_direction_of(width: i64, height: i64, config: Config) -> Vec2 {
    start_position_of(width, height, config).direction_of(curve_target_of(height, config))
}

/// The direction in which the dock runs in a window of the given size.
pub fn dock_direction(width: i64, height: i64, config: &Config) -> (d: Vec2)
    requires
        config.frames(),
        0 <= width <= MAX_COORD,
        0 <= height <= MAX_COORD,
    ensures
        d == dock_direction_of(width, height, *config),
        is_direction(d),
{
    let start = start_position(width, height, config);
    let target = curve_target(height, config);
    start.direction_to(target)
}

/// The place of the first slot in a window of the given size.
pub fn start_position(width: i64, height: i64, config: &Config) -> (r: Vec2)
    requires
        config.frames(),
        0 <= width <= MAX_COORD,
        0 <= height <= MAX_COORD,
    ensures
        r == start_position_of(width, height, *config),
        r.in_range(),
{
    Vec2 { x: config.margin_x - width / 2, y: config.margin_y - height / 2 }
}

/// The point that the dock runs towards.
pub fn curve_target(height: i64, config: &Config) -> (r: Vec2)
    requires
        config.frames(),
        0 <= height <= MAX_COORD,
    ensures
        r == curve_target_of(height, *config),
        r.x == 0,
        -10_000_000_000_000_000 <= r.y <= 10_000_000_000_000_000,
{
    assert(-10_000_000_000_000_000_000 <= height * config.tilt_y <= 10_000_000_000_000_000_000)
        by (nonlinear_arith)
        requires
            0 <= height <= 1_000_000_000_000,
            -10_000_000 <= config.tilt_y <= 10_000_000,
    ;
    let product: i128 = (height as i128) * (config.tilt_y as i128);
    let y: i128 = if product >= 0 {
        product / 1000
    } else {
        -((-product) / 1000)
    };
    Vec2 { x: 0, y: y as i64 }
}

} // verus!
