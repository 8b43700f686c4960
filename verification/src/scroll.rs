//! The scroll controller: wheel ticks and key presses, gathered into one
//! distance along the dock that never leaves its bounds.

use vstd::prelude::*;
use crate::config::Config;
use crate::geometry::{Vec2, UNIT};
use crate::layout::{is_direction, lemma_direction_parts, toward_zero, MAX_SLOTS};

verus! {

/// How far the dock is scrolled.
#[derive(Clone, Copy, Debug, PartialEq, Eq)]
pub struct ScrollState {
    /// The scroll distance as a vector along the dock.
    pub offset: Vec2,
    /// The scroll distance.
    pub total_scroll_distance: i64,
    pub max_visible_items: usize,
}

impl Default for ScrollState {
    fn default() -> (r: Self)
        ensures
            r.offset == (Vec2 { x: 0, y: 0 }),
            r.total_scroll_distance == 0,
            r.max_visible_items == 8,
    {
        ScrollState { offset: Vec2 { x: 0, y: 0 }, total_scroll_distance: 0, max_visible_items: 8 }
    }
}

/// The largest scroll distance: the spacing of one slot for every slot that
/// does not fit among the visible ones.
pub open spec fn max_scroll(total_items: nat, config: Config) -> int {
    if total_items > config.visible_items {
        (total_items - config.visible_items) * config.spacing
    } else {
        0
    }
}

/// `value`, kept between zero and `max`.
pub open spec fn clamped(value: int, max: int) -> int {
    if value < 0 || max < 0 {
        0
    } else if value > max {
        max
    } else {
        value
    }
}

/// The scroll distance after one step of `delta` thousandths of a wheel
/// tick: the distance moves back by `delta` times the scroll speed and is
/// kept within its bounds.
pub open spec fn scrolled(distance: int, delta: i64, total_items: nat, config: Config) -> int {
    clamped(
        distance - toward_zero(delta * config.scroll_speed, UNIT as int),
        max_scroll(total_items, config),
    )
}

/// The scroll distance after each of `deltas` in turn.
pub open spec fn scrolled_all(distance: int, deltas: Seq<i64>, total_items: nat, config: Config) -> int
    decreases deltas.len(),
{
    if deltas.len() == 0 {
        clamped(distance, max_scroll(total_items, config))
    } else {
        scrolled(
            scrolled_all(distance, deltas.drop_last(), total_items, config),
            deltas.last(),
            total_items,
            config,
        )
    }
}

/// The scroll distance as a vector along `direction`.
pub open spec fn offset_along(direction: Vec2, distance: int) -> (int, int) {
    (toward_zero(direction.x * distance, UNIT as int), toward_zero(direction.y * distance, UNIT as int))
}

/// The index of the first slot that is visible at a scroll distance.
pub open spec fn first_visible(distance: int, config: Config) -> int {
    if config.spacing > 0 && distance >= 0 {
        distance / (config.spacing as int)
    } else {
        0
    }
}

impl ScrollState {
    /// The invariant of the scroll state for a dock of `total_items` slots:
    /// the distance lies between zero and the largest scroll distance.
    pub open spec fn within(self, total_items: nat, config: Config) -> bool {
        0 <= self.total_scroll_distance <= max_scroll(total_items, config)
    }

    /// The state at the distance `distance` along `direction`.
    pub open spec fn at(self, direction: Vec2, distance: int) -> ScrollState {
        ScrollState {
            offset: Vec2 {
                x: offset_along(direction, distance).0 as i64,
                y: offset_along(direction, distance).1 as i64,
            },
            total_scroll_distance: distance as i64,
            max_visible_items: self.max_visible_items,
        }
    }
}

/// However the dock is scrolled, the scroll distance stays within its
/// bounds.
pub proof fn lemma_scrolled_all_within(
    distance: int,
    deltas: Seq<i64>,
    total_items: nat,
    config: Config,
)
    requires
        config.spacing >= 0,
    ensures
        0 <= scrolled_all(distance, deltas, total_items, config) <= max_scroll(total_items, config),
    decreases deltas.len(),
{
    assert(max_scroll(total_items, config) >= 0) by (nonlinear_arith)
        requires
            config.spacing >= 0,
            max_scroll(total_items, config) == if total_items > config.visible_items {
                (total_items - config.visible_items) * config.spacing
            } else {
                0
            },
    ;
    if deltas.len() > 0 {
        lemma_scrolled_all_within(distance, deltas.drop_last(), total_items, config);
    }
}

/// The visible slots never run past the last slot: with the scroll distance
/// within its bounds, the first visible slot and the visible ones behind it
/// are slots of the dock.
pub proof fn lemma_first_visible_bound(state: ScrollState, total_items: nat, config: Config)
    requires
        state.within(total_items, config),
        config.spacing > 0,
        total_items >= config.visible_items,
    ensures
        0 <= first_visible(state.total_scroll_distance as int, config),
        first_visible(state.total_scroll_distance as int, config) + config.visible_items
            <= total_items,
{
    let d = state.total_scroll_distance as int;
    let s = config.spacing as int;
    let extra = total_items - config.visible_items;
    assert(d / s <= extra) by (nonlinear_arith)
        requires
            0 <= d <= extra * s,
            s > 0,
            extra >= 0,
    ;
    assert(0 <= d / s) by (nonlinear_arith)
        requires
            0 <= d,
            s > 0,
    ;
}

/// `a * b / UNIT`, rounded towards zero.
fn scale_toward_zero(a: i64, b: i64) -> (r: i128)
    ensures
        r == toward_zero(a * b, UNIT as int),
        a * b >= 0 ==> 0 <= r <= a * b,
        a * b <= 0 ==> a * b <= r <= 0,
{
    assert(-0x4000_0000_0000_0000_0000_0000_0000_0000 <= a * b
        <= 0x4000_0000_0000_0000_0000_0000_0000_0000) by (nonlinear_arith)
        requires
            -0x8000_0000_0000_0000 <= a <= 0x7fff_ffff_ffff_ffff,
            -0x8000_0000_0000_0000 <= b <= 0x7fff_ffff_ffff_ffff,
    ;
    let product: i128 = (a as i128) * (b as i128);
    if product >= 0 {
        product / 1000
    } else {
        -((-product) / 1000)
    }
}

/// The largest scroll distance for a dock of `total_items` slots.
pub fn scroll_limit(total_items: usize, config: &Config) -> (r: i64)
    requires
        config.scrolls(),
        total_items <= MAX_SLOTS,
    ensures
        r == max_scroll(total_items as nat, *config),
        0 <= r <= 10_000_000_000_000,
{
    if total_items > config.visible_items {
        let extra = total_items - config.visible_items;
        assert(0 <= extra * config.spacing <= 10_000_000_000_000) by (nonlinear_arith)
            requires
                0 <= extra <= 1_000_000,
                0 <= config.spacing <= 10_000_000,
        ;
        ((extra as i128) * (config.spacing as i128)) as i64
    } else {
        0
    }
}

/// One step of scrolling.
fn scroll_step(distance: i64, delta: i64, limit: i64, config: &Config) -> (r: i64)
    requires
        config.scrolls(),
        0 <= limit <= 10_000_000_000_000,
    ensures
        r == clamped(distance - toward_zero(delta * config.scroll_speed, UNIT as int), limit as int),
        0 <= r <= limit,
{
    assert(-100_000_000_000_000_000_000_000_000 <= delta * config.scroll_speed
        <= 100_000_000_000_000_000_000_000_000) by (nonlinear_arith)
        requires
            -0x8000_0000_0000_0000 <= delta <= 0x7fff_ffff_ffff_ffff,
            0 <= config.scroll_speed <= 10_000_000,
    ;
    let amount: i128 = scale_toward_zero(delta, config.scroll_speed);
    let moved: i128 = (distance as i128) - amount;
    if moved < 0 {
        0
    } else if moved > limit as i128 {
        limit
    } else {
        moved as i64
    }
}

/// Puts the state at `distance` along `direction`.
fn settle(state: &mut ScrollState, direction: Vec2, distance: i64)
    requires
        is_direction(direction),
        0 <= distance <= 10_000_000_000_000,
    ensures
        *final(state) == old(state).at(direction, distance as int),
        distance == 0 ==> final(state).offset == (Vec2 { x: 0, y: 0 }),
{
    proof {
        lemma_direction_parts(direction);
    }
    assert(-1000 * distance <= direction.x * distance <= 1000 * distance) by (nonlinear_arith)
        requires
            -1000 <= direction.x <= 1000,
            0 <= distance,
    ;
    assert(-1000 * distance <= direction.y * distance <= 1000 * distance) by (nonlinear_arith)
        requires
            -1000 <= direction.y <= 1000,
            0 <= distance,
    ;
    assert(distance == 0 ==> direction.x * distance == 0 && direction.y * distance == 0);
    let x = scale_toward_zero(direction.x, distance);
    let y = scale_toward_zero(direction.y, distance);
    state.offset = Vec2 { x: x as i64, y: y as i64 };
    state.total_scroll_distance = distance;
}

/// Scrolls the dock by the wheel movements of one tick. `deltas` holds each
/// movement in thousandths of a wheel tick, `total_items` is the number of
/// slots, and `direction` the direction in which the dock runs. A dock whose
/// slots are all visible is not scrolled at all.
pub fn scroll_system(
    state: &mut ScrollState,
    deltas: &Vec<i64>,
    total_items: usize,
    config: &Config,
    direction: Vec2,
)
    requires
        config.scrolls(),
        total_items <= MAX_SLOTS,
        is_direction(direction),
    ensures
        *final(state) == old(state).at(
            direction,
            scrolled_all(
                old(state).total_scroll_distance as int,
                deltas@,
                total_items as nat,
                *config,
            ),
        ),
        final(state).within(total_items as nat, *config),
        total_items <= config.visible_items ==> final(state).total_scroll_distance == 0
            && final(state).offset == (Vec2 { x: 0, y: 0 }),
{
    let limit = scroll_limit(total_items, config);
    let mut distance: i64 = state.total_scroll_distance;
    if distance < 0 {
        distance = 0;
    } else if distance > limit {
        distance = limit;
    }
    let mut i: usize = 0;
    assert(deltas@.take(0) =~= Seq::empty());
    while i < deltas.len()
        invariant
            i <= deltas@.len(),
            config.scrolls(),
            limit == max_scroll(total_items as nat, *config),
            0 <= limit <= 10_000_000_000_000,
            0 <= distance <= limit,
            distance == scrolled_all(
                old(state).total_scroll_distance as int,
                deltas@.take(i as int),
                total_items as nat,
                *config,
            ),
        decreases deltas@.len() - i,
    {
        distance = scroll_step(distance, deltas[i], limit, config);
        assert(deltas@.take(i + 1).drop_last() =~= deltas@.take(i as int));
        assert(deltas@.take(i + 1).last() == deltas@[i as int]);
        i += 1;
    }
    assert(deltas@.take(i as int) =~= deltas@);
    settle(state, direction, distance);
}

/// How far a press of the arrow keys moves the scroll distance: back by
/// the scroll speed for the left key, on by the scroll speed for the right
/// key, and not at all where both are pressed or neither is.
pub open spec fn arrow_step(left: bool, right: bool, config: Config) -> int {
    (if right {
        config.scroll_speed as int
    } else {
        0
    }) - (if left {
        config.scroll_speed as int
    } else {
        0
    })
}

/// The scroll distance after a press of the arrow keys: moved by the two
/// keys together, then kept within its bounds.
pub open spec fn scrolled_by_arrows(
    distance: int,
    left: bool,
    right: bool,
    total_items: nat,
    config: Config,
) -> int {
    clamped(distance + arrow_step(left, right, config), max_scroll(total_items, config))
}

/// Scrolls the dock by the arrow keys: the left key moves the scroll
/// distance back by the scroll speed, the right key moves it on.
pub fn scroll_with_arrows(
    state: &mut ScrollState,
    left: bool,
    right: bool,
    total_items: usize,
    config: &Config,
    direction: Vec2,
)
    requires
        config.scrolls(),
        total_items <= MAX_SLOTS,
        is_direction(direction),
    ensures
        *final(state) == old(state).at(
            direction,
            scrolled_by_arrows(
                old(state).total_scroll_distance as int,
                left,
                right,
                total_items as nat,
                *config,
            ),
        ),
        final(state).within(total_items as nat, *config),
{
    let limit = scroll_limit(total_items, config);
    let mut moved: i128 = state.total_scroll_distance as i128;
    if left {
        moved = moved - (config.scroll_speed as i128);
    }
    if right {
        moved = moved + (config.scroll_speed as i128);
    }
    let distance: i64 = if moved < 0 {
        0
    } else if moved > limit as i128 {
        limit
    } else {
        moved as i64
    };
    settle(state, direction, distance);
}

/// The index of the first visible slot.
pub fn first_visible_index(state: &ScrollState, config: &Config) -> (r: u64)
    ensures
        r == first_visible(state.total_scroll_distance as int, *config),
{
    if config.spacing > 0 && state.total_scroll_distance >= 0 {
        let d = state.total_scroll_distance;
        let s = config.spacing;
        assert(0 <= d / s <= d) by (nonlinear_arith)
            requires
                0 <= d,
                s > 0,
        ;
        (d / s) as u64
    } else {
        0
    }
}

} // verus!
