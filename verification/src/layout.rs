//! The layout calculator: from a slot's index to the place and the scale of
//! its icon.

use vstd::prelude::*;
use crate::config::Config;
use crate::geometry::{Vec2, Vec3, UNIT};

verus! {

/// The factor by which the gaps between icons are wider than the spacing.
pub const SPACING_BOOST: i64 = 1200;

/// The largest index that the layout takes.
pub const MAX_SLOTS: usize = 1_000_000;

/// `value` after `steps` steps, each of which multiplies it by `factor` and
/// drops what is less than a thousandth.
pub open spec fn decayed(value: int, factor: int, steps: nat) -> int
    decreases steps,
{
    if steps == 0 {
        value
    } else {
        decayed(value, factor, (steps - 1) as nat) * factor / (UNIT as int)
    }
}

/// The sum of the first `terms` powers of `ratio`, the power zero first.
pub open spec fn series(ratio: int, terms: nat) -> int
    decreases terms,
{
    if terms == 0 {
        0
    } else {
        series(ratio, (terms - 1) as nat) + decayed(UNIT as int, ratio, (terms - 1) as nat)
    }
}

/// `a / b`, rounded towards zero.
pub open spec fn toward_zero(a: int, b: int) -> int {
    if a >= 0 {
        a / b
    } else {
        -((-a) / b)
    }
}

/// How far from the start of the dock the icon of slot `index` stands.
pub open spec fn run_length(config: Config, index: nat) -> int {
    series(config.ratio(), index) * config.spacing * SPACING_BOOST * config.base_scale / (
    1_000_000_000int)
}

/// Whether the dock is scrolled: its scroll offset is not zero.
pub open spec fn is_scrolling(scroll_offset: Vec2) -> bool {
    scroll_offset.x != 0 || scroll_offset.y != 0
}

/// The scale of the icon of slot `index`: the base scale, multiplied by the
/// scale factor once for each slot before it. While the dock is scrolled
/// every icon has the base scale.
pub open spec fn icon_scale(config: Config, index: nat, scroll_offset: Vec2) -> int {
    if is_scrolling(scroll_offset) {
        config.base_scale as int
    } else {
        decayed(config.base_scale as int, config.scale_factor as int, index)
    }
}

/// The place of the icon of slot `index`: from `start_pos` along
/// `direction` by the slot's run length, back by the scroll offset, and
/// behind the slots before it by `z_spacing` each.
pub open spec fn icon_position(
    index: nat,
    start_pos: Vec2,
    direction: Vec2,
    config: Config,
    scroll_offset: Vec2,
) -> (int, int, int) {
    let run = run_length(config, index);
    (
        start_pos.x + toward_zero(direction.x * run, UNIT as int) - scroll_offset.x,
        start_pos.y + toward_zero(direction.y * run, UNIT as int) - scroll_offset.y,
        -(index * config.z_spacing),
    )
}

/// The place and the scale of the icon of slot `index`, as one value.
pub open spec fn icon_transform(
    index: nat,
    start_pos: Vec2,
    direction: Vec2,
    config: Config,
    scroll_offset: Vec2,
) -> (Vec3, i64) {
    let place = icon_position(index, start_pos, direction, config, scroll_offset);
    (
        Vec3 { x: place.0 as i64, y: place.1 as i64, z: place.2 as i64 },
        icon_scale(config, index, scroll_offset) as i64,
    )
}

/// Whether `direction` is a direction: a vector no longer than one.
pub open spec fn is_direction(direction: Vec2) -> bool {
    direction.x * direction.x + direction.y * direction.y <= UNIT * UNIT
}

/// Neither part of a direction is longer than one.
pub proof fn lemma_direction_parts(direction: Vec2)
    requires
        is_direction(direction),
    ensures
        -UNIT <= direction.x <= UNIT,
        -UNIT <= direction.y <= UNIT,
{
    let x = direction.x as int;
    let y = direction.y as int;
    assert(-1000 <= x <= 1000 && -1000 <= y <= 1000) by (nonlinear_arith)
        requires
            x * x + y * y <= 1000 * 1000,
    ;
}

/// Whether `direction` is a direction.
pub fn is_a_direction(direction: Vec2) -> (r: bool)
    ensures
        r == is_direction(direction),
{
    if direction.x < -1000 || direction.x > 1000 || direction.y < -1000 || direction.y > 1000 {
        proof {
            if is_direction(direction) {
                lemma_direction_parts(direction);
            }
        }
        return false;
    }
    assert(0 <= direction.x * direction.x <= 1_000_000 && 0 <= direction.y * direction.y
        <= 1_000_000) by (nonlinear_arith)
        requires
            -1000 <= direction.x <= 1000,
            -1000 <= direction.y <= 1000,
    ;
    direction.x * direction.x + direction.y * direction.y <= 1_000_000
}

/// One step of decay does not raise a value, and lowers a positive one when
/// the factor is below one.
pub proof fn lemma_decay_step(value: int, factor: int)
    requires
        0 <= value,
        0 <= factor <= UNIT,
    ensures
        0 <= value * factor / (UNIT as int) <= value,
        factor < UNIT && value > 0 ==> value * factor / (UNIT as int) < value,
{
    assert(0 <= value * factor <= value * 1000) by (nonlinear_arith)
        requires
            0 <= value,
            0 <= factor <= 1000,
    ;
    if factor < UNIT && value > 0 {
        assert(value * factor <= value * 1000 - value) by (nonlinear_arith)
            requires
                0 < value,
                0 <= factor < 1000,
        ;
    }
}

/// A decayed value lies between zero and the value it started from.
pub proof fn lemma_decayed_bounds(value: int, factor: int, steps: nat)
    requires
        0 <= value,
        0 <= factor <= UNIT,
    ensures
        0 <= decayed(value, factor, steps) <= value,
    decreases steps,
{
    if steps > 0 {
        lemma_decayed_bounds(value, factor, (steps - 1) as nat);
        lemma_decay_step(decayed(value, factor, (steps - 1) as nat), factor);
    }
}

/// With a scale factor between zero and one, a slot's icon is smaller than
/// the icon of every slot before it, as long as that one has any size at
/// all.
pub proof fn lemma_decayed_strictly_decreasing(value: int, factor: int, i: nat, j: nat)
    requires
        0 <= value,
        0 < factor < UNIT,
        i < j,
        decayed(value, factor, i) > 0,
    ensures
        decayed(value, factor, j) < decayed(value, factor, i),
    decreases j,
{
    lemma_decayed_bounds(value, factor, (j - 1) as nat);
    lemma_decay_step(decayed(value, factor, (j - 1) as nat), factor);
    if j - 1 > i {
        lemma_decayed_strictly_decreasing(value, factor, i, (j - 1) as nat);
    }
}

/// A series of `terms` powers of a ratio of at most one is at most `terms`.
pub proof fn lemma_series_bounds(ratio: int, terms: nat)
    requires
        0 <= ratio <= UNIT,
    ensures
        0 <= series(ratio, terms) <= terms * UNIT,
    decreases terms,
{
    if terms > 0 {
        lemma_series_bounds(ratio, (terms - 1) as nat);
        lemma_decayed_bounds(UNIT as int, ratio, (terms - 1) as nat);
    }
}

/// With a ratio of one the series of `terms` powers is `terms`.
pub proof fn lemma_series_of_one(terms: nat)
    ensures
        series(UNIT as int, terms) == terms * UNIT,
        decayed(UNIT as int, UNIT as int, terms) == UNIT,
    decreases terms,
{
    if terms > 0 {
        lemma_series_of_one((terms - 1) as nat);
    }
}

/// When the dock is not scrolled and the scale factor lies between zero and
/// one, the icon of a later slot is smaller than the icon of an earlier one,
/// as long as the earlier one has any size at all.
pub proof fn lemma_scale_strictly_decreasing(config: Config, i: nat, j: nat, scroll_offset: Vec2)
    requires
        config.base_scale >= 0,
        0 < config.scale_factor < UNIT,
        !is_scrolling(scroll_offset),
        i < j,
        icon_scale(config, i, scroll_offset) > 0,
    ensures
        icon_scale(config, j, scroll_offset) < icon_scale(config, i, scroll_offset),
{
    lemma_decayed_strictly_decreasing(config.base_scale as int, config.scale_factor as int, i, j);
}

/// While the dock is scrolled, by however small an offset, every icon has
/// the same scale, the base scale.
pub proof fn lemma_scale_flat_while_scrolling(config: Config, i: nat, j: nat, scroll_offset: Vec2)
    requires
        is_scrolling(scroll_offset),
    ensures
        icon_scale(config, i, scroll_offset) == config.base_scale,
        icon_scale(config, i, scroll_offset) == icon_scale(config, j, scroll_offset),
{
}

/// With a positive depth spacing a later slot lies behind every earlier one.
pub proof fn lemma_depth_strictly_decreasing(
    config: Config,
    i: nat,
    j: nat,
    start_pos: Vec2,
    direction: Vec2,
    scroll_offset: Vec2,
)
    requires
        config.z_spacing > 0,
        i < j,
    ensures
        icon_position(j, start_pos, direction, config, scroll_offset).2 < icon_position(
            i,
            start_pos,
            direction,
            config,
            scroll_offset,
        ).2,
{
    assert(i * config.z_spacing < j * config.z_spacing) by (nonlinear_arith)
        requires
            config.z_spacing > 0,
            i < j,
    ;
}

/// `value`, multiplied `steps` times by `factor`.
pub fn decay(value: i64, factor: i64, steps: usize) -> (r: i64)
    requires
        0 <= value,
        0 <= factor <= UNIT,
    ensures
        r == decayed(value as int, factor as int, steps as nat),
        0 <= r <= value,
{
    let mut current: i64 = value;
    let mut k: usize = 0;
    while k < steps
        invariant
            k <= steps,
            0 <= factor <= UNIT,
            0 <= current <= value,
            current == decayed(value as int, factor as int, k as nat),
        decreases steps - k,
    {
        proof {
            lemma_decay_step(current as int, factor as int);
            assert(0 <= current * factor <= 0x7fff_ffff_ffff_ffff * 1000) by (nonlinear_arith)
                requires
                    0 <= current <= 0x7fff_ffff_ffff_ffff,
                    0 <= factor <= 1000,
            ;
        }
        let product: i128 = (current as i128) * (factor as i128);
        current = (product / 1000) as i64;
        k += 1;
    }
    current
}

/// The sum of the first `terms` powers of `ratio`.
pub fn series_sum(ratio: i64, terms: usize) -> (r: i64)
    requires
        0 <= ratio <= UNIT,
        terms <= MAX_SLOTS,
    ensures
        r == series(ratio as int, terms as nat),
        0 <= r <= terms * UNIT,
{
    let mut sum: i64 = 0;
    let mut power: i64 = 1000;
    let mut k: usize = 0;
    while k < terms
        invariant
            k <= terms <= MAX_SLOTS,
            0 <= ratio <= UNIT,
            0 <= power <= UNIT,
            power == decayed(UNIT as int, ratio as int, k as nat),
            sum == series(ratio as int, k as nat),
            0 <= sum <= k * UNIT,
        decreases terms - k,
    {
        proof {
            lemma_decay_step(power as int, ratio as int);
            assert(0 <= power * ratio <= 1_000_000) by (nonlinear_arith)
                requires
                    0 <= power <= 1000,
                    0 <= ratio <= 1000,
            ;
        }
        sum = sum + power;
        power = power * ratio / 1000;
        k += 1;
    }
    sum
}

/// `a * b / UNIT`, rounded towards zero.
fn along(a: i64, b: i64) -> (r: i64)
    requires
        -UNIT <= a <= UNIT,
        0 <= b <= 1_000_000_000_000_000_000,
    ensures
        r == toward_zero(a * b, UNIT as int),
        -b <= r <= b,
{
    assert(-1000 * b <= a * b <= 1000 * b) by (nonlinear_arith)
        requires
            -1000 <= a <= 1000,
            0 <= b,
    ;
    let product: i128 = (a as i128) * (b as i128);
    if product >= 0 {
        (product / 1000) as i64
    } else {
        (-((-product) / 1000)) as i64
    }
}

/// Where the icon of slot `index` stands and how large it is drawn.
/// `start_pos` is the place of the first slot, `direction` the direction in
/// which the dock runs, and `scroll_offset` how far the dock is scrolled.
pub fn calculate_icon_transform(
    index: usize,
    start_pos: Vec2,
    direction: Vec2,
    config: &Config,
    scroll_offset: Vec2,
) -> (r: (Vec3, i64))
    requires
        index <= MAX_SLOTS,
        config.places_icons(),
        start_pos.in_range(),
        scroll_offset.in_range(),
        is_direction(direction),
    ensures
        r == icon_transform(index as nat, start_pos, direction, *config, scroll_offset),
        r.0.x == icon_position(index as nat, start_pos, direction, *config, scroll_offset).0,
        r.0.y == icon_position(index as nat, start_pos, direction, *config, scroll_offset).1,
        r.0.z == icon_position(index as nat, start_pos, direction, *config, scroll_offset).2,
        r.1 == icon_scale(*config, index as nat, scroll_offset),
        0 <= r.1 <= config.base_scale,
{
    proof {
        lemma_direction_parts(direction);
    }
    let ratio = config.spacing_ratio();
    let multiplier = series_sum(ratio, index);
    assert(0 <= multiplier <= 1_000_000_000);
    assert(0 <= multiplier * config.spacing <= 10_000_000_000_000_000) by (nonlinear_arith)
        requires
            0 <= multiplier <= 1_000_000_000,
            0 <= config.spacing <= 10_000_000,
    ;
    let spaced: i128 = (multiplier as i128) * (config.spacing as i128);
    let boosted: i128 = spaced * 1200;
    assert(0 <= boosted * config.base_scale <= 120_000_000_000_000_000_000_000_000)
        by (nonlinear_arith)
        requires
            0 <= boosted <= 12_000_000_000_000_000_000,
            0 <= config.base_scale <= 10_000_000,
    ;
    let run: i64 = (boosted * (config.base_scale as i128) / 1_000_000_000) as i64;
    assert(run == run_length(*config, index as nat)) by {
        assert(boosted == multiplier * config.spacing * SPACING_BOOST);
    }
    let x = start_pos.x + along(direction.x, run) - scroll_offset.x;
    let y = start_pos.y + along(direction.y, run) - scroll_offset.y;
    assert(0 <= index * config.z_spacing <= 10_000_000_000_000) by (nonlinear_arith)
        requires
            0 <= index <= 1_000_000,
            0 <= config.z_spacing <= 10_000_000,
    ;
    let depth: i64 = ((index as i128) * (config.z_spacing as i128)) as i64;
    let scale = if scroll_offset.x != 0 || scroll_offset.y != 0 {
        config.base_scale
    } else {
        decay(config.base_scale, config.scale_factor, index)
    };
    (Vec3 { x, y, z: -depth }, scale)
}

} // verus!
