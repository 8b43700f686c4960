//! The geometry of the dock. It is set once and read by everything else.

use vstd::prelude::*;
use crate::geometry::UNIT;

verus! {

/// The largest length or factor that a configuration may hold.
pub const MAX_LENGTH: i64 = 10_000_000;

/// The part of the way from the scale factor to one that the spacing of the
/// icons takes, so that the gaps shrink more slowly than the icons.
pub const SCALE_DAMPING: i64 = 400;

/// The parameters of the layout, in thousandths.
#[derive(Clone, Copy, Debug, PartialEq, Eq)]
pub struct Config {
    pub icon_size: i64,
    pub margin_x: i64,
    pub margin_y: i64,
    pub spacing: i64,
    pub z_spacing: i64,
    pub base_scale: i64,
    pub scale_factor: i64,
    pub scroll_speed: i64,
    pub visible_items: usize,
    pub tilt_y: i64,
    pub font_size: i64,
}

impl Config {
    /// The configuration that is used where none is stored.
    pub open spec fn standard() -> Config {
        Config {
            icon_size: 56000,
            margin_x: 85000,
            margin_y: 50000,
            spacing: 40000,
            z_spacing: 2000,
            base_scale: 1200,
            scale_factor: 900,
            scroll_speed: 15000,
            visible_items: 8,
            tilt_y: 250,
            font_size: 16000,
        }
    }

    /// Whether the icons can be placed with this configuration: the spacing,
    /// the depth spacing and the base scale lie between zero and
    /// `MAX_LENGTH`, and the scale factor between zero and one.
    pub open spec fn places_icons(self) -> bool {
        &&& 0 <= self.spacing <= MAX_LENGTH
        &&& 0 <= self.z_spacing <= MAX_LENGTH
        &&& 0 <= self.base_scale <= MAX_LENGTH
        &&& 0 <= self.scale_factor <= UNIT
    }

    /// Whether the dock can be scrolled with this configuration: the spacing
    /// and the scroll speed lie between zero and `MAX_LENGTH`.
    pub open spec fn scrolls(self) -> bool {
        &&& 0 <= self.spacing <= MAX_LENGTH
        &&& 0 <= self.scroll_speed <= MAX_LENGTH
    }

    /// Whether the dock can be set into a window with this configuration:
    /// the margins and the tilt, which may be negative, are no larger than
    /// `MAX_LENGTH` either way.
    pub open spec fn frames(self) -> bool {
        &&& -MAX_LENGTH <= self.margin_x <= MAX_LENGTH
        &&& -MAX_LENGTH <= self.margin_y <= MAX_LENGTH
        &&& -MAX_LENGTH <= self.tilt_y <= MAX_LENGTH
    }

    /// Whether the whole dock can work with this configuration.
    pub open spec fn valid(self) -> bool {
        &&& self.places_icons()
        &&& self.scrolls()
        &&& self.frames()
        &&& 0 <= self.icon_size <= MAX_LENGTH
        &&& 0 <= self.font_size <= MAX_LENGTH
    }

    /// Whether the icons can be placed with this configuration.
    pub fn can_place_icons(&self) -> (r: bool)
        ensures
            r == self.places_icons(),
    {
        0 <= self.spacing && self.spacing <= MAX_LENGTH && 0 <= self.z_spacing && self.z_spacing
            <= MAX_LENGTH && 0 <= self.base_scale && self.base_scale <= MAX_LENGTH && 0
            <= self.scale_factor && self.scale_factor <= UNIT
    }

    /// Whether the dock can be scrolled with this configuration.
    pub fn can_scroll(&self) -> (r: bool)
        ensures
            r == self.scrolls(),
    {
        0 <= self.spacing && self.spacing <= MAX_LENGTH && 0 <= self.scroll_speed
            && self.scroll_speed <= MAX_LENGTH
    }

    /// Whether the dock can be set into a window with this configuration.
    pub fn can_frame(&self) -> (r: bool)
        ensures
            r == self.frames(),
    {
        -MAX_LENGTH <= self.margin_x && self.margin_x <= MAX_LENGTH && -MAX_LENGTH <= self.margin_y
            && self.margin_y <= MAX_LENGTH && -MAX_LENGTH <= self.tilt_y && self.tilt_y
            <= MAX_LENGTH
    }

    /// Whether the whole dock can work with this configuration.
    pub fn is_valid(&self) -> (r: bool)
        ensures
            r == self.valid(),
    {
        self.can_place_icons() && self.can_scroll() && self.can_frame() && 0 <= self.icon_size
            && self.icon_size <= MAX_LENGTH && 0 <= self.font_size && self.font_size <= MAX_LENGTH
    }

    /// The ratio by which the gap between two icons shrinks from one slot to
    /// the next: the scale factor, moved towards one by `SCALE_DAMPING`.
    pub open spec fn ratio(self) -> int {
        self.scale_factor + (UNIT - self.scale_factor) * SCALE_DAMPING / (UNIT as int)
    }

    /// The ratio by which the gap between two icons shrinks.
    pub fn spacing_ratio(&self) -> (r: i64)
        requires
            self.places_icons(),
        ensures
            r == self.ratio(),
            self.scale_factor <= r <= UNIT,
    {
        self.scale_factor + (UNIT - self.scale_factor) * 400 / 1000
    }
}

impl Default for Config {
    fn default() -> (r: Self)
        ensures
            r == Config::standard(),
            r.valid(),
    {
        Config {
            icon_size: 56000,
            margin_x: 85000,
            margin_y: 50000,
            spacing: 40000,
            z_spacing: 2000,
            base_scale: 1200,
            scale_factor: 900,
            scroll_speed: 15000,
            visible_items: 8,
            tilt_y: 250,
            font_size: 16000,
        }
    }
}

} // verus!
