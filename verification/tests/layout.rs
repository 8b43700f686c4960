use anny_dock::config::Config;
use anny_dock::geometry::{hit_region_contains, axis_gap, Vec2, Vec3, UNIT};
use anny_dock::geometry::isqrt;
use anny_dock::icons::{
    curve_target, dock_direction, lerp, reorder_icons_system, setup_icons, spawn_icon,
    start_position,
};
use anny_dock::layout::{calculate_icon_transform, decay, is_a_direction, series_sum};
use anny_dock::scroll::{
    first_visible_index, scroll_limit, scroll_system, scroll_with_arrows, ScrollState,
};

const RIGHT: Vec2 = Vec2 { x: 1000, y: 0 };
const ORIGIN: Vec2 = Vec2 { x: 0, y: 0 };

#[test]
fn default_config_is_valid() {
    let config = Config::default();
    assert!(config.is_valid());
    assert_eq!(config.icon_size, 56 * UNIT);
    assert_eq!(config.spacing, 40 * UNIT);
    assert_eq!(config.base_scale, 1200);
    assert_eq!(config.scale_factor, 900);
    assert_eq!(config.visible_items, 8);
    assert_eq!(config.spacing_ratio(), 940);
    assert!(!Config { scale_factor: 1001, ..config }.is_valid());
    assert!(!Config { spacing: -1, ..config }.is_valid());
    assert!(!Config { spacing: -1, ..config }.can_place_icons());
    assert!(!Config { spacing: -1, ..config }.can_scroll());
    assert!(Config { spacing: -1, ..config }.can_frame());
    let negative = Config { margin_x: -85000, margin_y: -1, tilt_y: -250, ..config };
    assert!(negative.is_valid());
    assert!(!Config { tilt_y: -10_000_001, ..config }.is_valid());
    assert!(!Config { margin_x: 10_000_001, ..config }.can_frame());
    assert!(Config { margin_x: 10_000_001, ..config }.can_place_icons());
    assert!(!Config { icon_size: -1, ..config }.is_valid());
    assert!(!Config { scroll_speed: -1, ..config }.can_scroll());
    assert!(!Config { base_scale: 10_000_001, ..config }.is_valid());
    assert!(Config { scale_factor: 1000, visible_items: 0, ..config }.is_valid());
}

#[test]
fn powers_and_series_are_exact() {
    assert_eq!(decay(1200, 900, 0), 1200);
    assert_eq!(decay(1200, 900, 1), 1080);
    assert_eq!(decay(1200, 900, 2), 972);
    assert_eq!(decay(1200, 900, 3), 874);
    assert_eq!(decay(1000, 940, 2), 883);
    assert_eq!(decay(1000, 940, 3), 830);
    assert_eq!(decay(5, 1000, 1000), 5);
    assert_eq!(decay(5, 0, 1), 0);
    assert_eq!(series_sum(940, 0), 0);
    assert_eq!(series_sum(940, 1), 1000);
    assert_eq!(series_sum(940, 2), 1940);
    assert_eq!(series_sum(940, 3), 2823);
    assert_eq!(series_sum(940, 4), 3653);
    assert_eq!(series_sum(1000, 7), 7000);
    assert_eq!(series_sum(0, 7), 1000);
}

#[test]
fn first_slot_stands_at_the_start() {
    let config = Config::default();
    let start = Vec2 { x: -875000, y: -490000 };
    let (place, scale) = calculate_icon_transform(0, start, RIGHT, &config, ORIGIN);
    assert_eq!(place, Vec3 { x: -875000, y: -490000, z: 0 });
    assert_eq!(scale, 1200);
}

#[test]
fn third_slot_has_the_expected_place_and_scale() {
    let config = Config::default();
    let (place, scale) = calculate_icon_transform(2, ORIGIN, RIGHT, &config, ORIGIN);
    assert_eq!(place, Vec3 { x: 111744, y: 0, z: -4000 });
    assert_eq!(scale, 972);
    let up_left = Vec2 { x: -600, y: 800 };
    let start = Vec2 { x: 10000, y: -20000 };
    let (place, _) = calculate_icon_transform(2, start, up_left, &config, ORIGIN);
    assert_eq!(place, Vec3 { x: 10000 - 67046, y: -20000 + 89395, z: -4000 });
}

#[test]
fn scroll_offset_moves_every_icon_back_and_flattens_the_scale() {
    let config = Config::default();
    let scroll = Vec2 { x: 80000, y: 0 };
    let (place, scale) = calculate_icon_transform(2, ORIGIN, RIGHT, &config, scroll);
    assert_eq!(place, Vec3 { x: 111744 - 80000, y: 0, z: -4000 });
    assert_eq!(scale, 1200);
    for index in 0..20 {
        let (_, s) = calculate_icon_transform(index, ORIGIN, RIGHT, &config, scroll);
        assert_eq!(s, 1200);
    }
    for tiny in [
        Vec2 { x: 1, y: 0 },
        Vec2 { x: 0, y: -1 },
        Vec2 { x: 60, y: 80 },
        Vec2 { x: -70, y: 70 },
    ] {
        for index in 0..20 {
            let (_, s) = calculate_icon_transform(index, ORIGIN, RIGHT, &config, tiny);
            assert_eq!(s, 1200);
        }
    }
    let (_, s) = calculate_icon_transform(2, ORIGIN, RIGHT, &config, ORIGIN);
    assert_eq!(s, 972);
}

#[test]
fn scale_falls_from_slot_to_slot_and_depth_too() {
    let config = Config::default();
    let mut last_scale = i64::MAX;
    let mut last_depth = i64::MAX;
    let mut last_x = i64::MIN;
    for index in 0..40 {
        let (place, scale) = calculate_icon_transform(index, ORIGIN, RIGHT, &config, ORIGIN);
        assert!(scale < last_scale, "scale at {}", index);
        assert!(place.z < last_depth, "depth at {}", index);
        assert!(place.x > last_x, "place at {}", index);
        last_scale = scale;
        last_depth = place.z;
        last_x = place.x;
    }
}

#[test]
fn same_arguments_give_the_same_placement() {
    let config = Config { scale_factor: 777, spacing: 12345, ..Config::default() };
    let start = Vec2 { x: -1234, y: 5678 };
    let direction = Vec2 { x: 707, y: -707 };
    let scroll = Vec2 { x: 3, y: 4 };
    for index in [0usize, 1, 2, 17, 500].iter() {
        let first = calculate_icon_transform(*index, start, direction, &config, scroll);
        let second = calculate_icon_transform(*index, start, direction, &config, scroll);
        assert_eq!(first, second);
    }
}

#[test]
fn scale_factor_of_one_spaces_the_slots_evenly() {
    let config = Config { scale_factor: 1000, ..Config::default() };
    let (place, scale) = calculate_icon_transform(5, ORIGIN, RIGHT, &config, ORIGIN);
    assert_eq!(place.x, 5 * 40000 * 1200 / 1000 * 1200 / 1000);
    assert_eq!(scale, 1200);
}

#[test]
fn scroll_shifts_the_dock_by_two_slots_and_no_further() {
    let config = Config::default();
    let mut state = ScrollState::default();
    assert_eq!(scroll_limit(10, &config), 80000);
    scroll_system(&mut state, &vec![-1000; 5], 10, &config, RIGHT);
    assert_eq!(state.total_scroll_distance, 75000);
    assert_eq!(first_visible_index(&state, &config), 1);
    scroll_system(&mut state, &vec![-1000], 10, &config, RIGHT);
    assert_eq!(state.total_scroll_distance, 80000);
    assert_eq!(state.offset, Vec2 { x: 80000, y: 0 });
    assert_eq!(first_visible_index(&state, &config), 2);
    scroll_system(&mut state, &vec![-1000, -1000, -250], 10, &config, RIGHT);
    assert_eq!(state.total_scroll_distance, 80000);
    assert_eq!(first_visible_index(&state, &config), 2);
}

#[test]
fn scroll_by_the_spacing_moves_one_slot() {
    let config = Config { scroll_speed: 40000, ..Config::default() };
    let mut state = ScrollState::default();
    scroll_system(&mut state, &vec![-1000], 10, &config, RIGHT);
    assert_eq!(state.total_scroll_distance, 40000);
    assert_eq!(first_visible_index(&state, &config), 1);
    scroll_system(&mut state, &vec![-1000], 10, &config, RIGHT);
    assert_eq!(state.total_scroll_distance, 2 * config.spacing);
    assert_eq!(first_visible_index(&state, &config), 2);
    scroll_system(&mut state, &vec![-1000], 10, &config, RIGHT);
    assert_eq!(state.total_scroll_distance, (10 - 8) * config.spacing);
}

#[test]
fn scroll_never_goes_below_zero() {
    let config = Config::default();
    let mut state = ScrollState::default();
    scroll_system(&mut state, &vec![1000, 1000], 10, &config, RIGHT);
    assert_eq!(state.total_scroll_distance, 0);
    scroll_system(&mut state, &vec![1000, -2000, 500], 10, &config, RIGHT);
    assert_eq!(state.total_scroll_distance, 22500);
    scroll_system(&mut state, &vec![i64::MAX], 10, &config, RIGHT);
    assert_eq!(state.total_scroll_distance, 0);
    scroll_system(&mut state, &vec![i64::MIN], 10, &config, RIGHT);
    assert_eq!(state.total_scroll_distance, 80000);
}

#[test]
fn dock_that_fits_is_not_scrolled() {
    let config = Config::default();
    let mut state = ScrollState {
        offset: Vec2 { x: 30000, y: 40000 },
        total_scroll_distance: 50000,
        max_visible_items: 8,
    };
    scroll_system(&mut state, &vec![-1000], 8, &config, RIGHT);
    assert_eq!(state.total_scroll_distance, 0);
    assert_eq!(state.offset, ORIGIN);
    let mut state = ScrollState { total_scroll_distance: 50000, ..ScrollState::default() };
    scroll_system(&mut state, &vec![], 9, &config, RIGHT);
    assert_eq!(state.total_scroll_distance, 40000);
    assert_eq!(scroll_limit(3, &config), 0);
}

#[test]
fn scroll_offset_follows_the_direction() {
    let config = Config::default();
    let mut state = ScrollState::default();
    scroll_system(&mut state, &vec![-1000], 20, &config, Vec2 { x: 600, y: -800 });
    assert_eq!(state.total_scroll_distance, 15000);
    assert_eq!(state.offset, Vec2 { x: 9000, y: -12000 });
    assert_eq!(state.max_visible_items, 8);
}

#[test]
fn arrow_keys_scroll_by_the_speed() {
    let config = Config::default();
    let mut state = ScrollState::default();
    scroll_with_arrows(&mut state, false, true, 12, &config, RIGHT);
    assert_eq!(state.total_scroll_distance, 15000);
    scroll_with_arrows(&mut state, false, true, 12, &config, RIGHT);
    assert_eq!(state.total_scroll_distance, 30000);
    scroll_with_arrows(&mut state, true, false, 12, &config, RIGHT);
    assert_eq!(state.total_scroll_distance, 15000);
    scroll_with_arrows(&mut state, true, true, 12, &config, RIGHT);
    assert_eq!(state.total_scroll_distance, 15000);
    let mut at_rest = ScrollState::default();
    scroll_with_arrows(&mut at_rest, true, true, 12, &config, RIGHT);
    assert_eq!(at_rest.total_scroll_distance, 0);
    let mut at_end = ScrollState { total_scroll_distance: 160000, ..ScrollState::default() };
    scroll_with_arrows(&mut at_end, true, true, 12, &config, RIGHT);
    assert_eq!(at_end.total_scroll_distance, 160000);
    scroll_with_arrows(&mut at_end, false, true, 12, &config, RIGHT);
    assert_eq!(at_end.total_scroll_distance, 160000);
    assert_eq!(at_end.offset, Vec2 { x: 160000, y: 0 });
    let mut beyond = ScrollState { total_scroll_distance: 500000, ..ScrollState::default() };
    scroll_with_arrows(&mut beyond, false, false, 12, &config, RIGHT);
    assert_eq!(beyond.total_scroll_distance, 160000);
    scroll_with_arrows(&mut state, false, false, 12, &config, RIGHT);
    assert_eq!(state.total_scroll_distance, 15000);
    scroll_with_arrows(&mut state, true, false, 12, &config, RIGHT);
    scroll_with_arrows(&mut state, true, false, 12, &config, RIGHT);
    assert_eq!(state.total_scroll_distance, 0);
}

#[test]
fn first_visible_index_is_zero_without_spacing() {
    let config = Config { spacing: 0, ..Config::default() };
    let state = ScrollState { total_scroll_distance: 5000, ..ScrollState::default() };
    assert_eq!(first_visible_index(&state, &config), 0);
    let back = ScrollState { total_scroll_distance: -5000, ..ScrollState::default() };
    assert_eq!(first_visible_index(&back, &Config::default()), 0);
}

#[test]
fn lerp_moves_a_part_of_the_way() {
    assert_eq!(lerp(0, 1000, 200), 200);
    assert_eq!(lerp(1000, 0, 200), 800);
    assert_eq!(lerp(-7, 7, 500), 0);
    assert_eq!(lerp(0, 4, 200), 0);
    assert_eq!(lerp(0, -4, 200), 0);
    assert_eq!(lerp(0, -5, 200), -1);
    assert_eq!(lerp(3, 9, 0), 3);
    assert_eq!(lerp(3, 9, 1000), 9);
    assert_eq!(lerp(i64::MIN, i64::MAX, 1000), i64::MAX);
}

#[test]
fn icons_move_towards_their_slots() {
    let config = Config::default();
    let mut icons = setup_icons(3, ORIGIN, RIGHT, &config);
    assert_eq!(icons.len(), 3);
    assert_eq!(icons[2], spawn_icon(2, ORIGIN, RIGHT, &config));
    assert_eq!(icons[2].translation, Vec3 { x: 111744, y: 0, z: -4000 });
    assert_eq!(icons[2].hover.original_scale, 972);
    assert_eq!(icons[2].hover.index, 2);
    assert!(!icons[2].hover.is_hovered);
    icons.swap(0, 2);
    icons[1].hover.is_hovered = true;
    reorder_icons_system(&mut icons, ORIGIN, RIGHT, &config, ORIGIN);
    assert_eq!(icons[0].translation, Vec3 { x: 111744 - 22348, y: 0, z: 0 });
    assert_eq!(icons[0].hover.index, 0);
    assert_eq!(icons[0].hover.original_position, Vec2 { x: 0, y: 0 });
    assert_eq!(icons[0].hover.original_scale, 1200);
    assert_eq!(icons[1].translation, Vec3 { x: 57600, y: 0, z: -2000 });
    assert!(icons[1].hover.is_hovered);
    assert_eq!(icons[2].translation, Vec3 { x: 22348, y: 0, z: -4000 });
    assert_eq!(icons[2].hover.original_position, Vec2 { x: 111744, y: 0 });
    assert_eq!(icons[2].hover.original_z, -4000);
    assert_eq!(icons[2].hover.original_scale, 972);
}

#[test]
fn start_and_target_follow_the_window() {
    let config = Config::default();
    assert_eq!(start_position(1920000, 1080000, &config), Vec2 { x: 85000 - 960000, y: 50000 - 540000 });
    assert_eq!(curve_target(1080000, &config), Vec2 { x: 0, y: 270000 });
    assert_eq!(start_position(0, 0, &config), Vec2 { x: 85000, y: 50000 });
    let negative = Config { margin_x: -85000, margin_y: -50000, tilt_y: -250, ..config };
    assert_eq!(
        start_position(1920000, 1080000, &negative),
        Vec2 { x: -85000 - 960000, y: -50000 - 540000 }
    );
    assert_eq!(curve_target(1080000, &negative), Vec2 { x: 0, y: -270000 });
    assert_eq!(curve_target(1, &Config { tilt_y: -999, ..config }), Vec2 { x: 0, y: 0 });
    assert_eq!(curve_target(3, &Config { tilt_y: -999, ..config }), Vec2 { x: 0, y: -2 });
}

#[test]
fn hit_region_is_a_tenth_larger_than_the_icon() {
    let center = Vec2 { x: 100000, y: -50000 };
    assert!(hit_region_contains(center, 56000, 1000, Vec2 { x: 130800, y: -50000 }));
    assert!(!hit_region_contains(center, 56000, 1000, Vec2 { x: 130801, y: -50000 }));
    assert!(hit_region_contains(center, 56000, 1000, Vec2 { x: 69200, y: -80800 }));
    assert!(!hit_region_contains(center, 56000, 1000, Vec2 { x: 69200, y: -80801 }));
    assert!(hit_region_contains(center, 56000, 1200, Vec2 { x: 136960, y: -50000 }));
    assert!(!hit_region_contains(center, 56000, 1200, Vec2 { x: 136961, y: -50000 }));
    assert!(hit_region_contains(center, 0, 1000, center));
    assert!(!hit_region_contains(center, -1, 1000, center));
    assert!(!hit_region_contains(center, 56000, -1000, center));
    assert!(hit_region_contains(
        Vec2 { x: i64::MIN, y: i64::MIN },
        i64::MAX,
        i64::MAX,
        Vec2 { x: i64::MAX, y: i64::MAX }
    ));
}

#[test]
fn distances_are_exact() {
    assert_eq!(axis_gap(3, -4), 7);
    assert_eq!(axis_gap(i64::MIN, i64::MAX), u64::MAX);
    let a = Vec2 { x: 0, y: 0 };
    assert!(!a.is_farther_than(Vec2 { x: 3, y: 4 }, 5));
    assert!(a.is_farther_than(Vec2 { x: 3, y: 4 }, 4));
    assert!(a.is_farther_than(a, -1));
    assert!(!a.is_farther_than(a, 0));
    assert!(Vec2 { x: i64::MIN, y: i64::MIN }.is_farther_than(Vec2 { x: i64::MAX, y: i64::MAX }, i64::MAX));
    assert!(Vec2 { x: 1_000_000_000_000, y: -1_000_000_000_000 }.is_in_range());
    assert!(!Vec2 { x: 1_000_000_000_001, y: 0 }.is_in_range());
    assert_eq!(Vec2::zero(), a);
}

#[test]
fn square_roots_are_rounded_down() {
    assert_eq!(isqrt(0), 0);
    assert_eq!(isqrt(1), 1);
    assert_eq!(isqrt(3), 1);
    assert_eq!(isqrt(4), 2);
    assert_eq!(isqrt(99), 9);
    assert_eq!(isqrt(100), 10);
    assert_eq!(isqrt(10_000_000_000_000_000_000_000_000), 3_162_277_660_168);
    assert_eq!(isqrt(u128::MAX), u64::MAX);
    assert_eq!(isqrt(u128::MAX - 2 * (u64::MAX as u128)), u64::MAX);
    assert_eq!(isqrt(u128::MAX - 2 * (u64::MAX as u128) - 1), u64::MAX - 1);
}

#[test]
fn directions_have_the_length_one() {
    let origin = Vec2 { x: 0, y: 0 };
    assert_eq!(origin.direction_to(Vec2 { x: 5000, y: 0 }), Vec2 { x: 1000, y: 0 });
    assert_eq!(origin.direction_to(Vec2 { x: 0, y: -7 }), Vec2 { x: 0, y: -1000 });
    assert_eq!(origin.direction_to(Vec2 { x: 3000, y: 4000 }), Vec2 { x: 600, y: 800 });
    assert_eq!(origin.direction_to(Vec2 { x: -3000, y: 4000 }), Vec2 { x: -600, y: 800 });
    assert_eq!(origin.direction_to(origin), origin);
    assert_eq!(origin.direction_to(Vec2 { x: 1, y: 1 }), Vec2 { x: 500, y: 500 });
    assert_eq!(origin.direction_to(Vec2 { x: 1, y: 0 }), Vec2 { x: 1000, y: 0 });
    assert_eq!(origin.direction_to(Vec2 { x: -2, y: 1 }), Vec2 { x: -666, y: 333 });
    for target in [
        Vec2 { x: 1, y: 1 },
        Vec2 { x: 7, y: -9 },
        Vec2 { x: -123456, y: 654321 },
        Vec2 { x: 99_999_999_999_999_999, y: 100_000_000_000_000_000 },
    ] {
        let d = origin.direction_to(target);
        assert!(d.x * d.x + d.y * d.y <= 1_000_000, "direction to {:?}", target);
        assert!(is_a_direction(d));
    }
    assert!(is_a_direction(Vec2 { x: 600, y: -800 }));
    assert!(!is_a_direction(Vec2 { x: 601, y: -800 }));
    assert!(!is_a_direction(Vec2 { x: 1000, y: 1000 }));
    assert!(!is_a_direction(Vec2 { x: i64::MIN, y: 0 }));
    assert!(is_a_direction(origin));
    assert_eq!(
        Vec2 { x: 100, y: 100 }.direction_to(Vec2 { x: 1_000_100, y: 1_000_100 }),
        Vec2 { x: 707, y: 707 }
    );
    let far = Vec2 { x: 100_000_000_000_000_000, y: -100_000_000_000_000_000 };
    assert!(far.is_in_reach());
    assert_eq!(
        far.direction_to(Vec2 { x: -100_000_000_000_000_000, y: 100_000_000_000_000_000 }),
        Vec2 { x: -707, y: 707 }
    );
    assert!(!Vec2 { x: 100_000_000_000_000_001, y: 0 }.is_in_reach());
}

#[test]
fn dock_runs_from_the_corner_towards_the_centre() {
    let config = Config::default();
    let direction = dock_direction(1920000, 1080000, &config);
    assert_eq!(start_position(1920000, 1080000, &config), Vec2 { x: -875000, y: -490000 });
    assert_eq!(curve_target(1080000, &config), Vec2 { x: 0, y: 270000 });
    assert_eq!(direction, Vec2 { x: 754, y: 655 });
    assert_eq!(dock_direction(0, 0, &Config { margin_x: 0, margin_y: 0, ..config }), Vec2 { x: 0, y: 0 });
    let negative = Config { margin_x: -85000, margin_y: -50000, tilt_y: -250, ..config };
    let down = dock_direction(1920000, 1080000, &negative);
    assert_eq!(down, Vec2 { x: 956, y: 292 });
    assert!(is_a_direction(down));
}
