use anny_dock::geometry::{Vec2, Vec3};
use anny_dock::hover::{frontmost, hover_system, HoverTarget, Icon, HOVER_EXIT_DELAY};

fn icon(x: i64, z: i64) -> Icon {
    Icon {
        translation: Vec3 { x, y: 0, z },
        hover: HoverTarget {
            original_position: Vec2 { x, y: 0 },
            original_z: z,
            original_scale: 1000,
            index: 0,
            is_hovered: false,
            hover_exit_timer: None,
        },
    }
}

fn hovered(icons: &[Icon]) -> Vec<bool> {
    icons.iter().map(|i| i.hover.is_hovered).collect()
}

#[test]
fn frontmost_icon_wins_where_icons_overlap() {
    let icons = vec![icon(0, 0), icon(40000, -2000), icon(80000, -4000)];
    assert_eq!(frontmost(&icons, 56000, Vec2 { x: 20000, y: 0 }), Some(0));
    assert_eq!(frontmost(&icons, 56000, Vec2 { x: 60000, y: 0 }), Some(1));
    assert_eq!(frontmost(&icons, 56000, Vec2 { x: 100000, y: 0 }), Some(2));
    assert_eq!(frontmost(&icons, 56000, Vec2 { x: 200000, y: 0 }), None);
    assert_eq!(frontmost(&vec![], 56000, Vec2 { x: 0, y: 0 }), None);
    let raised = vec![icon(0, 0), icon(40000, 8000), icon(40000, 8000)];
    assert_eq!(frontmost(&raised, 56000, Vec2 { x: 20000, y: 0 }), Some(1));
}

#[test]
fn hover_starts_at_once_and_only_for_the_front_icon() {
    let mut icons = vec![icon(0, 0), icon(40000, -2000), icon(80000, -4000)];
    hover_system(&mut icons, false, Some(Vec2 { x: 60000, y: 0 }), 56000, 16);
    assert_eq!(hovered(&icons), vec![false, true, false]);
    assert_eq!(icons[1].hover.hover_exit_timer, None);
    hover_system(&mut icons, false, Some(Vec2 { x: 20000, y: 0 }), 56000, 16);
    assert_eq!(hovered(&icons), vec![true, false, false]);
    assert_eq!(icons[1].hover.hover_exit_timer, None);
}

#[test]
fn hover_ends_after_the_delay() {
    let mut icons = vec![icon(0, 0), icon(200000, -2000)];
    hover_system(&mut icons, false, Some(Vec2 { x: 0, y: 0 }), 56000, 16);
    assert_eq!(hovered(&icons), vec![true, false]);
    let away = Some(Vec2 { x: 100000, y: 0 });
    hover_system(&mut icons, false, away, 56000, 40);
    assert_eq!(hovered(&icons), vec![true, false]);
    assert_eq!(icons[0].hover.hover_exit_timer, Some(40));
    hover_system(&mut icons, false, away, 56000, 59);
    assert_eq!(hovered(&icons), vec![true, false]);
    assert_eq!(icons[0].hover.hover_exit_timer, Some(99));
    hover_system(&mut icons, false, away, 56000, 1);
    assert_eq!(hovered(&icons), vec![false, false]);
    assert_eq!(icons[0].hover.hover_exit_timer, None);
    assert_eq!(HOVER_EXIT_DELAY, 100);
}

#[test]
fn pointer_that_comes_back_starts_the_delay_anew() {
    let mut icons = vec![icon(0, 0)];
    let on = Some(Vec2 { x: 0, y: 0 });
    let off = Some(Vec2 { x: 100000, y: 0 });
    hover_system(&mut icons, false, on, 56000, 16);
    hover_system(&mut icons, false, off, 56000, 90);
    assert_eq!(icons[0].hover.hover_exit_timer, Some(90));
    hover_system(&mut icons, false, on, 56000, 16);
    assert!(icons[0].hover.is_hovered);
    assert_eq!(icons[0].hover.hover_exit_timer, None);
    hover_system(&mut icons, false, off, 56000, 90);
    assert!(icons[0].hover.is_hovered);
    hover_system(&mut icons, false, None, 56000, 10);
    assert!(!icons[0].hover.is_hovered);
}

#[test]
fn hover_does_not_change_while_a_slot_is_dragged() {
    let mut icons = vec![icon(0, 0), icon(200000, -2000)];
    icons[1].hover.is_hovered = true;
    icons[1].hover.hover_exit_timer = Some(90);
    let before = icons.clone();
    hover_system(&mut icons, true, Some(Vec2 { x: 0, y: 0 }), 56000, 500);
    assert_eq!(icons, before);
}

#[test]
fn long_tick_ends_the_hover_without_overflow() {
    let mut target = icon(0, 0).hover;
    target.is_hovered = true;
    target.hover_exit_timer = Some(u64::MAX - 1);
    target.leave(u64::MAX);
    assert!(!target.is_hovered);
    assert_eq!(target.hover_exit_timer, None);
    let mut cold = icon(0, 0).hover;
    cold.leave(1000);
    assert_eq!(cold, icon(0, 0).hover);
    assert!(cold.is_in_range());
    cold.original_scale = -1;
    assert!(!cold.is_in_range());
}

#[test]
fn icon_is_touched_within_its_hit_region() {
    let i = icon(0, 0);
    assert!(i.is_touched(56000, Vec2 { x: 30800, y: -30800 }));
    assert!(!i.is_touched(56000, Vec2 { x: 30801, y: 0 }));
}
