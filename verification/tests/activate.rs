use anny_dock::activate::{
    clicked_slot, focus_target, icon_click_system, keybind_launch_visible_icons, Activation,
};
use anny_dock::config::Config;
use anny_dock::dock::{Change, Dock};
use anny_dock::drag::UiState;
use anny_dock::geometry::{Vec2, Vec3, UNIT};
use anny_dock::hover::{HoverTarget, Icon};
use anny_dock::persist::{favorites_from_list, load_favorites, save_favorites};
use anny_dock::pins::{hovered_slot, toggle_favorite_system, FavoriteToggle};
use anny_dock::scroll::ScrollState;
use anny_dock::types::{Client, DockKey, Favorites};
use anny_dock::ui::{
    icon_scale_animation_system, toggle_titles, update_sprite_alpha, ScrollAnimationState,
    ShowTitles,
};

fn icon(x: i64, hovered: bool) -> Icon {
    Icon {
        translation: Vec3 { x, y: 0, z: 0 },
        hover: HoverTarget {
            original_position: Vec2 { x, y: 0 },
            original_z: 0,
            original_scale: 1000,
            index: 0,
            is_hovered: hovered,
            hover_exit_timer: None,
        },
    }
}

fn sample_dock() -> Dock {
    let clients: Vec<Client> = (0..10)
        .map(|i| Client { class: format!("c{}", i), address: format!("0x{}", i), name: None })
        .collect();
    Dock::new(&vec!["mpv".to_string()], &clients)
}

#[test]
fn focus_target_gets_its_prefix_once() {
    assert_eq!(focus_target("0x55d0"), "address:0x55d0");
    assert_eq!(focus_target("address:0x55d0"), "address:0x55d0");
    assert_eq!(focus_target(""), "address:");
    assert_eq!(focus_target("address"), "address:address");
}

#[test]
fn running_slot_is_focused_and_placeholder_is_launched() {
    let dock = sample_dock();
    assert_eq!(dock.activation(0), Some(Activation::Launch("mpv".to_string())));
    assert_eq!(dock.activation(1), Some(Activation::Focus("address:0x0".to_string())));
    assert_eq!(dock.activation(11), None);
    assert_eq!(
        DockKey::Running("address:7".to_string()).activation(),
        Activation::Focus("address:7".to_string())
    );
}

#[test]
fn number_keys_reach_the_visible_slots() {
    let dock = sample_dock();
    let config = Config::default();
    let mut scroll = ScrollState::default();
    assert_eq!(
        keybind_launch_visible_icons(&dock, &scroll, &config, 0),
        Some(Activation::Launch("mpv".to_string()))
    );
    assert_eq!(
        keybind_launch_visible_icons(&dock, &scroll, &config, 7),
        Some(Activation::Focus("address:0x6".to_string()))
    );
    assert_eq!(keybind_launch_visible_icons(&dock, &scroll, &config, 8), None);
    scroll.total_scroll_distance = 2 * config.spacing + 1;
    assert_eq!(
        keybind_launch_visible_icons(&dock, &scroll, &config, 0),
        Some(Activation::Focus("address:0x1".to_string()))
    );
    scroll.total_scroll_distance = 5 * config.spacing;
    assert_eq!(
        keybind_launch_visible_icons(&dock, &scroll, &config, 5),
        Some(Activation::Focus("address:0x9".to_string()))
    );
    assert_eq!(keybind_launch_visible_icons(&dock, &scroll, &config, 6), None);
    let wide = Config { visible_items: 20, ..config };
    scroll.total_scroll_distance = 0;
    assert_eq!(
        keybind_launch_visible_icons(&dock, &scroll, &wide, 9),
        Some(Activation::Focus("address:0x8".to_string()))
    );
    assert_eq!(keybind_launch_visible_icons(&dock, &scroll, &wide, 10), None);
    scroll.total_scroll_distance = i64::MAX;
    assert_eq!(keybind_launch_visible_icons(&dock, &scroll, &wide, 1), None);
}

#[test]
fn click_activates_the_first_hovered_icon_under_the_pointer() {
    let dock = sample_dock();
    let config = Config::default();
    let ui = UiState::default();
    let icons = vec![icon(0, false), icon(40000, true), icon(50000, true)];
    let at = Some(Vec2 { x: 45000, y: 0 });
    assert_eq!(clicked_slot(&icons, 56000, Vec2 { x: 45000, y: 0 }), 1);
    assert_eq!(clicked_slot(&icons, 56000, Vec2 { x: 11000, y: 0 }), 3);
    assert_eq!(clicked_slot(&icons, 56000, Vec2 { x: 12000, y: 28000 }), 1);
    assert_eq!(clicked_slot(&icons, 56000, Vec2 { x: 12000, y: 28001 }), 3);
    assert_eq!(clicked_slot(&icons, -1, Vec2 { x: 40000, y: 0 }), 3);
    assert_eq!(
        icon_click_system(&dock, &ui, true, at, &config, &icons),
        Some(Activation::Focus("address:0x0".to_string()))
    );
    assert_eq!(icon_click_system(&dock, &ui, false, at, &config, &icons), None);
    assert_eq!(icon_click_system(&dock, &ui, true, None, &config, &icons), None);
    let busy = UiState { dragging: Some(1), click_origin: None };
    assert_eq!(icon_click_system(&dock, &busy, true, at, &config, &icons), None);
    let small = Dock::new(&vec![], &vec![]);
    assert_eq!(icon_click_system(&small, &ui, true, at, &config, &icons), None);
}

#[test]
fn right_button_switches_the_pin_of_the_hovered_icon() {
    let mut dock = sample_dock();
    let mut icons: Vec<Icon> = (0..11).map(|i| icon(i * 40000, false)).collect();
    assert_eq!(hovered_slot(&icons), 11);
    assert_eq!(toggle_favorite_system(&mut dock, true, &icons), None);
    icons[3].hover.is_hovered = true;
    icons[5].hover.is_hovered = true;
    assert_eq!(hovered_slot(&icons), 3);
    assert_eq!(toggle_favorite_system(&mut dock, false, &icons), None);
    assert_eq!(dock, sample_dock());
    assert_eq!(
        toggle_favorite_system(&mut dock, true, &icons),
        Some(FavoriteToggle { slot: 3, class: "c2".to_string(), change: Change::Hidden })
    );
    assert_eq!(dock.favorites.0, vec!["mpv".to_string(), "c2".to_string()]);
    assert_eq!(dock.slot_class(3), Some("c2".to_string()));
    assert_eq!(dock.slot_class(0), Some("mpv".to_string()));
    assert_eq!(dock.slot_class(11), None);
    icons[0].hover.is_hovered = true;
    assert_eq!(
        toggle_favorite_system(&mut dock, true, &icons),
        Some(FavoriteToggle {
            slot: 0,
            class: "mpv".to_string(),
            change: Change::Removed { index: 0 }
        })
    );
    assert_eq!(dock.order.0.len(), 10);
    assert_eq!(dock.favorites.0, vec!["c2".to_string()]);
}

#[test]
fn stored_favorites_are_read_as_a_list_of_names() {
    assert_eq!(
        load_favorites(Some("[\"kitty\", \"firefox\"]")),
        Favorites(vec!["kitty".to_string(), "firefox".to_string()])
    );
    assert_eq!(load_favorites(Some("[]")), Favorites(vec![]));
    assert_eq!(load_favorites(Some("[\"a\\\"b\", \"\\u00e9\"]")), Favorites(vec!["a\"b".to_string(), "é".to_string()]));
}

#[test]
fn missing_or_broken_store_gives_no_favorites() {
    assert_eq!(load_favorites(None), Favorites(vec![]));
    assert_eq!(load_favorites(Some("")), Favorites(vec![]));
    assert_eq!(load_favorites(Some("{\"kitty\": 1}")), Favorites(vec![]));
    assert_eq!(load_favorites(Some("[1, 2]")), Favorites(vec![]));
    assert_eq!(load_favorites(Some("[\"kitty\"")), Favorites(vec![]));
    assert_eq!(favorites_from_list(None), Favorites(vec![]));
    assert_eq!(favorites_from_list(Some(vec!["x".to_string()])), Favorites(vec!["x".to_string()]));
}

#[test]
fn favorites_are_written_as_json_and_read_back() {
    let favorites = Favorites(vec!["kitty".to_string(), "a\"b".to_string()]);
    let text = save_favorites(&favorites).unwrap();
    assert_eq!(text, "[\"kitty\",\"a\\\"b\"]");
    assert_eq!(load_favorites(Some(text.as_str())), favorites);
    assert_eq!(save_favorites(&Favorites(vec![])), Some("[]".to_string()));
}

#[test]
fn titles_switch_on_a_key_press() {
    let mut show = ShowTitles(false);
    assert_eq!(toggle_titles(&mut show, false), None);
    assert_eq!(show, ShowTitles(false));
    assert_eq!(toggle_titles(&mut show, true), Some(true));
    assert_eq!(show, ShowTitles(true));
    assert_eq!(toggle_titles(&mut show, true), Some(false));
    assert_eq!(show, ShowTitles(false));
}

#[test]
fn scrolling_fades_out_after_the_wheel_rests() {
    let mut state = ScrollAnimationState::default();
    icon_scale_animation_system(&mut state, false, 100);
    assert_eq!(state, ScrollAnimationState { is_scrolling: false, timer: 0 });
    icon_scale_animation_system(&mut state, true, 100);
    assert_eq!(state, ScrollAnimationState { is_scrolling: true, timer: 0 });
    icon_scale_animation_system(&mut state, false, 299);
    assert_eq!(state, ScrollAnimationState { is_scrolling: true, timer: 299 });
    icon_scale_animation_system(&mut state, true, 5);
    assert_eq!(state, ScrollAnimationState { is_scrolling: true, timer: 0 });
    icon_scale_animation_system(&mut state, false, 299);
    icon_scale_animation_system(&mut state, false, 1);
    assert_eq!(state, ScrollAnimationState { is_scrolling: false, timer: 300 });
    icon_scale_animation_system(&mut state, true, 0);
    icon_scale_animation_system(&mut state, false, u64::MAX);
    icon_scale_animation_system(&mut state, false, u64::MAX);
    assert_eq!(state, ScrollAnimationState { is_scrolling: false, timer: u64::MAX });
}

#[test]
fn placeholder_is_drawn_faint() {
    assert_eq!(update_sprite_alpha(true, false), 500);
    assert_eq!(update_sprite_alpha(true, true), UNIT);
    assert_eq!(update_sprite_alpha(false, true), UNIT);
    assert_eq!(update_sprite_alpha(false, false), UNIT);
}
