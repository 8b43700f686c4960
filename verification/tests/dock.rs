use anny_dock::dock::{Change, Dock};
use anny_dock::events::HyprIpcEvent;
use anny_dock::types::{Client, DockKey};

fn client(address: &str, class: &str) -> Client {
    Client { class: class.to_string(), address: address.to_string(), name: None }
}

fn running(address: &str) -> DockKey {
    DockKey::Running(address.to_string())
}

fn pinned(class: &str) -> DockKey {
    DockKey::Pinned(class.to_string())
}

fn strings(items: &[&str]) -> Vec<String> {
    items.iter().map(|s| s.to_string()).collect()
}

fn has_duplicates(keys: &[DockKey]) -> bool {
    for i in 0..keys.len() {
        for j in (i + 1)..keys.len() {
            if keys[i] == keys[j] {
                return true;
            }
        }
    }
    false
}

fn non_favorite_windows(dock: &Dock) -> usize {
    dock.clients.0.iter().filter(|c| !dock.favorites.0.contains(&c.class)).count()
}

#[test]
fn empty_dock_holds_nothing() {
    let dock = Dock::empty();
    assert!(dock.clients.0.is_empty());
    assert!(dock.favorites.0.is_empty());
    assert!(dock.order.0.is_empty());
    assert!(!dock.reorder_trigger.0);
}

#[test]
fn opened_window_is_appended() {
    let mut dock = Dock::empty();
    assert_eq!(dock.open_window(client("a1", "kitty")), Change::Appended { index: 0 });
    assert_eq!(dock.open_window(client("a2", "firefox")), Change::Appended { index: 1 });
    assert_eq!(dock.order.0, vec![running("a1"), running("a2")]);
    assert_eq!(dock.clients.0, vec![client("a1", "kitty"), client("a2", "firefox")]);
    assert!(dock.reorder_trigger.0);
}

#[test]
fn opened_window_takes_the_slot_of_its_placeholder() {
    let mut dock = Dock::new(&strings(&["kitty", "firefox", "mpv"]), &vec![]);
    assert_eq!(dock.order.0, vec![pinned("kitty"), pinned("firefox"), pinned("mpv")]);
    assert_eq!(dock.open_window(client("a1", "firefox")), Change::Promoted { index: 1 });
    assert_eq!(dock.order.0, vec![pinned("kitty"), running("a1"), pinned("mpv")]);
    assert_eq!(dock.order.0.len(), 3);
}

#[test]
fn window_opened_twice_is_one_window() {
    let mut dock = Dock::empty();
    dock.open_window(client("a1", "kitty"));
    let before_order = dock.order.0.clone();
    assert_eq!(dock.open_window(client("a1", "kitty")), Change::Unchanged);
    assert_eq!(dock.open_window(client("a1", "other")), Change::Unchanged);
    assert_eq!(dock.order.0, before_order);
    assert_eq!(dock.clients.0.len(), 1);
}

#[test]
fn closed_window_of_a_plain_class_leaves_the_order() {
    let mut dock = Dock::empty();
    dock.open_window(client("a1", "kitty"));
    dock.open_window(client("a2", "firefox"));
    dock.open_window(client("a3", "mpv"));
    assert_eq!(dock.close_window("a2"), Change::Removed { index: 1 });
    assert_eq!(dock.order.0, vec![running("a1"), running("a3")]);
    assert_eq!(dock.clients.0, vec![client("a1", "kitty"), client("a3", "mpv")]);
}

#[test]
fn closed_window_of_a_favorite_keeps_its_slot() {
    let mut dock = Dock::new(&strings(&["firefox"]), &vec![client("a1", "kitty")]);
    dock.open_window(client("a2", "firefox"));
    assert_eq!(dock.order.0, vec![running("a2"), running("a1")]);
    assert_eq!(dock.close_window("a2"), Change::Demoted { index: 0 });
    assert_eq!(dock.order.0, vec![pinned("firefox"), running("a1")]);
    assert!(dock.clients.0.iter().all(|c| c.address != "a2"));
}

#[test]
fn close_of_an_unknown_window_changes_nothing() {
    let mut dock = Dock::new(&strings(&["firefox"]), &vec![client("a1", "kitty")]);
    let before = Dock::new(&strings(&["firefox"]), &vec![client("a1", "kitty")]);
    assert_eq!(dock.close_window("nowhere"), Change::Unchanged);
    assert_eq!(dock, before);
    assert!(!dock.reorder_trigger.0);
    dock.open_window(client("a2", "mpv"));
    dock.close_window("a2");
    dock.take_reorder_trigger();
    let settled_order = dock.order.0.clone();
    assert_eq!(dock.close_window("a2"), Change::Unchanged);
    assert_eq!(dock.order.0, settled_order);
    assert!(!dock.reorder_trigger.0);
}

#[test]
fn second_window_of_a_favorite_is_removed_when_it_closes_last() {
    let mut dock = Dock::new(&strings(&["firefox"]), &vec![]);
    dock.open_window(client("a1", "firefox"));
    dock.open_window(client("a2", "firefox"));
    assert_eq!(dock.order.0, vec![running("a1"), running("a2")]);
    assert_eq!(dock.close_window("a1"), Change::Demoted { index: 0 });
    assert_eq!(dock.order.0, vec![pinned("firefox"), running("a2")]);
    assert_eq!(dock.close_window("a2"), Change::Removed { index: 1 });
    assert_eq!(dock.order.0, vec![pinned("firefox")]);
}

#[test]
fn pin_of_a_running_class_moves_nothing() {
    let mut dock = Dock::empty();
    dock.open_window(client("a1", "kitty"));
    dock.open_window(client("a2", "firefox"));
    assert_eq!(dock.toggle_favorite("kitty"), Change::Hidden);
    assert_eq!(dock.favorites.0, strings(&["kitty"]));
    assert_eq!(dock.order.0, vec![running("a1"), running("a2")]);
}

#[test]
fn pin_round_trip_keeps_the_slot_of_a_running_window() {
    let mut dock = Dock::empty();
    dock.open_window(client("a1", "kitty"));
    dock.open_window(client("a2", "firefox"));
    dock.open_window(client("a3", "mpv"));
    let slot = dock.order.position(&running("a2"));
    assert_eq!(slot, 1);
    dock.toggle_favorite("firefox");
    assert_eq!(dock.order.position(&running("a2")), slot);
    assert!(dock.favorites.contains("firefox"));
    dock.toggle_favorite("firefox");
    assert_eq!(dock.order.position(&running("a2")), slot);
    assert!(!dock.favorites.contains("firefox"));
    dock.toggle_favorite("firefox");
    assert_eq!(dock.order.position(&running("a2")), slot);
    assert!(dock.favorites.contains("firefox"));
    assert_eq!(dock.order.0, vec![running("a1"), running("a2"), running("a3")]);
}

#[test]
fn unpin_of_a_placeholder_removes_its_slot() {
    let mut dock = Dock::new(&strings(&["kitty", "mpv"]), &vec![client("a1", "foot")]);
    assert_eq!(dock.order.0, vec![pinned("kitty"), pinned("mpv"), running("a1")]);
    assert_eq!(dock.toggle_favorite("kitty"), Change::Removed { index: 0 });
    assert_eq!(dock.order.0, vec![pinned("mpv"), running("a1")]);
    assert_eq!(dock.favorites.0, strings(&["mpv"]));
}

#[test]
fn pin_of_a_class_without_window_adds_a_placeholder() {
    let mut dock = Dock::empty();
    dock.open_window(client("a1", "kitty"));
    assert_eq!(dock.toggle_favorite("mpv"), Change::Appended { index: 1 });
    assert_eq!(dock.order.0, vec![running("a1"), pinned("mpv")]);
}

#[test]
fn reorder_trigger_is_taken_once() {
    let mut dock = Dock::empty();
    assert!(!dock.take_reorder_trigger());
    dock.open_window(client("a1", "kitty"));
    assert!(dock.take_reorder_trigger());
    assert!(!dock.take_reorder_trigger());
    assert_eq!(dock.order.0, vec![running("a1")]);
}

#[test]
fn events_are_applied_in_their_order() {
    let mut dock = Dock::new(&strings(&["firefox"]), &vec![]);
    let events = vec![
        HyprIpcEvent::OpenWindow {
            address: "a1".to_string(),
            workspace: "1".to_string(),
            class: "kitty".to_string(),
            title: "fish".to_string(),
        },
        HyprIpcEvent::Other("workspace>>2".to_string()),
        HyprIpcEvent::OpenWindow {
            address: "a2".to_string(),
            workspace: "2".to_string(),
            class: "firefox".to_string(),
            title: "Mozilla".to_string(),
        },
        HyprIpcEvent::CloseWindow { address: "a1".to_string() },
        HyprIpcEvent::CloseWindow { address: "a1".to_string() },
        HyprIpcEvent::CloseWindow { address: "a2".to_string() },
    ];
    let changes = dock.process_hyprland_events(&events);
    assert_eq!(
        changes,
        vec![
            Change::Appended { index: 1 },
            Change::Unchanged,
            Change::Promoted { index: 0 },
            Change::Removed { index: 1 },
            Change::Unchanged,
            Change::Demoted { index: 0 },
        ]
    );
    assert_eq!(dock.order.0, vec![pinned("firefox")]);
    assert!(dock.clients.0.is_empty());
}

#[test]
fn opened_window_keeps_its_title() {
    let mut dock = Dock::empty();
    let event = HyprIpcEvent::OpenWindow {
        address: "a1".to_string(),
        workspace: "1".to_string(),
        class: "kitty".to_string(),
        title: "fish".to_string(),
    };
    assert_eq!(dock.handle_event(&event), Change::Appended { index: 0 });
    assert_eq!(
        dock.clients.0,
        vec![Client {
            class: "kitty".to_string(),
            address: "a1".to_string(),
            name: Some("fish".to_string())
        }]
    );
}

#[test]
fn order_has_no_duplicates_and_the_expected_length_after_every_event() {
    let mut dock = Dock::new(&strings(&["firefox", "mpv"]), &vec![client("w0", "foot")]);
    let classes = ["kitty", "firefox", "mpv", "foot", "gimp"];
    let mut state: u32 = 12345;
    for step in 0..400 {
        state = state.wrapping_mul(1664525).wrapping_add(1013904223);
        let address = format!("w{}", (state >> 8) % 6);
        let class = classes[((state >> 16) % 5) as usize];
        let favorite_runs =
            dock.favorites.0.contains(&class.to_string()) && dock.clients.0.iter().any(|c| c.class == class);
        let event = if (state >> 4) % 2 == 0 && !favorite_runs {
            HyprIpcEvent::OpenWindow {
                address,
                workspace: "1".to_string(),
                class: class.to_string(),
                title: String::new(),
            }
        } else {
            HyprIpcEvent::CloseWindow { address }
        };
        dock.handle_event(&event);
        assert!(!has_duplicates(&dock.order.0), "duplicate after step {}", step);
        assert_eq!(
            dock.order.0.len(),
            non_favorite_windows(&dock) + dock.favorites.0.len(),
            "length after step {}",
            step
        );
    }
}

#[test]
fn order_has_no_duplicates_whatever_opens_and_closes() {
    let mut dock = Dock::new(&strings(&["firefox"]), &vec![]);
    let classes = ["kitty", "firefox"];
    let mut state: u32 = 99;
    for step in 0..400 {
        state = state.wrapping_mul(1664525).wrapping_add(1013904223);
        let address = format!("w{}", (state >> 8) % 5);
        let class = classes[((state >> 16) % 2) as usize];
        if (state >> 4) % 3 != 0 {
            dock.open_window(client(&address, class));
        } else {
            dock.close_window(&address);
        }
        assert!(!has_duplicates(&dock.order.0), "duplicate after step {}", step);
        let placeholders = dock.order.0.iter().filter(|k| !k.is_running()).count();
        assert_eq!(dock.order.0.len(), dock.clients.0.len() + placeholders);
    }
}

#[test]
fn keys_compare_by_kind_and_name() {
    assert!(running("a").same(&running("a")));
    assert!(!running("a").same(&running("b")));
    assert!(!running("a").same(&pinned("a")));
    assert!(pinned("a").same(&pinned("a")));
    assert!(running("a").is_running());
    assert!(!pinned("a").is_running());
    assert_eq!(running("0x1").label(), "0x1");
    assert_eq!(pinned("kitty").label(), "pinned:kitty");
    assert_eq!(pinned("kitty").clone(), pinned("kitty"));
}

#[test]
fn keys_are_read_back_from_their_labels() {
    assert_eq!(DockKey::from_label("pinned:kitty"), pinned("kitty"));
    assert_eq!(DockKey::from_label("pinned:"), pinned(""));
    assert_eq!(DockKey::from_label("0x55d0"), running("0x55d0"));
    assert_eq!(DockKey::from_label("pinned"), running("pinned"));
    assert_eq!(DockKey::from_label(""), running(""));
    for key in [running("a1"), pinned("mpv"), pinned("pinned:x")] {
        assert_eq!(DockKey::from_label(&key.label()), key);
    }
}

#[test]
fn positions_are_first_positions() {
    let dock = Dock::new(
        &strings(&["kitty", "mpv", "kitty"]),
        &vec![client("a1", "foot"), client("a2", "foot")],
    );
    assert_eq!(dock.favorites.0, strings(&["kitty", "mpv"]));
    assert_eq!(dock.favorites.position("mpv"), 1);
    assert_eq!(dock.favorites.position("none"), 2);
    assert_eq!(dock.clients.position("a2"), 1);
    assert_eq!(dock.clients.position("a9"), 2);
    assert_eq!(dock.clients.class_position("foot"), 0);
    assert_eq!(dock.clients.class_position("kitty"), 2);
    assert_eq!(dock.order.position(&running("a2")), 3);
    assert_eq!(dock.order.position(&pinned("zzz")), 4);
}
