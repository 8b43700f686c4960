use anny_dock::dock::{Change, Dock};
use anny_dock::registry::clone_clients;
use anny_dock::types::{Client, ClientList, DockKey};

fn window(address: &str, class: &str) -> Client {
    Client { class: class.to_string(), address: address.to_string(), name: None }
}

fn names(items: &[&str]) -> Vec<String> {
    items.iter().map(|s| s.to_string()).collect()
}

#[test]
fn diff_finds_opened_and_closed_windows() {
    let registry = ClientList(vec![window("a1", "kitty"), window("a2", "mpv"), window("a3", "foot")]);
    let snapshot = vec![window("a3", "foot"), window("a4", "gimp"), window("a1", "kitty"), window("a5", "mpv")];
    let (opened, closed) = registry.diff(&snapshot);
    assert_eq!(opened, vec![window("a4", "gimp"), window("a5", "mpv")]);
    assert_eq!(closed, names(&["a2"]));
}

#[test]
fn diff_of_equal_lists_is_empty() {
    let registry = ClientList(vec![window("a1", "kitty"), window("a2", "mpv")]);
    let (opened, closed) = registry.diff(&vec![window("a2", "mpv"), window("a1", "kitty")]);
    assert!(opened.is_empty());
    assert!(closed.is_empty());
}

#[test]
fn diff_against_an_empty_snapshot_closes_everything() {
    let registry = ClientList(vec![window("a1", "kitty"), window("a2", "mpv")]);
    let (opened, closed) = registry.diff(&vec![]);
    assert!(opened.is_empty());
    assert_eq!(closed, names(&["a1", "a2"]));
    let (opened, closed) = ClientList(vec![]).diff(&vec![window("a1", "kitty")]);
    assert_eq!(opened, vec![window("a1", "kitty")]);
    assert!(closed.is_empty());
}

#[test]
fn diff_goes_by_address_alone() {
    let registry = ClientList(vec![window("a1", "kitty")]);
    let (opened, closed) = registry.diff(&vec![window("a1", "renamed")]);
    assert!(opened.is_empty());
    assert!(closed.is_empty());
}

#[test]
fn update_closes_then_opens() {
    let mut dock = Dock::new(
        &names(&["firefox"]),
        &vec![window("a1", "kitty"), window("a2", "firefox"), window("a3", "mpv")],
    );
    assert_eq!(
        dock.order.0,
        vec![
            DockKey::Running("a2".to_string()),
            DockKey::Running("a1".to_string()),
            DockKey::Running("a3".to_string())
        ]
    );
    let snapshot = vec![window("a3", "mpv"), window("a4", "gimp")];
    let (closed, closed_changes, opened, opened_changes) = dock.update_client_list(&snapshot);
    assert_eq!(closed, names(&["a1", "a2"]));
    assert_eq!(closed_changes, vec![Change::Removed { index: 1 }, Change::Demoted { index: 0 }]);
    assert_eq!(opened, vec![window("a4", "gimp")]);
    assert_eq!(opened_changes, vec![Change::Appended { index: 2 }]);
    assert_eq!(
        dock.order.0,
        vec![
            DockKey::Pinned("firefox".to_string()),
            DockKey::Running("a3".to_string()),
            DockKey::Running("a4".to_string())
        ]
    );
    assert_eq!(dock.clients.0, vec![window("a3", "mpv"), window("a4", "gimp")]);
    assert!(dock.reorder_trigger.0);
}

#[test]
fn update_with_the_same_snapshot_changes_nothing() {
    let snapshot = vec![window("a1", "kitty"), window("a2", "firefox")];
    let mut dock = Dock::new(&names(&["firefox"]), &snapshot);
    let (closed, closed_changes, opened, opened_changes) = dock.update_client_list(&snapshot);
    assert!(closed.is_empty() && closed_changes.is_empty());
    assert!(opened.is_empty() && opened_changes.is_empty());
    assert!(!dock.reorder_trigger.0);
    assert_eq!(dock, Dock::new(&names(&["firefox"]), &snapshot));
}

#[test]
fn new_dock_puts_favorites_first() {
    let dock = Dock::new(
        &names(&["firefox", "mpv", "firefox"]),
        &vec![window("a1", "kitty"), window("a2", "firefox"), window("a3", "firefox"), window("a1", "again")],
    );
    assert_eq!(dock.favorites.0, names(&["firefox", "mpv"]));
    assert_eq!(
        dock.order.0,
        vec![
            DockKey::Running("a2".to_string()),
            DockKey::Pinned("mpv".to_string()),
            DockKey::Running("a1".to_string()),
            DockKey::Running("a3".to_string())
        ]
    );
    assert_eq!(
        dock.clients.0,
        vec![window("a1", "kitty"), window("a2", "firefox"), window("a3", "firefox")]
    );
    assert!(!dock.reorder_trigger.0);
}

#[test]
fn new_dock_without_anything_is_empty() {
    assert_eq!(Dock::new(&vec![], &vec![]), Dock::empty());
}

#[test]
fn closed_and_opened_lists_are_processed_in_order() {
    let mut dock = Dock::new(&vec![], &vec![window("a1", "kitty"), window("a2", "mpv")]);
    let changes = dock.process_closed_windows(&names(&["a2", "a9", "a1"]));
    assert_eq!(
        changes,
        vec![Change::Removed { index: 1 }, Change::Unchanged, Change::Removed { index: 0 }]
    );
    let changes = dock.process_new_windows(&vec![window("b1", "foot"), window("b1", "foot"), window("b2", "gimp")]);
    assert_eq!(
        changes,
        vec![Change::Appended { index: 0 }, Change::Unchanged, Change::Appended { index: 1 }]
    );
}

#[test]
fn cloned_clients_are_equal() {
    let list = vec![
        window("a1", "kitty"),
        Client { class: "c".to_string(), address: "a".to_string(), name: Some("t".to_string()) },
    ];
    assert_eq!(clone_clients(&list), list);
    assert_eq!(ClientList(clone_clients(&list)).snapshot(), list);
    assert_eq!(list[1].clone(), list[1]);
}
