use anny_dock::events::{parse_event_line, socket_path, HyprIpcEvent};
use anny_dock::text::{collect_chars, split_once, starts_with, strip_prefix, trim};

fn open(address: &str, workspace: &str, class: &str, title: &str) -> HyprIpcEvent {
    HyprIpcEvent::OpenWindow {
        address: address.to_string(),
        workspace: workspace.to_string(),
        class: class.to_string(),
        title: title.to_string(),
    }
}

#[test]
fn open_window_line_has_four_fields() {
    assert_eq!(
        parse_event_line("openwindow>>55d0c8a0,2,kitty,fish"),
        open("55d0c8a0", "2", "kitty", "fish")
    );
}

#[test]
fn open_window_title_keeps_its_commas() {
    assert_eq!(
        parse_event_line("openwindow>>55d0c8a0,2,kitty,fish: ~/src, main, again"),
        open("55d0c8a0", "2", "kitty", "fish: ~/src, main, again")
    );
}

#[test]
fn open_window_fields_may_be_empty() {
    assert_eq!(parse_event_line("openwindow>>,,,"), open("", "", "", ""));
    assert_eq!(parse_event_line("openwindow>>a,,c,"), open("a", "", "c", ""));
}

#[test]
fn malformed_open_window_line_is_other() {
    assert_eq!(
        parse_event_line("openwindow>>onlyonefield"),
        HyprIpcEvent::Other("openwindow>>onlyonefield".to_string())
    );
}

#[test]
fn open_window_line_with_three_fields_is_other() {
    assert_eq!(
        parse_event_line("openwindow>>a,b,c"),
        HyprIpcEvent::Other("openwindow>>a,b,c".to_string())
    );
    assert_eq!(
        parse_event_line("openwindow>>"),
        HyprIpcEvent::Other("openwindow>>".to_string())
    );
}

#[test]
fn close_window_line_gives_the_address() {
    assert_eq!(
        parse_event_line("closewindow>>55d0c8a0"),
        HyprIpcEvent::CloseWindow { address: "55d0c8a0".to_string() }
    );
}

#[test]
fn close_window_address_is_trimmed() {
    assert_eq!(
        parse_event_line("closewindow>>  55d0c8a0 \t\r"),
        HyprIpcEvent::CloseWindow { address: "55d0c8a0".to_string() }
    );
    assert_eq!(
        parse_event_line("closewindow>>   "),
        HyprIpcEvent::CloseWindow { address: String::new() }
    );
    assert_eq!(
        parse_event_line("closewindow>>"),
        HyprIpcEvent::CloseWindow { address: String::new() }
    );
}

#[test]
fn close_window_address_keeps_inner_space() {
    assert_eq!(
        parse_event_line("closewindow>> a b "),
        HyprIpcEvent::CloseWindow { address: "a b".to_string() }
    );
}

#[test]
fn other_lines_are_kept_as_they_came() {
    assert_eq!(
        parse_event_line("workspace>>3"),
        HyprIpcEvent::Other("workspace>>3".to_string())
    );
    assert_eq!(parse_event_line(""), HyprIpcEvent::Other(String::new()));
    assert_eq!(
        parse_event_line("openwindow>"),
        HyprIpcEvent::Other("openwindow>".to_string())
    );
    assert_eq!(
        parse_event_line(" openwindow>>a,b,c,d"),
        HyprIpcEvent::Other(" openwindow>>a,b,c,d".to_string())
    );
}

#[test]
fn lines_with_wide_characters_are_cut_by_character() {
    assert_eq!(
        parse_event_line("openwindow>>ab,1,éditeur,naïve, été"),
        open("ab", "1", "éditeur", "naïve, été")
    );
    assert_eq!(
        parse_event_line("closewindow>>\u{3000}añb\u{a0}"),
        HyprIpcEvent::CloseWindow { address: "añb".to_string() }
    );
}

#[test]
fn event_clone_is_equal() {
    let e = open("a", "1", "c", "t");
    assert_eq!(e.clone(), e);
    let c = HyprIpcEvent::CloseWindow { address: "a".to_string() };
    assert_eq!(c.clone(), c);
    let o = HyprIpcEvent::Other("x".to_string());
    assert_eq!(o.clone(), o);
}

#[test]
fn socket_path_joins_directory_and_instance() {
    assert_eq!(
        socket_path("/run/user/1000", "abc_123"),
        "/run/user/1000/hypr/abc_123/.socket2.sock"
    );
    assert_eq!(socket_path("", ""), "/hypr//.socket2.sock");
}

#[test]
fn strip_prefix_cuts_only_a_prefix() {
    assert_eq!(strip_prefix("pinned:kitty", "pinned:"), Some("kitty"));
    assert_eq!(strip_prefix("pinned:", "pinned:"), Some(""));
    assert_eq!(strip_prefix("pinne", "pinned:"), None);
    assert_eq!(strip_prefix("xpinned:kitty", "pinned:"), None);
    assert_eq!(strip_prefix("abc", ""), Some("abc"));
    assert!(starts_with("address:0x1", "address:"));
    assert!(!starts_with("0x1", "address:"));
}

#[test]
fn split_once_cuts_at_the_first_separator() {
    assert_eq!(split_once("a,b,c", ','), Some(("a", "b,c")));
    assert_eq!(split_once(",b", ','), Some(("", "b")));
    assert_eq!(split_once("a,", ','), Some(("a", "")));
    assert_eq!(split_once("abc", ','), None);
    assert_eq!(split_once("", ','), None);
}

#[test]
fn trim_cuts_white_space_at_both_ends() {
    assert_eq!(trim("  a b \n"), "a b");
    assert_eq!(trim("a"), "a");
    assert_eq!(trim(" \t "), "");
    assert_eq!(trim(""), "");
    assert_eq!(trim("x  "), "x");
    assert_eq!(trim("  x"), "x");
}

#[test]
fn collect_chars_gives_every_character() {
    assert_eq!(collect_chars("aé,"), vec!['a', 'é', ',']);
    assert_eq!(collect_chars(""), Vec::<char>::new());
}

#[test]
fn white_space_is_the_unicode_property() {
    let listed = |c: char| {
        let u = c as u32;
        (0x0009..=0x000D).contains(&u)
            || u == 0x0020
            || u == 0x0085
            || u == 0x00A0
            || u == 0x1680
            || (0x2000..=0x200A).contains(&u)
            || u == 0x2028
            || u == 0x2029
            || u == 0x202F
            || u == 0x205F
            || u == 0x3000
    };
    let mut seen = 0;
    for u in 0..=0x10FFFFu32 {
        if let Some(c) = char::from_u32(u) {
            let text = format!("{}x{}", c, c);
            let cut = trim(&text);
            if listed(c) {
                assert_eq!(cut, "x", "U+{:04X}", u);
                seen += 1;
            } else {
                assert_eq!(cut, text, "U+{:04X}", u);
            }
        }
    }
    assert_eq!(seen, 25);
}

#[test]
fn close_window_line_with_a_plain_address_is_read_as_it_is() {
    assert_eq!(
        parse_event_line("closewindow>>80a6f50"),
        HyprIpcEvent::CloseWindow { address: "80a6f50".to_string() }
    );
}
