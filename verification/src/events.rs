//! The window manager's notifications: the lines of its event socket, read
//! into typed events.

use vstd::prelude::*;
use crate::seqs::lemma_first_position;
use crate::text::{
    is_white_space, lemma_prefix_joined, lemma_split_joined, lemma_trimmed_is_itself,
    split_at_first, split_once, strip_prefix, trim, trimmed,
};

verus! {

/// One notification of the window manager.
#[derive(Debug, PartialEq, Eq)]
pub enum HyprIpcEvent {
    /// A window has opened.
    OpenWindow { address: String, workspace: String, class: String, title: String },
    /// A window has closed.
    CloseWindow { address: String },
    /// Any other line, kept as it came.
    Other(String),
}

/// The view of a [`HyprIpcEvent`].
pub enum EventView {
    OpenWindow { address: Seq<char>, workspace: Seq<char>, class: Seq<char>, title: Seq<char> },
    CloseWindow { address: Seq<char> },
    Other(Seq<char>),
}

impl View for HyprIpcEvent {
    type V = EventView;

    open spec fn view(&self) -> EventView {
        match self {
            HyprIpcEvent::OpenWindow { address, workspace, class, title } => EventView::OpenWindow {
                address: address@,
                workspace: workspace@,
                class: class@,
                title: title@,
            },
            HyprIpcEvent::CloseWindow { address } => EventView::CloseWindow { address: address@ },
            HyprIpcEvent::Other(raw) => EventView::Other(raw@),
        }
    }
}

impl Clone for HyprIpcEvent {
    fn clone(&self) -> (res: Self)
        ensures
            res@ == self@,
    {
        match self {
            HyprIpcEvent::OpenWindow { address, workspace, class, title } => {
                HyprIpcEvent::OpenWindow {
                    address: address.clone(),
                    workspace: workspace.clone(),
                    class: class.clone(),
                    title: title.clone(),
                }
            },
            HyprIpcEvent::CloseWindow { address } => HyprIpcEvent::CloseWindow {
                address: address.clone(),
            },
            HyprIpcEvent::Other(raw) => HyprIpcEvent::Other(raw.clone()),
        }
    }
}

/// The tag that starts the line of an opened window.
pub open spec fn open_tag() -> Seq<char> {
    "openwindow>>"@
}

/// The tag that starts the line of a closed window.
pub open spec fn close_tag() -> Seq<char> {
    "closewindow>>"@
}

/// The four fields of an opened window: address, workspace, class and title,
/// split at the first three commas, so that the title keeps any further
/// comma. `None` when there are fewer than four fields.
pub open spec fn open_fields(rest: Seq<char>) -> Option<EventView> {
    match split_at_first(rest, ',') {
        None => None,
        Some((address, rest1)) => match split_at_first(rest1, ',') {
            None => None,
            Some((workspace, rest2)) => match split_at_first(rest2, ',') {
                None => None,
                Some((class, title)) => Some(
                    EventView::OpenWindow { address, workspace, class, title },
                ),
            },
        },
    }
}

/// The event that a line stands for. A line with the tag of an opened window
/// and four fields is that window; a line with the tag of a closed window is
/// that window's address, without surrounding white space; every other line,
/// one with too few fields among them, is `Other` and keeps its text.
pub open spec fn event_of_line(line: Seq<char>) -> EventView {
    if open_tag().is_prefix_of(line) {
        match open_fields(line.skip(open_tag().len() as int)) {
            Some(e) => e,
            None => EventView::Other(line),
        }
    } else if close_tag().is_prefix_of(line) {
        EventView::CloseWindow { address: trimmed(line.skip(close_tag().len() as int)) }
    } else {
        EventView::Other(line)
    }
}

/// The line that tells of an opened window: the tag, then the four fields
/// with a comma between each two.
pub open spec fn open_line(
    address: Seq<char>,
    workspace: Seq<char>,
    class: Seq<char>,
    title: Seq<char>,
) -> Seq<char> {
    open_tag() + (address + seq![','] + (workspace + seq![','] + (class + seq![','] + title)))
}

/// The line of an opened window is read as that window, whatever its title
/// holds, as long as the three fields before the title hold no comma.
pub proof fn lemma_open_line_is_read(
    address: Seq<char>,
    workspace: Seq<char>,
    class: Seq<char>,
    title: Seq<char>,
)
    requires
        !address.contains(','),
        !workspace.contains(','),
        !class.contains(','),
    ensures
        event_of_line(open_line(address, workspace, class, title)) == (EventView::OpenWindow {
            address,
            workspace,
            class,
            title,
        }),
{
    let rest2 = class + seq![','] + title;
    let rest1 = workspace + seq![','] + rest2;
    let rest = address + seq![','] + rest1;
    lemma_split_joined(class, ',', title);
    lemma_split_joined(workspace, ',', rest2);
    lemma_split_joined(address, ',', rest1);
    lemma_prefix_joined(open_tag(), rest);
}

/// A line with the tag of an opened window and fewer than three commas is
/// no window: it is kept as it came.
pub proof fn lemma_short_open_line_is_other(first: Seq<char>)
    requires
        !first.contains(','),
    ensures
        event_of_line(open_tag() + first) == EventView::Other(open_tag() + first),
{
    lemma_prefix_joined(open_tag(), first);
    lemma_first_position(first, ',');
}

/// The line of a closed window is read as that window's address, as long as
/// the address neither starts nor ends with white space.
pub proof fn lemma_close_line_is_read(address: Seq<char>)
    requires
        address.len() > 0 ==> !is_white_space(address[0]) && !is_white_space(address.last()),
    ensures
        event_of_line(close_tag() + address) == (EventView::CloseWindow { address }),
{
    let line = close_tag() + address;
    reveal_strlit("openwindow>>");
    reveal_strlit("closewindow>>");
    assert(!open_tag().is_prefix_of(line)) by {
        if open_tag().is_prefix_of(line) {
            assert(line.subrange(0, open_tag().len() as int)[0] == line[0]);
            assert(line[0] == close_tag()[0]);
        }
    }
    lemma_prefix_joined(close_tag(), address);
    lemma_trimmed_is_itself(address);
}

/// Reads the fields of an opened window.
fn parse_open_fields(rest: &str) -> (r: Option<HyprIpcEvent>)
    ensures
        match r {
            Some(e) => Some(e@) == open_fields(rest@),
            None => open_fields(rest@) is None,
        },
{
    match split_once(rest, ',') {
        None => None,
        Some((address, rest1)) => match split_once(rest1, ',') {
            None => None,
            Some((workspace, rest2)) => match split_once(rest2, ',') {
                None => None,
                Some((class, title)) => Some(
                    HyprIpcEvent::OpenWindow {
                        address: address.to_owned(),
                        workspace: workspace.to_owned(),
                        class: class.to_owned(),
                        title: title.to_owned(),
                    },
                ),
            },
        },
    }
}

/// Reads one line of the event socket.
pub fn parse_event_line(line: &str) -> (event: HyprIpcEvent)
    ensures
        event@ == event_of_line(line@),
{
    match strip_prefix(line, "openwindow>>") {
        Some(rest) => match parse_open_fields(rest) {
            Some(e) => e,
            None => HyprIpcEvent::Other(line.to_owned()),
        },
        None => match strip_prefix(line, "closewindow>>") {
            Some(rest) => HyprIpcEvent::CloseWindow { address: trim(rest).to_owned() },
            None => HyprIpcEvent::Other(line.to_owned()),
        },
    }
}

/// The path of the event socket below a runtime directory, for one instance
/// of the window manager.
pub open spec fn socket_path_of(runtime_dir: Seq<char>, instance: Seq<char>) -> Seq<char> {
    runtime_dir + "/hypr/"@ + instance + "/.socket2.sock"@
}

/// Builds the path of the event socket.
pub fn socket_path(runtime_dir: &str, instance: &str) -> (path: String)
    ensures
        path@ == socket_path_of(runtime_dir@, instance@),
{
    runtime_dir.to_owned().concat("/hypr/").concat(instance).concat("/.socket2.sock")
}

} // verus!
