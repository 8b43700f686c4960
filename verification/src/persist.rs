//! The favourites as they are stored: a JSON list of class names.

use vstd::prelude::*;
use crate::types::{option_text, text_views, Favorites};

verus! {

/// What `serde_json::from_str` reads from a text as a list of strings;
/// `None` where it reads no such list.
pub uninterp spec fn json_string_list(text: Seq<char>) -> Option<Seq<Seq<char>>>;

/// What `serde_json::to_string` writes for a list of strings; `None` where
/// it writes nothing.
pub uninterp spec fn string_list_json(list: Seq<Seq<char>>) -> Option<Seq<char>>;

/// The views of what may be a list of strings.
pub open spec fn option_texts(list: Option<Vec<String>>) -> Option<Seq<Seq<char>>> {
    match list {
        Some(l) => Some(text_views(l@)),
        None => None,
    }
}

/// Reads a text as a JSON list of strings with `serde_json::from_str`. What
/// comes back depends on the text alone and is named `json_string_list`; an
/// error of the parser becomes `None`. Nothing is claimed of which texts are
/// read as which lists.
#[verifier::external_body]
fn parse_string_list(text: &str) -> (list: Option<Vec<String>>)
    ensures
        option_texts(list) == json_string_list(text@),
{
    serde_json::from_str::<Vec<String>>(text).ok()
}

/// Writes a list of strings as JSON with `serde_json::to_string`. What
/// comes back depends on the list alone and is named `string_list_json`; an
/// error of the writer becomes `None`.
#[verifier::external_body]
fn write_string_list(list: &Vec<String>) -> (text: Option<String>)
    ensures
        option_text(text) == string_list_json(text_views(list@)),
{
    serde_json::to_string(list).ok()
}

/// The favourites that a parsed list stands for: the list itself, and no
/// favourites where nothing was parsed.
pub open spec fn favorites_of(parsed: Option<Seq<Seq<char>>>) -> Seq<Seq<char>> {
    match parsed {
        Some(list) => list,
        None => Seq::empty(),
    }
}

/// The favourites that a parsed list stands for.
pub fn favorites_from_list(parsed: Option<Vec<String>>) -> (favorites: Favorites)
    ensures
        favorites@ == favorites_of(option_texts(parsed)),
{
    match parsed {
        Some(list) => Favorites(list),
        None => {
            let f = Favorites(Vec::new());
            assert(f@ =~= Seq::empty());
            f
        },
    }
}

/// The favourites that are stored in `data`, the text of the store.
/// Without a store, and with a store that holds no list of names, there are
/// no favourites.
pub fn load_favorites(data: Option<&str>) -> (favorites: Favorites)
    ensures
        favorites@ == match data {
            Some(text) => favorites_of(json_string_list(text@)),
            None => Seq::empty(),
        },
{
    match data {
        Some(text) => favorites_from_list(parse_string_list(text)),
        None => favorites_from_list(None),
    }
}

/// The text to store for the favourites; `None` where they cannot be
/// written.
pub fn save_favorites(favorites: &Favorites) -> (text: Option<String>)
    ensures
        option_text(text) == string_list_json(favorites@),
{
    write_string_list(&favorites.0)
}

} // verus!
