//! The plain data that the dock works on, each with its mathematical view.

use vstd::prelude::*;
use crate::seqs::{first_position, lemma_first_position, lemma_first_position_is};
use crate::text::strip_prefix;

verus! {

/// A window as the window manager reports it. Its identity is `address`.
#[derive(Debug, PartialEq, Eq)]
pub struct Client {
    pub class: String,
    pub address: String,
    pub name: Option<String>,
}

/// The view of a [`Client`].
pub struct ClientView {
    pub class: Seq<char>,
    pub address: Seq<char>,
    pub name: Option<Seq<char>>,
}

/// The view of an optional string.
pub open spec fn option_text(o: Option<String>) -> Option<Seq<char>> {
    match o {
        Some(s) => Some(s@),
        None => None,
    }
}

impl View for Client {
    type V = ClientView;

    open spec fn view(&self) -> ClientView {
        ClientView { class: self.class@, address: self.address@, name: option_text(self.name) }
    }
}

impl Clone for Client {
    fn clone(&self) -> (res: Self)
        ensures
            res@ == self@,
    {
        let name = match &self.name {
            Some(n) => Some(n.clone()),
            None => None,
        };
        Client { class: self.class.clone(), address: self.address.clone(), name }
    }
}

/// The identifier of one dock slot: the address of a running window, or the
/// class of a favourite that has no window of its own in the slot.
#[derive(Debug, PartialEq, Eq)]
pub enum DockKey {
    Running(String),
    Pinned(String),
}

/// The view of a [`DockKey`].
pub enum KeyView {
    Running(Seq<char>),
    Pinned(Seq<char>),
}

impl View for DockKey {
    type V = KeyView;

    open spec fn view(&self) -> KeyView {
        match self {
            DockKey::Running(a) => KeyView::Running(a@),
            DockKey::Pinned(c) => KeyView::Pinned(c@),
        }
    }
}

impl Clone for DockKey {
    fn clone(&self) -> (res: Self)
        ensures
            res@ == self@,
    {
        match self {
            DockKey::Running(a) => DockKey::Running(a.clone()),
            DockKey::Pinned(c) => DockKey::Pinned(c.clone()),
        }
    }
}

/// The text that a placeholder's label starts with.
pub open spec fn pinned_prefix() -> Seq<char> {
    "pinned:"@
}

impl KeyView {
    /// The label of a key: a window's address as it is, a placeholder's class
    /// behind the text `pinned:`.
    pub open spec fn label(self) -> Seq<char> {
        match self {
            KeyView::Running(a) => a,
            KeyView::Pinned(c) => pinned_prefix() + c,
        }
    }
}

/// The key that a label stands for: a placeholder where the label starts
/// with the text `pinned:`, and a running window with the label as its
/// address where it does not.
pub open spec fn key_of_label(label: Seq<char>) -> KeyView {
    if pinned_prefix().is_prefix_of(label) {
        KeyView::Pinned(label.skip(pinned_prefix().len() as int))
    } else {
        KeyView::Running(label)
    }
}

/// A key is read back from its label, unless it is a running window whose
/// address itself starts with the text `pinned:`.
pub proof fn lemma_label_round_trip(key: KeyView)
    requires
        key is Running ==> !pinned_prefix().is_prefix_of(key->Running_0),
    ensures
        key_of_label(key.label()) == key,
{
    match key {
        KeyView::Running(_) => {},
        KeyView::Pinned(class) => {
            let label = pinned_prefix() + class;
            assert(label.subrange(0, pinned_prefix().len() as int) =~= pinned_prefix());
            assert(label.skip(pinned_prefix().len() as int) =~= class);
        },
    }
}

impl DockKey {
    /// The key that a label stands for.
    pub fn from_label(label: &str) -> (key: DockKey)
        ensures
            key@ == key_of_label(label@),
    {
        match strip_prefix(label, "pinned:") {
            Some(class) => DockKey::Pinned(class.to_owned()),
            None => DockKey::Running(label.to_owned()),
        }
    }

    /// Whether two keys name the same slot.
    pub fn same(&self, other: &DockKey) -> (r: bool)
        ensures
            r == (self@ == other@),
    {
        match self {
            DockKey::Running(a) => match other {
                DockKey::Running(b) => *a == *b,
                DockKey::Pinned(_) => false,
            },
            DockKey::Pinned(a) => match other {
                DockKey::Running(_) => false,
                DockKey::Pinned(b) => *a == *b,
            },
        }
    }

    /// Whether the key stands for a running window.
    pub fn is_running(&self) -> (r: bool)
        ensures
            r == (self@ is Running),
    {
        match self {
            DockKey::Running(_) => true,
            DockKey::Pinned(_) => false,
        }
    }

    /// The key written as one string.
    pub fn label(&self) -> (r: String)
        ensures
            r@ == self@.label(),
    {
        match self {
            DockKey::Running(a) => a.clone(),
            DockKey::Pinned(c) => String::from_str("pinned:").concat(c.as_str()),
        }
    }
}

/// The addresses of a list of windows, in the list's order.
pub open spec fn addresses(clients: Seq<ClientView>) -> Seq<Seq<char>> {
    clients.map_values(|c: ClientView| c.address)
}

/// The classes of a list of windows, in the list's order.
pub open spec fn classes(clients: Seq<ClientView>) -> Seq<Seq<char>> {
    clients.map_values(|c: ClientView| c.class)
}

/// The views of a sequence of windows.
pub open spec fn client_views(s: Seq<Client>) -> Seq<ClientView> {
    s.map_values(|c: Client| c@)
}

/// The views of a sequence of keys.
pub open spec fn key_views(s: Seq<DockKey>) -> Seq<KeyView> {
    s.map_values(|k: DockKey| k@)
}

/// The views of a sequence of strings.
pub open spec fn text_views(s: Seq<String>) -> Seq<Seq<char>> {
    s.map_values(|t: String| t@)
}

/// The window registry: the windows that are open, in the order in which they
/// were learned of.
#[derive(Debug, PartialEq, Eq)]
pub struct ClientList(pub Vec<Client>);

impl View for ClientList {
    type V = Seq<ClientView>;

    open spec fn view(&self) -> Seq<ClientView> {
        client_views(self.0@)
    }
}

/// The pinned classes, in the order in which they were pinned.
#[derive(Debug, PartialEq, Eq)]
pub struct Favorites(pub Vec<String>);

impl View for Favorites {
    type V = Seq<Seq<char>>;

    open spec fn view(&self) -> Seq<Seq<char>> {
        text_views(self.0@)
    }
}

/// The slots of the dock in visual order.
#[derive(Debug, PartialEq, Eq)]
pub struct DockOrder(pub Vec<DockKey>);

impl View for DockOrder {
    type V = Seq<KeyView>;

    open spec fn view(&self) -> Seq<KeyView> {
        key_views(self.0@)
    }
}

/// The flag that asks for a new layout pass.
#[derive(Debug, Clone, Copy, PartialEq, Eq, Structural)]
pub struct ReorderTrigger(pub bool);

impl Default for ReorderTrigger {
    fn default() -> (r: Self)
        ensures
            !r.0,
    {
        ReorderTrigger(false)
    }
}

impl Default for DockOrder {
    fn default() -> (r: Self)
        ensures
            r@ == Seq::<KeyView>::empty(),
    {
        DockOrder(Vec::new())
    }
}

impl Default for Favorites {
    fn default() -> (r: Self)
        ensures
            r@ == Seq::<Seq<char>>::empty(),
    {
        Favorites(Vec::new())
    }
}

impl DockOrder {
    /// The index of the first slot with this key, or the number of slots when
    /// no slot has it.
    pub fn position(&self, key: &DockKey) -> (p: usize)
        ensures
            p == first_position(self@, key@),
            p <= self@.len(),
            p < self@.len() <==> self@.contains(key@),
    {
        let mut i: usize = 0;
        while i < self.0.len()
            invariant
                i <= self.0.len(),
                forall|j: int| 0 <= j < i ==> self@[j] != key@,
            decreases self.0.len() - i,
        {
            if self.0[i].same(key) {
                proof {
                    lemma_first_position_is(self@, key@, i as int);
                    lemma_first_position(self@, key@);
                }
                return i;
            }
            i += 1;
        }
        proof {
            lemma_first_position_is(self@, key@, i as int);
            lemma_first_position(self@, key@);
        }
        i
    }
}

impl Favorites {
    /// The index of the first favourite equal to `class`, or the number of
    /// favourites when the class is not pinned.
    pub fn position(&self, class: &str) -> (p: usize)
        ensures
            p == first_position(self@, class@),
            p <= self@.len(),
            p < self@.len() <==> self@.contains(class@),
    {
        let wanted = class.to_owned();
        let mut i: usize = 0;
        while i < self.0.len()
            invariant
                i <= self.0.len(),
                wanted@ == class@,
                forall|j: int| 0 <= j < i ==> self@[j] != class@,
            decreases self.0.len() - i,
        {
            if self.0[i] == wanted {
                proof {
                    lemma_first_position_is(self@, class@, i as int);
                    lemma_first_position(self@, class@);
                }
                return i;
            }
            i += 1;
        }
        proof {
            lemma_first_position_is(self@, class@, i as int);
            lemma_first_position(self@, class@);
        }
        i
    }

    /// Whether the class is pinned.
    pub fn contains(&self, class: &str) -> (r: bool)
        ensures
            r == self@.contains(class@),
    {
        self.position(class) < self.0.len()
    }
}

impl ClientList {
    /// The index of the first window with this address, or the number of
    /// windows when the registry holds no such window.
    pub fn position(&self, address: &str) -> (p: usize)
        ensures
            p == first_position(addresses(self@), address@),
            p <= self@.len(),
            p < self@.len() <==> addresses(self@).contains(address@),
    {
        let wanted = address.to_owned();
        let mut i: usize = 0;
        while i < self.0.len()
            invariant
                i <= self.0.len(),
                wanted@ == address@,
                forall|j: int| 0 <= j < i ==> addresses(self@)[j] != address@,
            decreases self.0.len() - i,
        {
            if self.0[i].address == wanted {
                proof {
                    lemma_first_position_is(addresses(self@), address@, i as int);
                    lemma_first_position(addresses(self@), address@);
                }
                return i;
            }
            i += 1;
        }
        proof {
            lemma_first_position_is(addresses(self@), address@, i as int);
            lemma_first_position(addresses(self@), address@);
        }
        i
    }

    /// The index of the first window of this class, or the number of windows
    /// when no window of the class is open.
    pub fn class_position(&self, class: &str) -> (p: usize)
        ensures
            p == first_position(classes(self@), class@),
            p <= self@.len(),
            p < self@.len() <==> classes(self@).contains(class@),
    {
        let wanted = class.to_owned();
        let mut i: usize = 0;
        while i < self.0.len()
            invariant
                i <= self.0.len(),
                wanted@ == class@,
                forall|j: int| 0 <= j < i ==> classes(self@)[j] != class@,
            decreases self.0.len() - i,
        {
            if self.0[i].class == wanted {
                proof {
                    lemma_first_position_is(classes(self@), class@, i as int);
                    lemma_first_position(classes(self@), class@);
                }
                return i;
            }
            i += 1;
        }
        proof {
            lemma_first_position_is(classes(self@), class@, i as int);
            lemma_first_position(classes(self@), class@);
        }
        i
    }
}

} // verus!
