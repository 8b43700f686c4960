//! Cutting strings: prefixes, the first separator, surrounding white space.

use vstd::prelude::*;
use crate::seqs::{first_position, lemma_first_position_is};

verus! {

/// Whether a character is white space: whether it has the Unicode property
/// `White_Space`. These are the tab, the line feed, the vertical tab, the
/// form feed, the carriage return and the space, the next line and the
/// no-break space, the ogham space mark, the spaces from the en quad to the
/// hair space, the line and the paragraph separator, the narrow no-break
/// space, the medium mathematical space and the ideographic space.
pub open spec fn is_white_space(c: char) -> bool {
    let u = c as u32;
    ||| 0x0009 <= u <= 0x000D
    ||| u == 0x0020
    ||| u == 0x0085
    ||| u == 0x00A0
    ||| u == 0x1680
    ||| 0x2000 <= u <= 0x200A
    ||| u == 0x2028
    ||| u == 0x2029
    ||| u == 0x202F
    ||| u == 0x205F
    ||| u == 0x3000
}

/// Asks `char::is_whitespace` whether `c` is white space. The standard
/// library documents the answer as the Unicode property `White_Space`; the
/// contract states the characters that have it.
#[verifier::external_body]
fn char_is_whitespace(c: char) -> (r: bool)
    ensures
        r == is_white_space(c),
{
    c.is_whitespace()
}

/// The number of white-space characters at the start of `s`.
pub open spec fn leading_space(s: Seq<char>) -> int
    decreases s.len(),
{
    if s.len() == 0 {
        0
    } else if is_white_space(s[0]) {
        1 + leading_space(s.drop_first())
    } else {
        0
    }
}

/// The number of white-space characters at the end of `s`.
pub open spec fn trailing_space(s: Seq<char>) -> int
    decreases s.len(),
{
    if s.len() == 0 {
        0
    } else if is_white_space(s.last()) {
        1 + trailing_space(s.drop_last())
    } else {
        0
    }
}

/// `s` without the white space at its start and at its end.
pub open spec fn trimmed(s: Seq<char>) -> Seq<char> {
    let a = leading_space(s);
    if a >= s.len() {
        Seq::empty()
    } else {
        s.subrange(a, s.len() - trailing_space(s))
    }
}

/// The part of `s` before the first `sep` and the part behind it; `None` when
/// `s` holds no `sep`.
pub open spec fn split_at_first(s: Seq<char>, sep: char) -> Option<(Seq<char>, Seq<char>)> {
    let p = first_position(s, sep);
    if p < s.len() {
        Some((s.take(p), s.skip(p + 1)))
    } else {
        None
    }
}

/// `s` behind its prefix `prefix`; `None` when `s` does not start with it.
pub open spec fn without_prefix(s: Seq<char>, prefix: Seq<char>) -> Option<Seq<char>> {
    if prefix.is_prefix_of(s) {
        Some(s.skip(prefix.len() as int))
    } else {
        None
    }
}

/// A text that is put together from a head without `sep`, one `sep` and a
/// tail is cut into that head and that tail.
pub proof fn lemma_split_joined(head: Seq<char>, sep: char, tail: Seq<char>)
    requires
        !head.contains(sep),
    ensures
        split_at_first(head + seq![sep] + tail, sep) == Some((head, tail)),
{
    let s = head + seq![sep] + tail;
    let p = head.len() as int;
    assert(s[p] == sep);
    assert forall|j: int| 0 <= j < p implies s[j] != sep by {
        assert(s[j] == head[j]);
        assert(head.contains(head[j]));
    }
    lemma_first_position_is(s, sep, p);
    assert(s.take(p) =~= head);
    assert(s.skip(p + 1) =~= tail);
}

/// A text behind a prefix is found again when the prefix is cut off.
pub proof fn lemma_prefix_joined(prefix: Seq<char>, rest: Seq<char>)
    ensures
        without_prefix(prefix + rest, prefix) == Some(rest),
{
    let s = prefix + rest;
    assert(s.subrange(0, prefix.len() as int) =~= prefix);
    assert(s.skip(prefix.len() as int) =~= rest);
}

/// A text that neither starts nor ends with white space is left as it is.
pub proof fn lemma_trimmed_is_itself(s: Seq<char>)
    requires
        s.len() > 0 ==> !is_white_space(s[0]) && !is_white_space(s.last()),
    ensures
        trimmed(s) == s,
{
    if s.len() > 0 {
        assert(s.subrange(0, s.len() as int) =~= s);
    } else {
        assert(s =~= Seq::empty());
    }
}

/// `leading_space` counts exactly the run of white space at the start.
pub proof fn lemma_leading_space(s: Seq<char>)
    ensures
        0 <= leading_space(s) <= s.len(),
        forall|j: int| 0 <= j < leading_space(s) ==> is_white_space(s[j]),
        leading_space(s) < s.len() ==> !is_white_space(s[leading_space(s)]),
    decreases s.len(),
{
    if s.len() > 0 && is_white_space(s[0]) {
        let t = s.drop_first();
        lemma_leading_space(t);
        assert forall|j: int| 0 <= j < leading_space(s) implies is_white_space(s[j]) by {
            if j > 0 {
                assert(t[j - 1] == s[j]);
            }
        }
        if leading_space(s) < s.len() {
            assert(t[leading_space(t)] == s[leading_space(s)]);
        }
    }
}

/// `trailing_space` counts exactly the run of white space at the end.
pub proof fn lemma_trailing_space(s: Seq<char>)
    ensures
        0 <= trailing_space(s) <= s.len(),
        forall|j: int| s.len() - trailing_space(s) <= j < s.len() ==> is_white_space(s[j]),
        trailing_space(s) < s.len() ==> !is_white_space(s[s.len() - trailing_space(s) - 1]),
    decreases s.len(),
{
    if s.len() > 0 && is_white_space(s.last()) {
        let t = s.drop_last();
        lemma_trailing_space(t);
        assert forall|j: int| s.len() - trailing_space(s) <= j < s.len() implies is_white_space(
            s[j],
        ) by {
            if j < s.len() - 1 {
                assert(t[j] == s[j]);
            }
        }
        if trailing_space(s) < s.len() {
            assert(t[t.len() - trailing_space(t) - 1] == s[s.len() - trailing_space(s) - 1]);
        }
    }
}

/// A run of white space at the start that ends at `a` is the leading space.
proof fn lemma_leading_space_is(s: Seq<char>, a: int)
    requires
        0 <= a <= s.len(),
        forall|j: int| 0 <= j < a ==> is_white_space(s[j]),
        a < s.len() ==> !is_white_space(s[a]),
    ensures
        leading_space(s) == a,
{
    lemma_leading_space(s);
    let b = leading_space(s);
    if b < a {
        assert(is_white_space(s[b]));
    } else if a < b {
        assert(is_white_space(s[a]));
    }
}

/// A run of white space at the end that starts at `len - b` is the trailing space.
proof fn lemma_trailing_space_is(s: Seq<char>, b: int)
    requires
        0 <= b <= s.len(),
        forall|j: int| s.len() - b <= j < s.len() ==> is_white_space(s[j]),
        b < s.len() ==> !is_white_space(s[s.len() - b - 1]),
    ensures
        trailing_space(s) == b,
{
    lemma_trailing_space(s);
    let c = trailing_space(s);
    if c < b {
        assert(is_white_space(s[s.len() - c - 1]));
    } else if b < c {
        assert(is_white_space(s[s.len() - b - 1]));
    }
}

/// The characters of a string, one by one.
pub fn collect_chars(s: &str) -> (v: Vec<char>)
    ensures
        v@ == s@,
{
    let mut v: Vec<char> = Vec::new();
    for c in it: s.chars()
        invariant
            v@ =~= it.seq().take(it.index() as int),
            it.seq() == s@,
    {
        v.push(c);
    }
    v
}

/// Cuts `prefix` off the start of `s`.
pub fn strip_prefix<'a>(s: &'a str, prefix: &str) -> (r: Option<&'a str>)
    ensures
        r.is_some() == prefix@.is_prefix_of(s@),
        match r {
            Some(rest) => Some(rest@) == without_prefix(s@, prefix@),
            None => without_prefix(s@, prefix@) is None,
        },
{
    let text = collect_chars(s);
    let head = collect_chars(prefix);
    if head.len() > text.len() {
        return None;
    }
    let mut i: usize = 0;
    while i < head.len()
        invariant
            i <= head.len() <= text.len(),
            text@ == s@,
            head@ == prefix@,
            forall|j: int| 0 <= j < i ==> head@[j] == text@[j],
        decreases head.len() - i,
    {
        if head[i] != text[i] {
            assert(!(head@ =~= text@.subrange(0, head@.len() as int)));
            return None;
        }
        i += 1;
    }
    assert(head@ =~= text@.subrange(0, head@.len() as int));
    let rest = s.substring_char(head.len(), text.len());
    assert(rest@ =~= s@.skip(prefix@.len() as int));
    Some(rest)
}

/// Whether `s` starts with `prefix`.
pub fn starts_with(s: &str, prefix: &str) -> (r: bool)
    ensures
        r == prefix@.is_prefix_of(s@),
{
    strip_prefix(s, prefix).is_some()
}

/// Cuts `s` at its first `sep`.
pub fn split_once<'a>(s: &'a str, sep: char) -> (r: Option<(&'a str, &'a str)>)
    ensures
        match r {
            Some((head, tail)) => Some((head@, tail@)) == split_at_first(s@, sep),
            None => split_at_first(s@, sep) is None,
        },
{
    let text = collect_chars(s);
    let mut i: usize = 0;
    while i < text.len()
        invariant
            i <= text.len(),
            text@ == s@,
            forall|j: int| 0 <= j < i ==> text@[j] != sep,
        decreases text.len() - i,
    {
        if text[i] == sep {
            proof {
                lemma_first_position_is(s@, sep, i as int);
            }
            let head = s.substring_char(0, i);
            let tail = s.substring_char(i + 1, text.len());
            assert(head@ =~= s@.take(i as int));
            assert(tail@ =~= s@.skip(i + 1));
            return Some((head, tail));
        }
        i += 1;
    }
    proof {
        lemma_first_position_is(s@, sep, i as int);
    }
    None
}

/// Cuts the white space off both ends of `s`.
pub fn trim<'a>(s: &'a str) -> (r: &'a str)
    ensures
        r@ == trimmed(s@),
{
    let text = collect_chars(s);
    let mut a: usize = 0;
    while a < text.len() && char_is_whitespace(text[a])
        invariant
            a <= text.len(),
            text@ == s@,
            forall|j: int| 0 <= j < a ==> is_white_space(text@[j]),
        decreases text.len() - a,
    {
        a += 1;
    }
    proof {
        lemma_leading_space_is(s@, a as int);
    }
    if a == text.len() {
        let r = s.substring_char(0, 0);
        assert(r@ =~= Seq::<char>::empty());
        return r;
    }
    let mut b: usize = text.len();
    while b > a + 1 && char_is_whitespace(text[b - 1])
        invariant
            a < b <= text.len(),
            text@ == s@,
            !is_white_space(text@[a as int]),
            forall|j: int| b <= j < text.len() ==> is_white_space(text@[j]),
        decreases b,
    {
        b -= 1;
    }
    proof {
        lemma_trailing_space_is(s@, text.len() - b);
    }
    s.substring_char(a, b)
}

} // verus!
