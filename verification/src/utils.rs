//! Small helpers for names.

use vstd::prelude::*;
use crate::text::{chars_of, push_char};

verus! {

/// The small letter for a capital letter of the alphabet, and any other
/// character as it is.
pub open spec fn lowered(c: char) -> char {
    if 65 <= c as int <= 90 {
        ((c as int + 32) as u8) as char
    } else {
        c
    }
}

/// Whether the character at `i` begins a word for the purpose of a title: the
/// first character does, and so does the one after a space that does not
/// itself begin a word.
pub open spec fn begins_word(s: Seq<char>, i: int) -> bool
    decreases i,
{
    if i <= 0 {
        true
    } else {
        !begins_word(s, i - 1) && s[i - 1] == ' '
    }
}

/// The text with every character that does not begin a word in lower case.
pub open spec fn title_cased(s: Seq<char>) -> Seq<char> {
    Seq::new(
        s.len(),
        |i: int|
            if begins_word(s, i) {
                s[i]
            } else {
                lowered(s[i])
            },
    )
}

/// The character that stands for `c` in a slug: a hyphen for a space, the
/// small letter for a capital.
pub open spec fn slug_char(c: char) -> char {
    if c == ' ' {
        '-'
    } else {
        lowered(c)
    }
}

/// The text as a slug.
pub open spec fn slugged(s: Seq<char>) -> Seq<char> {
    Seq::new(s.len(), |i: int| slug_char(s[i]))
}

/// The small letter for a capital letter, and any other character as it is.
pub fn to_lower(c: char) -> (r: char)
    ensures
        r == lowered(c),
{
    let code: u32 = crate::text::code_of(c);
    if 65 <= code && code <= 90 {
        ((code + 32) as u8) as char
    } else {
        c
    }
}

/// The text with every character that does not begin a word in lower case.
pub fn title_case(s: &str) -> (r: String)
    ensures
        r@ == title_cased(s@),
{
    let chars = chars_of(s);
    let mut should_caps = true;
    let mut out = String::new();
    let mut i: usize = 0;
    while i < chars.len()
        invariant
            i <= chars@.len(),
            chars@ == s@,
            should_caps == begins_word(s@, i as int),
            out@ == title_cased(s@).take(i as int),
        decreases chars@.len() - i,
    {
        let x = chars[i];
        let y = if should_caps {
            should_caps = false;
            x
        } else {
            if x == ' ' {
                should_caps = true;
            }
            to_lower(x)
        };
        push_char(&mut out, y);
        assert(out@ =~= title_cased(s@).take(i + 1));
        i += 1;
    }
    assert(title_cased(s@).take(i as int) =~= title_cased(s@));
    out
}

/// The text as a slug: small letters, and hyphens for spaces.
pub fn slug(s: &str) -> (r: String)
    ensures
        r@ == slugged(s@),
{
    let chars = chars_of(s);
    let mut out = String::new();
    let mut i: usize = 0;
    while i < chars.len()
        invariant
            i <= chars@.len(),
            chars@ == s@,
            out@ == slugged(s@).take(i as int),
        decreases chars@.len() - i,
    {
        let x = chars[i];
        let y = if x == ' ' {
            '-'
        } else {
            to_lower(x)
        };
        push_char(&mut out, y);
        assert(out@ =~= slugged(s@).take(i + 1));
        i += 1;
    }
    assert(slugged(s@).take(i as int) =~= slugged(s@));
    out
}

} // verus!
