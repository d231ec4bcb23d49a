//! Pairs of a name and a value, as the tags of a map entity or the
//! definitions of tokens: what is looked up is the first pair of that name.

use vstd::prelude::*;
use crate::text::{chars_of, same_chars};

verus! {

/// The value of the first pair named `key`.
pub open spec fn tag_value(tags: Seq<(String, String)>, key: Seq<char>) -> Option<Seq<char>>
    decreases tags.len(),
{
    if tags.len() == 0 {
        None
    } else if tags[0].0@ == key {
        Some(tags[0].1@)
    } else {
        tag_value(tags.skip(1), key)
    }
}

/// The value of the first pair named `key`.
pub fn lookup_chars<'a>(pairs: &'a Vec<(String, String)>, key: &[char]) -> (r: Option<&'a String>)
    ensures
        match r {
            Some(v) => tag_value(pairs@, key@) == Some(v@),
            None => tag_value(pairs@, key@) is None,
        },
{
    let mut i: usize = 0;
    assert(pairs@.skip(0) == pairs@);
    while i < pairs.len()
        invariant
            i <= pairs@.len(),
            tag_value(pairs@, key@) == tag_value(pairs@.skip(i as int), key@),
        decreases pairs@.len() - i,
    {
        let name = chars_of(pairs[i].0.as_str());
        assert(pairs@.skip(i as int)[0] == pairs@[i as int]);
        if same_chars(name.as_slice(), key) {
            return Some(&pairs[i].1);
        }
        assert(pairs@.skip(i as int).skip(1) == pairs@.skip(i + 1));
        i += 1;
    }
    None
}

/// The value of the first pair named `key`.
pub fn lookup<'a>(pairs: &'a Vec<(String, String)>, key: &str) -> (r: Option<&'a String>)
    ensures
        match r {
            Some(v) => tag_value(pairs@, key@) == Some(v@),
            None => tag_value(pairs@, key@) is None,
        },
{
    let name = chars_of(key);
    lookup_chars(pairs, name.as_slice())
}

} // verus!
