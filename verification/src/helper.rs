//! What the prompts for names and sizes complete and suggest.

use std::collections::hash_map::RandomState;
use vstd::multiset::Multiset;
use vstd::prelude::*;
use vstd::string::StrSliceExecFns;
use crate::text::{chars_of, push_char, split_at_last, split_last, string_of, texts};
use vstd::slice::slice_subrange;

verus! {

/// What a prompt gave: nothing for now, nothing ever, or an answer.
#[derive(Clone, Copy, Debug, PartialEq, Eq)]
pub enum Maybe<T> {
    Skip,
    Ignore,
    Something(T),
}

/// Whether `c` marks a word as the name of a token.
pub open spec fn is_modifier(c: char) -> bool {
    c == '>' || c == '.' || c == '='
}

/// The last word of `input`: what follows the last space, or all of it.
pub open spec fn last_word(input: Seq<char>) -> Seq<char> {
    match split_at_last(input, ' ') {
        Some((_, word)) => word,
        None => input,
    }
}

/// What stands before the last word of `input`, without the space.
pub open spec fn before_last_word(input: Seq<char>) -> Seq<char> {
    match split_at_last(input, ' ') {
        Some((before, _)) => before,
        None => Seq::empty(),
    }
}

/// The input up to and with the mark of its last word, and the name that the
/// word begins, where the last word is marked as the name of a token.
pub open spec fn last_token(input: Seq<char>) -> Option<(Seq<char>, Seq<char>)> {
    let word = last_word(input);
    let before = before_last_word(input);
    if word.len() > 0 && is_modifier(word[0]) {
        Some(
            (
                (if before.len() > 0 {
                    before.push(' ')
                } else {
                    before
                }).push(word[0]),
                word.skip(1),
            ),
        )
    } else {
        None
    }
}

/// Splits the input before the name that its last word begins.
pub fn split_last_token(input: &str) -> (r: Option<(String, &str)>)
    ensures
        match r {
            Some((prefix, name)) => last_token(input@) == Some((prefix@, name@)),
            None => last_token(input@) is None,
        },
{
    let chars = chars_of(input);
    let total = chars.len();
    let (before, word) = match split_last(chars.as_slice(), ' ') {
        Some((before, word)) => (before, word),
        None => (slice_subrange(chars.as_slice(), 0, 0), chars.as_slice()),
    };
    let start = total - word.len();
    assert(before@ == before_last_word(input@));
    assert(word@ == last_word(input@));
    assert(word@ == input@.skip(start as int));
    if word.len() == 0 {
        return None;
    }
    let modifier = word[0];
    if !(modifier == '>' || modifier == '.' || modifier == '=') {
        return None;
    }
    let mut prefix = string_of(before);
    if before.len() > 0 {
        push_char(&mut prefix, ' ');
    }
    push_char(&mut prefix, modifier);
    let name = input.substring_char(start + 1, total);
    assert(name@ == word@.skip(1));
    Some((prefix, name))
}

/// Whether `p` begins every one of `all`.
pub open spec fn begins_all(p: Seq<char>, all: Seq<Seq<char>>) -> bool {
    forall|i: int| 0 <= i < all.len() ==> p.is_prefix_of(#[trigger] all[i])
}

/// Whether `p` is the longest text that begins every one of `all`.
pub open spec fn longest_beginning(p: Seq<char>, all: Seq<Seq<char>>) -> bool {
    &&& begins_all(p, all)
    &&& forall|q: Seq<char>| begins_all(q, all) ==> q.len() <= p.len()
}

/// The longest text that begins every suggestion.
pub fn common_prefix(suggestions: Vec<String>) -> (r: Option<String>)
    ensures
        match r {
            Some(p) => suggestions@.len() > 0 && longest_beginning(p@, texts(suggestions@)),
            None => suggestions@.len() == 0,
        },
{
    if suggestions.len() == 0 {
        return None;
    }
    let first = chars_of(suggestions[0].as_str());
    let mut keep: usize = first.len();
    let mut i: usize = 1;
    assert(first@.take(keep as int) == first@);
    while i < suggestions.len()
        invariant
            1 <= i <= suggestions@.len(),
            first@ == suggestions@[0]@,
            keep <= first@.len(),
            forall|k: int|
                0 <= k < i ==> first@.take(keep as int).is_prefix_of(#[trigger] suggestions@[k]@),
            keep == first@.len() || exists|k: int|
                0 <= k < i && ((#[trigger] suggestions@[k])@.len() == keep || (suggestions@[k]@.len()
                    > keep && suggestions@[k]@[keep as int] != first@[keep as int])),
        decreases suggestions@.len() - i,
    {
        let other = chars_of(suggestions[i].as_str());
        let ghost before = keep;
        let mut same: usize = 0;
        while same < keep && same < other.len() && other[same] == first[same]
            invariant
                same <= keep <= first@.len(),
                same <= other@.len(),
                forall|x: int| 0 <= x < same ==> other@[x] == first@[x],
            decreases keep - same,
        {
            same += 1;
        }
        if same < keep {
            keep = same;
        }
        proof {
            assert(first@.take(keep as int) =~= other@.subrange(0, keep as int));
            assert forall|k: int| 0 <= k < i + 1 implies first@.take(keep as int).is_prefix_of(
                #[trigger] suggestions@[k]@,
            ) by {
                if k < i {
                    let s = suggestions@[k]@;
                    assert(first@.take(before as int).is_prefix_of(s));
                    assert(first@.take(keep as int) =~= s.subrange(0, keep as int)) by {
                        assert forall|x: int| 0 <= x < keep implies first@.take(keep as int)[x]
                            == s.subrange(0, keep as int)[x] by {
                            assert(first@.take(before as int)[x] == s.subrange(
                                0,
                                before as int,
                            )[x]);
                        }
                    }
                }
            }
            if keep < before {
                assert(suggestions@[i as int]@.len() == keep || (suggestions@[i as int]@.len()
                    > keep && suggestions@[i as int]@[keep as int] != first@[keep as int]));
            }
        }
        i += 1;
    }
    let prefix = string_of(slice_subrange(first.as_slice(), 0, keep));
    proof {
        assert(prefix@ == first@.take(keep as int));
        let all = texts(suggestions@);
        assert forall|i: int| 0 <= i < all.len() implies prefix@.is_prefix_of(#[trigger] all[i]) by {
            assert(all[i] == suggestions@[i]@);
        }
        assert forall|q: Seq<char>| begins_all(q, all) implies q.len() <= keep by {
            if q.len() > keep {
                assert(all[0] == suggestions@[0]@);
                assert(q.is_prefix_of(suggestions@[0]@));
                assert(q[keep as int] == first@.subrange(0, q.len() as int)[keep as int]);
                if keep < first@.len() {
                    let k = choose|k: int|
                        0 <= k < suggestions@.len() && ((#[trigger] suggestions@[k])@.len() == keep
                            || (suggestions@[k]@.len() > keep && suggestions@[k]@[keep as int]
                            != first@[keep as int]));
                    assert(all[k] == suggestions@[k]@);
                    assert(q.is_prefix_of(suggestions@[k]@));
                    assert(q[keep as int] == suggestions@[k]@.subrange(
                        0,
                        q.len() as int,
                    )[keep as int]);
                }
            }
        }
    }
    Some(prefix)
}

/// The items among the first `n` that begin with `input`, in order.
pub open spec fn beginning_with(items: Seq<String>, input: Seq<char>, n: int) -> Seq<Seq<char>>
    decreases n,
{
    if n <= 0 {
        Seq::empty()
    } else if input.is_prefix_of(items[n - 1]@) {
        beginning_with(items, input, n - 1).push(items[n - 1]@)
    } else {
        beginning_with(items, input, n - 1)
    }
}

/// The items that begin with `input`, in order.
pub fn starting_with(items: &Vec<String>, input: &str) -> (r: Vec<String>)
    ensures
        texts(r@) == beginning_with(items@, input@, items@.len() as int),
{
    let wanted = chars_of(input);
    let mut found: Vec<String> = Vec::new();
    let mut i: usize = 0;
    assert(texts(found@) =~= beginning_with(items@, input@, 0));
    while i < items.len()
        invariant
            i <= items@.len(),
            wanted@ == input@,
            texts(found@) == beginning_with(items@, input@, i as int),
        decreases items@.len() - i,
    {
        let item = chars_of(items[i].as_str());
        let begins = wanted.len() <= item.len() && crate::text::same_chars(
            slice_subrange(item.as_slice(), 0, wanted.len()),
            wanted.as_slice(),
        );
        assert(begins == input@.is_prefix_of(items@[i as int]@));
        if begins {
            let ghost before = found@;
            found.push(items[i].clone());
            assert(texts(found@) =~= texts(before).push(items@[i as int]@));
        }
        i += 1;
    }
    found
}

/// How many bytes a character takes in a string.
pub open spec fn byte_width(c: char) -> nat {
    if (c as int) < 0x80 {
        1
    } else if (c as int) < 0x800 {
        2
    } else if (c as int) < 0x10000 {
        3
    } else {
        4
    }
}

/// How many bytes a text takes in a string.
pub open spec fn byte_length(s: Seq<char>) -> nat
    decreases s.len(),
{
    if s.len() == 0 {
        0
    } else {
        byte_length(s.drop_last()) + byte_width(s.last())
    }
}

/// A text takes at least the bytes that any beginning of it takes.
pub proof fn lemma_byte_length_grows(s: Seq<char>, k: int)
    requires
        0 <= k <= s.len(),
    ensures
        byte_length(s.take(k)) <= byte_length(s),
    decreases s.len(),
{
    if k == s.len() {
        assert(s.take(k) == s);
    } else {
        lemma_byte_length_grows(s.drop_last(), k);
        assert(s.drop_last().take(k) == s.take(k));
    }
}

/// Whether a text takes at least `n` bytes.
pub fn has_bytes(s: &str, n: usize) -> (r: bool)
    ensures
        r == (byte_length(s@) >= n),
{
    if n == 0 {
        return true;
    }
    let chars = chars_of(s);
    let mut bytes: usize = 0;
    let mut i: usize = 0;
    while i < chars.len()
        invariant
            i <= chars@.len(),
            chars@ == s@,
            bytes == byte_length(s@.take(i as int)),
            bytes < n,
        decreases chars@.len() - i,
    {
        let code: u32 = crate::text::code_of(chars[i]);
        let width: usize = if code < 0x80 {
            1
        } else if code < 0x800 {
            2
        } else if code < 0x10000 {
            3
        } else {
            4
        };
        proof {
            assert(s@.take(i + 1).drop_last() == s@.take(i as int));
            assert(s@.take(i + 1).last() == chars@[i as int]);
        }
        if width >= n - bytes {
            proof {
                lemma_byte_length_grows(s@, i + 1);
            }
            return true;
        }
        bytes = bytes + width;
        i += 1;
    }
    proof {
        assert(s@.take(i as int) == s@);
    }
    false
}

/// The names of tokens to suggest for an input: those that begin with the
/// name that the input's last word begins, once that name has three bytes.
pub open spec fn suggested_tokens(tokens: Seq<String>, input: Seq<char>) -> Seq<Seq<char>> {
    match last_token(input) {
        Some((_, name)) => if byte_length(name) >= 3 {
            beginning_with(tokens, name, tokens.len() as int)
        } else {
            Seq::empty()
        },
        None => Seq::empty(),
    }
}

/// The names of tokens to suggest for an input.
pub fn token_suggestions(tokens: &Vec<String>, input: &str) -> (r: Vec<String>)
    ensures
        texts(r@) == suggested_tokens(tokens@, input@),
{
    match split_last_token(input) {
        Some((_, name)) => {
            if has_bytes(name, 3) {
                starting_with(tokens, name)
            } else {
                let none: Vec<String> = Vec::new();
                assert(texts(none@) =~= Seq::<Seq<char>>::empty());
                none
            }
        },
        None => {
            let none: Vec<String> = Vec::new();
            assert(texts(none@) =~= Seq::<Seq<char>>::empty());
            none
        },
    }
}

/// A counter of the crate `counter`: it holds items, each as often as it was
/// put in.
#[verifier::external_type_specification]
#[verifier::external_body]
#[verifier::reject_recursive_types(T)]
#[verifier::reject_recursive_types(N)]
#[verifier::reject_recursive_types(S)]
pub struct ExCounter<T, N, S>(counter::Counter<T, N, S>);

/// The texts that a counter holds, each as often as it was put in.
pub uninterp spec fn counted(c: counter::Counter<String, usize, RandomState>) -> Multiset<
    Seq<char>,
>;

/// Whether `ranked` lists what `held` holds from the most common to the
/// least: every text that is held stands in it once, a text before every
/// text that is held less often, and of two that are held as often the one
/// that comes first in the order of texts.
pub open spec fn most_common_first(held: Multiset<Seq<char>>, ranked: Seq<Seq<char>>) -> bool {
    &&& forall|x: Seq<char>| ranked.contains(x) <==> held.count(x) > 0
    &&& forall|a: int, b: int|
        0 <= a < b < ranked.len() ==> held.count(#[trigger] ranked[a]) > held.count(
            #[trigger] ranked[b],
        ) || (held.count(ranked[a]) == held.count(ranked[b]) && crate::text::text_before(
            ranked[a],
            ranked[b],
        ))
}

/// Counts some texts. This is `collect` into a `counter::Counter`, which is
/// the crate's `from_iter`: the counter holds every text as often as it
/// stands among the items.
#[verifier::external_body]
fn count_all(items: &Vec<String>) -> (r: counter::Counter<String, usize, RandomState>)
    ensures
        counted(r) == texts(items@).to_multiset(),
{
    items.iter().cloned().collect()
}

/// The texts of a counter from the most common to the least. This is
/// `counter::Counter::most_common_ordered` without the counts: it sorts by
/// falling count and, among equal counts, by the order of the items, which
/// for strings is the order of texts.
#[verifier::external_body]
fn most_common(c: &counter::Counter<String, usize, RandomState>) -> (r: Vec<String>)
    ensures
        most_common_first(counted(*c), texts(r@)),
{
    c.most_common_ordered().into_iter().map(|(text, _)| text).collect()
}

/// The texts from the most common to the least, each once.
pub fn by_frequency(items: &Vec<String>) -> (r: Vec<String>)
    ensures
        most_common_first(texts(items@).to_multiset(), texts(r@)),
{
    let counter = count_all(items);
    most_common(&counter)
}

/// The first `n` lists one after the other.
pub open spec fn flattened(lists: Seq<Vec<String>>, n: int) -> Seq<Seq<char>>
    decreases n,
{
    if n <= 0 {
        Seq::empty()
    } else {
        flattened(lists, n - 1) + texts(lists[n - 1]@)
    }
}

/// Some lists one after the other.
pub fn flatten(lists: &Vec<Vec<String>>) -> (r: Vec<String>)
    ensures
        texts(r@) == flattened(lists@, lists@.len() as int),
{
    let mut all: Vec<String> = Vec::new();
    let mut i: usize = 0;
    assert(texts(all@) =~= flattened(lists@, 0));
    while i < lists.len()
        invariant
            i <= lists@.len(),
            texts(all@) == flattened(lists@, i as int),
        decreases lists@.len() - i,
    {
        let list = &lists[i];
        let ghost before = all@;
        let mut k: usize = 0;
        while k < list.len()
            invariant
                k <= list@.len(),
                texts(all@) == texts(before) + texts(list@).take(k as int),
            decreases list@.len() - k,
        {
            let ghost was = all@;
            all.push(list[k].clone());
            assert(texts(all@) =~= texts(was).push(list@[k as int]@));
            assert(texts(list@).take(k + 1) =~= texts(list@).take(k as int).push(list@[k as int]@));
            k += 1;
        }
        assert(texts(list@).take(k as int) =~= texts(list@));
        i += 1;
    }
    all
}

/// The tags of some products from the most common to the least.
pub fn common_tags(tags: &Vec<Vec<String>>) -> (r: Vec<String>)
    ensures
        most_common_first(flattened(tags@, tags@.len() as int).to_multiset(), texts(r@)),
{
    let all = flatten(tags);
    by_frequency(&all)
}

/// What completes the name of a token at the end of an input: nothing
/// where the last word names no token; else the input up to the mark of its
/// last word, followed by the suggestion that is picked out or, where none
/// is, by the longest text that begins every suggestion, if there are any.
pub fn token_completion(tokens: &Vec<String>, input: &str, highlighted: Option<String>) -> (r:
    Option<String>)
    ensures
        match last_token(input@) {
            None => r is None,
            Some((prefix, _)) => match highlighted {
                Some(x) => r is Some && r->0@ == prefix + x@,
                None => if suggested_tokens(tokens@, input@).len() == 0 {
                    r is None
                } else {
                    &&& r is Some
                    &&& prefix.is_prefix_of(r->0@)
                    &&& longest_beginning(
                        r->0@.skip(prefix.len() as int),
                        suggested_tokens(tokens@, input@),
                    )
                },
            },
        },
{
    let prefix = match split_last_token(input) {
        Some((prefix, _)) => prefix,
        None => { return None; },
    };
    let mut out = prefix;
    let ghost head = out@;
    match highlighted {
        Some(x) => {
            crate::text::push_text(&mut out, x.as_str());
            Some(out)
        },
        None => {
            let suggestions = token_suggestions(tokens, input);
            match common_prefix(suggestions) {
                Some(p) => {
                    crate::text::push_text(&mut out, p.as_str());
                    assert(out@.skip(head.len() as int) =~= p@);
                    assert(out@.subrange(0, head.len() as int) =~= head);
                    Some(out)
                },
                None => None,
            }
        },
    }
}

/// What completes a size: the suggestion that is picked out or, where none
/// is, the longest text that begins every size that begins with the input,
/// if there are any.
pub fn size_completion(sizes: &Vec<String>, input: &str, highlighted: Option<String>) -> (r:
    Option<String>)
    ensures
        match highlighted {
            Some(x) => r == Some(x),
            None => if beginning_with(sizes@, input@, sizes@.len() as int).len() == 0 {
                r is None
            } else {
                r is Some && longest_beginning(
                    r->0@,
                    beginning_with(sizes@, input@, sizes@.len() as int),
                )
            },
        },
{
    match highlighted {
        Some(x) => Some(x),
        None => common_prefix(starting_with(sizes, input)),
    }
}

} // verus!
