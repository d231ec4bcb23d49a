//! Writing a name out: a word that names a token stands for the words of the
//! token's definition, which may name tokens in turn.

use vstd::prelude::*;
use vstd::slice::slice_subrange;
use crate::pairs::{lookup_chars, tag_value};
use crate::text::texts;
use crate::text::{
    chars_of, pieces_of, push_chars, push_char, push_text, split, split_on, string_of,
};

verus! {

/// Why a name could not be written out.
#[derive(Clone, Debug, PartialEq, Eq)]
pub enum EvalError {
    /// A word names a token that has no definition.
    Undefined(String),
    /// The definitions lead from a token back to itself.
    Endless,
}

/// An error with its text as a sequence of characters.
pub enum EvalFault {
    Undefined(Seq<char>),
    Endless,
}

impl View for EvalError {
    type V = EvalFault;

    open spec fn view(&self) -> EvalFault {
        match self {
            EvalError::Undefined(name) => EvalFault::Undefined(name@),
            EvalError::Endless => EvalFault::Endless,
        }
    }
}

impl EvalError {
    /// The message of the error.
    pub fn message(&self) -> (r: String)
        ensures
            r@ == match self@ {
                EvalFault::Undefined(name) => "undefined token: "@ + name,
                EvalFault::Endless => "token defined by itself"@,
            },
    {
        let mut out = String::new();
        match self {
            EvalError::Undefined(name) => {
                push_text(&mut out, "undefined token: ");
                push_text(&mut out, name.as_str());
            },
            EvalError::Endless => {
                push_text(&mut out, "token defined by itself");
            },
        }
        out
    }
}

/// What has been written out so far.
pub struct Expansion {
    /// The words to show.
    pub display: Seq<char>,
    /// The tokens that were named, in the order of their naming.
    pub found: Seq<Seq<char>>,
    /// Whether words are kept from the display for now.
    pub hidden: bool,
}

/// What has been written out so far.
struct Expanding {
    display: String,
    found: Vec<String>,
    hidden: bool,
}

impl Expanding {
    /// What has been written out so far, as texts.
    spec fn shown(&self) -> Expansion {
        Expansion { display: self.display@, found: texts(self.found@), hidden: self.hidden }
    }
}

/// Whether `word` begins with `c`.
pub open spec fn begins_with(word: Seq<char>, c: char) -> bool {
    word.len() > 0 && word[0] == c
}

/// The expansion after the token `name` was named: the token is noted, and
/// the words of its definition are added. `depth` is how many definitions
/// may still be entered one inside the other.
pub open spec fn expand(
    tokens: Seq<(String, String)>,
    name: Seq<char>,
    at: Expansion,
    depth: nat,
) -> Result<Expansion, EvalFault>
    decreases depth, 0int,
{
    let noted = Expansion { display: at.display, found: at.found.push(name), hidden: at.hidden };
    match tag_value(tokens, name) {
        None => Err(EvalFault::Undefined(name)),
        Some(definition) => if depth == 0 {
            Err(EvalFault::Endless)
        } else {
            add_upto(
                tokens,
                split_on(definition, ' '),
                split_on(definition, ' ').len() as int,
                noted,
                (depth - 1) as nat,
            )
        },
    }
}

/// The expansion after one more word. A word after `>` names a token. So
/// does a word after `.` or `=`, whose words are kept from the display. Any
/// other word is shown, after a space where something is shown already,
/// unless words are kept from the display.
pub open spec fn add_word(
    tokens: Seq<(String, String)>,
    word: Seq<char>,
    at: Expansion,
    depth: nat,
) -> Result<Expansion, EvalFault>
    decreases depth, 1int,
{
    if begins_with(word, '>') {
        expand(tokens, word.skip(1), at, depth)
    } else if begins_with(word, '.') || begins_with(word, '=') {
        match expand(
            tokens,
            word.skip(1),
            Expansion { display: at.display, found: at.found, hidden: true },
            depth,
        ) {
            Ok(e) => Ok(Expansion { display: e.display, found: e.found, hidden: at.hidden }),
            Err(e) => Err(e),
        }
    } else if at.hidden {
        Ok(at)
    } else {
        Ok(
            Expansion {
                display: (if at.display.len() > 0 {
                    at.display.push(' ')
                } else {
                    at.display
                }) + word,
                found: at.found,
                hidden: at.hidden,
            },
        )
    }
}

/// The expansion after the first `n` of some words.
pub open spec fn add_upto(
    tokens: Seq<(String, String)>,
    words: Seq<Seq<char>>,
    n: int,
    at: Expansion,
    depth: nat,
) -> Result<Expansion, EvalFault>
    decreases depth, n + 2,
{
    if n <= 0 {
        Ok(at)
    } else {
        match add_upto(tokens, words, n - 1, at, depth) {
            Ok(e) => add_word(tokens, words[n - 1], e, depth),
            Err(e) => Err(e),
        }
    }
}

/// What `words` write out under the definitions `tokens`: what to show, and
/// the tokens that were named. Definitions that lead from a token back to
/// itself are found out by their depth: one definition inside the other,
/// there are no more than there are definitions.
pub open spec fn evaluated(tokens: Seq<(String, String)>, words: Seq<char>) -> Result<
    (Seq<char>, Seq<Seq<char>>),
    EvalFault,
> {
    match add_upto(
        tokens,
        split_on(words, ' '),
        split_on(words, ' ').len() as int,
        Expansion { display: Seq::empty(), found: Seq::empty(), hidden: false },
        tokens.len(),
    ) {
        Ok(e) => Ok((e.display, e.found)),
        Err(e) => Err(e),
    }
}

/// Notes a token that was named and adds the words of its definition.
fn name_token(tokens: &Vec<(String, String)>, name: &[char], at: &mut Expanding, depth: usize) -> (r:
    Result<(), EvalError>)
    ensures
        match r {
            Ok(_) => expand(tokens@, name@, old(at).shown(), depth as nat) == Ok::<Expansion, EvalFault>(
                final(at).shown(),
            ),
            Err(e) => expand(tokens@, name@, old(at).shown(), depth as nat) == Err::<
                Expansion,
                EvalFault,
            >(e@),
        },
    decreases depth, 0int,
{
    let ghost before = at.found@;
    at.found.push(string_of(name));
    assert(texts(at.found@) =~= texts(before).push(name@));
    match lookup_chars(tokens, name) {
        None => Err(EvalError::Undefined(string_of(name))),
        Some(words) => {
            if depth == 0 {
                return Err(EvalError::Endless);
            }
            let chars = chars_of(words.as_str());
            add_words(tokens, chars.as_slice(), at, depth - 1)
        },
    }
}

/// Adds one word.
fn write_word(tokens: &Vec<(String, String)>, word: &[char], at: &mut Expanding, depth: usize) -> (r:
    Result<(), EvalError>)
    ensures
        match r {
            Ok(_) => add_word(tokens@, word@, old(at).shown(), depth as nat) == Ok::<
                Expansion,
                EvalFault,
            >(final(at).shown()),
            Err(e) => add_word(tokens@, word@, old(at).shown(), depth as nat) == Err::<
                Expansion,
                EvalFault,
            >(e@),
        },
    decreases depth, 1int,
{
    if word.len() > 0 && word[0] == '>' {
        let name = slice_subrange(word, 1, word.len());
        name_token(tokens, name, at, depth)
    } else if word.len() > 0 && (word[0] == '.' || word[0] == '=') {
        let name = slice_subrange(word, 1, word.len());
        let was = at.hidden;
        at.hidden = true;
        match name_token(tokens, name, at, depth) {
            Ok(()) => {
                at.hidden = was;
                Ok(())
            },
            Err(e) => Err(e),
        }
    } else {
        if !at.hidden {
            if at.display.as_str().unicode_len() != 0 {
                push_char(&mut at.display, ' ');
            }
            push_chars(&mut at.display, word);
        }
        Ok(())
    }
}

/// Adds some words, set apart by spaces.
fn add_words(tokens: &Vec<(String, String)>, words: &[char], at: &mut Expanding, depth: usize) -> (r:
    Result<(), EvalError>)
    ensures
        match r {
            Ok(_) => add_upto(
                tokens@,
                split_on(words@, ' '),
                split_on(words@, ' ').len() as int,
                old(at).shown(),
                depth as nat,
            ) == Ok::<Expansion, EvalFault>(final(at).shown()),
            Err(e) => add_upto(
                tokens@,
                split_on(words@, ' '),
                split_on(words@, ' ').len() as int,
                old(at).shown(),
                depth as nat,
            ) == Err::<Expansion, EvalFault>(e@),
        },
    decreases depth, 2int,
{
    let pieces = split(words, ' ');
    let ghost all = split_on(words@, ' ');
    let mut i: usize = 0;
    while i < pieces.len()
        invariant
            i <= pieces@.len(),
            pieces_of(pieces@) == all,
            all == split_on(words@, ' '),
            add_upto(tokens@, all, i as int, old(at).shown(), depth as nat) == Ok::<Expansion, EvalFault>(
                at.shown(),
            ),
        decreases pieces@.len() - i,
    {
        assert(all[i as int] == pieces@[i as int]@);
        match write_word(tokens, pieces[i].as_slice(), at, depth) {
            Ok(()) => {},
            Err(e) => {
                proof {
                    lemma_fault_stays(tokens@, all, i + 1, all.len() as int, old(at).shown(), depth as nat);
                }
                return Err(e);
            },
        }
        i += 1;
    }
    assert(pieces@.len() == all.len());
    Ok(())
}

/// Once a word cannot be written out, the words after it change nothing.
proof fn lemma_fault_stays(
    tokens: Seq<(String, String)>,
    words: Seq<Seq<char>>,
    n: int,
    m: int,
    at: Expansion,
    depth: nat,
)
    requires
        0 <= n <= m,
        add_upto(tokens, words, n, at, depth) is Err,
    ensures
        add_upto(tokens, words, m, at, depth) == add_upto(tokens, words, n, at, depth),
    decreases m - n,
{
    if n < m {
        lemma_fault_stays(tokens, words, n, m - 1, at, depth);
    }
}

/// Writes `words` out under the definitions `tokens`: what to show, and the
/// tokens that were named.
pub fn eval(tokens: &Vec<(String, String)>, words: &str) -> (r: Result<
    (String, Vec<String>),
    EvalError,
>)
    ensures
        match r {
            Ok((display, found)) => evaluated(tokens@, words@) == Ok::<
                (Seq<char>, Seq<Seq<char>>),
                EvalFault,
            >((display@, texts(found@))),
            Err(e) => evaluated(tokens@, words@) == Err::<(Seq<char>, Seq<Seq<char>>), EvalFault>(
                e@,
            ),
        },
{
    let mut at = Expanding { display: String::new(), found: Vec::new(), hidden: false };
    assert(texts(at.found@) =~= Seq::empty());
    let chars = chars_of(words);
    match add_words(tokens, chars.as_slice(), &mut at, tokens.len()) {
        Ok(()) => Ok((at.display, at.found)),
        Err(e) => Err(e),
    }
}

} // verus!
