//! Tokens: names for groups of words, which may build on other tokens.

use std::collections::VecDeque;
use vstd::prelude::*;
use vstd::slice::slice_subrange;
use crate::sorted::{
    has_key, keys_before, lemma_keys_before, lemma_with_entry_rising, slugs_rising, with_entry,
};
use crate::text::{
    texts, chars_of, comes_before, contains_text, occurs_in, pieces_of, push_char, push_text, same_chars,
    split, split_on, string_of,
};
use crate::utils::{slug, slugged};

verus! {

/// A token that has been worked out: the words that stand for it, and the
/// tokens that it builds on.
#[derive(Clone, Debug, PartialEq, Eq)]
pub struct Token {
    pub words: Vec<String>,
    pub parents: Vec<String>,
}

/// A word of a token as it is written down: a plain word, the name of a token
/// whose words the token takes over, or the name of a token that it only
/// builds on.
#[derive(Clone, Debug, PartialEq, Eq)]
pub enum RawWord {
    Plain(String),
    Parent(String),
    HiddenParent(String),
}

/// The tokens under their slugs, in the order of the slugs.
#[derive(Clone, Debug, PartialEq, Eq)]
pub struct Tokenizer {
    pub tokens: Vec<(String, Token)>,
}

/// A token builds on a token that is not there.
#[derive(Clone, Debug, PartialEq, Eq)]
pub struct MissingParent {
    /// The words of the token.
    pub token: Vec<RawWord>,
    /// The name of the token that is not there.
    pub parent: String,
}

/// A written word with its text as a sequence of characters.
pub enum WordText {
    Plain(Seq<char>),
    Parent(Seq<char>),
    HiddenParent(Seq<char>),
}

/// A token with its texts as sequences of characters.
pub struct TokenText {
    pub words: Seq<Seq<char>>,
    pub parents: Seq<Seq<char>>,
}

impl View for RawWord {
    type V = WordText;

    open spec fn view(&self) -> WordText {
        match self {
            RawWord::Plain(x) => WordText::Plain(x@),
            RawWord::Parent(x) => WordText::Parent(x@),
            RawWord::HiddenParent(x) => WordText::HiddenParent(x@),
        }
    }
}

impl View for Token {
    type V = TokenText;

    open spec fn view(&self) -> TokenText {
        TokenText { words: texts(self.words@), parents: texts(self.parents@) }
    }
}

impl WordText {
    /// The token that the word names.
    pub open spec fn parent(self) -> Option<Seq<char>> {
        match self {
            WordText::Plain(_) => None,
            WordText::Parent(x) => Some(x),
            WordText::HiddenParent(x) => Some(x),
        }
    }
}

/// The texts of some written words.
pub open spec fn words_text(item: Seq<RawWord>) -> Seq<WordText> {
    Seq::new(item.len(), |i: int| item[i]@)
}

/// The texts of some tokens under their slugs.
pub open spec fn entries_text(entries: Seq<(String, Token)>) -> Seq<(Seq<char>, TokenText)> {
    Seq::new(entries.len(), |i: int| (entries[i].0@, entries[i].1@))
}

/// The first `n` words with a space between each two.
pub open spec fn joined(words: Seq<Seq<char>>, n: int) -> Seq<char>
    decreases n,
{
    if n <= 0 {
        Seq::empty()
    } else if n == 1 {
        words[0]
    } else {
        joined(words, n - 1) + " "@ + words[n - 1]
    }
}

/// The word with a space for every plus sign.
pub open spec fn spaced(w: Seq<char>) -> Seq<char> {
    Seq::new(
        w.len(),
        |i: int|
            if w[i] == '+' {
                ' '
            } else {
                w[i]
            },
    )
}

/// What a word that is not empty writes: after a plus sign the name of a
/// token to take over, after a point the name of a token to build on, and
/// else the word itself.
pub open spec fn word_of(w: Seq<char>) -> WordText {
    if w[0] == '+' {
        WordText::Parent(w.skip(1))
    } else if w[0] == '.' {
        WordText::HiddenParent(w.skip(1))
    } else {
        WordText::Plain(spaced(w))
    }
}

/// What the first `n` pieces of a line write. An empty piece writes nothing.
pub open spec fn words_among(pieces: Seq<Seq<char>>, n: int) -> Seq<WordText>
    decreases n,
{
    if n <= 0 {
        Seq::empty()
    } else if pieces[n - 1].len() == 0 {
        words_among(pieces, n - 1)
    } else {
        words_among(pieces, n - 1).push(word_of(pieces[n - 1]))
    }
}

/// What a line writes: its words are set apart by spaces.
pub open spec fn line_words(line: Seq<char>) -> Seq<WordText> {
    words_among(split_on(line, ' '), split_on(line, ' ').len() as int)
}

/// The words of the token under `key`.
pub open spec fn words_under(entries: Seq<(Seq<char>, TokenText)>, key: Seq<char>) -> Seq<
    Seq<char>,
> {
    entries[keys_before(entries, key)].1.words
}

/// The name of the first token among those that the first `n` words name
/// that is not there.
pub open spec fn first_missing(
    item: Seq<WordText>,
    entries: Seq<(Seq<char>, TokenText)>,
    n: int,
) -> Option<Seq<char>>
    decreases n,
{
    if n <= 0 {
        None
    } else {
        match first_missing(item, entries, n - 1) {
            Some(p) => Some(p),
            None => match item[n - 1].parent() {
                Some(p) => if has_key(entries, p) {
                    None
                } else {
                    Some(p)
                },
                None => None,
            },
        }
    }
}

/// The token that the first `n` written words make, given the tokens that
/// they name: a plain word is a word of the token, a token to take over
/// gives its words, and every named token is a parent.
pub open spec fn solved(item: Seq<WordText>, entries: Seq<(Seq<char>, TokenText)>, n: int)
    -> TokenText
    decreases n,
{
    if n <= 0 {
        TokenText { words: Seq::empty(), parents: Seq::empty() }
    } else {
        let so_far = solved(item, entries, n - 1);
        match item[n - 1] {
            WordText::Plain(x) => TokenText { words: so_far.words.push(x), parents: so_far.parents },
            WordText::Parent(x) => TokenText {
                words: so_far.words + words_under(entries, x),
                parents: so_far.parents.push(x),
            },
            WordText::HiddenParent(x) => TokenText {
                words: so_far.words,
                parents: so_far.parents.push(x),
            },
        }
    }
}

/// The slug of a token: of its words with a space between each two.
pub open spec fn slug_of(token: TokenText) -> Seq<char> {
    slugged(joined(token.words, token.words.len() as int))
}

/// What working through the written tokens in `queue` gives, with the tokens
/// `entries` worked out so far. The first written token is worked out if all
/// that it names is there, and put under its slug. Else it goes to the end
/// to wait; but where the written token before it had to wait too, the work
/// stops with the token and the first name that is not there.
pub open spec fn settle(
    queue: Seq<Seq<WordText>>,
    entries: Seq<(Seq<char>, TokenText)>,
    waited: bool,
) -> Result<Seq<(Seq<char>, TokenText)>, (Seq<WordText>, Seq<char>)>
    decreases
            2 * queue.len() + (if waited {
                0int
            } else {
                1int
            }),
{
    if queue.len() == 0 {
        Ok(entries)
    } else {
        let item = queue[0];
        match first_missing(item, entries, item.len() as int) {
            Some(p) => if waited {
                Err((item, p))
            } else {
                settle(queue.skip(1).push(item), entries, true)
            },
            None => {
                let token = solved(item, entries, item.len() as int);
                settle(queue.skip(1), with_entry(entries, slug_of(token), token), false)
            },
        }
    }
}

/// The written tokens of some lines.
pub open spec fn written(lines: Seq<String>) -> Seq<Seq<WordText>> {
    Seq::new(lines.len(), |i: int| line_words(lines[i]@))
}

/// The texts of the written tokens in a queue.
pub open spec fn queue_text(queue: Seq<Vec<RawWord>>) -> Seq<Seq<WordText>> {
    Seq::new(queue.len(), |i: int| words_text(queue[i]@))
}

impl Token {
    /// The words of the token with a space between each two.
    pub fn display(&self) -> (r: String)
        ensures
            r@ == joined(self@.words, self@.words.len() as int),
    {
        let mut out = String::new();
        let mut i: usize = 0;
        while i < self.words.len()
            invariant
                i <= self.words@.len(),
                out@ == joined(self@.words, i as int),
            decreases self.words@.len() - i,
        {
            if i > 0 {
                push_text(&mut out, " ");
            }
            push_text(&mut out, self.words[i].as_str());
            assert(self@.words[i as int] == self.words@[i as int]@);
            assert(out@ =~= joined(self@.words, i + 1));
            i += 1;
        }
        out
    }
}

impl RawWord {
    /// The token that the word names.
    pub fn parent(&self) -> (r: Option<&str>)
        ensures
            match r {
                Some(p) => self@.parent() == Some(p@),
                None => self@.parent() is None,
            },
    {
        match self {
            RawWord::Plain(_) => None,
            RawWord::Parent(x) => Some(x.as_str()),
            RawWord::HiddenParent(x) => Some(x.as_str()),
        }
    }
}

/// Reads the written words of a line.
pub fn parse_line(line: &str) -> (r: Vec<RawWord>)
    ensures
        words_text(r@) == line_words(line@),
{
    let chars = chars_of(line);
    let pieces = split(chars.as_slice(), ' ');
    let ghost texts = split_on(line@, ' ');
    let mut words: Vec<RawWord> = Vec::new();
    let mut i: usize = 0;
    assert(words_text(words@) =~= words_among(texts, 0));
    while i < pieces.len()
        invariant
            i <= pieces@.len(),
            pieces_of(pieces@) == texts,
            words_text(words@) == words_among(texts, i as int),
        decreases pieces@.len() - i,
    {
        let piece = &pieces[i];
        assert(texts[i as int] == piece@);
        if piece.len() > 0 {
            let ghost before = words@;
            let first = piece[0];
            let word = if first == '+' {
                RawWord::Parent(string_of(slice_subrange(piece.as_slice(), 1, piece.len())))
            } else if first == '.' {
                RawWord::HiddenParent(string_of(slice_subrange(piece.as_slice(), 1, piece.len())))
            } else {
                let mut plain = String::new();
                let mut k: usize = 0;
                while k < piece.len()
                    invariant
                        k <= piece@.len(),
                        plain@ == spaced(piece@).take(k as int),
                    decreases piece@.len() - k,
                {
                    let c = if piece[k] == '+' {
                        ' '
                    } else {
                        piece[k]
                    };
                    push_char(&mut plain, c);
                    assert(plain@ =~= spaced(piece@).take(k + 1));
                    k += 1;
                }
                assert(spaced(piece@).take(k as int) =~= spaced(piece@));
                RawWord::Plain(plain)
            };
            assert(word@ == word_of(piece@));
            words.push(word);
            assert(words_text(words@) =~= words_text(before).push(word@));
        }
        i += 1;
    }
    assert(pieces@.len() == texts.len());
    words
}

/// Where a token under `key` stands or would stand.
fn position(entries: &Vec<(String, Token)>, key: &[char]) -> (pos: usize)
    ensures
        pos == keys_before(entries_text(entries@), key@),
        pos <= entries@.len(),
{
    let ghost all = entries_text(entries@);
    let mut pos: usize = 0;
    assert(all.skip(0) == all);
    loop
        invariant
            pos <= entries@.len(),
            all == entries_text(entries@),
            keys_before(all, key@) == pos + keys_before(all.skip(pos as int), key@),
        decreases entries@.len() - pos,
    {
        if pos >= entries.len() {
            return pos;
        }
        let held = chars_of(entries[pos].0.as_str());
        assert(all.skip(pos as int)[0] == all[pos as int]);
        if !comes_before(held.as_slice(), key) {
            return pos;
        }
        assert(all.skip(pos as int).skip(1) == all.skip(pos + 1));
        pos += 1;
    }
}

/// Whether a token stands under `key`, and where it stands or would stand.
fn find(entries: &Vec<(String, Token)>, key: &[char]) -> (r: (bool, usize))
    requires
        slugs_rising(entries_text(entries@)),
    ensures
        r.0 == has_key(entries_text(entries@), key@),
        r.1 == keys_before(entries_text(entries@), key@),
        r.1 <= entries@.len(),
        r.0 ==> r.1 < entries@.len(),
{
    let pos = position(entries, key);
    proof {
        lemma_keys_before(entries_text(entries@), key@);
    }
    if pos < entries.len() {
        let held = chars_of(entries[pos].0.as_str());
        assert(entries_text(entries@)[pos as int].0 == held@);
        (same_chars(held.as_slice(), key), pos)
    } else {
        (false, pos)
    }
}

/// The first of the written words that names a token that is not there.
fn missing(item: &Vec<RawWord>, entries: &Vec<(String, Token)>) -> (r: Option<usize>)
    requires
        slugs_rising(entries_text(entries@)),
    ensures
        match r {
            Some(w) => w < item@.len() && item@[w as int]@.parent() is Some && first_missing(
                words_text(item@),
                entries_text(entries@),
                item@.len() as int,
            ) == item@[w as int]@.parent(),
            None => first_missing(
                words_text(item@),
                entries_text(entries@),
                item@.len() as int,
            ) is None,
        },
{
    let ghost words = words_text(item@);
    let ghost all = entries_text(entries@);
    let mut w: usize = 0;
    while w < item.len()
        invariant
            w <= item@.len(),
            words == words_text(item@),
            all == entries_text(entries@),
            slugs_rising(all),
            first_missing(words, all, w as int) is None,
        decreases item@.len() - w,
    {
        assert(words[w as int] == item@[w as int]@);
        match item[w].parent() {
            Some(p) => {
                let name = chars_of(p);
                let (there, _) = find(entries, name.as_slice());
                if !there {
                    proof {
                        lemma_missing_stays(words, all, w + 1, item@.len() as int);
                    }
                    return Some(w);
                }
            },
            None => {},
        }
        w += 1;
    }
    None
}

/// The first name that is not there stays the first when more words follow.
proof fn lemma_missing_stays(
    item: Seq<WordText>,
    entries: Seq<(Seq<char>, TokenText)>,
    n: int,
    m: int,
)
    requires
        0 <= n <= m,
        first_missing(item, entries, n) is Some,
    ensures
        first_missing(item, entries, m) == first_missing(item, entries, n),
    decreases m - n,
{
    if n < m {
        lemma_missing_stays(item, entries, n, m - 1);
    }
}

/// Where nothing is missing among more words, nothing is among fewer.
proof fn lemma_nothing_missing(
    item: Seq<WordText>,
    entries: Seq<(Seq<char>, TokenText)>,
    n: int,
    m: int,
)
    requires
        0 <= n <= m,
        first_missing(item, entries, m) is None,
    ensures
        first_missing(item, entries, n) is None,
    decreases m - n,
{
    if n < m {
        lemma_nothing_missing(item, entries, n, m - 1);
    }
}

/// Works out a written token of which every named token is there.
fn solve(item: &Vec<RawWord>, entries: &Vec<(String, Token)>) -> (r: Token)
    requires
        slugs_rising(entries_text(entries@)),
        first_missing(words_text(item@), entries_text(entries@), item@.len() as int) is None,
    ensures
        r@ == solved(words_text(item@), entries_text(entries@), item@.len() as int),
{
    let ghost written = words_text(item@);
    let ghost all = entries_text(entries@);
    let mut words: Vec<String> = Vec::new();
    let mut parents: Vec<String> = Vec::new();
    let mut w: usize = 0;
    assert(texts(words@) =~= solved(written, all, 0).words);
    assert(texts(parents@) =~= solved(written, all, 0).parents);
    while w < item.len()
        invariant
            w <= item@.len(),
            written == words_text(item@),
            all == entries_text(entries@),
            slugs_rising(all),
            first_missing(written, all, item@.len() as int) is None,
            texts(words@) == solved(written, all, w as int).words,
            texts(parents@) == solved(written, all, w as int).parents,
        decreases item@.len() - w,
    {
        assert(written[w as int] == item@[w as int]@);
        proof {
            lemma_nothing_missing(written, all, w + 1, item@.len() as int);
            lemma_nothing_missing(written, all, w as int, item@.len() as int);
        }
        let ghost words_before = words@;
        let ghost parents_before = parents@;
        match &item[w] {
            RawWord::Plain(x) => {
                words.push(x.clone());
                assert(texts(words@) =~= texts(words_before).push(x@));
            },
            RawWord::Parent(x) => {
                let name = chars_of(x.as_str());
                let (there, pos) = find(entries, name.as_slice());
                assert(there);
                let taken = &entries[pos].1.words;
                assert(texts(taken@) == words_under(all, x@));
                let mut k: usize = 0;
                while k < taken.len()
                    invariant
                        k <= taken@.len(),
                        texts(words@) == texts(words_before) + texts(taken@).take(k as int),
                    decreases taken@.len() - k,
                {
                    let ghost was = words@;
                    words.push(taken[k].clone());
                    assert(texts(words@) =~= texts(was).push(taken@[k as int]@));
                    assert(texts(taken@).take(k + 1) =~= texts(taken@).take(k as int).push(
                        taken@[k as int]@,
                    ));
                    k += 1;
                }
                assert(texts(taken@).take(k as int) =~= texts(taken@));
                parents.push(x.clone());
                assert(texts(parents@) =~= texts(parents_before).push(x@));
            },
            RawWord::HiddenParent(x) => {
                parents.push(x.clone());
                assert(texts(parents@) =~= texts(parents_before).push(x@));
            },
        }
        w += 1;
    }
    Token { words, parents }
}

/// Puts a token under its slug.
fn put(entries: &mut Vec<(String, Token)>, key: String, token: Token)
    requires
        slugs_rising(entries_text(old(entries)@)),
    ensures
        entries_text(final(entries)@) == with_entry(entries_text(old(entries)@), key@, token@),
        slugs_rising(entries_text(final(entries)@)),
{
    let ghost before = entries_text(entries@);
    let name = chars_of(key.as_str());
    let (there, pos) = find(entries, name.as_slice());
    proof {
        lemma_keys_before(before, key@);
        lemma_with_entry_rising(before, key@, token@);
    }
    if there {
        entries[pos] = (key, token);
        assert(entries_text(entries@) =~= before.update(pos as int, (key@, token@)));
    } else {
        entries.insert(pos, (key, token));
        assert(entries_text(entries@) =~= before.insert(pos as int, (key@, token@)));
    }
}

impl Tokenizer {
    /// The slugs stand in rising order, each once.
    pub open spec fn wf(self) -> bool {
        slugs_rising(entries_text(self.tokens@))
    }

    /// Works out the tokens that some lines write down.
    pub fn from_lines(lines: &Vec<String>) -> (r: Result<Tokenizer, MissingParent>)
        ensures
            match r {
                Ok(t) => t.wf() && settle(written(lines@), Seq::empty(), false) == Ok::<
                    Seq<(Seq<char>, TokenText)>,
                    (Seq<WordText>, Seq<char>),
                >(entries_text(t.tokens@)),
                Err(e) => settle(written(lines@), Seq::empty(), false) == Err::<
                    Seq<(Seq<char>, TokenText)>,
                    (Seq<WordText>, Seq<char>),
                >((words_text(e.token@), e.parent@)),
            },
    {
        let mut queue: VecDeque<Vec<RawWord>> = VecDeque::new();
        let mut i: usize = 0;
        assert(queue_text(queue@) =~= written(lines@).take(0));
        while i < lines.len()
            invariant
                i <= lines@.len(),
                queue_text(queue@) == written(lines@).take(i as int),
            decreases lines@.len() - i,
        {
            let ghost before = queue@;
            let words = parse_line(lines[i].as_str());
            queue.push_back(words);
            assert(queue_text(queue@) =~= queue_text(before).push(line_words(lines@[i as int]@)));
            assert(written(lines@).take(i + 1) =~= written(lines@).take(i as int).push(
                line_words(lines@[i as int]@),
            ));
            i += 1;
        }
        assert(written(lines@).take(i as int) =~= written(lines@));
        let mut tokens: Vec<(String, Token)> = Vec::new();
        let mut waited = false;
        assert(entries_text(tokens@) =~= Seq::empty());
        while queue.len() > 0
            invariant
                slugs_rising(entries_text(tokens@)),
                settle(written(lines@), Seq::empty(), false) == settle(
                    queue_text(queue@),
                    entries_text(tokens@),
                    waited,
                ),
            decreases
                    2 * queue@.len() + (if waited {
                        0int
                    } else {
                        1int
                    }),
        {
            let ghost was = queue@;
            let ghost all = entries_text(tokens@);
            let item = queue.pop_front().unwrap();
            assert(queue_text(was)[0] == words_text(item@));
            assert(queue_text(queue@) =~= queue_text(was).skip(1));
            match missing(&item, &tokens) {
                Some(w) => {
                    if waited {
                        let parent = match item[w].parent() {
                            Some(p) => string_of(chars_of(p).as_slice()),
                            None => String::new(),
                        };
                        return Err(MissingParent { token: item, parent });
                    }
                    waited = true;
                    let ghost rest = queue@;
                    let ghost text = words_text(item@);
                    queue.push_back(item);
                    assert(queue_text(queue@) =~= queue_text(rest).push(text));
                },
                None => {
                    let token = solve(&item, &tokens);
                    let shown = token.display();
                    let key = slug(shown.as_str());
                    put(&mut tokens, key, token);
                    waited = false;
                },
            }
        }
        Ok(Tokenizer { tokens })
    }
}

/// Whether every one of `words` stands somewhere in `text`.
pub open spec fn all_occur(words: Seq<Seq<char>>, text: Seq<char>) -> bool {
    forall|i: int| 0 <= i < words.len() ==> occurs_in(#[trigger] words[i], text)
}

/// The slugs of the tokens among the first `n` of which every word stands in
/// `text`.
pub open spec fn suggested(entries: Seq<(Seq<char>, TokenText)>, text: Seq<char>, n: int) -> Seq<
    Seq<char>,
>
    decreases n,
{
    if n <= 0 {
        Seq::empty()
    } else if all_occur(entries[n - 1].1.words, text) {
        suggested(entries, text, n - 1).push(entries[n - 1].0)
    } else {
        suggested(entries, text, n - 1)
    }
}

/// The texts of some string slices.
pub open spec fn slice_texts(items: Seq<&str>) -> Seq<Seq<char>> {
    Seq::new(items.len(), |i: int| items[i]@)
}

impl Tokenizer {
    /// The slugs of the tokens of which every word stands in `text`, in the
    /// order of the slugs.
    pub fn suggest(&self, text: &str) -> (r: Vec<&str>)
        ensures
            slice_texts(r@) == suggested(
                entries_text(self.tokens@),
                text@,
                self.tokens@.len() as int,
            ),
    {
        let ghost all = entries_text(self.tokens@);
        let chars = chars_of(text);
        let mut suggestions: Vec<&str> = Vec::new();
        let mut i: usize = 0;
        assert(slice_texts(suggestions@) =~= suggested(all, text@, 0));
        while i < self.tokens.len()
            invariant
                i <= self.tokens@.len(),
                all == entries_text(self.tokens@),
                chars@ == text@,
                slice_texts(suggestions@) == suggested(all, text@, i as int),
            decreases self.tokens@.len() - i,
        {
            let words = &self.tokens[i].1.words;
            assert(all[i as int].1.words == texts(words@));
            let mut every = true;
            let mut k: usize = 0;
            while k < words.len() && every
                invariant
                    k <= words@.len(),
                    chars@ == text@,
                    every ==> forall|j: int|
                        0 <= j < k ==> occurs_in(#[trigger] texts(words@)[j], text@),
                    !every ==> !all_occur(texts(words@), text@),
                decreases words@.len() - k,
            {
                let word = chars_of(words[k].as_str());
                assert(texts(words@)[k as int] == word@);
                if !contains_text(chars.as_slice(), word.as_slice()) {
                    every = false;
                }
                k += 1;
            }
            if every {
                let ghost before = suggestions@;
                suggestions.push(self.tokens[i].0.as_str());
                assert(slice_texts(suggestions@) =~= slice_texts(before).push(all[i as int].0));
            }
            i += 1;
        }
        suggestions
    }
}

} // verus!
