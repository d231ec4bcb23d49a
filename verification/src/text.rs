//! Text as sequences of characters: reading a string slice into characters,
//! building strings, decimal numbers in both directions, and the few searches
//! the grammars of this crate are made of.

use vstd::prelude::*;
use vstd::slice::slice_subrange;

verus! {

/// Appends one character to a string. This is `String::push`, which vstd gives
/// no contract: the new text is the old text followed by `c`.
#[verifier::external_body]
pub(crate) fn push_char(s: &mut String, c: char)
    ensures
        final(s)@ == old(s)@.push(c),
{
    s.push(c)
}

/// The texts of some strings.
pub open spec fn texts(items: Seq<String>) -> Seq<Seq<char>> {
    Seq::new(items.len(), |i: int| items[i]@)
}

/// The number of a character in Unicode.
pub fn code_of(c: char) -> (r: u32)
    ensures
        r == c as int,
{
    c as u32
}

/// The characters of a string slice, in order.
pub fn chars_of(s: &str) -> (v: Vec<char>)
    ensures
        v@ == s@,
{
    let mut v: Vec<char> = Vec::new();
    for c in it: s.chars()
        invariant
            v@ == it.seq().take(it.index() as int),
            it.seq() == s@,
    {
        v.push(c);
    }
    v
}

/// The string made of the given characters.
pub fn string_of(chars: &[char]) -> (s: String)
    ensures
        s@ == chars@,
{
    let mut s = String::new();
    let mut i: usize = 0;
    while i < chars.len()
        invariant
            i <= chars.len(),
            s@ == chars@.take(i as int),
        decreases chars.len() - i,
    {
        push_char(&mut s, chars[i]);
        i += 1;
    }
    s
}

/// Appends the given characters to a string.
pub fn push_chars(out: &mut String, chars: &[char])
    ensures
        final(out)@ == old(out)@ + chars@,
{
    let mut i: usize = 0;
    while i < chars.len()
        invariant
            i <= chars.len(),
            out@ == old(out)@ + chars@.take(i as int),
        decreases chars.len() - i,
    {
        push_char(out, chars[i]);
        i += 1;
    }
}

/// Appends a string slice to a string.
pub fn push_text(out: &mut String, text: &str)
    ensures
        final(out)@ == old(out)@ + text@,
{
    let chars = chars_of(text);
    push_chars(out, chars.as_slice());
}

/// Whether two character slices hold the same text.
pub fn same_chars(a: &[char], b: &[char]) -> (r: bool)
    ensures
        r == (a@ == b@),
{
    if a.len() != b.len() {
        return false;
    }
    let mut i: usize = 0;
    while i < a.len()
        invariant
            i <= a.len(),
            a.len() == b.len(),
            a@.take(i as int) == b@.take(i as int),
        decreases a.len() - i,
    {
        if a[i] != b[i] {
            return false;
        }
        assert(a@.take(i + 1) == a@.take(i as int).push(a@[i as int]));
        assert(b@.take(i + 1) == b@.take(i as int).push(b@[i as int]));
        i += 1;
    }
    assert(a@.take(a.len() as int) == a@);
    assert(b@.take(b.len() as int) == b@);
    true
}

/// Whether a string slice and a character slice hold the same text.
pub fn is_text(a: &[char], b: &str) -> (r: bool)
    ensures
        r == (a@ == b@),
{
    let b_chars = chars_of(b);
    same_chars(a, b_chars.as_slice())
}

/// Whether two string slices hold the same text.
pub fn same_text(a: &str, b: &str) -> (r: bool)
    ensures
        r == (a@ == b@),
{
    let a_chars = chars_of(a);
    is_text(a_chars.as_slice(), b)
}

/// The part of `s` after `prefix`, where `s` starts with it.
pub fn strip_prefix<'a>(s: &'a [char], prefix: &str) -> (r: Option<&'a [char]>)
    ensures
        match r {
            Some(rest) => prefix@.is_prefix_of(s@) && rest@ == s@.skip(prefix@.len() as int),
            None => !prefix@.is_prefix_of(s@),
        },
{
    let p = chars_of(prefix);
    if p.len() > s.len() {
        return None;
    }
    let head = slice_subrange(s, 0, p.len());
    if same_chars(head, p.as_slice()) {
        let rest = slice_subrange(s, p.len(), s.len());
        Some(rest)
    } else {
        None
    }
}

/// The position of the first `c` in `s`.
pub fn find_first(s: &[char], c: char) -> (r: Option<usize>)
    ensures
        match r {
            Some(i) => i < s.len() && s@[i as int] == c && forall|j: int|
                0 <= j < i ==> s@[j] != c,
            None => forall|j: int| 0 <= j < s.len() ==> s@[j] != c,
        },
{
    let mut i: usize = 0;
    while i < s.len()
        invariant
            i <= s.len(),
            forall|j: int| 0 <= j < i ==> s@[j] != c,
        decreases s.len() - i,
    {
        if s[i] == c {
            return Some(i);
        }
        i += 1;
    }
    None
}

/// The position of the last `c` in `s`.
pub fn find_last(s: &[char], c: char) -> (r: Option<usize>)
    ensures
        match r {
            Some(i) => i < s.len() && s@[i as int] == c && forall|j: int|
                i < j < s.len() ==> s@[j] != c,
            None => forall|j: int| 0 <= j < s.len() ==> s@[j] != c,
        },
{
    let mut i: usize = s.len();
    while i > 0
        invariant
            i <= s.len(),
            forall|j: int| i <= j < s.len() ==> s@[j] != c,
        decreases i,
    {
        i -= 1;
        if s[i] == c {
            return Some(i);
        }
    }
    None
}

/// Whether the last `c` of `s` stands at position `i`.
pub open spec fn is_last_at(s: Seq<char>, c: char, i: int) -> bool {
    &&& 0 <= i < s.len()
    &&& s[i] == c
    &&& forall|j: int| i < j < s.len() ==> s[j] != c
}

/// Whether the first `c` of `s` stands at position `i`.
pub open spec fn is_first_at(s: Seq<char>, c: char, i: int) -> bool {
    &&& 0 <= i < s.len()
    &&& s[i] == c
    &&& forall|j: int| 0 <= j < i ==> s[j] != c
}

/// The text before and the text after the last `c` of `s`, where there is one.
pub open spec fn split_at_last(s: Seq<char>, c: char) -> Option<(Seq<char>, Seq<char>)> {
    if exists|i: int| is_last_at(s, c, i) {
        let i = choose|i: int| is_last_at(s, c, i);
        Some((s.take(i), s.skip(i + 1)))
    } else {
        None
    }
}

/// The text before and the text after the first `c` of `s`, where there is one.
pub open spec fn split_at_first(s: Seq<char>, c: char) -> Option<(Seq<char>, Seq<char>)> {
    if exists|i: int| is_first_at(s, c, i) {
        let i = choose|i: int| is_first_at(s, c, i);
        Some((s.take(i), s.skip(i + 1)))
    } else {
        None
    }
}

/// Splits `s` around its last `c`.
pub fn split_last<'a>(s: &'a [char], c: char) -> (r: Option<(&'a [char], &'a [char])>)
    ensures
        match r {
            Some((before, after)) => split_at_last(s@, c) == Some((before@, after@))
                && before@.len() + 1 + after@.len() == s@.len(),
            None => split_at_last(s@, c) is None,
        },
{
    match find_last(s, c) {
        Some(i) => {
            assert(is_last_at(s@, c, i as int));
            let ghost k = choose|k: int| is_last_at(s@, c, k);
            assert(k == i);
            let before = slice_subrange(s, 0, i);
            let after = slice_subrange(s, i + 1, s.len());
            Some((before, after))
        },
        None => None,
    }
}

/// Splits `s` around its first `c`.
pub fn split_first<'a>(s: &'a [char], c: char) -> (r: Option<(&'a [char], &'a [char])>)
    ensures
        match r {
            Some((before, after)) => split_at_first(s@, c) == Some((before@, after@))
                && before@.len() + 1 + after@.len() == s@.len(),
            None => split_at_first(s@, c) is None,
        },
{
    match find_first(s, c) {
        Some(i) => {
            assert(is_first_at(s@, c, i as int));
            let ghost k = choose|k: int| is_first_at(s@, c, k);
            assert(k == i);
            let before = slice_subrange(s, 0, i);
            let after = slice_subrange(s, i + 1, s.len());
            Some((before, after))
        },
        None => None,
    }
}

/// Whether `c` is one of the ten decimal digits.
pub open spec fn is_digit(c: char) -> bool {
    48 <= c as int <= 57
}

/// The number a decimal digit stands for.
pub open spec fn digit_value(c: char) -> nat {
    (c as int - 48) as nat
}

/// Whether every character of `s` is a decimal digit.
pub open spec fn all_digits(s: Seq<char>) -> bool {
    forall|i: int| 0 <= i < s.len() ==> is_digit(#[trigger] s[i])
}

/// The number that a run of decimal digits writes, most significant first.
pub open spec fn decimal_value(s: Seq<char>) -> nat
    decreases s.len(),
{
    if s.len() == 0 {
        0
    } else {
        decimal_value(s.drop_last()) * 10 + digit_value(s.last())
    }
}

/// The digits of an unsigned number as written: an optional `+` sign is dropped.
pub open spec fn unsigned_digits(s: Seq<char>) -> Seq<char> {
    if s.len() > 0 && s[0] == '+' {
        s.skip(1)
    } else {
        s
    }
}

/// The unsigned number no greater than `max` that `s` writes: an optional `+`,
/// then one or more decimal digits and nothing else.
pub open spec fn parsed_unsigned(s: Seq<char>, max: nat) -> Option<nat> {
    let digits = unsigned_digits(s);
    if digits.len() > 0 && all_digits(digits) && decimal_value(digits) <= max {
        Some(decimal_value(digits))
    } else {
        None
    }
}

/// A run of digits writes at least what any of its beginnings writes.
pub proof fn lemma_decimal_value_grows(s: Seq<char>, k: int)
    requires
        0 <= k <= s.len(),
    ensures
        decimal_value(s.take(k)) <= decimal_value(s),
    decreases s.len(),
{
    if k == s.len() {
        assert(s.take(k) == s);
    } else {
        lemma_decimal_value_grows(s.drop_last(), k);
        assert(s.drop_last().take(k) == s.take(k));
    }
}

/// Reads an unsigned decimal number no greater than `max`.
pub fn parse_unsigned(s: &[char], max: u64) -> (r: Option<u64>)
    ensures
        match r {
            Some(n) => parsed_unsigned(s@, max as nat) == Some(n as nat),
            None => parsed_unsigned(s@, max as nat) is None,
        },
{
    let start: usize = if s.len() > 0 && s[0] == '+' {
        1
    } else {
        0
    };
    let ghost digits = unsigned_digits(s@);
    assert(digits == s@.skip(start as int));
    if start == s.len() {
        return None;
    }
    let mut acc: u64 = 0;
    let mut i: usize = start;
    while i < s.len()
        invariant
            start <= i <= s.len(),
            digits == unsigned_digits(s@),
            digits == s@.skip(start as int),
            all_digits(digits.take(i - start)),
            acc == decimal_value(digits.take(i - start)),
            acc <= max,
        decreases s.len() - i,
    {
        let c = s[i];
        let code: u32 = code_of(c);
        assert(digits[i - start] == c);
        if code < 48 || code > 57 {
            assert(!is_digit(digits[i - start]));
            return None;
        }
        let d: u64 = (code - 48) as u64;
        let ghost next = digits.take(i - start + 1);
        assert(next.drop_last() == digits.take(i - start));
        assert(next.last() == c);
        assert(decimal_value(next) == acc * 10 + d);
        if d > max || acc > (max - d) / 10 {
            proof {
                lemma_decimal_value_grows(digits, i - start + 1);
                assert(decimal_value(next) > max);
                assert(decimal_value(next) <= decimal_value(digits));
            }
            return None;
        }
        acc = acc * 10 + d;
        i += 1;
    }
    assert(digits.take(i - start) == digits);
    Some(acc)
}

/// The character that writes a digit below ten.
pub open spec fn digit_char(d: nat) -> char
    recommends
        d < 10,
{
    ((48 + d) as u8) as char
}

/// The decimal writing of a number, without sign or leading zeros.
pub open spec fn decimal_text(n: nat) -> Seq<char>
    decreases n,
{
    if n < 10 {
        seq![digit_char(n)]
    } else {
        decimal_text(n / 10).push(digit_char(n % 10))
    }
}

/// What is written in decimal reads as the number that was written: the
/// writing is made of digits, at least one, and their value is the number.
pub proof fn lemma_decimal_round_trip(n: nat)
    ensures
        decimal_text(n).len() > 0,
        n >= 10 ==> decimal_text(n).len() > 1,
        all_digits(decimal_text(n)),
        decimal_value(decimal_text(n)) == n,
        unsigned_digits(decimal_text(n)) == decimal_text(n),
    decreases n,
{
    let text = decimal_text(n);
    if n < 10 {
        assert(text.drop_last() =~= Seq::<char>::empty());
        assert(decimal_value(text.drop_last()) == 0);
        assert(is_digit(text[0]));
    } else {
        lemma_decimal_round_trip(n / 10);
        let head = decimal_text(n / 10);
        assert(text.drop_last() =~= head);
        assert(text.last() == digit_char(n % 10));
        assert forall|i: int| 0 <= i < text.len() implies is_digit(#[trigger] text[i]) by {
            if i < head.len() {
                assert(text[i] == head[i]);
            }
        }
        assert(text[0] == head[0]);
    }
    assert(is_digit(text[0]));
}

/// A number no greater than `max` is read back from its decimal writing.
pub proof fn lemma_parse_what_was_written(n: nat, max: nat)
    requires
        n <= max,
    ensures
        parsed_unsigned(decimal_text(n), max) == Some(n),
{
    lemma_decimal_round_trip(n);
}

/// Where digits follow a mark, the text splits at that mark: a run of digits
/// holds no mark of its own.
pub proof fn lemma_split_before_digits(before: Seq<char>, c: char, digits: Seq<char>)
    requires
        all_digits(digits),
        !is_digit(c),
    ensures
        split_at_last(before.push(c) + digits, c) == Some((before, digits)),
{
    let s = before.push(c) + digits;
    let i = before.len() as int;
    assert(s[i] == c);
    assert forall|j: int| i < j < s.len() implies s[j] != c by {
        assert(s[j] == digits[j - i - 1]);
    }
    assert(is_last_at(s, c, i));
    let k = choose|k: int| is_last_at(s, c, k);
    if k < i {
        assert(s[i] != c);
    }
    if k > i {
        assert(s[k] == digits[k - i - 1]);
    }
    assert(s.take(i) =~= before);
    assert(s.skip(i + 1) =~= digits);
}

/// Appends the decimal writing of `n` to a string.
pub fn push_decimal(out: &mut String, n: u128)
    ensures
        final(out)@ == old(out)@ + decimal_text(n as nat),
    decreases n,
{
    if n >= 10 {
        push_decimal(out, n / 10);
    }
    let d: u8 = (n % 10) as u8;
    let c: char = (48 + d) as char;
    push_char(out, c);
    proof {
        if n >= 10 {
            assert(out@ == (old(out)@ + decimal_text((n / 10) as nat)).push(c));
            assert(out@ == old(out)@ + decimal_text(n as nat));
        } else {
            assert(out@ == old(out)@ + seq![c]);
        }
    }
}

/// The `u32` that `s` writes, as `parsed_unsigned` reads it.
pub open spec fn parsed_u32(s: Seq<char>) -> Option<u32> {
    match parsed_unsigned(s, u32::MAX as nat) {
        Some(n) => Some(n as u32),
        None => None,
    }
}

/// The `u64` that `s` writes, as `parsed_unsigned` reads it.
pub open spec fn parsed_u64(s: Seq<char>) -> Option<u64> {
    match parsed_unsigned(s, u64::MAX as nat) {
        Some(n) => Some(n as u64),
        None => None,
    }
}

/// Reads a `u32` written in decimal.
pub fn parse_u32(s: &[char]) -> (r: Option<u32>)
    ensures
        r == parsed_u32(s@),
{
    match parse_unsigned(s, 0xffff_ffff) {
        Some(n) => Some(n as u32),
        None => None,
    }
}

/// Reads a `u64` written in decimal.
pub fn parse_u64(s: &[char]) -> (r: Option<u64>)
    ensures
        r == parsed_u64(s@),
{
    parse_unsigned(s, 0xffff_ffff_ffff_ffff)
}

/// The pieces of `s` between the marks `c`: at least one piece, and one more
/// for every mark.
pub open spec fn split_on(s: Seq<char>, c: char) -> Seq<Seq<char>>
    decreases s.len(),
{
    match split_at_first(s, c) {
        Some((piece, rest)) => if rest.len() < s.len() {
            seq![piece] + split_on(rest, c)
        } else {
            seq![s]
        },
        None => seq![s],
    }
}

/// The texts of some runs of characters.
pub open spec fn pieces_of(pieces: Seq<Vec<char>>) -> Seq<Seq<char>> {
    Seq::new(pieces.len(), |i: int| pieces[i]@)
}

/// Splits `s` at every `c`.
pub fn split(s: &[char], c: char) -> (r: Vec<Vec<char>>)
    ensures
        pieces_of(r@) == split_on(s@, c),
{
    let mut pieces: Vec<Vec<char>> = Vec::new();
    let mut rest = s;
    loop
        invariant
            split_on(s@, c) == pieces_of(pieces@) + split_on(rest@, c),
        decreases rest@.len(),
    {
        match split_first(rest, c) {
            Some((piece, after)) => {
                let ghost before = pieces@;
                pieces.push(copy_of(piece));
                assert(pieces_of(pieces@) =~= pieces_of(before) + seq![piece@]);
                rest = after;
            },
            None => {
                let ghost before = pieces@;
                pieces.push(copy_of(rest));
                assert(pieces_of(pieces@) =~= pieces_of(before) + seq![rest@]);
                return pieces;
            },
        }
    }
}

/// A copy of some characters.
pub fn copy_of(chars: &[char]) -> (r: Vec<char>)
    ensures
        r@ == chars@,
{
    let mut v: Vec<char> = Vec::new();
    let mut i: usize = 0;
    while i < chars.len()
        invariant
            i <= chars@.len(),
            v@ == chars@.take(i as int),
        decreases chars@.len() - i,
    {
        v.push(chars[i]);
        i += 1;
    }
    v
}

/// Whether `a` comes before `b` in the order of texts: at the first place
/// where they differ `a` has the lesser character, or `a` ends there and `b`
/// goes on.
pub open spec fn text_before(a: Seq<char>, b: Seq<char>) -> bool
    decreases a.len(),
{
    if b.len() == 0 {
        false
    } else if a.len() == 0 {
        true
    } else if a[0] != b[0] {
        (a[0] as int) < (b[0] as int)
    } else {
        text_before(a.skip(1), b.skip(1))
    }
}

/// No text comes before itself.
pub proof fn lemma_text_order_strict(a: Seq<char>)
    ensures
        !text_before(a, a),
    decreases a.len(),
{
    if a.len() > 0 {
        lemma_text_order_strict(a.skip(1));
    }
}

/// Of two different texts one comes before the other.
pub proof fn lemma_text_order_total(a: Seq<char>, b: Seq<char>)
    ensures
        text_before(a, b) || text_before(b, a) || a == b,
    decreases a.len(),
{
    if a.len() == 0 && b.len() == 0 {
        assert(a =~= b);
    } else if a.len() == 0 {
        assert(text_before(a, b));
    } else if b.len() == 0 {
        assert(text_before(b, a));
    } else if a[0] == b[0] {
        lemma_text_order_total(a.skip(1), b.skip(1));
        if a.skip(1) == b.skip(1) {
            assert(a =~= seq![a[0]] + a.skip(1));
            assert(b =~= seq![b[0]] + b.skip(1));
        } else if text_before(a.skip(1), b.skip(1)) {
            assert(text_before(a, b));
        } else {
            assert(text_before(b, a));
        }
    } else {
        if (a[0] as int) < (b[0] as int) {
            assert(text_before(a, b));
        } else {
            assert(text_before(b, a));
        }
    }
}

/// What comes before a text that comes before a third comes before the third.
pub proof fn lemma_text_order_transitive(a: Seq<char>, b: Seq<char>, c: Seq<char>)
    requires
        text_before(a, b),
        text_before(b, c),
    ensures
        text_before(a, c),
    decreases a.len(),
{
    assert(b.len() > 0);
    assert(c.len() > 0);
    if a.len() > 0 {
        if a[0] == b[0] && b[0] == c[0] {
            assert(text_before(a.skip(1), b.skip(1)));
            assert(text_before(b.skip(1), c.skip(1)));
            lemma_text_order_transitive(a.skip(1), b.skip(1), c.skip(1));
            assert(text_before(a.skip(1), c.skip(1)));
        } else if a[0] == b[0] {
            assert((b[0] as int) < (c[0] as int));
            assert(a[0] != c[0]);
        } else if b[0] == c[0] {
            assert((a[0] as int) < (b[0] as int));
            assert(a[0] != c[0]);
        } else {
            assert((a[0] as int) < (b[0] as int));
            assert((b[0] as int) < (c[0] as int));
            assert(a[0] != c[0]);
        }
    }
    assert(text_before(a, c));
}

/// Whether `a` comes before `b` in the order of texts.
pub fn comes_before(a: &[char], b: &[char]) -> (r: bool)
    ensures
        r == text_before(a@, b@),
{
    let mut i: usize = 0;
    assert(a@.skip(0) == a@);
    assert(b@.skip(0) == b@);
    loop
        invariant
            i <= a@.len(),
            i <= b@.len(),
            text_before(a@, b@) == text_before(a@.skip(i as int), b@.skip(i as int)),
        decreases a@.len() - i,
    {
        if i >= b.len() {
            return false;
        }
        if i >= a.len() {
            return true;
        }
        assert(a@.skip(i as int)[0] == a@[i as int]);
        assert(b@.skip(i as int)[0] == b@[i as int]);
        if a[i] != b[i] {
            return code_of(a[i]) < code_of(b[i]);
        }
        assert(a@.skip(i as int).skip(1) == a@.skip(i + 1));
        assert(b@.skip(i as int).skip(1) == b@.skip(i + 1));
        i += 1;
    }
}

/// Whether `x` stands somewhere in `s`.
pub open spec fn occurs_in(x: Seq<char>, s: Seq<char>) -> bool {
    exists|o: int| occurs_at(x, s, o)
}

/// Whether `x` stands in `s` at position `o`.
pub open spec fn occurs_at(x: Seq<char>, s: Seq<char>, o: int) -> bool {
    0 <= o && o + x.len() <= s.len() && s.subrange(o, o + x.len()) == x
}

/// Whether `x` stands somewhere in `s`.
pub fn contains_text(s: &[char], x: &[char]) -> (r: bool)
    ensures
        r == occurs_in(x@, s@),
{
    if x.len() > s.len() {
        return false;
    }
    if x.len() == 0 {
        assert(s@.subrange(0, 0) =~= x@);
        assert(occurs_at(x@, s@, 0));
        return true;
    }
    let last = s.len() - x.len();
    let mut o: usize = 0;
    while o <= last
        invariant
            o <= last + 1,
            x@.len() >= 1,
            s@.len() <= usize::MAX,
            last == s@.len() - x@.len(),
            forall|k: int| 0 <= k < o ==> !occurs_at(x@, s@, k),
        decreases last + 1 - o,
    {
        if same_chars(slice_subrange(s, o, o + x.len()), x) {
            assert(occurs_at(x@, s@, o as int));
            return true;
        }
        o += 1;
    }
    false
}

} // verus!
