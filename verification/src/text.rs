//! Text as the proxy reads and writes it: lines, words, numbers and prefixes.
//!
//! The contracts speak of a text as the sequence of its characters.
use std::borrow::Cow;
use vstd::prelude::*;
use vstd::utf8::*;

verus! {

// ── Outside functions ───────────────────────────────────────────────────────

/// The text that `String::from_utf8_lossy` makes of some bytes.
pub uninterp spec fn utf8_lossy(bytes: Seq<u8>) -> Seq<char>;

/// `String::from_utf8_lossy`: bytes that are valid UTF-8 come back as the text that they encode;
/// what it makes of other bytes is only named.
pub assume_specification<'a>[ String::from_utf8_lossy ](v: &'a [u8]) -> (res: Cow<'a, str>)
    ensures
        res@ == utf8_lossy(v@),
        valid_utf8(v@) ==> res@ == decode_utf8(v@),
;

/// `String::push` puts one character behind the text.
pub assume_specification[ String::push ](s: &mut String, ch: char)
    ensures
        final(s)@ == old(s)@.push(ch),
;

// ── Characters of a text ────────────────────────────────────────────────────

/// The characters of `s`.
pub fn chars_of(s: &str) -> (chars: Vec<char>)
    ensures
        chars@ == s@,
{
    let mut chars: Vec<char> = Vec::new();
    for c in it: s.chars()
        invariant
            it.seq() == s@,
            chars@ == s@.take(it.index()),
    {
        chars.push(c);
    }
    assert(s@.take(s@.len() as int) == s@);
    chars
}

/// The text made of `chars`.
pub fn string_of(chars: &[char]) -> (s: String)
    ensures
        s@ == chars@,
{
    let mut s = String::new();
    let mut i: usize = 0;
    while i < chars.len()
        invariant
            i <= chars.len(),
            s@ == chars@.take(i as int),
        decreases chars.len() - i,
    {
        s.push(chars[i]);
        i += 1;
    }
    assert(chars@.take(chars.len() as int) == chars@);
    s
}

/// The text of some bytes, read as UTF-8 with every invalid part replaced.
pub fn lossy_text(bytes: &[u8]) -> (chars: Vec<char>)
    ensures
        chars@ == utf8_lossy(bytes@),
        valid_utf8(bytes@) ==> chars@ == decode_utf8(bytes@),
{
    match String::from_utf8_lossy(bytes) {
        Cow::Borrowed(s) => chars_of(s),
        Cow::Owned(s) => chars_of(s.as_str()),
    }
}

/// Whether two texts hold the same characters.
pub fn same_text(a: &str, b: &str) -> (same: bool)
    ensures
        same == (a@ == b@),
{
    let x = a.as_bytes();
    let y = b.as_bytes();
    proof {
        encode_utf8_decode_utf8(a@);
        encode_utf8_decode_utf8(b@);
    }
    if x.len() != y.len() {
        return false;
    }
    let mut i: usize = 0;
    while i < x.len()
        invariant
            i <= x.len(),
            x.len() == y.len(),
            x@ == encode_utf8(a@),
            y@ == encode_utf8(b@),
            x@.take(i as int) == y@.take(i as int),
        decreases x.len() - i,
    {
        if x[i] != y[i] {
            return false;
        }
        assert(x@.take(i + 1) == x@.take(i as int).push(x@[i as int]));
        assert(y@.take(i + 1) == y@.take(i as int).push(y@[i as int]));
        i += 1;
    }
    assert(x@.take(x@.len() as int) == x@);
    assert(y@.take(y@.len() as int) == y@);
    true
}

// ── Numbers ─────────────────────────────────────────────────────────────────

/// The character of one decimal digit.
pub open spec fn digit_char(d: nat) -> char {
    (48 + d) as char
}

/// A number in decimal, without leading zeros.
pub open spec fn decimal(n: nat) -> Seq<char>
    decreases n,
{
    if n < 10 {
        seq![digit_char(n)]
    } else {
        decimal(n / 10).push(digit_char(n % 10))
    }
}

/// Whether `c` is one of `0` to `9`.
pub open spec fn is_digit(c: char) -> bool {
    '0' <= c <= '9'
}

/// The number that a run of decimal digits writes.
pub open spec fn digits_value(s: Seq<char>) -> nat
    decreases s.len(),
{
    if s.len() == 0 {
        0
    } else {
        10 * digits_value(s.drop_last()) + (s.last() as nat - 48) as nat
    }
}

/// `s` without one leading plus sign.
pub open spec fn without_plus(s: Seq<char>) -> Seq<char> {
    if s.len() > 0 && s[0] == '+' {
        s.drop_first()
    } else {
        s
    }
}

/// The unsigned number that `s` writes: an optional plus sign, then digits only and at least
/// one, of a value up to `max`.
pub open spec fn unsigned(s: Seq<char>, max: nat) -> Option<nat> {
    let digits = without_plus(s);
    if digits.len() > 0 && (forall|i: int| 0 <= i < digits.len() ==> is_digit(#[trigger] digits[i]))
        && digits_value(digits) <= max {
        Some(digits_value(digits))
    } else {
        None
    }
}

/// `n` in decimal.
pub fn decimal_string(n: u64) -> (s: String)
    ensures
        s@ == decimal(n as nat),
    decreases n,
{
    let mut s = if n < 10 {
        String::new()
    } else {
        decimal_string(n / 10)
    };
    let d: u8 = (48 + n % 10) as u8;
    s.push(d as char);
    assert(n < 10 ==> s@ == seq![digit_char(n as nat)]);
    s
}

/// A longer run of digits never writes a smaller number.
proof fn lemma_digits_value_grows(s: Seq<char>, i: int)
    requires
        0 <= i <= s.len(),
    ensures
        digits_value(s.take(i)) <= digits_value(s),
    decreases s.len() - i,
{
    if i == s.len() {
        assert(s.take(i) == s);
    } else {
        lemma_digits_value_grows(s, i + 1);
        assert(s.take(i + 1).drop_last() == s.take(i));
    }
}

/// The unsigned number that `s` writes, if it writes one that is at most `max`.
pub fn parse_unsigned(s: &[char], max: u64) -> (res: Option<u64>)
    ensures
        match unsigned(s@, max as nat) {
            Some(n) => res == Some(n as u64) && n <= max,
            None => res is None,
        },
{
    let start: usize = if s.len() > 0 && s[0] == '+' {
        1
    } else {
        0
    };
    let ghost digits = without_plus(s@);
    assert(digits == s@.skip(start as int));
    if start == s.len() {
        return None;
    }
    let mut value: u64 = 0;
    let mut i: usize = start;
    assert(digits.take(0).len() == 0);
    while i < s.len()
        invariant
            start <= i <= s.len(),
            digits == s@.skip(start as int),
            digits == without_plus(s@),
            value <= max,
            value == digits_value(digits.take(i - start)),
            forall|k: int| 0 <= k < i - start ==> is_digit(#[trigger] digits[k]),
        decreases s.len() - i,
    {
        let c = s[i];
        assert(digits[i - start] == c);
        if c < '0' || c > '9' {
            return None;
        }
        let d: u64 = (c as u32 - 48) as u64;
        assert(digits.take(i + 1 - start).drop_last() == digits.take(i - start));
        assert(digits_value(digits.take(i + 1 - start)) == 10 * value + d);
        if value as u128 * 10 + d as u128 > max as u128 {
            proof {
                lemma_digits_value_grows(digits, i + 1 - start);
            }
            return None;
        }
        value = value * 10 + d;
        i += 1;
    }
    assert(digits.take(digits.len() as int) == digits);
    Some(value)
}

/// A printed number reads back as itself.
pub proof fn law_decimal_reads_back(n: nat, max: nat)
    requires
        n <= max,
    ensures
        unsigned(decimal(n), max) == Some(n),
{
    lemma_decimal(n);
    let s = decimal(n);
    assert(is_digit(s[0]));
    assert(without_plus(s) == s);
}

/// A printed number is made of digits, at least one, which write the number.
pub proof fn lemma_decimal(n: nat)
    ensures
        decimal(n).len() > 0,
        forall|i: int| 0 <= i < decimal(n).len() ==> is_digit(#[trigger] decimal(n)[i]),
        digits_value(decimal(n)) == n,
    decreases n,
{
    let s = decimal(n);
    if n < 10 {
        assert(s.drop_last().len() == 0);
        assert(digits_value(s.drop_last()) == 0);
        assert(s.last() as nat == 48 + n);
    } else {
        lemma_decimal(n / 10);
        assert(s.drop_last() == decimal(n / 10));
        assert(s.last() as nat == 48 + n % 10);
    }
}

// ── Lines ───────────────────────────────────────────────────────────────────

/// Each of `texts` as a sequence of characters.
pub open spec fn views(texts: Seq<Vec<char>>) -> Seq<Seq<char>> {
    texts.map_values(|t: Vec<char>| t@)
}

/// Where `c` first stands in `s`; the length of `s` where it does not.
pub open spec fn find_char(s: Seq<char>, c: char) -> nat
    decreases s.len(),
{
    if s.len() == 0 || s[0] == c {
        0
    } else {
        1 + find_char(s.drop_first(), c)
    }
}

/// `s` without one trailing carriage return.
pub open spec fn without_cr(s: Seq<char>) -> Seq<char> {
    if s.len() > 0 && s.last() == '\r' {
        s.drop_last()
    } else {
        s
    }
}

/// The lines of a text. A line ends at a line feed, or at a carriage return right before one;
/// what follows the last line feed is a line too, unless it is empty.
pub open spec fn text_lines(s: Seq<char>) -> Seq<Seq<char>>
    decreases s.len(),
{
    let end = find_char(s, '\n') as int;
    if s.len() == 0 {
        seq![]
    } else if end >= s.len() {
        seq![s]
    } else {
        seq![without_cr(s.take(end))] + text_lines(s.skip(end + 1))
    }
}

/// What `find_char` gives is the place before which `c` does not stand.
pub proof fn lemma_find_char(s: Seq<char>, c: char, i: int)
    requires
        0 <= i <= s.len(),
        forall|k: int| 0 <= k < i ==> s[k] != c,
        i == s.len() || s[i] == c,
    ensures
        find_char(s, c) == i,
    decreases s.len(),
{
    if i > 0 {
        assert(s[0] != c);
        assert forall|k: int| 0 <= k < i - 1 implies s.drop_first()[k] != c by {
            assert(s[k + 1] != c);
        }
        lemma_find_char(s.drop_first(), c, i - 1);
    }
}

/// A copy of the characters `from..to` of `s`.
pub fn slice_of(s: &[char], from: usize, to: usize) -> (part: Vec<char>)
    requires
        from <= to <= s.len(),
    ensures
        part@ == s@.subrange(from as int, to as int),
{
    let mut part: Vec<char> = Vec::new();
    let mut i: usize = from;
    while i < to
        invariant
            from <= i <= to <= s.len(),
            part@ == s@.subrange(from as int, i as int),
        decreases to - i,
    {
        part.push(s[i]);
        i += 1;
    }
    part
}

/// The lines of `s`, as `str::lines` gives them.
pub fn lines_of(s: &[char]) -> (lines: Vec<Vec<char>>)
    ensures
        views(lines@) == text_lines(s@),
{
    let mut lines: Vec<Vec<char>> = Vec::new();
    let mut start: usize = 0;
    let mut i: usize = 0;
    assert(s@.skip(0) == s@);
    assert(views(lines@) + text_lines(s@) == text_lines(s@));
    while i < s.len()
        invariant
            start <= i <= s.len(),
            forall|k: int| start <= k < i ==> s@[k] != '\n',
            text_lines(s@) == views(lines@) + text_lines(s@.skip(start as int)),
        decreases s.len() - i,
    {
        if s[i] == '\n' {
            let end: usize = if i > start && s[i - 1] == '\r' {
                i - 1
            } else {
                i
            };
            let line = slice_of(s, start, end);
            proof {
                let rest = s@.skip(start as int);
                lemma_find_char(rest, '\n', i - start);
                assert(rest.skip(i - start + 1) == s@.skip(i + 1));
                assert(line@ == without_cr(rest.take(i - start)));
                assert(views(lines@.push(line)) == views(lines@).push(line@));
                assert(views(lines@) + (seq![line@] + text_lines(s@.skip(i + 1))) == views(
                    lines@,
                ).push(line@) + text_lines(s@.skip(i + 1)));
            }
            lines.push(line);
            start = i + 1;
        }
        i += 1;
    }
    if start < s.len() {
        let line = slice_of(s, start, s.len());
        proof {
            let rest = s@.skip(start as int);
            lemma_find_char(rest, '\n', rest.len() as int);
            assert(line@ == rest);
            assert(views(lines@.push(line)) == views(lines@).push(line@));
        }
        lines.push(line);
    }
    lines
}

// ── Words ───────────────────────────────────────────────────────────────────

/// Whether `c` is white space, as Unicode's property `White_Space` has it.
pub open spec fn is_space(c: char) -> bool {
    ||| '\u{9}' <= c <= '\u{d}'
    ||| c == ' '
    ||| c == '\u{85}'
    ||| c == '\u{a0}'
    ||| c == '\u{1680}'
    ||| '\u{2000}' <= c <= '\u{200a}'
    ||| c == '\u{2028}'
    ||| c == '\u{2029}'
    ||| c == '\u{202f}'
    ||| c == '\u{205f}'
    ||| c == '\u{3000}'
}

/// Where white space first stands in `s`; the length of `s` where it does not.
pub open spec fn word_end(s: Seq<char>) -> nat
    decreases s.len(),
{
    if s.len() == 0 || is_space(s[0]) {
        0
    } else {
        1 + word_end(s.drop_first())
    }
}

/// A word ends within its text.
pub proof fn lemma_word_end(s: Seq<char>)
    ensures
        word_end(s) <= s.len(),
    decreases s.len(),
{
    if s.len() > 0 && !is_space(s[0]) {
        lemma_word_end(s.drop_first());
    }
}

/// The words of a text: what stands between its white space.
pub open spec fn words(s: Seq<char>) -> Seq<Seq<char>>
    decreases s.len(),
{
    if s.len() == 0 {
        seq![]
    } else if is_space(s[0]) {
        words(s.drop_first())
    } else {
        proof {
            lemma_word_end(s);
        }
        seq![s.take(word_end(s) as int)] + words(s.skip(word_end(s) as int))
    }
}

/// `s` without its leading white space.
pub open spec fn trim_start(s: Seq<char>) -> Seq<char>
    decreases s.len(),
{
    if s.len() > 0 && is_space(s[0]) {
        trim_start(s.drop_first())
    } else {
        s
    }
}

/// `s` without its trailing white space.
pub open spec fn trim_end(s: Seq<char>) -> Seq<char>
    decreases s.len(),
{
    if s.len() > 0 && is_space(s.last()) {
        trim_end(s.drop_last())
    } else {
        s
    }
}

/// `s` without the white space around it.
pub open spec fn trim(s: Seq<char>) -> Seq<char> {
    trim_end(trim_start(s))
}

/// Whether `c` is white space.
pub fn char_is_space(c: char) -> (space: bool)
    ensures
        space == is_space(c),
{
    ('\u{9}' <= c && c <= '\u{d}') || c == ' ' || c == '\u{85}' || c == '\u{a0}' || c == '\u{1680}'
        || ('\u{2000}' <= c && c <= '\u{200a}') || c == '\u{2028}' || c == '\u{2029}' || c
        == '\u{202f}' || c == '\u{205f}' || c == '\u{3000}'
}

/// What `word_end` gives is the place before which no white space stands.
proof fn lemma_word_end_at(s: Seq<char>, i: int)
    requires
        0 <= i <= s.len(),
        forall|k: int| 0 <= k < i ==> !is_space(s[k]),
        i == s.len() || is_space(s[i]),
    ensures
        word_end(s) == i,
    decreases s.len(),
{
    if i > 0 {
        assert(!is_space(s[0]));
        assert forall|k: int| 0 <= k < i - 1 implies !is_space(s.drop_first()[k]) by {
            assert(!is_space(s[k + 1]));
        }
        lemma_word_end_at(s.drop_first(), i - 1);
    }
}

/// The words of `s`, as `str::split_whitespace` gives them.
pub fn words_of(s: &[char]) -> (ws: Vec<Vec<char>>)
    ensures
        views(ws@) == words(s@),
{
    let mut ws: Vec<Vec<char>> = Vec::new();
    let mut i: usize = 0;
    assert(s@.skip(0) == s@);
    assert(views(ws@) + words(s@) == words(s@));
    while i < s.len()
        invariant
            i <= s.len(),
            words(s@) == views(ws@) + words(s@.skip(i as int)),
        decreases s.len() - i,
    {
        let ghost rest = s@.skip(i as int);
        if char_is_space(s[i]) {
            assert(rest.drop_first() == s@.skip(i + 1));
            i += 1;
        } else {
            let mut end: usize = i + 1;
            while end < s.len() && !char_is_space(s[end])
                invariant
                    i < end <= s.len(),
                    forall|k: int| i <= k < end ==> !is_space(s@[k]),
                decreases s.len() - end,
            {
                end += 1;
            }
            let word = slice_of(s, i, end);
            proof {
                lemma_word_end_at(rest, end - i);
                assert(rest.skip(end - i) == s@.skip(end as int));
                assert(rest.take(end - i) == word@);
                assert(views(ws@.push(word)) == views(ws@).push(word@));
                assert(views(ws@) + (seq![word@] + words(s@.skip(end as int))) == views(ws@).push(
                    word@,
                ) + words(s@.skip(end as int)));
            }
            ws.push(word);
            i = end;
        }
    }
    assert(s@.skip(i as int).len() == 0);
    assert(views(ws@) + Seq::<Seq<char>>::empty() == views(ws@));
    ws
}

/// `s` without the white space around it, as `str::trim` gives it.
pub fn trim_of(s: &[char]) -> (t: Vec<char>)
    ensures
        t@ == trim(s@),
{
    let mut from: usize = 0;
    assert(s@.skip(0) == s@);
    while from < s.len() && char_is_space(s[from])
        invariant
            from <= s.len(),
            trim_start(s@) == trim_start(s@.skip(from as int)),
        decreases s.len() - from,
    {
        assert(s@.skip(from as int).drop_first() == s@.skip(from + 1));
        from += 1;
    }
    let mut to: usize = s.len();
    assert(s@.subrange(from as int, to as int) == s@.skip(from as int));
    while to > from && char_is_space(s[to - 1])
        invariant
            from <= to <= s.len(),
            trim(s@) == trim_end(s@.subrange(from as int, to as int)),
        decreases to,
    {
        assert(s@.subrange(from as int, to as int).drop_last() == s@.subrange(
            from as int,
            to - 1,
        ));
        to -= 1;
    }
    slice_of(s, from, to)
}

// ── Prefixes, suffixes, parts ───────────────────────────────────────────────

/// `c`, an upper-case ASCII letter in lower case.
pub open spec fn ascii_lower(c: char) -> char {
    if 'A' <= c <= 'Z' {
        (c as u32 + 32) as char
    } else {
        c
    }
}

/// Whether `s` begins with `prefix`, upper and lower case of ASCII letters in `s` taken as one.
/// `prefix` is written in lower case.
pub open spec fn begins_with(s: Seq<char>, prefix: Seq<char>) -> bool {
    &&& prefix.len() <= s.len()
    &&& forall|i: int| 0 <= i < prefix.len() ==> ascii_lower(#[trigger] s[i]) == prefix[i]
}

/// Whether `s` ends with `suffix`.
pub open spec fn ends_with(s: Seq<char>, suffix: Seq<char>) -> bool {
    suffix.len() <= s.len() && s.skip(s.len() - suffix.len()) == suffix
}

/// Where `c` last stands in `s`; -1 where it does not.
pub open spec fn find_last(s: Seq<char>, c: char) -> int
    decreases s.len(),
{
    if s.len() == 0 {
        -1
    } else if s.last() == c {
        s.len() - 1
    } else {
        find_last(s.drop_last(), c)
    }
}

/// Where `c` last stands in `s`, `c` stands, and behind it no more.
pub proof fn lemma_find_last(s: Seq<char>, c: char)
    ensures
        -1 <= find_last(s, c) < s.len(),
        find_last(s, c) >= 0 ==> s[find_last(s, c)] == c,
        forall|k: int| find_last(s, c) < k < s.len() ==> s[k] != c,
    decreases s.len(),
{
    if s.len() > 0 && s.last() != c {
        lemma_find_last(s.drop_last(), c);
        assert forall|k: int| find_last(s, c) < k < s.len() implies s[k] != c by {
            if k < s.len() - 1 {
                assert(s.drop_last()[k] == s[k]);
            }
        }
    }
}

/// Whether `part` stands in `s` from place `i` on.
pub open spec fn stands_at<T>(s: Seq<T>, part: Seq<T>, i: int) -> bool {
    0 <= i && i + part.len() <= s.len() && s.subrange(i, i + part.len()) == part
}

/// Whether `part` stands somewhere in `s`.
pub open spec fn contains_part<T>(s: Seq<T>, part: Seq<T>) -> bool {
    exists|i: int| stands_at(s, part, i)
}

/// `c`, an upper-case ASCII letter in lower case.
pub fn to_ascii_lower(c: char) -> (l: char)
    ensures
        l == ascii_lower(c),
{
    if 'A' <= c && c <= 'Z' {
        (c as u8 + 32) as char
    } else {
        c
    }
}

/// Whether `s` begins with `prefix`, whatever the case of the ASCII letters in `s`.
pub fn has_prefix(s: &[char], prefix: &str) -> (res: bool)
    ensures
        res == begins_with(s@, prefix@),
{
    let p = chars_of(prefix);
    if p.len() > s.len() {
        return false;
    }
    let mut i: usize = 0;
    while i < p.len()
        invariant
            i <= p.len() <= s.len(),
            p@ == prefix@,
            forall|k: int| 0 <= k < i ==> ascii_lower(#[trigger] s@[k]) == prefix@[k],
        decreases p.len() - i,
    {
        if to_ascii_lower(s[i]) != p[i] {
            assert(ascii_lower(s@[i as int]) != prefix@[i as int]);
            return false;
        }
        i += 1;
    }
    true
}

/// Whether `start` stands at the start of `s`, as `str::starts_with` tells it.
pub fn has_start(s: &[char], start: &str) -> (res: bool)
    ensures
        res == stands_at(s@, start@, 0),
{
    let p = chars_of(start);
    if p.len() > s.len() {
        return false;
    }
    let mut i: usize = 0;
    while i < p.len()
        invariant
            i <= p.len() <= s.len(),
            p@ == start@,
            forall|k: int| 0 <= k < i ==> s@[k] == start@[k],
        decreases p.len() - i,
    {
        if s[i] != p[i] {
            assert(s@.subrange(0, p.len() as int)[i as int] != start@[i as int]);
            return false;
        }
        i += 1;
    }
    assert(s@.subrange(0, p.len() as int) == start@);
    true
}

/// Where `c` last stands in `s`, as `str::rfind` tells it.
pub fn rfind_char(s: &[char], c: char) -> (res: Option<usize>)
    ensures
        match res {
            Some(i) => i == find_last(s@, c) && i < s.len(),
            None => find_last(s@, c) == -1,
        },
{
    let mut n: usize = s.len();
    assert(s@.take(n as int) == s@);
    while n > 0
        invariant
            n <= s.len(),
            find_last(s@, c) == find_last(s@.take(n as int), c),
        decreases n,
    {
        assert(s@.take(n as int).last() == s@[n - 1]);
        assert(s@.take(n as int).drop_last() == s@.take(n - 1));
        if s[n - 1] == c {
            return Some(n - 1);
        }
        n -= 1;
    }
    None
}

/// Whether `s` ends with `suffix`.
pub fn has_suffix(s: &[char], suffix: &[char]) -> (res: bool)
    ensures
        res == ends_with(s@, suffix@),
{
    if suffix.len() > s.len() {
        return false;
    }
    let from: usize = s.len() - suffix.len();
    let mut i: usize = 0;
    while i < suffix.len()
        invariant
            i <= suffix.len(),
            from + suffix.len() == s.len(),
            forall|k: int| 0 <= k < i ==> s@[from + k] == suffix@[k],
        decreases suffix.len() - i,
    {
        if s[from + i] != suffix[i] {
            assert(s@.skip(from as int)[i as int] != suffix@[i as int]);
            return false;
        }
        i += 1;
    }
    assert(s@.skip(from as int) == suffix@);
    true
}

/// Whether `part` stands somewhere in `s`, as `str::contains` tells it.
pub fn has_part(s: &[char], part: &str) -> (res: bool)
    ensures
        res == contains_part(s@, part@),
{
    let p = chars_of(part);
    let mut at: usize = 0;
    while at <= s.len() && p.len() <= s.len() - at
        invariant
            p@ == part@,
            forall|k: int| 0 <= k < at ==> !stands_at(s@, part@, k),
        decreases s.len() + 1 - at,
    {
        let mut i: usize = 0;
        while i < p.len() && s[at + i] == p[i]
            invariant
                i <= p.len(),
                at + p.len() <= s.len(),
                forall|k: int| 0 <= k < i ==> s@[at + k] == p@[k],
            decreases p.len() - i,
        {
            i += 1;
        }
        if i == p.len() {
            assert(s@.subrange(at as int, at + part@.len()) == part@);
            assert(stands_at(s@, part@, at as int));
            return true;
        }
        assert(!stands_at(s@, part@, at as int)) by {
            assert(s@.subrange(at as int, at + part@.len())[i as int] == s@[at + i]);
        }
        if at == s.len() {
            return false;
        }
        at += 1;
    }
    false
}

// ── Laws ────────────────────────────────────────────────────────────────────

/// A number is printed in one way: digits only, at least one, the first no zero but for the
/// number 0; and the digits write the number.
pub proof fn law_decimal_is_plain(n: nat)
    ensures
        decimal(n).len() > 0,
        forall|i: int| 0 <= i < decimal(n).len() ==> '0' <= #[trigger] decimal(n)[i] <= '9',
        n > 0 ==> decimal(n)[0] != '0',
        n == 0 ==> decimal(n) == seq!['0'],
        digits_value(decimal(n)) == n,
    decreases n,
{
    lemma_decimal(n);
    assert forall|i: int| 0 <= i < decimal(n).len() implies '0' <= #[trigger] decimal(n)[i]
        <= '9' by {
        assert(is_digit(decimal(n)[i]));
    }
    if n >= 10 {
        law_decimal_is_plain(n / 10);
        assert(decimal(n)[0] == decimal(n / 10)[0]);
    } else {
        assert(decimal(n)[0] as int == 48 + n);
        assert(decimal(n) =~= seq![decimal(n)[0]]);
    }
}

/// A digit behind some digits makes ten times their number and its own value; no digits make 0.
pub proof fn law_digits_count_in_tens(s: Seq<char>, c: char)
    requires
        '0' <= c <= '9',
    ensures
        digits_value(s.push(c)) == 10 * digits_value(s) + (c as int - '0' as int),
        digits_value(seq![]) == 0,
{
    assert(s.push(c).drop_last() == s);
}

/// What writes a number: digits, at least one, with or without one plus sign before them, of a
/// value within the limit. Nothing else does.
pub proof fn law_only_digits_write_a_number(s: Seq<char>, max: nat)
    ensures
        s.len() > 0 && (forall|i: int| 0 <= i < s.len() ==> '0' <= #[trigger] s[i] <= '9') ==> {
            let n = digits_value(s);
            &&& unsigned(s, max) == (if n <= max {
                Some(n)
            } else {
                None
            })
            &&& unsigned(seq!['+'] + s, max) == unsigned(s, max)
        },
        unsigned(seq![], max) is None,
        unsigned(seq!['+'], max) is None,
        forall|i: int|
            0 <= i < s.len() && !('0' <= #[trigger] s[i] <= '9') && (i > 0 || s[0] != '+')
                ==> unsigned(s, max) is None,
{
    let empty = Seq::<char>::empty();
    assert(without_plus(empty) == empty);
    assert(seq!['+'].drop_first() == empty);
    if s.len() > 0 && (forall|i: int| 0 <= i < s.len() ==> '0' <= #[trigger] s[i] <= '9') {
        assert('0' <= s[0] <= '9');
        assert(without_plus(s) == s);
        assert((seq!['+'] + s).drop_first() == s);
        assert(without_plus(seq!['+'] + s) == s);
        assert forall|i: int| 0 <= i < s.len() implies is_digit(#[trigger] s[i]) by {}
    }
    assert forall|i: int|
        0 <= i < s.len() && !('0' <= #[trigger] s[i] <= '9') && (i > 0 || s[0]
            != '+') implies unsigned(s, max) is None by {
        let d = without_plus(s);
        if s[0] == '+' {
            assert(d[i - 1] == s[i]);
            assert(!is_digit(d[i - 1]));
        } else {
            assert(!is_digit(d[i]));
        }
    }
}

/// A line ends at a line feed, and a carriage return right before that is no part of it. What
/// follows the last line feed is a line too, unless it is empty.
pub proof fn law_lines_end_at_feeds(a: Seq<char>, rest: Seq<char>)
    requires
        !a.contains('\n'),
    ensures
        text_lines(seq![]) == Seq::<Seq<char>>::empty(),
        a.len() > 0 ==> text_lines(a) == seq![a],
        text_lines(a + seq!['\r', '\n'] + rest) == seq![a] + text_lines(rest),
        a.len() == 0 || a.last() != '\r' ==> text_lines(a + seq!['\n'] + rest) == seq![a]
            + text_lines(rest),
{
    assert forall|k: int| 0 <= k < a.len() implies a[k] != '\n' by {
        assert(a.contains(a[k]));
    }
    lemma_find_char(a, '\n', a.len() as int);
    let s = a + seq!['\n'] + rest;
    lemma_find_char(s, '\n', a.len() as int);
    assert(s.take(a.len() as int) == a);
    assert(s.skip(a.len() as int + 1) == rest);
    let t = a + seq!['\r', '\n'] + rest;
    lemma_find_char(t, '\n', a.len() as int + 1);
    assert(t.take(a.len() as int + 1) == a.push('\r'));
    assert(a.push('\r').drop_last() == a);
    assert(t.skip(a.len() as int + 2) == rest);
}

/// White space is what Unicode has as such.
pub proof fn law_white_space(c: char)
    ensures
        is_space(c) <==> {
            let n = c as int;
            ||| n == 9 || n == 10 || n == 11 || n == 12 || n == 13 || n == 32
            ||| n == 0x85 || n == 0xa0 || n == 0x1680 || 0x2000 <= n <= 0x200a
            ||| n == 0x2028 || n == 0x2029 || n == 0x202f || n == 0x205f || n == 0x3000
        },
{
}

/// White space parts words, and a text without any is one word.
pub proof fn law_white_space_parts_words(a: Seq<char>, c: char, b: Seq<char>)
    requires
        is_space(c),
    ensures
        words(a + seq![c] + b) == words(a) + words(b),
        words(seq![]) == Seq::<Seq<char>>::empty(),
        a.len() > 0 && (forall|i: int| 0 <= i < a.len() ==> !is_space(#[trigger] a[i])) ==> words(a)
            == seq![a],
    decreases a.len(),
{
    let s = a + seq![c] + b;
    if a.len() == 0 {
        assert(s.drop_first() == b);
        assert(words(a) + words(b) == words(b));
    } else if is_space(a[0]) {
        law_white_space_parts_words(a.drop_first(), c, b);
        assert(s.drop_first() == a.drop_first() + seq![c] + b);
    } else {
        lemma_word_end_found(a);
        let e = word_end(a) as int;
        assert forall|k: int| 0 <= k < e implies !is_space(s[k]) by {
            assert(s[k] == a[k]);
        }
        assert(s[e] == (if e < a.len() {
            a[e]
        } else {
            c
        }));
        lemma_word_end_at(s, e);
        assert(s.take(e) == a.take(e));
        assert(s.skip(e) == a.skip(e) + seq![c] + b);
        law_white_space_parts_words(a.skip(e), c, b);
        assert(seq![a.take(e)] + (words(a.skip(e)) + words(b)) == seq![a.take(e)] + words(
            a.skip(e),
        ) + words(b));
        if forall|i: int| 0 <= i < a.len() ==> !is_space(#[trigger] a[i]) {
            lemma_word_end_at(a, a.len() as int);
            assert(a.take(a.len() as int) == a);
            assert(a.skip(a.len() as int).len() == 0);
            assert(words(a) =~= seq![a]);
        }
    }
}

/// Before the end of a word no white space stands, and behind it some does, or nothing.
proof fn lemma_word_end_found(s: Seq<char>)
    ensures
        word_end(s) <= s.len(),
        forall|k: int| 0 <= k < word_end(s) ==> !is_space(#[trigger] s[k]),
        word_end(s) < s.len() ==> is_space(s[word_end(s) as int]),
        s.len() > 0 && !is_space(s[0]) ==> word_end(s) > 0,
    decreases s.len(),
{
    if s.len() > 0 && !is_space(s[0]) {
        lemma_word_end_found(s.drop_first());
        assert forall|k: int| 0 <= k < word_end(s) implies !is_space(#[trigger] s[k]) by {
            if k > 0 {
                assert(s.drop_first()[k - 1] == s[k]);
            }
        }
    }
}

/// Trimming takes the white space around a text, and nothing else.
pub proof fn law_trimming_takes_white_space(a: Seq<char>, t: Seq<char>, b: Seq<char>)
    requires
        forall|i: int| 0 <= i < a.len() ==> is_space(#[trigger] a[i]),
        forall|i: int| 0 <= i < b.len() ==> is_space(#[trigger] b[i]),
        t.len() > 0 ==> !is_space(t[0]) && !is_space(t.last()),
    ensures
        trim(a + t + b) == t,
    decreases a.len() + b.len(),
{
    let s = a + t + b;
    if a.len() > 0 {
        assert(is_space(a[0]));
        assert(s[0] == a[0]);
        assert(s.drop_first() == a.drop_first() + t + b);
        assert forall|i: int| 0 <= i < a.drop_first().len() implies is_space(
            #[trigger] a.drop_first()[i],
        ) by {
            assert(a.drop_first()[i] == a[i + 1]);
        }
        law_trimming_takes_white_space(a.drop_first(), t, b);
        assert(trim_start(s) == trim_start(s.drop_first()));
    } else if t.len() == 0 {
        if b.len() > 0 {
            assert(is_space(b[0]));
            assert(s == b);
            assert(s.drop_first() == a + t + b.drop_first());
            assert forall|i: int| 0 <= i < b.drop_first().len() implies is_space(
                #[trigger] b.drop_first()[i],
            ) by {
                assert(b.drop_first()[i] == b[i + 1]);
            }
            law_trimming_takes_white_space(a, t, b.drop_first());
            assert(trim_start(s) == trim_start(s.drop_first()));
        } else {
            assert(s =~= t);
        }
    } else {
        assert(s[0] == t[0]);
        assert(trim_start(s) == s);
        if b.len() > 0 {
            assert(is_space(b[b.len() - 1]));
            assert(s.last() == b.last());
            let shorter = a + t + b.drop_last();
            assert(s.drop_last() == shorter);
            assert forall|i: int| 0 <= i < b.drop_last().len() implies is_space(
                #[trigger] b.drop_last()[i],
            ) by {
                assert(b.drop_last()[i] == b[i]);
            }
            law_trimming_takes_white_space(a, t, b.drop_last());
            assert(shorter[0] == t[0]);
            assert(trim_start(shorter) == shorter);
        } else {
            assert(s =~= t);
        }
    }
}

/// A text begins with a prefix in lower case where each of its first characters is that of the
/// prefix, or the capital ASCII letter of it.
pub proof fn law_prefix_in_any_case(s: Seq<char>, prefix: Seq<char>)
    requires
        forall|i: int| 0 <= i < prefix.len() ==> !('A' <= #[trigger] prefix[i] <= 'Z'),
    ensures
        begins_with(s, prefix) <==> prefix.len() <= s.len() && forall|i: int|
            0 <= i < prefix.len() ==> (#[trigger] s[i] == prefix[i] || 'A' <= s[i] <= 'Z'
                && s[i] as int + 32 == prefix[i] as int),
{
    assert forall|i: int| 0 <= i < prefix.len() && prefix.len() <= s.len() implies (ascii_lower(
        #[trigger] s[i],
    ) == prefix[i] <==> (s[i] == prefix[i] || 'A' <= s[i] <= 'Z' && s[i] as int + 32
        == prefix[i] as int)) by {
        assert(!('A' <= prefix[i] <= 'Z'));
        if 'A' <= s[i] <= 'Z' {
            assert((s[i] as u32 + 32) as char as int == s[i] as int + 32);
        }
    }
    if begins_with(s, prefix) {
        assert forall|i: int| 0 <= i < prefix.len() implies (#[trigger] s[i] == prefix[i] || 'A'
            <= s[i] <= 'Z' && s[i] as int + 32 == prefix[i] as int) by {
            assert(ascii_lower(s[i]) == prefix[i]);
        }
    }
}

/// A text ends with a suffix where it is something and the suffix behind it.
pub proof fn law_suffix_stands_last(s: Seq<char>, a: Seq<char>, suffix: Seq<char>)
    ensures
        ends_with(a + suffix, suffix),
        ends_with(s, suffix) ==> s == s.take(s.len() - suffix.len()) + suffix,
{
    assert((a + suffix).skip(a.len() as int) == suffix);
    if ends_with(s, suffix) {
        assert(s.take(s.len() - suffix.len()) + s.skip(s.len() - suffix.len()) == s);
    }
}

/// A part stands in a text where something stands before it and something behind it.
pub proof fn law_part_stands_within<T>(s: Seq<T>, a: Seq<T>, part: Seq<T>, b: Seq<T>)
    ensures
        contains_part(a + part + b, part),
        contains_part(s, part) ==> exists|i: int|
            0 <= i && i + part.len() <= s.len() && s == s.take(i) + part + #[trigger] s.skip(
                i + part.len(),
            ),
{
    let whole = a + part + b;
    assert(whole.subrange(a.len() as int, a.len() as int + part.len()) == part);
    assert(stands_at(whole, part, a.len() as int));
    if contains_part(s, part) {
        let i = choose|i: int| stands_at(s, part, i);
        assert(s == s.take(i) + s.subrange(i, i + part.len()) + s.skip(i + part.len()));
    }
}

} // verus!
