//! Character-sequence primitives: conversion between `str` and `Vec<char>`,
//! substring search, trimming, character classes and decimal numbers.
//!
//! All positions in this library are character positions.

use vstd::prelude::*;

verus! {

broadcast use vstd::string::group_string_axioms;

// ---------------------------------------------------------------------------
// Conversions
// ---------------------------------------------------------------------------

/// Builds a `String` from a sequence of characters (`String::from_iter`).
#[verifier::external_body]
pub(crate) fn string_from_chars(chars: Vec<char>) -> (s: String)
    ensures
        s@ == chars@,
{
    String::from_iter(chars)
}

/// The characters of `s`, in order.
pub fn chars_of(s: &str) -> (v: Vec<char>)
    ensures
        v@ == s@,
{
    let mut v: Vec<char> = Vec::new();
    for c in it: s.chars()
        invariant
            v@ == it.seq().subrange(0, it.index() as int),
    {
        v.push(c);
    }
    v
}

/// A copy of `s[lo..hi]`.
pub fn copy_range(s: &[char], lo: usize, hi: usize) -> (v: Vec<char>)
    requires
        lo <= hi <= s@.len(),
    ensures
        v@ == s@.subrange(lo as int, hi as int),
{
    let mut v: Vec<char> = Vec::new();
    let mut i = lo;
    while i < hi
        invariant
            lo <= i <= hi <= s@.len(),
            v@ == s@.subrange(lo as int, i as int),
        decreases hi - i,
    {
        v.push(s[i]);
        i += 1;
        assert(v@ =~= s@.subrange(lo as int, i as int));
    }
    v
}

/// Appends `s[lo..hi]` to `out`.
pub fn push_range(out: &mut Vec<char>, s: &[char], lo: usize, hi: usize)
    requires
        lo <= hi <= s@.len(),
    ensures
        final(out)@ == old(out)@ + s@.subrange(lo as int, hi as int),
{
    let ghost start = out@;
    let mut i = lo;
    while i < hi
        invariant
            lo <= i <= hi <= s@.len(),
            out@ == start + s@.subrange(lo as int, i as int),
        decreases hi - i,
    {
        out.push(s[i]);
        i += 1;
        assert(out@ =~= start + s@.subrange(lo as int, i as int));
    }
}

/// Appends all of `s` to `out`.
pub fn push_all(out: &mut Vec<char>, s: &[char])
    ensures
        final(out)@ == old(out)@ + s@,
{
    push_range(out, s, 0, s.len());
    assert(s@.subrange(0, s@.len() as int) =~= s@);
}

/// Appends the characters of `s` to `out`.
pub fn push_str(out: &mut Vec<char>, s: &str)
    ensures
        final(out)@ == old(out)@ + s@,
{
    let ghost start = out@;
    for c in it: s.chars()
        invariant
            out@ == start + it.seq().subrange(0, it.index() as int),
    {
        out.push(c);
    }
}

// ---------------------------------------------------------------------------
// Search
// ---------------------------------------------------------------------------

/// `pat` occurs in `s` at position `i`.
pub open spec fn matches_at(s: Seq<char>, pat: Seq<char>, i: int) -> bool {
    0 <= i && i + pat.len() <= s.len() && s.subrange(i, i + pat.len()) == pat
}

/// The first position `i >= from` at which `pat` occurs in `s`
/// (`s[from..].find(pat)` shifted by `from`).
pub open spec fn first_match(s: Seq<char>, pat: Seq<char>, from: int) -> Option<int>
    decreases s.len() - from,
{
    if from < 0 || from + pat.len() > s.len() {
        None
    } else if pat.len() == 0 || matches_at(s, pat, from) {
        Some(from)
    } else {
        first_match(s, pat, from + 1)
    }
}

/// The last position `i` with `i + pat.len() <= hi` at which `pat` occurs in `s`
/// (`s[..hi].rfind(pat)`).
pub open spec fn last_match(s: Seq<char>, pat: Seq<char>, hi: int) -> Option<int>
    decreases hi,
{
    if hi - pat.len() < 0 || hi > s.len() {
        None
    } else if matches_at(s, pat, hi - pat.len()) {
        Some(hi - pat.len())
    } else if hi <= 0 {
        None
    } else {
        last_match(s, pat, hi - 1)
    }
}

/// `Option<usize>` seen as `Option<int>`.
pub open spec fn opt_int(r: Option<usize>) -> Option<int> {
    match r {
        Some(i) => Some(i as int),
        None => None,
    }
}

pub proof fn lemma_first_match(s: Seq<char>, pat: Seq<char>, from: int)
    requires
        0 <= from,
    ensures
        match first_match(s, pat, from) {
            Some(i) => from <= i && matches_at(s, pat, i) && i + pat.len() <= s.len() && forall|j: int|
                from <= j < i ==> !matches_at(s, pat, j),
            None => forall|j: int| from <= j ==> !matches_at(s, pat, j),
        },
    decreases s.len() - from,
{
    if from + pat.len() > s.len() {
    } else if pat.len() == 0 || matches_at(s, pat, from) {
        assert(s.subrange(from, from + pat.len()) =~= pat);
    } else {
        lemma_first_match(s, pat, from + 1);
    }
}

/// The first match at or after `from` is the position `i` when `pat` occurs at `i`
/// and nowhere in `[from, i)`.
pub proof fn lemma_first_match_is(s: Seq<char>, pat: Seq<char>, from: int, i: int)
    requires
        0 <= from <= i,
        matches_at(s, pat, i),
        forall|j: int| from <= j < i ==> !matches_at(s, pat, j),
    ensures
        first_match(s, pat, from) == Some(i),
    decreases i - from,
{
    if from < i {
        if pat.len() == 0 {
            assert(s.subrange(from, from + pat.len()) =~= pat);
            assert(matches_at(s, pat, from));
        }
        assert(!matches_at(s, pat, from));
        lemma_first_match_is(s, pat, from + 1, i);
        assert(first_match(s, pat, from) == first_match(s, pat, from + 1));
    }
}

/// `pat` occurs in `s` at position `i` (exec).
pub fn matches_at_exec(s: &[char], pat: &[char], i: usize) -> (b: bool)
    ensures
        b == matches_at(s@, pat@, i as int),
{
    if i > s.len() || pat.len() > s.len() - i {
        return false;
    }
    let slen = s.len();
    let mut k: usize = 0;
    while k < pat.len()
        invariant
            slen == s@.len(),
            i + pat@.len() <= s@.len(),
            k <= pat@.len(),
            forall|j: int| 0 <= j < k ==> s@[i + j] == pat@[j],
        decreases pat.len() - k,
    {
        assert(i + k < s@.len());
        if s[i + k] != pat[k] {
            assert(s@.subrange(i as int, i + pat@.len())[k as int] != pat@[k as int]);
            return false;
        }
        k += 1;
    }
    assert(s@.subrange(i as int, i + pat@.len()) =~= pat@);
    true
}

/// The first position at or after `from` at which `pat` occurs in `s`.
pub fn find_from(s: &[char], pat: &[char], from: usize) -> (r: Option<usize>)
    ensures
        opt_int(r) == first_match(s@, pat@, from as int),
{
    let mut i = from;
    loop
        invariant
            from <= i,
            first_match(s@, pat@, from as int) == first_match(s@, pat@, i as int),
        decreases s@.len() - i,
    {
        if i > s.len() || pat.len() > s.len() - i {
            return None;
        }
        if pat.len() == 0 {
            return Some(i);
        }
        if matches_at_exec(s, pat, i) {
            return Some(i);
        }
        i += 1;
    }
}

/// The first position at or after `from` holding the character `c`.
pub fn find_char_from(s: &[char], c: char, from: usize) -> (r: Option<usize>)
    ensures
        opt_int(r) == first_match(s@, seq![c], from as int),
{
    let pat = vec![c];
    assert(pat@ =~= seq![c]);
    find_from(s, &pat, from)
}

/// The last position `i` with `i + pat.len() <= hi` at which `pat` occurs in `s`.
pub fn rfind_before(s: &[char], pat: &[char], hi: usize) -> (r: Option<usize>)
    requires
        hi <= s@.len(),
    ensures
        opt_int(r) == last_match(s@, pat@, hi as int),
{
    let mut h = hi;
    loop
        invariant
            h <= hi <= s@.len(),
            last_match(s@, pat@, hi as int) == last_match(s@, pat@, h as int),
        decreases h,
    {
        if h < pat.len() {
            return None;
        }
        if matches_at_exec(s, pat, h - pat.len()) {
            return Some(h - pat.len());
        }
        if h == 0 {
            return None;
        }
        h -= 1;
    }
}

// ---------------------------------------------------------------------------
// Character classes
// ---------------------------------------------------------------------------

/// Unicode `White_Space`, as `char::is_whitespace` classifies it.
pub open spec fn is_ws(c: char) -> bool {
    ||| ('\u{9}' <= c && c <= '\u{d}')
    ||| c == ' '
    ||| c == '\u{85}'
    ||| c == '\u{a0}'
    ||| c == '\u{1680}'
    ||| ('\u{2000}' <= c && c <= '\u{200a}')
    ||| c == '\u{2028}'
    ||| c == '\u{2029}'
    ||| c == '\u{202f}'
    ||| c == '\u{205f}'
    ||| c == '\u{3000}'
}

/// `char::is_whitespace`.
pub fn is_whitespace(c: char) -> (b: bool)
    ensures
        b == is_ws(c),
{
    ('\u{9}' <= c && c <= '\u{d}') || c == ' ' || c == '\u{85}' || c == '\u{a0}' || c
        == '\u{1680}' || ('\u{2000}' <= c && c <= '\u{200a}') || c == '\u{2028}' || c
        == '\u{2029}' || c == '\u{202f}' || c == '\u{205f}' || c == '\u{3000}'
}

/// Unicode general category `Cc`, as `char::is_control` classifies it.
pub open spec fn is_control_char(c: char) -> bool {
    c <= '\u{1f}' || ('\u{7f}' <= c && c <= '\u{9f}')
}

/// `char::is_control`.
pub fn is_control(c: char) -> (b: bool)
    ensures
        b == is_control_char(c),
{
    c <= '\u{1f}' || ('\u{7f}' <= c && c <= '\u{9f}')
}

/// `char::is_ascii_alphanumeric`.
pub open spec fn is_ascii_alnum(c: char) -> bool {
    ('a' <= c && c <= 'z') || ('A' <= c && c <= 'Z') || ('0' <= c && c <= '9')
}

/// What `char::is_alphanumeric` answers for `c` (Unicode `Alphabetic` or `Numeric`).
pub uninterp spec fn unicode_alphanumeric(c: char) -> bool;

/// `char::is_alphanumeric`: Unicode `Alphabetic` or `Numeric`.  Claimed: the
/// answer depends on `c` alone, and ASCII letters and digits, which std
/// documents as alphabetic and numeric, give `true`.
#[verifier::external_body]
pub(crate) fn is_alphanumeric(c: char) -> (b: bool)
    ensures
        b == unicode_alphanumeric(c),
        is_ascii_alnum(c) ==> b,
{
    c.is_alphanumeric()
}

/// What `str::to_lowercase` makes of `s` (Unicode lowercase mapping).
pub uninterp spec fn unicode_lowercase(s: Seq<char>) -> Seq<char>;

/// `str::to_lowercase`: the Unicode lowercase equivalent of `s`.  Claimed: the
/// result depends on `s` alone.
#[verifier::external_body]
pub(crate) fn to_lowercase(s: &str) -> (r: String)
    ensures
        r@ == unicode_lowercase(s@),
{
    s.to_lowercase()
}

// ---------------------------------------------------------------------------
// Byte offsets
// ---------------------------------------------------------------------------

/// The number of bytes UTF-8 uses for `c`.
pub open spec fn utf8_len(c: char) -> nat {
    if (c as int) < 0x80 {
        1
    } else if (c as int) < 0x800 {
        2
    } else if (c as int) < 0x10000 {
        3
    } else {
        4
    }
}

/// The number of bytes UTF-8 uses for `s`: the byte offset just past it.
pub open spec fn byte_len(s: Seq<char>) -> nat
    decreases s.len(),
{
    if s.len() == 0 {
        0
    } else {
        byte_len(s.drop_last()) + utf8_len(s.last())
    }
}

/// The character index at which the byte offset `b` of `s` falls, when it is a
/// character boundary.
pub open spec fn char_index(s: Seq<char>, b: int) -> Option<int>
    decreases s.len(),
{
    if b == 0 {
        Some(0)
    } else if s.len() == 0 || b < 0 {
        None
    } else {
        match char_index(s.drop_first(), b - utf8_len(s[0])) {
            Some(i) => Some(i + 1),
            None => None,
        }
    }
}

fn utf8_len_exec(c: char) -> (n: usize)
    ensures
        n == utf8_len(c),
{
    let u = c as u32;
    if u < 0x80 {
        1
    } else if u < 0x800 {
        2
    } else if u < 0x10000 {
        3
    } else {
        4
    }
}

proof fn lemma_byte_len_push(s: Seq<char>, c: char)
    ensures
        byte_len(s.push(c)) == byte_len(s) + utf8_len(c),
{
    assert(s.push(c).drop_last() =~= s);
}

pub proof fn lemma_byte_len_take(s: Seq<char>, i: int)
    requires
        0 <= i <= s.len(),
    ensures
        byte_len(s.take(i)) <= byte_len(s),
    decreases s.len() - i,
{
    if i < s.len() {
        assert(s.drop_last().take(i) =~= s.take(i));
        lemma_byte_len_take(s.drop_last(), i);
    } else {
        assert(s.take(i) =~= s);
    }
}

/// The byte offset of the character index `i` of `s`.
pub fn byte_offset(s: &[char], i: usize) -> (b: usize)
    requires
        i <= s@.len(),
        byte_len(s@) <= usize::MAX,
    ensures
        b == byte_len(s@.take(i as int)),
{
    let mut b: usize = 0;
    let mut k: usize = 0;
    assert(s@.take(0) =~= Seq::<char>::empty());
    while k < i
        invariant
            k <= i <= s@.len(),
            byte_len(s@) <= usize::MAX,
            b == byte_len(s@.take(k as int)),
        decreases i - k,
    {
        proof {
            lemma_byte_len_push(s@.take(k as int), s@[k as int]);
            assert(s@.take(k as int).push(s@[k as int]) =~= s@.take(k + 1));
            lemma_byte_len_take(s@, k + 1);
        }
        b = b + utf8_len_exec(s[k]);
        k += 1;
    }
    b
}

proof fn lemma_char_index_take(s: Seq<char>, i: int)
    requires
        0 <= i <= s.len(),
    ensures
        char_index(s, byte_len(s.take(i)) as int) == Some(i),
    decreases i,
{
    if i > 0 {
        lemma_byte_len_first(s.take(i));
        assert(s.take(i).drop_first() =~= s.drop_first().take(i - 1));
        lemma_char_index_take(s.drop_first(), i - 1);
        assert(byte_len(s.take(i)) > 0);
    }
}

proof fn lemma_byte_len_first(s: Seq<char>)
    requires
        s.len() > 0,
    ensures
        byte_len(s) == utf8_len(s[0]) + byte_len(s.drop_first()),
    decreases s.len(),
{
    if s.len() > 1 {
        lemma_byte_len_first(s.drop_last());
        assert(s.drop_last().drop_first() =~= s.drop_first().drop_last());
    } else {
        assert(s.drop_last() =~= Seq::<char>::empty());
        assert(s.drop_first() =~= Seq::<char>::empty());
    }
}

/// The character index at which the byte offset `b` of `s` falls.
pub fn char_index_of(s: &[char], b: usize) -> (r: Option<usize>)
    ensures
        match char_index(s@, b as int) {
            Some(i) => r == Some(i as usize) && 0 <= i <= s@.len() && byte_len(s@.take(i)) == b,
            None => r is None,
        },
{
    let mut k: usize = 0;
    let mut rest: usize = b;
    proof {
        assert(s@.skip(0) =~= s@);
        assert(s@.take(0) =~= Seq::<char>::empty());
    }
    while rest > 0 && k < s.len()
        invariant
            k <= s@.len(),
            byte_len(s@.take(k as int)) + rest == b,
            char_index(s@, b as int) == match char_index(s@.skip(k as int), rest as int) {
                Some(i) => Some(i + k),
                None => None,
            },
        decreases s@.len() - k,
    {
        let n = utf8_len_exec(s[k]);
        proof {
            assert(s@.skip(k as int).drop_first() =~= s@.skip(k + 1));
            assert(s@.skip(k as int)[0] == s@[k as int]);
            lemma_byte_len_push(s@.take(k as int), s@[k as int]);
            assert(s@.take(k as int).push(s@[k as int]) =~= s@.take(k + 1));
        }
        if rest < n {
            assert(char_index(s@.skip(k + 1), rest - n) is None);
            return None;
        }
        rest = rest - n;
        k += 1;
    }
    if rest == 0 {
        proof {
            lemma_char_index_bound(s@, b as int);
        }
        Some(k)
    } else {
        assert(s@.skip(k as int).len() == 0);
        None
    }
}

proof fn lemma_char_index_bound(s: Seq<char>, b: int)
    ensures
        char_index(s, b) matches Some(i) ==> 0 <= i <= s.len(),
    decreases s.len(),
{
    if b != 0 && s.len() > 0 && b >= 0 {
        lemma_char_index_bound(s.drop_first(), b - utf8_len(s[0]));
    }
}

// ---------------------------------------------------------------------------
// Trimming
// ---------------------------------------------------------------------------

/// `s.trim_start()`.
pub open spec fn trim_start(s: Seq<char>) -> Seq<char>
    decreases s.len(),
{
    if s.len() > 0 && is_ws(s[0]) {
        trim_start(s.drop_first())
    } else {
        s
    }
}

/// `s.trim_end()`.
pub open spec fn trim_end(s: Seq<char>) -> Seq<char>
    decreases s.len(),
{
    if s.len() > 0 && is_ws(s.last()) {
        trim_end(s.drop_last())
    } else {
        s
    }
}

/// `s.trim()`.
pub open spec fn trim(s: Seq<char>) -> Seq<char> {
    trim_end(trim_start(s))
}

/// The position where `s[lo..hi].trim_start()` begins.
pub fn skip_ws(s: &[char], lo: usize, hi: usize) -> (j: usize)
    requires
        lo <= hi <= s@.len(),
    ensures
        lo <= j <= hi,
        s@.subrange(j as int, hi as int) == trim_start(s@.subrange(lo as int, hi as int)),
        forall|k: int| lo <= k < j ==> is_ws(#[trigger] s@[k]),
        j < hi ==> !is_ws(s@[j as int]),
{
    let mut i = lo;
    while i < hi && is_whitespace(s[i])
        invariant
            lo <= i <= hi <= s@.len(),
            trim_start(s@.subrange(lo as int, hi as int)) == trim_start(
                s@.subrange(i as int, hi as int),
            ),
            forall|k: int| lo <= k < i ==> is_ws(#[trigger] s@[k]),
        decreases hi - i,
    {
        assert(s@.subrange(i as int, hi as int).drop_first() =~= s@.subrange(
            i + 1,
            hi as int,
        ));
        i += 1;
    }
    i
}

/// The position where `s[lo..hi].trim_end()` ends.
pub fn trim_end_pos(s: &[char], lo: usize, hi: usize) -> (j: usize)
    requires
        lo <= hi <= s@.len(),
    ensures
        lo <= j <= hi,
        s@.subrange(lo as int, j as int) == trim_end(s@.subrange(lo as int, hi as int)),
        forall|k: int| j <= k < hi ==> is_ws(#[trigger] s@[k]),
        lo < j ==> !is_ws(s@[j - 1]),
{
    let mut i = hi;
    while i > lo && is_whitespace(s[i - 1])
        invariant
            lo <= i <= hi <= s@.len(),
            trim_end(s@.subrange(lo as int, hi as int)) == trim_end(
                s@.subrange(lo as int, i as int),
            ),
            forall|k: int| i <= k < hi ==> is_ws(#[trigger] s@[k]),
        decreases i - lo,
    {
        assert(s@.subrange(lo as int, i as int).drop_last() =~= s@.subrange(
            lo as int,
            i - 1,
        ));
        i -= 1;
    }
    i
}

/// The bounds of `s[lo..hi].trim()`.
pub fn trim_range(s: &[char], lo: usize, hi: usize) -> (r: (usize, usize))
    requires
        lo <= hi <= s@.len(),
    ensures
        lo <= r.0 <= r.1 <= hi,
        s@.subrange(r.0 as int, r.1 as int) == trim(s@.subrange(lo as int, hi as int)),
{
    let a = skip_ws(s, lo, hi);
    let b = trim_end_pos(s, a, hi);
    (a, b)
}

pub proof fn lemma_trim_start_len(s: Seq<char>)
    ensures
        trim_start(s).len() <= s.len(),
        trim_start(s) == s.skip(s.len() - trim_start(s).len()),
    decreases s.len(),
{
    if s.len() > 0 && is_ws(s[0]) {
        lemma_trim_start_len(s.drop_first());
        assert(s.drop_first().skip(s.drop_first().len() - trim_start(s).len()) =~= s.skip(
            s.len() - trim_start(s).len(),
        ));
    } else {
        assert(s.skip(0) =~= s);
    }
}

pub proof fn lemma_trim_end_len(s: Seq<char>)
    ensures
        trim_end(s).len() <= s.len(),
        trim_end(s) == s.take(trim_end(s).len() as int),
    decreases s.len(),
{
    if s.len() > 0 && is_ws(s.last()) {
        lemma_trim_end_len(s.drop_last());
        assert(s.drop_last().take(trim_end(s).len() as int) =~= s.take(
            trim_end(s).len() as int,
        ));
    } else {
        assert(s.take(s.len() as int) =~= s);
    }
}

// ---------------------------------------------------------------------------
// Decimal numbers
// ---------------------------------------------------------------------------

/// `c` is one of `0`..`9`.
pub open spec fn is_digit(c: char) -> bool {
    '0' <= c && c <= '9'
}

/// The value of a string of decimal digits.
pub open spec fn digits_value(d: Seq<char>) -> nat
    decreases d.len(),
{
    if d.len() == 0 {
        0
    } else {
        digits_value(d.drop_last()) * 10 + ((d.last() as int - '0' as int) as nat)
    }
}

/// One or more decimal digits whose value fits in a `u64`.
pub open spec fn parse_digits(d: Seq<char>) -> Option<u64> {
    if d.len() > 0 && (forall|i: int| 0 <= i < d.len() ==> is_digit(#[trigger] d[i]))
        && digits_value(d) <= u64::MAX {
        Some(digits_value(d) as u64)
    } else {
        None
    }
}

/// `s.parse::<u64>()`: an optional `+` followed by one or more decimal digits whose
/// value fits in a `u64`.
pub open spec fn parse_u64_spec(s: Seq<char>) -> Option<u64> {
    if s.len() > 0 && s[0] == '+' {
        parse_digits(s.drop_first())
    } else {
        parse_digits(s)
    }
}

proof fn lemma_digits_value_prefix(d: Seq<char>, i: int)
    requires
        0 <= i <= d.len(),
        forall|k: int| 0 <= k < d.len() ==> is_digit(#[trigger] d[k]),
    ensures
        digits_value(d.take(i)) <= digits_value(d),
    decreases d.len() - i,
{
    if i < d.len() {
        lemma_digits_value_prefix(d, i + 1);
        assert(d.take(i + 1).drop_last() =~= d.take(i));
    } else {
        assert(d.take(i) =~= d);
    }
}

/// `s[lo..hi].parse::<u64>().ok()`.
pub fn parse_u64(s: &[char], lo: usize, hi: usize) -> (r: Option<u64>)
    requires
        lo <= hi <= s@.len(),
    ensures
        r == parse_u64_spec(s@.subrange(lo as int, hi as int)),
{
    let ghost whole = s@.subrange(lo as int, hi as int);
    let mut start = lo;
    if lo < hi && s[lo] == '+' {
        start = lo + 1;
    }
    let ghost d = s@.subrange(start as int, hi as int);
    assert(whole.len() > 0 && whole[0] == '+' ==> d =~= whole.drop_first());
    assert(!(whole.len() > 0 && whole[0] == '+') ==> d =~= whole);
    assert(parse_u64_spec(whole) == parse_digits(d));
    if start == hi {
        return None;
    }
    let mut j = start;
    while j < hi
        invariant
            start <= j <= hi <= s@.len(),
            d == s@.subrange(start as int, hi as int),
            parse_u64_spec(s@.subrange(lo as int, hi as int)) == parse_digits(d),
            forall|k: int| start <= k < j ==> is_digit(#[trigger] s@[k]),
        decreases hi - j,
    {
        let c = s[j];
        if !('0' <= c && c <= '9') {
            assert(!is_digit(d[j - start]));
            return None;
        }
        j += 1;
    }
    assert(forall|k: int| 0 <= k < d.len() ==> is_digit(#[trigger] d[k])) by {
        assert forall|k: int| 0 <= k < d.len() implies is_digit(#[trigger] d[k]) by {
            assert(d[k] == s@[start + k]);
        }
    }
    let mut value: u64 = 0;
    let mut i = start;
    while i < hi
        invariant
            lo <= start <= i <= hi <= s@.len(),
            d == s@.subrange(start as int, hi as int),
            parse_u64_spec(s@.subrange(lo as int, hi as int)) == parse_digits(d),
            forall|k: int| 0 <= k < d.len() ==> is_digit(#[trigger] d[k]),
            value == digits_value(d.take(i - start)),
        decreases hi - i,
    {
        let c = s[i];
        assert(c == d[i - start]);
        assert(is_digit(d[i - start]));
        let digit = (c as u32 - '0' as u32) as u64;
        assert(d.take(i + 1 - start).drop_last() =~= d.take(i - start));
        assert(d.take(i + 1 - start).last() == c);
        if value > (u64::MAX - digit) / 10 {
            proof {
                lemma_digits_value_prefix(d, i + 1 - start);
                assert(value * 10 + digit > u64::MAX) by (nonlinear_arith)
                    requires
                        value > (u64::MAX - digit) / 10,
                        digit <= 9,
                ;
            }
            return None;
        }
        assert(value * 10 + digit <= u64::MAX) by (nonlinear_arith)
            requires
                value <= (u64::MAX - digit) / 10,
                digit <= 9,
        ;
        value = value * 10 + digit;
        i += 1;
    }
    assert(d.take(i - start) =~= d);
    Some(value)
}

} // verus!

verus! {

/// The decimal digit character for `d < 10`.
pub open spec fn digit_char(d: nat) -> char {
    if d == 0 {
        '0'
    } else if d == 1 {
        '1'
    } else if d == 2 {
        '2'
    } else if d == 3 {
        '3'
    } else if d == 4 {
        '4'
    } else if d == 5 {
        '5'
    } else if d == 6 {
        '6'
    } else if d == 7 {
        '7'
    } else if d == 8 {
        '8'
    } else {
        '9'
    }
}

/// The decimal representation of `n` (`n.to_string()`).
pub open spec fn decimal(n: nat) -> Seq<char>
    decreases n,
{
    if n < 10 {
        seq![digit_char(n)]
    } else {
        decimal(n / 10).push(digit_char(n % 10))
    }
}

fn digit_to_char(d: u64) -> (c: char)
    requires
        d < 10,
    ensures
        c == digit_char(d as nat),
{
    match d {
        0 => '0',
        1 => '1',
        2 => '2',
        3 => '3',
        4 => '4',
        5 => '5',
        6 => '6',
        7 => '7',
        8 => '8',
        _ => '9',
    }
}

/// Appends the decimal representation of `n` to `out`.
pub fn push_u64(out: &mut Vec<char>, n: u64)
    ensures
        final(out)@ == old(out)@ + decimal(n as nat),
    decreases n,
{
    if n >= 10 {
        push_u64(out, n / 10);
    }
    let ghost mid = out@;
    out.push(digit_to_char(n % 10));
    proof {
        if n >= 10 {
            assert(out@ =~= old(out)@ + decimal(n as nat));
        } else {
            assert(out@ =~= old(out)@ + decimal(n as nat));
        }
    }
}

/// The decimal representation of a signed integer (`n.to_string()`).
pub open spec fn decimal_i64(n: int) -> Seq<char> {
    if n < 0 {
        seq!['-'] + decimal((-n) as nat)
    } else {
        decimal(n as nat)
    }
}

/// Appends the decimal representation of `n` to `out`.
pub fn push_i32(out: &mut Vec<char>, n: i32)
    ensures
        final(out)@ == old(out)@ + decimal_i64(n as int),
{
    if n < 0 {
        out.push('-');
        let m: u64 = (0i64 - n as i64) as u64;
        push_u64(out, m);
        assert(out@ =~= old(out)@ + decimal_i64(n as int));
    } else {
        push_u64(out, n as u64);
    }
}


// ---------------------------------------------------------------------------
// Trimming a set of characters
// ---------------------------------------------------------------------------

/// `s` without the leading characters that belong to `set`.
pub open spec fn trim_set_start(s: Seq<char>, set: Seq<char>) -> Seq<char>
    decreases s.len(),
{
    if s.len() > 0 && set.contains(s[0]) {
        trim_set_start(s.drop_first(), set)
    } else {
        s
    }
}

/// `s` without the trailing characters that belong to `set`.
pub open spec fn trim_set_end(s: Seq<char>, set: Seq<char>) -> Seq<char>
    decreases s.len(),
{
    if s.len() > 0 && set.contains(s.last()) {
        trim_set_end(s.drop_last(), set)
    } else {
        s
    }
}

/// `s.trim_matches(|c| set.contains(c))`.
pub open spec fn trim_set(s: Seq<char>, set: Seq<char>) -> Seq<char> {
    trim_set_end(trim_set_start(s, set), set)
}

/// Whether `c` is among `set`.
pub fn in_set(set: &[char], c: char) -> (r: bool)
    ensures
        r == set@.contains(c),
{
    let mut i: usize = 0;
    while i < set.len()
        invariant
            i <= set@.len(),
            forall|j: int| 0 <= j < i ==> set@[j] != c,
        decreases set@.len() - i,
    {
        if set[i] == c {
            assert(set@[i as int] == c);
            return true;
        }
        i += 1;
    }
    false
}

/// The bounds of `s[lo..hi]` trimmed of the characters of `set` at both ends.
pub fn trim_set_range(s: &[char], lo: usize, hi: usize, set: &[char]) -> (r: (usize, usize))
    requires
        lo <= hi <= s@.len(),
    ensures
        lo <= r.0 <= r.1 <= hi,
        s@.subrange(r.0 as int, r.1 as int) == trim_set(s@.subrange(lo as int, hi as int), set@),
        s@.subrange(r.0 as int, hi as int) == trim_set_start(s@.subrange(lo as int, hi as int), set@),
{
    let mut i = lo;
    while i < hi && in_set(set, s[i])
        invariant
            lo <= i <= hi <= s@.len(),
            trim_set_start(s@.subrange(lo as int, hi as int), set@) == trim_set_start(
                s@.subrange(i as int, hi as int),
                set@,
            ),
        decreases hi - i,
    {
        assert(s@.subrange(i as int, hi as int).drop_first() =~= s@.subrange(i + 1, hi as int));
        i += 1;
    }
    let mut j = hi;
    while j > i && in_set(set, s[j - 1])
        invariant
            lo <= i <= j <= hi <= s@.len(),
            trim_set_end(s@.subrange(i as int, hi as int), set@) == trim_set_end(
                s@.subrange(i as int, j as int),
                set@,
            ),
        decreases j - i,
    {
        assert(s@.subrange(i as int, j as int).drop_last() =~= s@.subrange(i as int, j - 1));
        j -= 1;
    }
    (i, j)
}

} // verus!
