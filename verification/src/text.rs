//! Character sequences: conversion between strings and character vectors,
//! white space, substring search, and the rendering of numbers.
//!
//! Every contract in this crate speaks of text as a `Seq<char>`, the view of a
//! `String`, a `&str` or a `Vec<char>`.

use vstd::prelude::*;

verus! {

/// `String::push` appends one character to the end of the string.
pub assume_specification[ String::push ](s: &mut String, c: char)
    ensures
        final(s)@ == old(s)@.push(c),
;

/// Whether `c` has the Unicode property `White_Space`.
pub open spec fn is_whitespace(c: char) -> bool {
    ||| '\u{9}' <= c <= '\u{d}'
    ||| c == ' '
    ||| c == '\u{85}'
    ||| c == '\u{a0}'
    ||| c == '\u{1680}'
    ||| '\u{2000}' <= c <= '\u{200a}'
    ||| c == '\u{2028}'
    ||| c == '\u{2029}'
    ||| c == '\u{202f}'
    ||| c == '\u{205f}'
    ||| c == '\u{3000}'
}

/// Whether `c` is white space.
pub fn is_whitespace_char(c: char) -> (r: bool)
    ensures
        r == is_whitespace(c),
{
    ('\u{9}' <= c && c <= '\u{d}') || c == ' ' || c == '\u{85}' || c == '\u{a0}' || c == '\u{1680}'
        || ('\u{2000}' <= c && c <= '\u{200a}') || c == '\u{2028}' || c == '\u{2029}' || c
        == '\u{202f}' || c == '\u{205f}' || c == '\u{3000}'
}

/// The characters of `s`, in order.
pub fn chars_of(s: &str) -> (r: Vec<char>)
    ensures
        r@ == s@,
{
    let mut out: Vec<char> = Vec::new();
    for c in it: s.chars()
        invariant
            out@ == it.seq().take(it.index() as int),
            it.seq() == s@,
    {
        out.push(c);
    }
    out
}

/// The string spelled by `v[from..to]`.
pub fn string_of_range(v: &Vec<char>, from: usize, to: usize) -> (r: String)
    requires
        from <= to <= v.len(),
    ensures
        r@ == v@.subrange(from as int, to as int),
{
    let mut out = String::new();
    let mut i: usize = from;
    while i < to
        invariant
            from <= i <= to <= v.len(),
            out@ == v@.subrange(from as int, i as int),
        decreases to - i,
    {
        out.push(v[i]);
        i = i + 1;
    }
    out
}

/// The concatenation of `a` and `b`.
pub fn joined(a: &str, b: &str) -> (r: String)
    ensures
        r@ == a@ + b@,
{
    let mut out = String::from_str(a);
    out.append(b);
    out
}

/// Whether `needle` stands in `hay` at index `i`.
pub open spec fn occurs_at(hay: Seq<char>, needle: Seq<char>, i: int) -> bool {
    &&& 0 <= i
    &&& i + needle.len() <= hay.len()
    &&& hay.subrange(i, i + needle.len()) == needle
}

/// Whether `needle` stands somewhere in `hay`.
pub open spec fn contains_text(hay: Seq<char>, needle: Seq<char>) -> bool {
    exists|i: int| occurs_at(hay, needle, i)
}

/// Whether `i` is the first index at or after `from` at which `needle` stands
/// in `hay`.
pub open spec fn is_first_occurrence(hay: Seq<char>, needle: Seq<char>, from: int, i: int) -> bool {
    &&& from <= i
    &&& occurs_at(hay, needle, i)
    &&& forall|j: int| from <= j < i ==> !occurs_at(hay, needle, j)
}

/// The first index at or after `from` at which `needle` stands in `hay`.
pub open spec fn first_occurrence(hay: Seq<char>, needle: Seq<char>, from: int) -> Option<int> {
    if exists|i: int| is_first_occurrence(hay, needle, from, i) {
        Some(choose|i: int| is_first_occurrence(hay, needle, from, i))
    } else {
        None
    }
}

/// There is one first occurrence at most.
pub proof fn lemma_first_occurrence(hay: Seq<char>, needle: Seq<char>, from: int, i: int)
    requires
        is_first_occurrence(hay, needle, from, i),
    ensures
        first_occurrence(hay, needle, from) == Some(i),
{
    let chosen = choose|k: int| is_first_occurrence(hay, needle, from, k);
    if chosen < i {
        assert(!occurs_at(hay, needle, chosen));
    }
    if i < chosen {
        assert(!occurs_at(hay, needle, i));
    }
}

/// Where `needle` stands at or after `from`, it stands somewhere first.
pub proof fn lemma_first_occurrence_exists(hay: Seq<char>, needle: Seq<char>, from: int, i: int)
    requires
        from <= i,
        occurs_at(hay, needle, i),
    ensures
        first_occurrence(hay, needle, from) matches Some(k) && k <= i && is_first_occurrence(
            hay,
            needle,
            from,
            k,
        ),
    decreases i - from,
{
    if occurs_at(hay, needle, from) {
        lemma_first_occurrence(hay, needle, from, from);
    } else {
        lemma_first_occurrence_exists(hay, needle, from + 1, i);
        let k = first_occurrence(hay, needle, from + 1)->0;
        lemma_first_occurrence(hay, needle, from, k);
    }
}

/// Whether `piece` holds `needle` at `offset` and nowhere else, in a way
/// that no text around `piece` can add a second occurrence to: none of the
/// characters with which an occurrence could reach into `piece` is the last
/// of `needle`; the first two characters of `needle` stand in `piece` only
/// at `offset`; and `piece` does not end in the first.
pub open spec fn holds_once(piece: Seq<char>, needle: Seq<char>, offset: int) -> bool {
    &&& needle.len() >= 2
    &&& occurs_at(piece, needle, offset)
    &&& forall|j: int| 0 <= j <= needle.len() - 2 && j < piece.len() ==> piece[j] != needle.last()
    &&& forall|j: int|
        0 <= j < piece.len() - 1 && piece[j] == needle[0] && #[trigger] piece[j + 1] == needle[1]
            ==> j == offset
    &&& piece.last() != needle[0]
}

/// A text without `needle` holds it once where such a `piece` is put into it
/// at `at`, in place of what stood there up to `resume`: where `piece` holds
/// it.
pub proof fn lemma_once(
    content: Seq<char>,
    at: int,
    resume: int,
    piece: Seq<char>,
    needle: Seq<char>,
    offset: int,
)
    requires
        0 <= at <= resume <= content.len(),
        !contains_text(content, needle),
        holds_once(piece, needle, offset),
    ensures
        forall|q: int|
            occurs_at(
                content.subrange(0, at) + piece + content.subrange(resume, content.len() as int),
                needle,
                q,
            ) <==> q == at + offset,
{
    let n = needle.len() as int;
    let whole = content.subrange(0, at) + piece + content.subrange(resume, content.len() as int);
    assert forall|q: int| occurs_at(whole, needle, q) <==> q == at + offset by {
        if occurs_at(whole, needle, q) {
            let found = whole.subrange(q, q + n);
            if q + n <= at {
                assert(content.subrange(q, q + n) =~= found);
                assert(occurs_at(content, needle, q));
            } else if q >= at + piece.len() {
                let back = q - piece.len() - at + resume;
                assert(content.subrange(back, back + n) =~= found);
                assert(occurs_at(content, needle, back));
            } else if q < at {
                assert(whole[q + n - 1] == piece[q + n - 1 - at]);
            } else {
                if q - at < piece.len() - 1 {
                    assert(whole[q + 1] == piece[q - at + 1]);
                }
            }
        }
        if q == at + offset {
            assert(whole.subrange(q, q + n) =~= piece.subrange(offset, offset + n));
        }
    }
}

/// Whether `needle` stands in `hay` at index `i`.
pub fn matches_at(hay: &Vec<char>, needle: &Vec<char>, i: usize) -> (r: bool)
    ensures
        r == occurs_at(hay@, needle@, i as int),
{
    if needle.len() > hay.len() || i > hay.len() - needle.len() {
        return false;
    }
    let mut k: usize = 0;
    while k < needle.len()
        invariant
            k <= needle.len(),
            i + needle.len() <= hay.len(),
            forall|j: int| 0 <= j < k ==> hay@[i + j] == needle@[j],
        decreases needle.len() - k,
    {
        if hay[i + k] != needle[k] {
            return false;
        }
        k = k + 1;
    }
    assert(hay@.subrange(i as int, i + needle.len()) =~= needle@);
    true
}

/// The first index at or after `from` at which `needle` stands in `hay`.
pub fn find_text(hay: &Vec<char>, needle: &Vec<char>, from: usize) -> (r: Option<usize>)
    ensures
        match r {
            Some(i) => is_first_occurrence(hay@, needle@, from as int, i as int)
                && first_occurrence(hay@, needle@, from as int) == Some(i as int),
            None => first_occurrence(hay@, needle@, from as int) is None && forall|j: int|
                from <= j ==> !occurs_at(hay@, needle@, j),
        },
{
    if needle.len() > hay.len() {
        return None;
    }
    let last = hay.len() - needle.len();
    let mut i: usize = from;
    while i < last
        invariant
            from <= i,
            last == hay.len() - needle.len(),
            forall|j: int| from <= j < i ==> !occurs_at(hay@, needle@, j),
        decreases last - i,
    {
        if matches_at(hay, needle, i) {
            proof {
                lemma_first_occurrence(hay@, needle@, from as int, i as int);
            }
            return Some(i);
        }
        i = i + 1;
    }
    if i == last && matches_at(hay, needle, i) {
        proof {
            lemma_first_occurrence(hay@, needle@, from as int, i as int);
        }
        return Some(i);
    }
    None
}

/// Whether `needle` stands somewhere in `hay`.
pub fn contains(hay: &Vec<char>, needle: &Vec<char>) -> (r: bool)
    ensures
        r == contains_text(hay@, needle@),
{
    find_text(hay, needle, 0).is_some()
}

/// The character that writes the digit `d` in a base up to sixteen.
pub open spec fn digit_char(d: int) -> char {
    if d < 10 {
        ('0' as int + d) as char
    } else {
        ('a' as int + d - 10) as char
    }
}

/// The digits of `n` in `base`, most significant first, without leading
/// zeros; one `0` for zero.
pub open spec fn digits(n: nat, base: nat) -> Seq<char>
    recommends
        2 <= base <= 16,
    decreases n,
{
    if n < base || base < 2 {
        seq![digit_char(n as int)]
    } else {
        proof {
            assert(n / base < n) by (nonlinear_arith)
                requires
                    2 <= base <= n,
            ;
        }
        digits(n / base, base).push(digit_char((n % base) as int))
    }
}

/// The character that writes the digit `d`.
fn digit_of(d: u64) -> (c: char)
    requires
        d < 16,
    ensures
        c == digit_char(d as int),
{
    let table: [char; 16] = [
        '0',
        '1',
        '2',
        '3',
        '4',
        '5',
        '6',
        '7',
        '8',
        '9',
        'a',
        'b',
        'c',
        'd',
        'e',
        'f',
    ];
    table[d as usize]
}

/// Appends the digits of `n` in `base` to `out`.
fn push_digits(out: &mut String, n: u64, base: u64)
    requires
        2 <= base <= 16,
    ensures
        final(out)@ == old(out)@ + digits(n as nat, base as nat),
    decreases n,
{
    if n < base {
        out.push(digit_of(n));
    } else {
        assert(n / base < n) by (nonlinear_arith)
            requires
                2 <= base <= n,
        ;
        push_digits(out, n / base, base);
        out.push(digit_of(n % base));
        assert((old(out)@ + digits((n / base) as nat, base as nat)).push(
            digit_char((n % base) as int),
        ) =~= old(out)@ + digits(n as nat, base as nat));
    }
}

/// `n` in decimal.
pub fn to_decimal(n: u64) -> (r: String)
    ensures
        r@ == digits(n as nat, 10),
{
    let mut out = String::new();
    push_digits(&mut out, n, 10);
    out
}

/// `n` in lower-case hexadecimal.
pub fn to_hex(n: u64) -> (r: String)
    ensures
        r@ == digits(n as nat, 16),
{
    let mut out = String::new();
    push_digits(&mut out, n, 16);
    out
}

} // verus!
