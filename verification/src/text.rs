//! Text as sequences of characters: conversion between `str`, `String` and
//! `Vec<char>`, and the few searches the parsers need.

use vstd::prelude::*;
use vstd::string::*;

verus! {

/// The characters of `s`, in order.
pub fn to_chars(s: &str) -> (r: Vec<char>)
    ensures
        r@ == s@,
{
    let mut r: Vec<char> = Vec::new();
    for c in it: s.chars()
        invariant
            it.seq() == s@,
            r@ == it.seq().take(it.index()),
    {
        r.push(c);
    }
    r
}

/// `std::string::String::push`: appends one character to the end of the string.
#[verifier::external_body]
fn string_push(s: &mut String, c: char)
    ensures
        final(s)@ == old(s)@.push(c),
{
    s.push(c)
}

/// The string made of `v[from..to]`.
pub fn from_chars(v: &Vec<char>, from: usize, to: usize) -> (r: String)
    requires
        from <= to <= v.len(),
    ensures
        r@ == v@.subrange(from as int, to as int),
{
    let mut r = String::new();
    let mut i: usize = from;
    while i < to
        invariant
            from <= i <= to <= v.len(),
            r@ == v@.subrange(from as int, i as int),
        decreases to - i,
    {
        string_push(&mut r, v[i]);
        i += 1;
        assert(r@ == v@.subrange(from as int, i as int));
    }
    r
}

/// `p` stands in `s` at index `i`.
pub open spec fn occurs_at(s: Seq<char>, p: Seq<char>, i: int) -> bool {
    0 <= i && i + p.len() <= s.len() && s.subrange(i, i + p.len()) == p
}

/// The index reached from `k` by stepping over every copy of `p` that stands
/// there: what is left of `s[k..]` once the prefix `p` was stripped as often
/// as it matches starts at this index.
pub open spec fn skip_all(s: Seq<char>, k: int, p: Seq<char>) -> int
    decreases s.len() - k,
{
    if p.len() > 0 && occurs_at(s, p, k) {
        skip_all(s, k + p.len(), p)
    } else {
        k
    }
}

/// The first index at or after `k` where `c` stands, or the length of `s`.
pub open spec fn find_from(s: Seq<char>, k: int, c: char) -> int
    decreases s.len() - k,
{
    if k < 0 || k >= s.len() {
        s.len() as int
    } else if s[k] == c {
        k
    } else {
        find_from(s, k + 1, c)
    }
}

/// What `find_from` finds: the index is in range, `c` stands there unless
/// the end was reached, and `c` stands nowhere between `k` and the index.
pub proof fn lemma_find_from(s: Seq<char>, k: int, c: char)
    requires
        0 <= k <= s.len(),
    ensures
        k <= find_from(s, k, c) <= s.len(),
        find_from(s, k, c) < s.len() ==> s[find_from(s, k, c)] == c,
        forall|j: int| k <= j < find_from(s, k, c) ==> s[j] != c,
    decreases s.len() - k,
{
    if k < s.len() && s[k] != c {
        lemma_find_from(s, k + 1, c);
    }
}

/// Whether `p` stands in `v` at index `i`.
pub fn matches_at(v: &Vec<char>, i: usize, p: &Vec<char>) -> (r: bool)
    ensures
        r == occurs_at(v@, p@, i as int),
{
    if p.len() > v.len() || i > v.len() - p.len() {
        return false;
    }
    let mut j: usize = 0;
    while j < p.len()
        invariant
            j <= p.len(),
            i + p.len() <= v.len(),
            forall|t: int| 0 <= t < j ==> v@[i + t] == p@[t],
        decreases p.len() - j,
    {
        if v[i + j] != p[j] {
            assert(v@.subrange(i as int, i + p.len())[j as int] == v@[i + j]);
            return false;
        }
        j += 1;
    }
    assert(v@.subrange(i as int, i + p.len()) =~= p@);
    true
}

/// Steps from `k` over every copy of `p` that stands there.
pub fn skip_prefixes(v: &Vec<char>, k: usize, p: &Vec<char>) -> (r: usize)
    requires
        k <= v.len(),
    ensures
        r == skip_all(v@, k as int, p@),
        k <= r <= v.len(),
{
    let mut i: usize = k;
    if p.len() == 0 {
        return i;
    }
    while matches_at(v, i, p)
        invariant
            k <= i <= v.len(),
            p.len() > 0,
            skip_all(v@, k as int, p@) == skip_all(v@, i as int, p@),
        decreases v.len() - i,
    {
        i += p.len();
    }
    i
}

/// The first index at or after `k` where `c` stands, or the length of `v`.
pub fn position_from(v: &Vec<char>, k: usize, c: char) -> (r: usize)
    requires
        k <= v.len(),
    ensures
        r == find_from(v@, k as int, c),
        k <= r <= v.len(),
{
    let mut i: usize = k;
    while i < v.len() && v[i] != c
        invariant
            k <= i <= v.len(),
            find_from(v@, k as int, c) == find_from(v@, i as int, c),
        decreases v.len() - i,
    {
        i += 1;
    }
    i
}

/// Whether `p` stands in `v` at some index at or after `k`.
pub fn occurs_from(v: &Vec<char>, k: usize, p: &Vec<char>) -> (r: bool)
    requires
        k <= v.len(),
    ensures
        r == exists|i: int| k <= i && occurs_at(v@, p@, i),
{
    let mut i: usize = k;
    while i < v.len()
        invariant
            k <= i <= v.len(),
            forall|t: int| k <= t < i ==> !occurs_at(v@, p@, t),
        decreases v.len() - i,
    {
        if matches_at(v, i, p) {
            return true;
        }
        i += 1;
    }
    if matches_at(v, i, p) {
        return true;
    }
    assert forall|t: int| k <= t implies !occurs_at(v@, p@, t) by {
        if t > v.len() {
        }
    }
    false
}

/// The texts of a list of strings.
pub open spec fn texts(s: Seq<String>) -> Seq<Seq<char>> {
    s.map_values(|t: String| t@)
}

/// Whether `char::is_whitespace` holds of a character: whether it has the
/// Unicode property White_Space.
pub uninterp spec fn is_whitespace(c: char) -> bool;

/// `char::is_whitespace` of std.
#[verifier::external_body]
fn char_is_whitespace(c: char) -> (r: bool)
    ensures
        r == is_whitespace(c),
{
    c.is_whitespace()
}

/// The first index at or after `k` where a character stands that is
/// whitespace (`space` true) or is not (`space` false), or the length.
pub open spec fn scan(s: Seq<char>, k: int, space: bool) -> int
    decreases s.len() - k,
{
    if k < 0 || k >= s.len() {
        s.len() as int
    } else if is_whitespace(s[k]) == space {
        k
    } else {
        scan(s, k + 1, space)
    }
}

/// The index that `scan` returns is in range.
pub proof fn lemma_scan(s: Seq<char>, k: int, space: bool)
    requires
        0 <= k <= s.len(),
    ensures
        k <= scan(s, k, space) <= s.len(),
    decreases s.len() - k,
{
    if k < s.len() && is_whitespace(s[k]) != space {
        lemma_scan(s, k + 1, space);
    }
}

/// The first index at or after `k` where a character stands that is
/// whitespace, or is not.
pub fn scan_from(v: &Vec<char>, k: usize, space: bool) -> (r: usize)
    requires
        k <= v.len(),
    ensures
        r == scan(v@, k as int, space),
        k <= r <= v.len(),
{
    let mut i: usize = k;
    while i < v.len() && char_is_whitespace(v[i]) != space
        invariant
            k <= i <= v.len(),
            scan(v@, k as int, space) == scan(v@, i as int, space),
        decreases v.len() - i,
    {
        i += 1;
    }
    i
}

/// The words of `s` from index `i` on, behind those already read. Words are
/// the longest runs of characters that are not whitespace.
pub open spec fn words_from(s: Seq<char>, i: int, read: Seq<Seq<char>>) -> Seq<Seq<char>>
    decreases s.len() - i,
{
    if i < 0 || i > s.len() {
        read
    } else {
        let start = scan(s, i, false);
        if start >= s.len() {
            read
        } else {
            let end = scan(s, start + 1, true);
            proof {
                lemma_scan(s, i, false);
                lemma_scan(s, start + 1, true);
            }
            words_from(s, end, read.push(s.subrange(start, end)))
        }
    }
}

/// The words of a text.
pub open spec fn words(s: Seq<char>) -> Seq<Seq<char>> {
    words_from(s, 0, Seq::empty())
}

/// Splits a text into its words.
pub fn split_words(text: &str) -> (r: Vec<String>)
    ensures
        texts(r@) == words(text@),
{
    let v = to_chars(text);
    let mut out: Vec<String> = Vec::new();
    let mut i: usize = 0;
    proof {
        assert(texts(out@) =~= Seq::<Seq<char>>::empty());
    }
    loop
        invariant
            i <= v.len(),
            v@ == text@,
            words(text@) == words_from(v@, i as int, texts(out@)),
        decreases v.len() - i,
    {
        let start = scan_from(&v, i, false);
        if start >= v.len() {
            return out;
        }
        let end = scan_from(&v, start + 1, true);
        let ghost before = out@;
        out.push(from_chars(&v, start, end));
        proof {
            assert(texts(out@) =~= texts(before).push(v@.subrange(start as int, end as int)));
        }
        i = end;
    }
}

} // verus!
