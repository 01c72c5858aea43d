//! Character-level text helpers: conversion between strings and character
//! vectors, and splitting on a separator.

use vstd::prelude::*;

verus! {

/// Relies on `str::chars` (collected into a `Vec`): the characters of the string, in order.
#[verifier::external_body]
pub(crate) fn chars_of(s: &str) -> (r: Vec<char>)
    ensures
        r@ == s@,
{
    s.chars().collect()
}

/// Relies on `String: FromIterator<char>`: the string made of the given characters.
#[verifier::external_body]
pub(crate) fn string_of(cs: &[char]) -> (r: String)
    ensures
        r@ == cs@,
{
    cs.iter().collect()
}

/// `sep` occurs in `s` at position `i`.
pub open spec fn occurs_at(s: Seq<char>, sep: Seq<char>, i: int) -> bool {
    0 <= i && i + sep.len() <= s.len() && s.subrange(i, i + sep.len()) == sep
}

/// The pieces of `s` from `start` on, where the current piece began at `start`
/// and the search for the next separator stands at `i`. Occurrences are taken
/// from left to right and do not overlap; an empty separator never matches.
pub open spec fn pieces_from(s: Seq<char>, sep: Seq<char>, start: int, i: int) -> Seq<Seq<char>>
    decreases s.len() - i,
{
    if sep.len() == 0 || i < 0 || i + sep.len() > s.len() {
        seq![s.subrange(start, s.len() as int)]
    } else if occurs_at(s, sep, i) {
        seq![s.subrange(start, i)] + pieces_from(s, sep, i + sep.len(), i + sep.len())
    } else {
        pieces_from(s, sep, start, i + 1)
    }
}

/// The pieces of `s` between the occurrences of `sep` (as `str::split` gives them).
pub open spec fn pieces(s: Seq<char>, sep: Seq<char>) -> Seq<Seq<char>> {
    pieces_from(s, sep, 0, 0)
}

/// Whether `sep` occurs in `s` at position `i`.
fn occurs_at_exec(s: &Vec<char>, sep: &Vec<char>, i: usize) -> (r: bool)
    requires
        i + sep@.len() <= s@.len(),
    ensures
        r == occurs_at(s@, sep@, i as int),
{
    let n: usize = s.len();
    let mut k: usize = 0;
    while k < sep.len()
        invariant
            0 <= k <= sep@.len(),
            n == s@.len(),
            i + sep@.len() <= s@.len(),
            forall|j: int| 0 <= j < k ==> s@[i + j] == sep@[j],
        decreases sep@.len() - k,
    {
        if s[i + k] != sep[k] {
            assert(s@.subrange(i as int, i + sep@.len())[k as int] != sep@[k as int]);
            return false;
        }
        k = k + 1;
    }
    assert(s@.subrange(i as int, i + sep@.len()) =~= sep@);
    true
}

/// The characters of `s` from `a` to `b`.
fn slice_chars(s: &Vec<char>, a: usize, b: usize) -> (r: Vec<char>)
    requires
        a <= b <= s@.len(),
    ensures
        r@ == s@.subrange(a as int, b as int),
{
    let mut r: Vec<char> = Vec::new();
    let mut k: usize = a;
    while k < b
        invariant
            a <= k <= b <= s@.len(),
            r@ == s@.subrange(a as int, k as int),
        decreases b - k,
    {
        r.push(s[k]);
        assert(r@ =~= s@.subrange(a as int, k + 1));
        k = k + 1;
    }
    r
}

/// Splits `s` at every occurrence of `sep`, left to right.
pub fn split_chars(s: &Vec<char>, sep: &Vec<char>) -> (r: Vec<Vec<char>>)
    ensures
        r@.map_values(|p: Vec<char>| p@) == pieces(s@, sep@),
{
    let mut out: Vec<Vec<char>> = Vec::new();
    let mut start: usize = 0;
    let mut i: usize = 0;
    if sep.len() == 0 {
        let whole = slice_chars(s, 0, s.len());
        out.push(whole);
        assert(out@.map_values(|p: Vec<char>| p@) =~= pieces(s@, sep@));
        return out;
    }
    while sep.len() <= s.len() - i
        invariant
            sep@.len() > 0,
            start <= i <= s@.len(),
            pieces(s@, sep@) == out@.map_values(|p: Vec<char>| p@) + pieces_from(s@, sep@, start as int, i as int),
        decreases s@.len() - i,
    {
        if occurs_at_exec(s, sep, i) {
            let piece = slice_chars(s, start, i);
            let ghost before = out@.map_values(|p: Vec<char>| p@);
            out.push(piece);
            assert(out@.map_values(|p: Vec<char>| p@) =~= before + seq![piece@]);
            i = i + sep.len();
            start = i;
        } else {
            i = i + 1;
        }
    }
    let last = slice_chars(s, start, s.len());
    let ghost before = out@.map_values(|p: Vec<char>| p@);
    out.push(last);
    assert(out@.map_values(|p: Vec<char>| p@) =~= before + seq![last@]);
    out
}

} // verus!

verus! {

/// The records of a batch: its pieces between separators, without the empty
/// piece that a batch ending in a separator leaves last.
pub open spec fn records_of(batch: Seq<char>, sep: Seq<char>) -> Seq<Seq<char>> {
    let p = pieces(batch, sep);
    if p.len() > 0 && p.last().len() == 0 {
        p.drop_last()
    } else {
        p
    }
}

/// Splits a batch of records at each separator, dropping a trailing empty piece.
pub fn split_batch(batch: &str, sep: &str) -> (r: Vec<String>)
    ensures
        r@.map_values(|s: String| s@) == records_of(batch@, sep@),
{
    let cs = chars_of(batch);
    let sc = chars_of(sep);
    let parts = split_chars(&cs, &sc);
    let ghost ps = parts@.map_values(|p: Vec<char>| p@);
    let mut n: usize = parts.len();
    if n > 0 && parts[n - 1].len() == 0 {
        n = n - 1;
    }
    assert(ps.subrange(0, n as int) =~= records_of(batch@, sep@));
    let mut out: Vec<String> = Vec::new();
    let mut i: usize = 0;
    while i < n
        invariant
            i <= n <= parts@.len(),
            ps == parts@.map_values(|p: Vec<char>| p@),
            out@.map_values(|s: String| s@) =~= ps.subrange(0, i as int),
        decreases n - i,
    {
        let s = string_of(parts[i].as_slice());
        assert(ps[i as int] == parts@[i as int]@);
        let ghost before = out@;
        out.push(s);
        assert(out@.map_values(|s: String| s@) =~= before.map_values(|s: String| s@).push(s@));
        assert(out@.map_values(|s: String| s@) =~= ps.subrange(0, i + 1));
        i = i + 1;
    }
    out
}

} // verus!
