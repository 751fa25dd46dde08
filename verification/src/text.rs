//! Text helpers shared by the other modules: conversion between strings and
//! character vectors, and literal substring replacement.

use vstd::prelude::*;
use vstd::string::*;

verus! {

/// `String::push` appends one character to the end of the string.
pub assume_specification[ String::push ](s: &mut String, c: char)
    ensures
        final(s)@ == old(s)@.push(c),
;

/// The characters of `s`, in order.
pub fn chars_of(s: &str) -> (v: Vec<char>)
    ensures
        v@ == s@,
{
    let mut v: Vec<char> = Vec::new();
    for c in it: s.chars()
        invariant
            v@ == it.seq().take(it.index() as int),
    {
        v.push(c);
    }
    v
}

/// The string made of the characters `v[from..to]`.
pub fn string_of(v: &Vec<char>, from: usize, to: usize) -> (s: String)
    requires
        from <= to <= v.len(),
    ensures
        s@ == v@.subrange(from as int, to as int),
{
    let mut s = String::new();
    let mut i: usize = from;
    while i < to
        invariant
            from <= i <= to <= v.len(),
            s@ == v@.subrange(from as int, i as int),
        decreases to - i,
    {
        s.push(v[i]);
        i += 1;
    }
    s
}

/// Whether `pattern` occurs in `text` at position `at`.
pub open spec fn occurs_at(text: Seq<char>, at: int, pattern: Seq<char>) -> bool {
    0 <= at && at + pattern.len() <= text.len() && text.subrange(at, at + pattern.len()) == pattern
}

/// `text` with every occurrence of `pattern` replaced by `with`, occurrences
/// taken from left to right and never overlapping. The empty pattern occurs
/// nowhere.
pub open spec fn replaced(text: Seq<char>, pattern: Seq<char>, with: Seq<char>) -> Seq<char>
    decreases text.len(),
{
    if pattern.len() == 0 || text.len() == 0 {
        text
    } else if occurs_at(text, 0, pattern) {
        with + replaced(text.skip(pattern.len() as int), pattern, with)
    } else {
        seq![text[0]] + replaced(text.skip(1), pattern, with)
    }
}

fn matches_at(text: &Vec<char>, at: usize, pattern: &Vec<char>) -> (r: bool)
    requires
        at <= text.len(),
    ensures
        r == occurs_at(text@, at as int, pattern@),
{
    if text.len() - at < pattern.len() {
        return false;
    }
    let mut k: usize = 0;
    while k < pattern.len()
        invariant
            k <= pattern.len(),
            at + pattern.len() <= text.len(),
            text@.subrange(at as int, at + k) == pattern@.take(k as int),
        decreases pattern.len() - k,
    {
        if text[at + k] != pattern[k] {
            proof {
                assert(text@.subrange(at as int, at + pattern.len())[k as int] != pattern@[k as int]);
            }
            return false;
        }
        proof {
            assert(text@.subrange(at as int, at + k + 1) == text@.subrange(at as int, at + k).push(
                text@[at + k],
            ));
            assert(pattern@.take(k + 1) == pattern@.take(k as int).push(pattern@[k as int]));
        }
        k += 1;
    }
    proof {
        assert(pattern@.take(pattern.len() as int) == pattern@);
    }
    true
}

/// Replaces every occurrence of `pattern` in `text` by `with`. The empty
/// pattern occurs nowhere.
pub fn replace_all(text: &str, pattern: &str, with: &str) -> (out: String)
    ensures
        out@ == replaced(text@, pattern@, with@),
{
    let t = chars_of(text);
    let p = chars_of(pattern);
    if p.len() == 0 {
        return text.to_owned();
    }
    let mut out = String::new();
    let mut i: usize = 0;
    proof {
        assert(t@.skip(0) == t@);
        assert(out@ + replaced(t@, p@, with@) == replaced(t@, p@, with@));
    }
    while i < t.len()
        invariant
            i <= t.len(),
            p@.len() > 0,
            p@ == pattern@,
            t@ == text@,
            out@ + replaced(t@.skip(i as int), p@, with@) == replaced(t@, p@, with@),
        decreases t.len() - i,
    {
        let ghost rest = t@.skip(i as int);
        if matches_at(&t, i, &p) {
            proof {
                assert(rest.subrange(0, p@.len() as int) == t@.subrange(i as int, i + p@.len()));
                assert(occurs_at(rest, 0, p@));
                assert(rest.skip(p@.len() as int) == t@.skip(i + p@.len()));
                assert(out@ + (with@ + replaced(rest.skip(p@.len() as int), p@, with@)) == (out@
                    + with@) + replaced(rest.skip(p@.len() as int), p@, with@));
            }
            out.append(with);
            i += p.len();
        } else {
            proof {
                if i + p@.len() <= t@.len() {
                    assert(rest.subrange(0, p@.len() as int) == t@.subrange(i as int, i + p@.len()));
                }
                assert(!occurs_at(rest, 0, p@));
                assert(rest.skip(1) == t@.skip(i + 1));
                assert(out@ + (seq![rest[0]] + replaced(rest.skip(1), p@, with@)) == out@.push(
                    t@[i as int],
                ) + replaced(rest.skip(1), p@, with@));
            }
            out.push(t[i]);
            i += 1;
        }
    }
    proof {
        assert(t@.skip(t.len() as int).len() == 0);
        assert(out@ + Seq::<char>::empty() == out@);
    }
    out
}

} // verus!
