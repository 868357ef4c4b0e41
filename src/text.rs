//! Character-level helpers: conversion between strings and character
//! vectors, splitting and joining on a delimiter, decimal numbers and
//! whitespace trimming.
use vstd::prelude::*;

verus! {

/// Relies on `String::push`: the character is appended at the end.
pub assume_specification[ std::string::String::push ](s: &mut std::string::String, ch: char)
    ensures
        final(s)@ == old(s)@.push(ch),
;

/// The characters of a string, in order.
pub fn chars_of(s: &str) -> (r: Vec<char>)
    ensures
        r@ == s@,
{
    let mut r: Vec<char> = Vec::new();
    for c in it: s.chars()
        invariant
            r@ == it.seq().take(it.index() as int),
    {
        r.push(c);
    }
    assert(r@ =~= s@);
    r
}

/// A new string holding `v[lo..hi]`.
pub fn string_of(v: &Vec<char>, lo: usize, hi: usize) -> (r: String)
    requires
        lo <= hi <= v@.len(),
    ensures
        r@ == v@.subrange(lo as int, hi as int),
{
    let mut r = String::new();
    let mut i = lo;
    while i < hi
        invariant
            lo <= i <= hi <= v@.len(),
            r@ == v@.subrange(lo as int, i as int),
        decreases hi - i,
    {
        r.push(v[i]);
        i += 1;
        assert(r@ =~= v@.subrange(lo as int, i as int));
    }
    r
}


/// The views of a sequence of strings.
pub open spec fn views(v: Seq<String>) -> Seq<Seq<char>> {
    v.map_values(|x: String| x@)
}

/// `s` cut at every occurrence of `d`; an empty `s` gives one empty piece.
pub open spec fn split(s: Seq<char>, d: char) -> Seq<Seq<char>>
    decreases s.len(),
{
    if s.len() == 0 {
        seq![Seq::empty()]
    } else {
        let rest = split(s.drop_last(), d);
        if s.last() == d {
            rest.push(Seq::empty())
        } else {
            rest.update(rest.len() - 1, rest.last().push(s.last()))
        }
    }
}

/// The pieces of `parts`, with `d` between each two of them.
pub open spec fn join(parts: Seq<Seq<char>>, d: char) -> Seq<char>
    decreases parts.len(),
{
    if parts.len() == 0 {
        Seq::empty()
    } else if parts.len() == 1 {
        parts[0]
    } else {
        join(parts.drop_last(), d).push(d) + parts.last()
    }
}

pub proof fn lemma_split_len(s: Seq<char>, d: char)
    ensures
        split(s, d).len() >= 1,
    decreases s.len(),
{
    if s.len() > 0 {
        lemma_split_len(s.drop_last(), d);
    }
}

/// Splitting `t + y` where `y` holds no `d` extends the last piece of `t`.
pub proof fn lemma_split_append(t: Seq<char>, y: Seq<char>, d: char)
    requires
        !y.contains(d),
    ensures
        split(t + y, d) == split(t, d).update(
            split(t, d).len() - 1,
            split(t, d).last() + y,
        ),
    decreases y.len(),
{
    lemma_split_len(t, d);
    if y.len() == 0 {
        assert(t + y =~= t);
        assert(split(t, d).last() + y =~= split(t, d).last());
        assert(split(t, d).update(split(t, d).len() - 1, split(t, d).last()) =~= split(t, d));
    } else {
        let y0 = y.drop_last();
        assert(!y0.contains(d)) by {
            if y0.contains(d) {
                let i = choose|i: int| 0 <= i < y0.len() && y0[i] == d;
                assert(y[i] == d);
            }
        }
        lemma_split_append(t, y0, d);
        assert((t + y).drop_last() =~= t + y0);
        assert(y.last() != d) by {
            assert(y[y.len() - 1] == y.last());
        }
        assert(split(t, d).last() + y0 + seq![y.last()] =~= split(t, d).last() + y);
        lemma_split_len(t + y0, d);
        let r0 = split(t + y0, d);
        assert(r0.len() == split(t, d).len());
        assert(r0.last() == split(t, d).last() + y0);
        assert(split(t + y, d) == r0.update(r0.len() - 1, r0.last().push(y.last())));
        assert(r0.last().push(y.last()) =~= split(t, d).last() + y);
        assert(split(t + y, d) =~= split(t, d).update(
            split(t, d).len() - 1,
            split(t, d).last() + y,
        ));
    }
}

/// Splitting a join of pieces that hold no `d` gives the pieces back.
pub proof fn lemma_split_join(parts: Seq<Seq<char>>, d: char)
    requires
        parts.len() >= 1,
        forall|i: int| 0 <= i < parts.len() ==> !(#[trigger] parts[i]).contains(d),
    ensures
        split(join(parts, d), d) == parts,
    decreases parts.len(),
{
    if parts.len() == 1 {
        lemma_split_append(Seq::empty(), parts[0], d);
        assert(Seq::<char>::empty() + parts[0] =~= parts[0]);
        assert(split(Seq::<char>::empty(), d).last() + parts[0] =~= parts[0]);
        assert(split(join(parts, d), d) =~= parts);
    } else {
        let init = parts.drop_last();
        assert forall|i: int| 0 <= i < init.len() implies !(#[trigger] init[i]).contains(d) by {
            assert(init[i] == parts[i]);
        }
        lemma_split_join(init, d);
        let j = join(init, d).push(d);
        assert(j.drop_last() =~= join(init, d));
        assert(!parts[parts.len() - 1].contains(d));
        lemma_split_append(j, parts.last(), d);
        lemma_split_len(j, d);
        assert(split(j, d) =~= init.push(Seq::empty()));
        assert(Seq::<char>::empty() + parts.last() =~= parts.last());
        assert(split(join(parts, d), d) =~= parts);
    }
}

/// The pieces of `v[lo..hi]` cut at every `d`.
pub fn split_range(v: &Vec<char>, lo: usize, hi: usize, d: char) -> (r: Vec<String>)
    requires
        lo <= hi <= v@.len(),
    ensures
        views(r@) == split(v@.subrange(lo as int, hi as int), d),
{
    let mut pieces: Vec<String> = Vec::new();
    let mut start = lo;
    let mut i = lo;
    assert(v@.subrange(lo as int, lo as int) =~= Seq::<char>::empty());
    assert(views(pieces@).push(v@.subrange(lo as int, lo as int)) =~= seq![Seq::<char>::empty()]);
    while i < hi
        invariant
            lo <= start <= i <= hi <= v@.len(),
            views(pieces@).push(v@.subrange(start as int, i as int)) == split(
                v@.subrange(lo as int, i as int),
                d,
            ),
        decreases hi - i,
    {
        let ghost before = v@.subrange(lo as int, i as int);
        let ghost after = v@.subrange(lo as int, i + 1);
        assert(after.drop_last() =~= before);
        assert(after.last() == v@[i as int]);
        let ghost old_views = views(pieces@);
        if v[i] == d {
            let piece = string_of(v, start, i);
            pieces.push(piece);
            assert(views(pieces@) =~= old_views.push(v@.subrange(start as int, i as int)));
            assert(split(after, d) == split(before, d).push(Seq::empty()));
            assert(v@.subrange(i + 1, i + 1) =~= Seq::<char>::empty());
            start = i + 1;
            assert(views(pieces@).push(v@.subrange(start as int, i + 1)) =~= split(after, d));
        } else {
            proof {
                lemma_split_len(before, d);
            }
            let ghost sb = split(before, d);
            assert(split(after, d) == sb.update(sb.len() - 1, sb.last().push(v@[i as int])));
            assert(sb.last() == v@.subrange(start as int, i as int));
            assert(v@.subrange(start as int, i as int).push(v@[i as int]) =~= v@.subrange(
                start as int,
                i + 1,
            ));
            assert(views(pieces@).push(v@.subrange(start as int, i + 1)) =~= split(after, d));
        }
        i += 1;
    }
    let ghost old_views = views(pieces@);
    let piece = string_of(v, start, hi);
    pieces.push(piece);
    assert(views(pieces@) =~= old_views.push(v@.subrange(start as int, hi as int)));
    assert(views(pieces@) =~= split(v@.subrange(lo as int, hi as int), d));
    pieces
}

/// The strings of `parts`, with `d` between each two of them.
pub fn join_strings(parts: &Vec<String>, d: char) -> (r: String)
    ensures
        r@ == join(views(parts@), d),
{
    let mut r = String::new();
    let mut i: usize = 0;
    while i < parts.len()
        invariant
            i <= parts@.len(),
            r@ == join(views(parts@).take(i as int), d),
        decreases parts@.len() - i,
    {
        let ghost before = views(parts@).take(i as int);
        let ghost after = views(parts@).take(i + 1);
        assert(after.drop_last() =~= before);
        if i > 0 {
            r.push(d);
        }
        r.append(parts[i].as_str());
        i += 1;
        assert(r@ =~= join(after, d));
    }
    assert(views(parts@).take(i as int) =~= views(parts@));
    r
}

/// The character of decimal digit `n`.
pub open spec fn digit(n: nat) -> char {
    (n + 48) as char
}

pub open spec fn is_digit(c: char) -> bool {
    '0' <= c && c <= '9'
}

/// The decimal notation of `n`, with no leading zero.
pub open spec fn decimal(n: nat) -> Seq<char>
    decreases n,
{
    if n < 10 {
        seq![digit(n)]
    } else {
        decimal(n / 10).push(digit(n % 10))
    }
}

pub open spec fn all_digits(s: Seq<char>) -> bool {
    forall|i: int| 0 <= i < s.len() ==> is_digit(#[trigger] s[i])
}

/// The number that a string of decimal digits denotes.
pub open spec fn digits_value(s: Seq<char>) -> nat
    decreases s.len(),
{
    if s.len() == 0 {
        0
    } else {
        digits_value(s.drop_last()) * 10 + (s.last() as int - 48) as nat
    }
}

/// What reading an unsigned integer of at most `max` from `s` gives: an
/// optional `+` and then one or more decimal digits.
pub open spec fn unsigned_of(s: Seq<char>, max: nat) -> Option<nat> {
    let d = if s.len() > 0 && s[0] == '+' {
        s.drop_first()
    } else {
        s
    };
    if d.len() > 0 && all_digits(d) && digits_value(d) <= max {
        Some(digits_value(d))
    } else {
        None
    }
}

proof fn lemma_digits_value_prefix(s: Seq<char>, k: int)
    requires
        0 <= k <= s.len(),
        all_digits(s),
    ensures
        digits_value(s.take(k)) <= digits_value(s),
    decreases s.len() - k,
{
    if k < s.len() {
        lemma_digits_value_prefix(s, k + 1);
        assert(s.take(k + 1).drop_last() =~= s.take(k));
        assert(s.take(k + 1).last() == s[k]);
        assert(is_digit(s[k]));
    } else {
        assert(s.take(k) =~= s);
    }
}

/// Decimal notation reads back as the number it was written from.
pub proof fn lemma_decimal_round_trip(n: nat, max: nat)
    requires
        n <= max,
    ensures
        decimal(n).len() > 0,
        all_digits(decimal(n)),
        decimal(n)[0] != '+',
        digits_value(decimal(n)) == n,
        unsigned_of(decimal(n), max) == Some(n),
    decreases n,
{
    if n < 10 {
        let s = decimal(n);
        assert(s.drop_last() =~= Seq::<char>::empty());
        assert(s.last() == digit(n));
        assert(digit(n) as int == n + 48);
        assert(digits_value(s.drop_last()) == 0);
        assert(digits_value(s) == n);
    } else {
        lemma_decimal_round_trip(n / 10, max);
        assert(n == (n / 10) * 10 + n % 10) by (nonlinear_arith);
        assert(digit(n % 10) as int == n % 10 + 48);
        let s = decimal(n);
        assert(s.last() == digit(n % 10));
        assert(s.drop_last() =~= decimal(n / 10));
        assert(digits_value(s) == digits_value(decimal(n / 10)) * 10 + (n % 10));
        let s = decimal(n);
        assert(s.drop_last() =~= decimal(n / 10));
        assert forall|i: int| 0 <= i < s.len() implies is_digit(#[trigger] s[i]) by {
            if i < s.len() - 1 {
                assert(s[i] == decimal(n / 10)[i]);
            }
        }
        assert(s[0] == decimal(n / 10)[0]);
    }
}

/// The character of a digit below ten.
fn digit_char(n: u64) -> (c: char)
    requires
        n < 10,
    ensures
        c == digit(n as nat),
        is_digit(c),
{
    let b: u8 = n as u8 + 48;
    b as char
}

/// The decimal notation of `n`.
pub fn decimal_string(n: u64) -> (r: String)
    ensures
        r@ == decimal(n as nat),
    decreases n,
{
    if n < 10 {
        let mut r = String::new();
        r.push(digit_char(n));
        assert(r@ =~= decimal(n as nat));
        r
    } else {
        let mut r = decimal_string(n / 10);
        r.push(digit_char(n % 10));
        r
    }
}

/// Reads an unsigned integer of at most `max` from `v[lo..hi]`: an optional
/// `+` and then one or more decimal digits.
pub fn parse_unsigned(v: &Vec<char>, lo: usize, hi: usize, max: u64) -> (r: Option<u64>)
    requires
        lo <= hi <= v@.len(),
    ensures
        unsigned_of(v@.subrange(lo as int, hi as int), max as nat) == match r {
            Some(n) => Some(n as nat),
            None => None::<nat>,
        },
{
    let ghost s = v@.subrange(lo as int, hi as int);
    let mut start = lo;
    if lo < hi && v[lo] == '+' {
        start = lo + 1;
    }
    let ghost d = v@.subrange(start as int, hi as int);
    assert(d =~= (if s.len() > 0 && s[0] == '+' {
        s.drop_first()
    } else {
        s
    }));
    if start == hi {
        return None;
    }
    let mut acc: u128 = 0;
    let mut i = start;
    while i < hi
        invariant
            lo <= start <= i <= hi <= v@.len(),
            d == v@.subrange(start as int, hi as int),
            s == v@.subrange(lo as int, hi as int),
            d == (if s.len() > 0 && s[0] == '+' {
                s.drop_first()
            } else {
                s
            }),
            all_digits(v@.subrange(start as int, i as int)),
            acc as nat == digits_value(v@.subrange(start as int, i as int)),
            acc <= max,
        decreases hi - i,
    {
        let c = v[i];
        let ghost pre = v@.subrange(start as int, i as int);
        let ghost pre2 = v@.subrange(start as int, i + 1);
        assert(pre2.drop_last() =~= pre);
        assert(pre2.last() == c);
        if !('0' <= c && c <= '9') {
            assert(d[i - start] == c);
            assert(!is_digit(d[i - start]));
            assert(!all_digits(d));
            return None;
        }
        let dv = (c as u32 - 48) as u128;
        acc = acc * 10 + dv;
        assert(all_digits(pre2)) by {
            assert forall|j: int| 0 <= j < pre2.len() implies is_digit(#[trigger] pre2[j]) by {
                if j < pre.len() {
                    assert(pre2[j] == pre[j]);
                }
            }
        }
        if acc > max as u128 {
            proof {
                if all_digits(d) {
                    assert(d.take(i + 1 - start) =~= pre2);
                    lemma_digits_value_prefix(d, i + 1 - start);
                }
            }
            return None;
        }
        i += 1;
    }
    assert(v@.subrange(start as int, i as int) =~= d);
    Some(acc as u64)
}

/// Unicode white space, the characters that `char::is_whitespace` accepts.
pub open spec fn is_space(c: char) -> bool {
    c == ' ' || ('\t' <= c && c <= '\r') || c == '\u{85}' || c == '\u{a0}' || c == '\u{1680}'
        || ('\u{2000}' <= c && c <= '\u{200a}') || c == '\u{2028}' || c == '\u{2029}'
        || c == '\u{202f}' || c == '\u{205f}' || c == '\u{3000}'
}

fn is_space_char(c: char) -> (b: bool)
    ensures
        b == is_space(c),
{
    c == ' ' || ('\t' <= c && c <= '\r') || c == '\u{85}' || c == '\u{a0}' || c == '\u{1680}'
        || ('\u{2000}' <= c && c <= '\u{200a}') || c == '\u{2028}' || c == '\u{2029}'
        || c == '\u{202f}' || c == '\u{205f}' || c == '\u{3000}'
}

/// `s` without white space at its start.
pub open spec fn trim_start(s: Seq<char>) -> Seq<char>
    decreases s.len(),
{
    if s.len() > 0 && is_space(s[0]) {
        trim_start(s.drop_first())
    } else {
        s
    }
}

/// `s` without white space at its end.
pub open spec fn trim_end(s: Seq<char>) -> Seq<char>
    decreases s.len(),
{
    if s.len() > 0 && is_space(s.last()) {
        trim_end(s.drop_last())
    } else {
        s
    }
}

/// `s` without white space at either end.
pub open spec fn trim(s: Seq<char>) -> Seq<char> {
    trim_end(trim_start(s))
}

/// The bounds of `v[lo..hi]` with white space removed at both ends.
pub fn trim_range(v: &Vec<char>, lo: usize, hi: usize) -> (r: (usize, usize))
    requires
        lo <= hi <= v@.len(),
    ensures
        lo <= r.0 <= r.1 <= hi,
        v@.subrange(r.0 as int, r.1 as int) == trim(v@.subrange(lo as int, hi as int)),
{
    let mut a = lo;
    while a < hi && is_space_char(v[a])
        invariant
            lo <= a <= hi <= v@.len(),
            trim_start(v@.subrange(lo as int, hi as int)) == trim_start(
                v@.subrange(a as int, hi as int),
            ),
        decreases hi - a,
    {
        assert(v@.subrange(a as int, hi as int).drop_first() =~= v@.subrange(a + 1, hi as int));
        a += 1;
    }
    let mut b = hi;
    while b > a && is_space_char(v[b - 1])
        invariant
            lo <= a <= b <= hi <= v@.len(),
            trim(v@.subrange(lo as int, hi as int)) == trim_end(v@.subrange(a as int, b as int)),
        decreases b - a,
    {
        assert(v@.subrange(a as int, b as int).drop_last() =~= v@.subrange(a as int, b - 1));
        b -= 1;
    }
    (a, b)
}

/// Whether `v[lo..hi]` starts with `p`.
pub fn has_prefix(v: &Vec<char>, lo: usize, hi: usize, p: &Vec<char>) -> (b: bool)
    requires
        lo <= hi <= v@.len(),
    ensures
        b == (p@.len() <= hi - lo && v@.subrange(lo as int, lo + p@.len()) == p@),
{
    if p.len() > hi - lo {
        return false;
    }
    let mut i: usize = 0;
    while i < p.len()
        invariant
            i <= p@.len() <= hi - lo,
            lo <= hi <= v@.len(),
            v@.subrange(lo as int, lo + i) == p@.take(i as int),
        decreases p@.len() - i,
    {
        if v[lo + i] != p[i] {
            assert(v@.subrange(lo as int, lo + p@.len())[i as int] == v@[lo + i]);
            return false;
        }
        i += 1;
        assert(v@.subrange(lo as int, lo + i) =~= p@.take(i as int));
    }
    assert(p@.take(i as int) =~= p@);
    true
}

/// Whether `v[lo..hi]` is exactly `p`.
pub fn range_equals(v: &Vec<char>, lo: usize, hi: usize, p: &Vec<char>) -> (b: bool)
    requires
        lo <= hi <= v@.len(),
    ensures
        b == (v@.subrange(lo as int, hi as int) == p@),
{
    if p.len() != hi - lo {
        return false;
    }
    let b = has_prefix(v, lo, hi, p);
    b
}

} // verus!
