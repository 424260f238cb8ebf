//! Character-level helpers shared by the rest of the library: conversion
//! between `str`/`String` and `Vec<char>`, whitespace and character trimming,
//! substring search, and decimal formatting.
use vstd::prelude::*;

verus! {

// ---------------------------------------------------------------------------
// Character classes
// ---------------------------------------------------------------------------

/// The Unicode `White_Space` property, which is what `char::is_whitespace`
/// and `str::trim` use.
pub open spec fn is_ws(c: char) -> bool {
    ||| ('\u{9}' <= c && c <= '\u{d}')
    ||| c == ' '
    ||| c == '\u{85}'
    ||| c == '\u{a0}'
    ||| c == '\u{1680}'
    ||| ('\u{2000}' <= c && c <= '\u{200a}')
    ||| c == '\u{2028}'
    ||| c == '\u{2029}'
    ||| c == '\u{202f}'
    ||| c == '\u{205f}'
    ||| c == '\u{3000}'
}

/// Executable whitespace test, equal to `is_ws`.
pub fn is_whitespace(c: char) -> (r: bool)
    ensures
        r == is_ws(c),
{
    ('\u{9}' <= c && c <= '\u{d}') || c == ' ' || c == '\u{85}' || c == '\u{a0}' || c
        == '\u{1680}' || ('\u{2000}' <= c && c <= '\u{200a}') || c == '\u{2028}' || c
        == '\u{2029}' || c == '\u{202f}' || c == '\u{205f}' || c == '\u{3000}'
}

/// A set of characters that a trim operation removes.
#[derive(Clone, Copy)]
pub enum CharClass {
    /// Unicode whitespace.
    Space,
    /// Exactly the given character.
    Exactly(char),
}

pub open spec fn in_class(cls: CharClass, c: char) -> bool {
    match cls {
        CharClass::Space => is_ws(c),
        CharClass::Exactly(x) => c == x,
    }
}

pub fn class_contains(cls: CharClass, c: char) -> (r: bool)
    ensures
        r == in_class(cls, c),
{
    match cls {
        CharClass::Space => is_whitespace(c),
        CharClass::Exactly(x) => c == x,
    }
}

// ---------------------------------------------------------------------------
// Trimming
// ---------------------------------------------------------------------------

/// `s` without its longest prefix of characters in `cls`.
pub open spec fn trim_start_by(s: Seq<char>, cls: CharClass) -> Seq<char>
    decreases s.len(),
{
    if s.len() > 0 && in_class(cls, s[0]) {
        trim_start_by(s.drop_first(), cls)
    } else {
        s
    }
}

/// `s` without its longest suffix of characters in `cls`.
pub open spec fn trim_end_by(s: Seq<char>, cls: CharClass) -> Seq<char>
    decreases s.len(),
{
    if s.len() > 0 && in_class(cls, s.last()) {
        trim_end_by(s.drop_last(), cls)
    } else {
        s
    }
}

/// Both ends trimmed of characters in `cls` (`str::trim_matches`).
pub open spec fn trim_by(s: Seq<char>, cls: CharClass) -> Seq<char> {
    trim_end_by(trim_start_by(s, cls), cls)
}

/// `str::trim`: leading and trailing Unicode whitespace removed.
pub open spec fn trim(s: Seq<char>) -> Seq<char> {
    trim_by(s, CharClass::Space)
}

/// Index of the first character in `v[lo..hi]` outside `cls` (or `hi`).
pub fn skip_front(v: &Vec<char>, lo: usize, hi: usize, cls: CharClass) -> (r: usize)
    requires
        lo <= hi <= v.len(),
    ensures
        lo <= r <= hi,
        v@.subrange(r as int, hi as int) == trim_start_by(v@.subrange(lo as int, hi as int), cls),
{
    let mut i = lo;
    while i < hi && class_contains(cls, v[i])
        invariant
            lo <= i <= hi <= v.len(),
            trim_start_by(v@.subrange(i as int, hi as int), cls) == trim_start_by(
                v@.subrange(lo as int, hi as int),
                cls,
            ),
        decreases hi - i,
    {
        assert(v@.subrange(i as int, hi as int).drop_first() =~= v@.subrange(
            i + 1,
            hi as int,
        ));
        i = i + 1;
    }
    if i < hi {
        assert(!in_class(cls, v@.subrange(i as int, hi as int)[0]));
    }
    i
}

/// End (exclusive) of `v[lo..hi]` once trailing characters in `cls` are removed.
pub fn skip_back(v: &Vec<char>, lo: usize, hi: usize, cls: CharClass) -> (r: usize)
    requires
        lo <= hi <= v.len(),
    ensures
        lo <= r <= hi,
        v@.subrange(lo as int, r as int) == trim_end_by(v@.subrange(lo as int, hi as int), cls),
{
    let mut j = hi;
    while j > lo && class_contains(cls, v[j - 1])
        invariant
            lo <= j <= hi <= v.len(),
            trim_end_by(v@.subrange(lo as int, j as int), cls) == trim_end_by(
                v@.subrange(lo as int, hi as int),
                cls,
            ),
        decreases j - lo,
    {
        assert(v@.subrange(lo as int, j as int).drop_last() =~= v@.subrange(
            lo as int,
            j - 1,
        ));
        j = j - 1;
    }
    if j > lo {
        assert(!in_class(cls, v@.subrange(lo as int, j as int).last()));
    }
    j
}

/// Bounds of `v[lo..hi]` trimmed at both ends of characters in `cls`.
pub fn trim_bounds(v: &Vec<char>, lo: usize, hi: usize, cls: CharClass) -> (r: (usize, usize))
    requires
        lo <= hi <= v.len(),
    ensures
        lo <= r.0 <= r.1 <= hi,
        v@.subrange(r.0 as int, r.1 as int) == trim_by(v@.subrange(lo as int, hi as int), cls),
{
    let a = skip_front(v, lo, hi, cls);
    let b = skip_back(v, a, hi, cls);
    (a, b)
}


proof fn lemma_trim_start_result(s: Seq<char>, cls: CharClass)
    ensures
        trim_start_by(s, cls).len() == 0 || !in_class(cls, trim_start_by(s, cls)[0]),
    decreases s.len(),
{
    if s.len() > 0 && in_class(cls, s[0]) {
        lemma_trim_start_result(s.drop_first(), cls);
    }
}

proof fn lemma_trim_end_result(s: Seq<char>, cls: CharClass)
    ensures
        trim_end_by(s, cls).len() == 0 || !in_class(cls, trim_end_by(s, cls).last()),
        trim_end_by(s, cls).len() <= s.len(),
        trim_end_by(s, cls) == s.take(trim_end_by(s, cls).len() as int),
    decreases s.len(),
{
    if s.len() > 0 && in_class(cls, s.last()) {
        lemma_trim_end_result(s.drop_last(), cls);
        let r = trim_end_by(s.drop_last(), cls);
        assert(s.drop_last().take(r.len() as int) =~= s.take(r.len() as int));
    } else {
        assert(s.take(s.len() as int) =~= s);
    }
}

/// Trimming a trimmed text changes nothing.
pub proof fn lemma_trim_idempotent(s: Seq<char>, cls: CharClass)
    ensures
        trim_by(trim_by(s, cls), cls) == trim_by(s, cls),
{
    let a = trim_start_by(s, cls);
    let y = trim_end_by(a, cls);
    lemma_trim_start_result(s, cls);
    lemma_trim_end_result(a, cls);
    if y.len() > 0 {
        assert(y[0] == a[0]);
    }
    assert(trim_start_by(y, cls) == y);
    assert(trim_end_by(y, cls) == y);
}

/// Trimming the front removes a prefix of characters in `cls` and stops at
/// the first character outside it.
pub proof fn lemma_trim_start_shape(s: Seq<char>, cls: CharClass) -> (k: int)
    ensures
        0 <= k <= s.len(),
        trim_start_by(s, cls) == s.subrange(k, s.len() as int),
        forall|j: int| 0 <= j < k ==> in_class(cls, s[j]),
        k == s.len() || !in_class(cls, s[k]),
    decreases s.len(),
{
    if s.len() > 0 && in_class(cls, s[0]) {
        let k1 = lemma_trim_start_shape(s.drop_first(), cls);
        assert(s.drop_first().subrange(k1, s.len() - 1) =~= s.subrange(k1 + 1, s.len() as int));
        assert forall|j: int| 0 <= j < k1 + 1 implies in_class(cls, s[j]) by {
            if j > 0 {
                assert(s[j] == s.drop_first()[j - 1]);
            }
        }
        k1 + 1
    } else {
        assert(s.subrange(0, s.len() as int) =~= s);
        0
    }
}

/// Trimming the back removes a suffix of characters in `cls` and stops at
/// the last character outside it.
pub proof fn lemma_trim_end_shape(s: Seq<char>, cls: CharClass) -> (k: int)
    ensures
        0 <= k <= s.len(),
        trim_end_by(s, cls) == s.subrange(0, k),
        forall|j: int| k <= j < s.len() ==> in_class(cls, s[j]),
        k == 0 || !in_class(cls, s[k - 1]),
    decreases s.len(),
{
    if s.len() > 0 && in_class(cls, s.last()) {
        let k1 = lemma_trim_end_shape(s.drop_last(), cls);
        assert(s.drop_last().subrange(0, k1) =~= s.subrange(0, k1));
        assert forall|j: int| k1 <= j < s.len() implies in_class(cls, s[j]) by {
            if j < s.len() - 1 {
                assert(s[j] == s.drop_last()[j]);
            }
        }
        k1
    } else {
        assert(s.subrange(0, s.len() as int) =~= s);
        s.len() as int
    }
}

/// A text whose ends are outside `cls` is unchanged by trimming.
pub proof fn lemma_trim_by_untouched(s: Seq<char>, cls: CharClass)
    requires
        s.len() == 0 || (!in_class(cls, s[0]) && !in_class(cls, s.last())),
    ensures
        trim_by(s, cls) == s,
{
    let k = lemma_trim_start_shape(s, cls);
    assert(k == 0);
    assert(s.subrange(0, s.len() as int) =~= s);
    let m = lemma_trim_end_shape(s, cls);
    if s.len() > 0 {
        assert(m == s.len());
    }
}

/// Trimming removes exactly the whitespace at both ends: what is left is a
/// stretch `s[a..b]` of `s` with only whitespace before and after it, and
/// it neither starts nor ends with whitespace.
pub proof fn law_trim_strips_outer_whitespace(s: Seq<char>) -> (r: (int, int))
    ensures
        0 <= r.0 <= r.1 <= s.len(),
        trim(s) == s.subrange(r.0, r.1),
        forall|k: int| 0 <= k < r.0 ==> is_ws(#[trigger] s[k]),
        forall|k: int| r.1 <= k < s.len() ==> is_ws(#[trigger] s[k]),
        r.0 < r.1 ==> !is_ws(s[r.0]) && !is_ws(s[r.1 - 1]),
{
    let a = lemma_trim_start_shape(s, CharClass::Space);
    let u = s.subrange(a, s.len() as int);
    let m = lemma_trim_end_shape(u, CharClass::Space);
    assert(u.subrange(0, m) =~= s.subrange(a, a + m));
    assert forall|k: int| a + m <= k < s.len() implies is_ws(#[trigger] s[k]) by {
        assert(s[k] == u[k - a]);
    }
    if m > 0 {
        assert(s[a + m - 1] == u[m - 1]);
    }
    (a, a + m)
}

// ---------------------------------------------------------------------------
// Conversions
// ---------------------------------------------------------------------------

/// The characters of `s`.
pub fn chars_of(s: &str) -> (v: Vec<char>)
    ensures
        v@ == s@,
{
    let mut v: Vec<char> = Vec::new();
    for c in it: s.chars()
        invariant
            v@ == it.seq().take(it.index()),
            it.seq() == s@,
    {
        v.push(c);
    }
    v
}

/// Appends one character to a `String` with `String::push`, which std
/// documents as appending the character to the end.
#[verifier::external_body]
pub(crate) fn push_char(s: &mut String, c: char)
    ensures
        final(s)@ == old(s)@.push(c),
{
    s.push(c);
}

/// A `String` holding `v[lo..hi]`.
pub fn string_from_range(v: &Vec<char>, lo: usize, hi: usize) -> (s: String)
    requires
        lo <= hi <= v.len(),
    ensures
        s@ == v@.subrange(lo as int, hi as int),
{
    let mut s = String::new();
    let mut i = lo;
    while i < hi
        invariant
            lo <= i <= hi <= v.len(),
            s@ == v@.subrange(lo as int, i as int),
        decreases hi - i,
    {
        push_char(&mut s, v[i]);
        assert(v@.subrange(lo as int, i + 1) =~= v@.subrange(lo as int, i as int).push(v@[i as int]));
        i = i + 1;
    }
    s
}

/// A `String` holding all of `v`.
pub fn string_from_chars(v: &Vec<char>) -> (s: String)
    ensures
        s@ == v@,
{
    let s = string_from_range(v, 0, v.len());
    assert(v@.subrange(0, v@.len() as int) =~= v@);
    s
}

/// A fresh copy of `s`.
pub fn copy_str(s: &str) -> (r: String)
    ensures
        r@ == s@,
{
    let mut r = String::new();
    r.append(s);
    r
}

/// `str::trim`, as an owned `String`.
pub fn trimmed(s: &str) -> (r: String)
    ensures
        r@ == trim(s@),
{
    let v = chars_of(s);
    let (a, b) = trim_bounds(&v, 0, v.len(), CharClass::Space);
    assert(v@.subrange(0, v@.len() as int) =~= v@);
    string_from_range(&v, a, b)
}

// ---------------------------------------------------------------------------
// Searching
// ---------------------------------------------------------------------------

/// `needle` occurs in `s` starting at position `i`.
pub open spec fn occurs_at(s: Seq<char>, needle: Seq<char>, i: int) -> bool {
    0 <= i && i + needle.len() <= s.len() && s.subrange(i, i + needle.len()) == needle
}

/// `str::contains` with a string pattern.
pub open spec fn contains_seq(s: Seq<char>, needle: Seq<char>) -> bool {
    exists|i: int| occurs_at(s, needle, i)
}

/// `s` begins with `prefix`.
pub open spec fn has_prefix(s: Seq<char>, prefix: Seq<char>) -> bool {
    prefix.len() <= s.len() && s.subrange(0, prefix.len() as int) == prefix
}

/// Whether `needle` occurs at position `i` of `v`.
pub fn matches_at(v: &Vec<char>, needle: &Vec<char>, i: usize) -> (r: bool)
    requires
        i <= v.len(),
    ensures
        r == occurs_at(v@, needle@, i as int),
{
    if needle.len() > v.len() - i {
        return false;
    }
    let mut k: usize = 0;
    while k < needle.len()
        invariant
            i + needle.len() <= v.len(),
            k <= needle.len(),
            forall|j: int| 0 <= j < k ==> v@[i + j] == needle@[j],
        decreases needle.len() - k,
    {
        if v[i + k] != needle[k] {
            assert(v@.subrange(i as int, i + needle.len())[k as int] != needle@[k as int]);
            return false;
        }
        k = k + 1;
    }
    assert(v@.subrange(i as int, i + needle.len()) =~= needle@);
    true
}

/// Whether `needle` occurs anywhere in `v`.
pub fn contains_chars(v: &Vec<char>, needle: &Vec<char>) -> (r: bool)
    ensures
        r == contains_seq(v@, needle@),
{
    let mut i: usize = 0;
    while i < v.len()
        invariant
            i <= v.len(),
            forall|j: int| 0 <= j < i ==> !occurs_at(v@, needle@, j),
        decreases v.len() - i,
    {
        if matches_at(v, needle, i) {
            return true;
        }
        i = i + 1;
    }
    if matches_at(v, needle, v.len()) {
        return true;
    }
    assert forall|j: int| !occurs_at(v@, needle@, j) by {
        if 0 <= j && j + needle@.len() <= v@.len() {
            assert(j <= i);
        }
    }
    false
}

/// Whether `needle` occurs anywhere in `s` (`str::contains`).
pub fn str_contains(s: &str, needle: &str) -> (r: bool)
    ensures
        r == contains_seq(s@, needle@),
{
    let v = chars_of(s);
    let n = chars_of(needle);
    contains_chars(&v, &n)
}


/// Position of the first `c` in `s`, if any.
pub open spec fn first_index_of(s: Seq<char>, c: char) -> Option<int> {
    if exists|i: int| 0 <= i < s.len() && s[i] == c {
        Some(choose|i: int| 0 <= i < s.len() && s[i] == c && forall|j: int| 0 <= j < i ==> s[j] != c)
    } else {
        None
    }
}

/// The first `x` of `s` stands at `p` when `s[p]` is one and none comes before.
pub proof fn lemma_first_index_at(s: Seq<char>, x: char, p: int)
    requires
        0 <= p < s.len(),
        s[p] == x,
        forall|j: int| 0 <= j < p ==> s[j] != x,
    ensures
        first_index_of(s, x) == Some(p),
{
    let q = choose|i: int| 0 <= i < s.len() && s[i] == x && forall|j: int| 0 <= j < i ==> s[j] != x;
    assert(0 <= q < s.len() && s[q] == x && forall|j: int| 0 <= j < q ==> s[j] != x);
    if q < p {
        assert(s[q] != x);
    }
    if q > p {
        assert(s[p] != x);
    }
}

/// The first `c` in `v[lo..hi]`, as an index into `v`.
pub fn find_char(v: &Vec<char>, lo: usize, hi: usize, c: char) -> (r: Option<usize>)
    requires
        lo <= hi <= v.len(),
    ensures
        r matches Some(p) ==> lo <= p < hi && first_index_of(v@.subrange(lo as int, hi as int), c)
            == Some(p - lo),
        r is None ==> first_index_of(v@.subrange(lo as int, hi as int), c) is None,
{
    let ghost w = v@.subrange(lo as int, hi as int);
    let mut i = lo;
    while i < hi
        invariant
            lo <= i <= hi <= v.len(),
            w == v@.subrange(lo as int, hi as int),
            forall|j: int| 0 <= j < i - lo ==> w[j] != c,
        decreases hi - i,
    {
        if v[i] == c {
            proof {
                let k = (i - lo) as int;
                assert(w[k] == c);
                assert(exists|x: int| 0 <= x < w.len() && w[x] == c);
                let x = choose|x: int|
                    0 <= x < w.len() && w[x] == c && forall|j: int| 0 <= j < x ==> w[j] != c;
                assert(0 <= k < w.len() && w[k] == c && forall|j: int| 0 <= j < k ==> w[j] != c);
                if x < k {
                    assert(w[x] != c);
                }
                if x > k {
                    assert(w[k] != c);
                }
            }
            return Some(i);
        }
        i = i + 1;
    }
    None
}


/// Whether two texts are equal.
pub fn same_text(a: &str, b: &str) -> (r: bool)
    ensures
        r == (a@ == b@),
{
    let v = chars_of(a);
    let w = chars_of(b);
    if v.len() != w.len() {
        return false;
    }
    let r = matches_at(&v, &w, 0);
    assert(v@.subrange(0, w@.len() as int) =~= v@);
    r
}

/// Whether `s` begins with `prefix`.
pub fn starts_with_text(s: &str, prefix: &str) -> (r: bool)
    ensures
        r == has_prefix(s@, prefix@),
{
    let v = chars_of(s);
    let w = chars_of(prefix);
    matches_at(&v, &w, 0)
}

// ---------------------------------------------------------------------------
// Decimal formatting
// ---------------------------------------------------------------------------

/// The ASCII digit for `d < 10`.
pub open spec fn digit(d: int) -> char {
    if d == 0 {
        '0'
    } else if d == 1 {
        '1'
    } else if d == 2 {
        '2'
    } else if d == 3 {
        '3'
    } else if d == 4 {
        '4'
    } else if d == 5 {
        '5'
    } else if d == 6 {
        '6'
    } else if d == 7 {
        '7'
    } else if d == 8 {
        '8'
    } else {
        '9'
    }
}

/// Decimal notation of `n`, without leading zeros (`"0"` for zero).
pub open spec fn decimal(n: nat) -> Seq<char>
    decreases n,
{
    if n < 10 {
        seq![digit(n as int)]
    } else {
        decimal(n / 10).push(digit((n % 10) as int))
    }
}

/// `s` left-padded with `'0'` to at least `width` characters (`{:0w}`).
pub open spec fn zero_pad(s: Seq<char>, width: nat) -> Seq<char> {
    if s.len() >= width {
        s
    } else {
        Seq::new((width - s.len()) as nat, |i: int| '0') + s
    }
}

pub fn digit_char(d: u64) -> (c: char)
    requires
        d < 10,
    ensures
        c == digit(d as int),
{
    if d == 0 {
        '0'
    } else if d == 1 {
        '1'
    } else if d == 2 {
        '2'
    } else if d == 3 {
        '3'
    } else if d == 4 {
        '4'
    } else if d == 5 {
        '5'
    } else if d == 6 {
        '6'
    } else if d == 7 {
        '7'
    } else if d == 8 {
        '8'
    } else {
        '9'
    }
}

/// Appends the decimal notation of `n` to `out`.
pub fn push_decimal(out: &mut Vec<char>, n: u64)
    ensures
        final(out)@ == old(out)@ + decimal(n as nat),
    decreases n,
{
    if n >= 10 {
        push_decimal(out, n / 10);
    }
    out.push(digit_char(n % 10));
    proof {
        if n < 10 {
            assert(old(out)@ + decimal(n as nat) =~= old(out)@.push(digit(n as int)));
        } else {
            assert(old(out)@ + decimal(n as nat) =~= (old(out)@ + decimal((n / 10) as nat)).push(
                digit((n % 10) as int),
            ));
        }
    }
}

/// Appends `n` in decimal, zero-padded to `width` characters.
pub fn push_padded(out: &mut Vec<char>, n: u64, width: usize)
    ensures
        final(out)@ == old(out)@ + zero_pad(decimal(n as nat), width as nat),
{
    let mut digits: Vec<char> = Vec::new();
    push_decimal(&mut digits, n);
    assert(digits@ =~= decimal(n as nat));
    let mut k = digits.len();
    while k < width
        invariant
            digits@ == decimal(n as nat),
            out@ == old(out)@ + Seq::new((k - digits@.len()) as nat, |i: int| '0'),
            digits@.len() <= k,
            digits@.len() >= width ==> k == digits@.len(),
            digits@.len() < width ==> k <= width,
        decreases width - k,
    {
        out.push('0');
        assert(old(out)@ + Seq::new((k + 1 - digits@.len()) as nat, |i: int| '0') =~= (old(out)@
            + Seq::new((k - digits@.len()) as nat, |i: int| '0')).push('0'));
        k = k + 1;
    }
    let ghost mid = out@;
    let mut i: usize = 0;
    while i < digits.len()
        invariant
            i <= digits.len(),
            out@ == mid + digits@.subrange(0, i as int),
        decreases digits.len() - i,
    {
        out.push(digits[i]);
        assert(mid + digits@.subrange(0, i + 1) =~= (mid + digits@.subrange(0, i as int)).push(
            digits@[i as int],
        ));
        i = i + 1;
    }
    proof {
        assert(digits@.subrange(0, digits@.len() as int) =~= digits@);
        if digits@.len() >= width {
            assert(Seq::new((k - digits@.len()) as nat, |i: int| '0') =~= Seq::<char>::empty());
            assert(old(out)@ + Seq::<char>::empty() =~= old(out)@);
            assert(out@ =~= old(out)@ + digits@);
        } else {
            assert(k == width);
            assert(out@ =~= old(out)@ + (Seq::new((width - digits@.len()) as nat, |i: int| '0')
                + digits@));
        }
    }
}


/// Decimal notation of a signed integer (`-` before negative values).
pub open spec fn signed_decimal(n: int) -> Seq<char> {
    if n < 0 {
        seq!['-'] + decimal((-n) as nat)
    } else {
        decimal(n as nat)
    }
}

/// `n` in decimal, as `{}` formats an `i32`.
pub fn i32_text(n: i32) -> (r: String)
    ensures
        r@ == signed_decimal(n as int),
{
    let mut out: Vec<char> = Vec::new();
    if n < 0 {
        out.push('-');
        let m: i64 = n as i64;
        let a: u64 = (0 - m) as u64;
        push_decimal(&mut out, a);
        assert(out@ =~= seq!['-'] + decimal((-n) as nat));
    } else {
        push_decimal(&mut out, n as u64);
        assert(out@ =~= decimal(n as nat));
    }
    string_from_chars(&out)
}

} // verus!
