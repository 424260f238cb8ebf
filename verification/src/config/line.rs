//! One line of the TOML configuration file: keys, strings, table headers,
//! and values that continue on later lines.
//!
//! Positions are indices into the line after surrounding whitespace has
//! been trimmed. Blanks inside a line are spaces and tabs, as in TOML.
use vstd::prelude::*;
use crate::text::{CharClass, skip_back, skip_front, trim, trim_bounds, trim_start_by};

verus! {

// ---------------------------------------------------------------------------
// Characters
// ---------------------------------------------------------------------------

pub open spec fn is_blank(c: char) -> bool {
    c == ' ' || c == '\t'
}

/// A character of a bare key.
pub open spec fn is_key_char(c: char) -> bool {
    ('a' <= c && c <= 'z') || ('A' <= c && c <= 'Z') || ('0' <= c && c <= '9') || c == '_' || c
        == '-'
}

/// A control character that TOML strings may not hold literally (tab is
/// allowed).
pub open spec fn is_control(c: char) -> bool {
    (c <= '\u{8}') || ('\u{a}' <= c && c <= '\u{1f}') || c == '\u{7f}'
}

/// The value of a hexadecimal digit, or -1.
pub open spec fn hex_digit(c: char) -> int {
    if '0' <= c && c <= '9' {
        c as int - '0' as int
    } else if 'a' <= c && c <= 'f' {
        c as int - 'a' as int + 10
    } else if 'A' <= c && c <= 'F' {
        c as int - 'A' as int + 10
    } else {
        -1
    }
}

/// The value of the `n` hexadecimal digits at `t[i..i+n]`, or -1 when they
/// are not all hexadecimal digits (or run past the end).
pub open spec fn hex_run(t: Seq<char>, i: int, n: nat) -> int
    decreases n,
{
    if n == 0 {
        0
    } else if i < 0 || i + n > t.len() || hex_digit(t[i + n - 1]) < 0 {
        -1
    } else {
        let hi = hex_run(t, i, (n - 1) as nat);
        if hi < 0 {
            -1
        } else {
            hi * 16 + hex_digit(t[i + n - 1])
        }
    }
}

/// A Unicode scalar value.
pub open spec fn is_scalar(v: int) -> bool {
    (0 <= v < 0xD800) || (0xE000 <= v <= 0x10FFFF)
}

/// The character that a one-letter escape stands for.
pub open spec fn simple_escape(c: char) -> Option<char> {
    if c == 'b' {
        Some('\u{8}')
    } else if c == 't' {
        Some('\t')
    } else if c == 'n' {
        Some('\n')
    } else if c == 'f' {
        Some('\u{c}')
    } else if c == 'r' {
        Some('\r')
    } else if c == '"' {
        Some('"')
    } else if c == '\\' {
        Some('\\')
    } else {
        None
    }
}

/// `c` put in front of a decoded string.
pub open spec fn prepend(c: char, r: Option<(Seq<char>, int)>) -> Option<(Seq<char>, int)> {
    match r {
        Some((s, e)) => Some((seq![c] + s, e)),
        None => None,
    }
}

// ---------------------------------------------------------------------------
// Strings
// ---------------------------------------------------------------------------

/// Three `q` quotes stand at `t[i..i + 3]`.
pub open spec fn triple_at(t: Seq<char>, i: int, q: char) -> bool {
    0 <= i && i + 3 <= t.len() && t[i] == q && t[i + 1] == q && t[i + 2] == q
}

/// The quote at `t[i]` ends a string: any such quote for a single-line
/// string; for a multi-line one, the last three of a run of quotes.
pub open spec fn closing_at(t: Seq<char>, i: int, q: char, multi: bool) -> bool {
    if multi {
        triple_at(t, i, q) && !triple_at(t, i + 1, q)
    } else {
        0 <= i < t.len() && t[i] == q
    }
}

/// How far the closing quotes reach.
pub open spec fn quote_len(multi: bool) -> int {
    if multi {
        3
    } else {
        1
    }
}

/// The rest of a basic string from `t[i]` on (after its opening quotes,
/// three of them when `multi`): the decoded text and the position after the
/// closing quotes.
pub open spec fn basic_from(t: Seq<char>, i: int, multi: bool) -> Option<(Seq<char>, int)>
    decreases t.len() - i,
{
    if i < 0 || i >= t.len() {
        None
    } else if closing_at(t, i, '"', multi) {
        Some((Seq::empty(), i + quote_len(multi)))
    } else if t[i] == '\\' {
        if i + 1 >= t.len() {
            None
        } else {
            match simple_escape(t[i + 1]) {
                Some(c) => prepend(c, basic_from(t, i + 2, multi)),
                None => if t[i + 1] == 'u' || t[i + 1] == 'U' {
                    let n: nat = if t[i + 1] == 'u' {
                        4
                    } else {
                        8
                    };
                    let v = hex_run(t, i + 2, n);
                    if is_scalar(v) {
                        prepend(v as char, basic_from(t, i + 2 + n, multi))
                    } else {
                        None
                    }
                } else {
                    None
                },
            }
        }
    } else if is_control(t[i]) {
        None
    } else {
        prepend(t[i], basic_from(t, i + 1, multi))
    }
}

/// The rest of a literal string from `t[i]` on (after its opening quotes).
pub open spec fn literal_from(t: Seq<char>, i: int, multi: bool) -> Option<(Seq<char>, int)>
    decreases t.len() - i,
{
    if i < 0 || i >= t.len() {
        None
    } else if closing_at(t, i, '\'', multi) {
        Some((Seq::empty(), i + quote_len(multi)))
    } else if is_control(t[i]) {
        None
    } else {
        prepend(t[i], literal_from(t, i + 1, multi))
    }
}

/// A single-line string (basic or literal) starting at `t[i]`: its text and
/// the position after it.
pub open spec fn string_at(t: Seq<char>, i: int) -> Option<(Seq<char>, int)> {
    if 0 <= i < t.len() && t[i] == '"' {
        basic_from(t, i + 1, false)
    } else if 0 <= i < t.len() && t[i] == '\'' {
        literal_from(t, i + 1, false)
    } else {
        None
    }
}

/// A string value starting at `t[i]`: single-line, or multi-line with its
/// closing quotes on the same line.
pub open spec fn value_string_at(t: Seq<char>, i: int) -> Option<(Seq<char>, int)> {
    if triple_at(t, i, '"') {
        basic_from(t, i + 3, true)
    } else if triple_at(t, i, '\'') {
        literal_from(t, i + 3, true)
    } else {
        string_at(t, i)
    }
}

// ---------------------------------------------------------------------------
// Keys
// ---------------------------------------------------------------------------

/// The first position at or after `i` that is not a blank.
pub open spec fn skip_blanks(t: Seq<char>, i: int) -> int
    decreases t.len() - i,
{
    if 0 <= i < t.len() && is_blank(t[i]) {
        skip_blanks(t, i + 1)
    } else {
        i
    }
}

/// The first position at or after `i` that is not a bare-key character.
pub open spec fn bare_end(t: Seq<char>, i: int) -> int
    decreases t.len() - i,
{
    if 0 <= i < t.len() && is_key_char(t[i]) {
        bare_end(t, i + 1)
    } else {
        i
    }
}

/// A simple key (bare or quoted) starting at `t[i]`.
pub open spec fn simple_key(t: Seq<char>, i: int) -> Option<(Seq<char>, int)> {
    if 0 <= i < t.len() && (t[i] == '"' || t[i] == '\'') {
        string_at(t, i)
    } else {
        let e = bare_end(t, i);
        if e > i {
            Some((t.subrange(i, e), e))
        } else {
            None
        }
    }
}

/// A (possibly dotted) key starting at or after `i`: its parts and the
/// first non-blank position after it.
pub open spec fn key_path(t: Seq<char>, i: int) -> Option<(Seq<Seq<char>>, int)>
    decreases t.len() - i,
{
    match simple_key(t, skip_blanks(t, i)) {
        None => None,
        Some((k, j)) => {
            let p = skip_blanks(t, j);
            if 0 <= p < t.len() && t[p] == '.' {
                if p + 1 > i {
                    match key_path(t, p + 1) {
                        Some((ks, e)) => Some((seq![k] + ks, e)),
                        None => None,
                    }
                } else {
                    None
                }
            } else {
                Some((seq![k], p))
            }
        },
    }
}

/// Nothing but blanks, possibly followed by a comment, from `i` on.
pub open spec fn ends_line(t: Seq<char>, i: int) -> bool {
    let p = skip_blanks(t, i);
    p >= t.len() || t[p] == '#'
}

/// The key of a table header, `[key]` or `[[key]]`, possibly followed by
/// a comment; `None` when `t` is no such header.
pub open spec fn header_path(t: Seq<char>) -> Option<Seq<Seq<char>>> {
    if t.len() >= 2 && t[0] == '[' && t[1] == '[' {
        match key_path(t, 2) {
            Some((ks, p)) => if p + 1 < t.len() && t[p] == ']' && t[p + 1] == ']' && ends_line(
                t,
                p + 2,
            ) {
                Some(ks)
            } else {
                None
            },
            None => None,
        }
    } else if t.len() >= 1 && t[0] == '[' {
        match key_path(t, 1) {
            Some((ks, p)) => if 0 <= p < t.len() && t[p] == ']' && ends_line(t, p + 1) {
                Some(ks)
            } else {
                None
            },
            None => None,
        }
    } else {
        None
    }
}

// ---------------------------------------------------------------------------
// Values that span lines
// ---------------------------------------------------------------------------

/// The character at `j` follows an odd run of backslashes.
pub open spec fn escaped(t: Seq<char>, j: int) -> bool
    decreases j,
{
    if j <= 0 || j > t.len() {
        false
    } else {
        t[j - 1] == '\\' && !escaped(t, j - 1)
    }
}

/// At `t[i]` stand the quotes that end a multi-line string quoted with `q`
/// (`"` basic, `'` literal): the last three of a run of quotes, the first of
/// them not escaped in a basic string.
pub open spec fn ends_multi(t: Seq<char>, i: int, q: char) -> bool {
    triple_at(t, i, q) && !triple_at(t, i + 1, q) && (q == '\'' || !escaped(t, i))
}

/// What is still open at the end of a line: the depth of arrays, and the
/// quote of a multi-line string.
pub open spec fn left_open(depth: nat, open: Option<(char, bool)>) -> (nat, Option<char>) {
    (
        depth,
        match open {
            Some((q, true)) => Some(q),
            _ => None,
        },
    )
}

/// Follows a value that may span lines from `t[i]` on, with `depth`
/// arrays and the string `open` (its quote, and whether it is multi-line)
/// open: what is still open where the line ends. Scanning stops once every
/// array and string is closed; a comment ends the line.
pub open spec fn scan(t: Seq<char>, i: int, depth: nat, open: Option<(char, bool)>) -> (
    nat,
    Option<char>,
)
    decreases t.len() - i,
{
    if i < 0 || i >= t.len() {
        left_open(depth, open)
    } else {
        match open {
            Some((q, true)) => if ends_multi(t, i, q) {
                scan(t, i + 3, depth, None)
            } else {
                scan(t, i + 1, depth, open)
            },
            Some((q, false)) => if q == '"' && t[i] == '\\' {
                if i + 2 <= t.len() {
                    scan(t, i + 2, depth, open)
                } else {
                    left_open(depth, open)
                }
            } else if t[i] == q {
                scan(t, i + 1, depth, None)
            } else {
                scan(t, i + 1, depth, open)
            },
            None => if depth == 0 {
                (0, None)
            } else if t[i] == '#' {
                (depth, None)
            } else if triple_at(t, i, '"') {
                scan(t, i + 3, depth, Some(('"', true)))
            } else if triple_at(t, i, '\'') {
                scan(t, i + 3, depth, Some(('\'', true)))
            } else if t[i] == '"' || t[i] == '\'' {
                scan(t, i + 1, depth, Some((t[i], false)))
            } else if t[i] == '[' || t[i] == '{' {
                scan(t, i + 1, depth + 1, None)
            } else if t[i] == ']' || t[i] == '}' {
                scan(t, i + 1, (depth - 1) as nat, None)
            } else {
                scan(t, i + 1, depth, None)
            },
        }
    }
}

/// What the value after the `=` at `p` leaves open at the end of the line:
/// an array, or a multi-line string on its own or inside an array or an
/// inline table, that continues on the next lines.
pub open spec fn value_open(t: Seq<char>, p: int) -> (nat, Option<char>) {
    let s = skip_blanks(t, p + 1);
    if triple_at(t, s, '"') {
        scan(t, s + 3, 0, Some(('"', true)))
    } else if triple_at(t, s, '\'') {
        scan(t, s + 3, 0, Some(('\'', true)))
    } else if 0 <= s < t.len() && (t[s] == '[' || t[s] == '{') {
        scan(t, s + 1, 1, None)
    } else {
        (0, None)
    }
}

/// What a continuation line leaves open, given what was open before it.
pub open spec fn continue_open(l: Seq<char>, depth: nat, open: Option<char>) -> (nat, Option<char>) {
    scan(
        l,
        0,
        depth,
        match open {
            Some(q) => Some((q, true)),
            None => None,
        },
    )
}

/// How a line of a multi-line string reads from some position on.
pub enum Segment {
    /// The string ends on this line: its text up to the closing quotes, and
    /// the position after them.
    Closed(Seq<char>, int),
    /// The string goes on past this line: its text on the line, and whether
    /// the line ends in a line-ending backslash, so that the whitespace and
    /// newlines after it are left out.
    Open(Seq<char>, bool),
    /// The line cannot stand inside such a string.
    Invalid,
}

/// `a` put in front of a segment's text.
pub open spec fn seg_prefix(a: Seq<char>, r: Segment) -> Segment {
    match r {
        Segment::Closed(s, e) => Segment::Closed(a + s, e),
        Segment::Open(s, b) => Segment::Open(a + s, b),
        Segment::Invalid => Segment::Invalid,
    }
}

/// The text of a multi-line string quoted with `q` in the line `t` from
/// `t[i]` on. With `trim`, blanks at the start are left out (they follow a
/// line-ending backslash). A basic string (`"`) decodes escapes, and a
/// backslash followed by nothing but blanks ends the line's text and
/// leaves out what follows up to the next other character.
pub open spec fn segment(t: Seq<char>, i: int, q: char, trim: bool) -> Segment
    decreases t.len() - i,
{
    if i < 0 || i >= t.len() {
        Segment::Open(Seq::empty(), trim)
    } else if trim && is_blank(t[i]) {
        segment(t, i + 1, q, true)
    } else if closing_at(t, i, q, true) {
        Segment::Closed(Seq::empty(), i + 3)
    } else if q == '"' && t[i] == '\\' {
        if skip_blanks(t, i + 1) >= t.len() {
            Segment::Open(Seq::empty(), true)
        } else {
            match simple_escape(t[i + 1]) {
                Some(c) => seg_prefix(seq![c], segment(t, i + 2, q, false)),
                None => if t[i + 1] == 'u' || t[i + 1] == 'U' {
                    let n: nat = if t[i + 1] == 'u' {
                        4
                    } else {
                        8
                    };
                    let v = hex_run(t, i + 2, n);
                    if is_scalar(v) {
                        seg_prefix(seq![v as char], segment(t, i + 2 + n, q, false))
                    } else {
                        Segment::Invalid
                    }
                } else {
                    Segment::Invalid
                },
            }
        }
    } else if is_control(t[i]) {
        Segment::Invalid
    } else {
        seg_prefix(seq![t[i]], segment(t, i + 1, q, false))
    }
}

// ---------------------------------------------------------------------------
// Lines
// ---------------------------------------------------------------------------

/// How one line of the file reads.
pub enum LineKind {
    /// Blank, a comment, or not a line the settings depend on (such as the
    /// continuation of a value that spans lines).
    Skip,
    /// A table header with its key: the keys after it belong to that
    /// table.
    Header(Seq<Seq<char>>),
    /// `key = value`: the key's parts; the value's text when the value is
    /// a string that ends on this line, followed by nothing but a comment;
    /// what the value leaves open at the end of the line (see
    /// `value_open`); and where the value starts.
    Entry(Seq<Seq<char>>, Option<Seq<char>>, (nat, Option<char>), int),
}

/// The value of an entry whose `=` stands at `p`, when it is a string.
pub open spec fn string_value(t: Seq<char>, p: int) -> Option<Seq<char>> {
    match value_string_at(t, skip_blanks(t, p + 1)) {
        Some((v, e)) => if ends_line(t, e) {
            Some(v)
        } else {
            None
        },
        None => None,
    }
}

/// The meaning of a trimmed line.
pub open spec fn trimmed_kind(t: Seq<char>) -> LineKind {
    if t.len() == 0 || t[0] == '#' {
        LineKind::Skip
    } else if t[0] == '[' {
        match header_path(t) {
            Some(ks) => LineKind::Header(ks),
            None => LineKind::Skip,
        }
    } else {
        match key_path(t, 0) {
            Some((ks, p)) => if 0 <= p < t.len() && t[p] == '=' {
                LineKind::Entry(ks, string_value(t, p), value_open(t, p), skip_blanks(t, p + 1))
            } else {
                LineKind::Skip
            },
            None => LineKind::Skip,
        }
    }
}

/// The meaning of one line (without its newline).
pub open spec fn line_kind(l: Seq<char>) -> LineKind {
    trimmed_kind(trim(l))
}

/// A run of bare-key characters ends where the first other character
/// stands.
pub proof fn lemma_bare_end(t: Seq<char>, i: int, e: int)
    requires
        0 <= i <= e <= t.len(),
        forall|k: int| i <= k < e ==> is_key_char(#[trigger] t[k]),
        e == t.len() || !is_key_char(t[e]),
    ensures
        bare_end(t, i) == e,
    decreases e - i,
{
    if i < e {
        lemma_bare_end(t, i + 1, e);
    }
}

/// A basic string without quotes, backslashes or control characters reads
/// as its own text.
pub proof fn lemma_basic_plain(t: Seq<char>, i: int, e: int)
    requires
        0 <= i <= e < t.len(),
        t[e] == '"',
        forall|k: int|
            i <= k < e ==> #[trigger] t[k] != '"' && t[k] != '\\' && !is_control(t[k]),
    ensures
        basic_from(t, i, false) == Some((t.subrange(i, e), e + 1)),
    decreases e - i,
{
    if i < e {
        lemma_basic_plain(t, i + 1, e);
        assert(seq![t[i]] + t.subrange(i + 1, e) =~= t.subrange(i, e));
    } else {
        assert(t.subrange(i, e) =~= Seq::<char>::empty());
    }
}

// ---------------------------------------------------------------------------
// Executable reading
// ---------------------------------------------------------------------------

/// `char::from_u32`: the character with scalar value `v`, or `None` when
/// `v` is not a Unicode scalar value (std documents exactly this).
#[verifier::external_body]
fn char_from_scalar(v: u32) -> (r: Option<char>)
    ensures
        is_scalar(v as int) <==> r is Some,
        r matches Some(c) ==> c as int == v as int,
{
    char::from_u32(v)
}

fn blank(c: char) -> (r: bool)
    ensures
        r == is_blank(c),
{
    c == ' ' || c == '\t'
}

fn key_char(c: char) -> (r: bool)
    ensures
        r == is_key_char(c),
{
    ('a' <= c && c <= 'z') || ('A' <= c && c <= 'Z') || ('0' <= c && c <= '9') || c == '_' || c
        == '-'
}

fn control(c: char) -> (r: bool)
    ensures
        r == is_control(c),
{
    (c <= '\u{8}') || ('\u{a}' <= c && c <= '\u{1f}') || c == '\u{7f}'
}

fn hex_value(c: char) -> (r: Option<u32>)
    ensures
        hex_digit(c) < 0 ==> r is None,
        hex_digit(c) >= 0 ==> (r matches Some(d) && d as int == hex_digit(c) && d < 16),
{
    if '0' <= c && c <= '9' {
        Some((c as u32) - ('0' as u32))
    } else if 'a' <= c && c <= 'f' {
        Some((c as u32) - ('a' as u32) + 10)
    } else if 'A' <= c && c <= 'F' {
        Some((c as u32) - ('A' as u32) + 10)
    } else {
        None
    }
}

proof fn lemma_hex_run_bound(t: Seq<char>, i: int, n: nat)
    ensures
        hex_run(t, i, n) < pow16(n),
        hex_run(t, i, n) >= -1,
    decreases n,
{
    if n > 0 {
        lemma_hex_run_bound(t, i, (n - 1) as nat);
    }
}

spec fn pow16(n: nat) -> int
    decreases n,
{
    if n == 0 {
        1
    } else {
        16 * pow16((n - 1) as nat)
    }
}

/// The value of `n <= 8` hexadecimal digits at `t[i..]`.
fn read_hex(t: &Vec<char>, i: usize, n: usize) -> (r: Option<u32>)
    requires
        n <= 8,
    ensures
        hex_run(t@, i as int, n as nat) < 0 ==> r is None,
        hex_run(t@, i as int, n as nat) >= 0 ==> (r matches Some(v) && v as int == hex_run(
            t@,
            i as int,
            n as nat,
        )),
{
    if n > t.len() || i > t.len() - n {
        proof {
            if n > 0 {
                reveal_with_fuel(hex_run, 1);
            }
        }
        return if n == 0 {
            Some(0)
        } else {
            None
        };
    }
    let mut k: usize = 0;
    let mut acc: u32 = 0;
    while k < n
        invariant
            k <= n <= 8,
            i + n <= t.len(),
            hex_run(t@, i as int, k as nat) >= 0,
            acc as int == hex_run(t@, i as int, k as nat),
        decreases n - k,
    {
        proof {
            lemma_hex_run_bound(t@, i as int, k as nat);
            assert(pow16(k as nat) <= 0x1000_0000) by {
                lemma_pow16_le(k as nat);
            }
        }
        match hex_value(t[i + k]) {
            None => {
                proof {
                    lemma_hex_run_fails_on(t@, i as int, k as nat, n as nat);
                }
                return None;
            },
            Some(d) => {
                acc = acc * 16 + d;
                k = k + 1;
            },
        }
    }
    Some(acc)
}

proof fn lemma_pow16_le(k: nat)
    requires
        k <= 7,
    ensures
        pow16(k) <= 0x1000_0000,
{
    reveal_with_fuel(pow16, 8);
}

/// A bad digit at position `i + k` spoils every longer run.
proof fn lemma_hex_run_fails_on(t: Seq<char>, i: int, k: nat, n: nat)
    requires
        k < n,
        i + n <= t.len(),
        0 <= i,
        hex_digit(t[i + k]) < 0,
    ensures
        hex_run(t, i, n) < 0,
    decreases n,
{
    if n - 1 > k {
        lemma_hex_run_fails_on(t, i, k, (n - 1) as nat);
    }
}

/// `a` put in front of a decoded string.
pub open spec fn prefix_with(a: Seq<char>, r: Option<(Seq<char>, int)>) -> Option<(Seq<char>, int)> {
    match r {
        Some((s, e)) => Some((a + s, e)),
        None => None,
    }
}

proof fn lemma_prefix_push(a: Seq<char>, c: char, r: Option<(Seq<char>, int)>)
    ensures
        prefix_with(a, prepend(c, r)) == prefix_with(a.push(c), r),
{
    match r {
        Some((s, e)) => {
            assert(a + (seq![c] + s) =~= a.push(c) + s);
        },
        None => {},
    }
}

/// Decoded text and end of a string read from `t[i]` on.
pub open spec fn read_matches(r: Option<(Vec<char>, usize)>, spec_r: Option<(Seq<char>, int)>) -> bool {
    match r {
        Some((d, e)) => spec_r == Some((d@, e as int)),
        None => spec_r is None,
    }
}

fn closes_here(t: &Vec<char>, j: usize, q: char, multi: bool) -> (r: bool)
    ensures
        r == closing_at(t@, j as int, q, multi),
{
    if multi {
        triple_here(t, j, q) && !triple_here(t, j + 1, q)
    } else {
        j < t.len() && t[j] == q
    }
}

fn read_basic(t: &Vec<char>, i: usize, multi: bool) -> (r: Option<(Vec<char>, usize)>)
    ensures
        read_matches(r, basic_from(t@, i as int, multi)),
{
    let mut acc: Vec<char> = Vec::new();
    let mut j = i;
    assert(acc@ + Seq::<char>::empty() =~= acc@);
    loop
        invariant
            i <= j,
            basic_from(t@, i as int, multi) == prefix_with(acc@, basic_from(t@, j as int, multi)),
        decreases t.len() - j,
    {
        if j >= t.len() {
            return None;
        }
        let c = t[j];
        if closes_here(t, j, '"', multi) {
            assert(acc@ + Seq::<char>::empty() =~= acc@);
            let end = if multi {
                j + 3
            } else {
                j + 1
            };
            return Some((acc, end));
        } else if c == '\\' {
            if j + 1 >= t.len() {
                return None;
            }
            let e = t[j + 1];
            let simple = if e == 'b' {
                Some('\u{8}')
            } else if e == 't' {
                Some('\t')
            } else if e == 'n' {
                Some('\n')
            } else if e == 'f' {
                Some('\u{c}')
            } else if e == 'r' {
                Some('\r')
            } else if e == '"' {
                Some('"')
            } else if e == '\\' {
                Some('\\')
            } else {
                None
            };
            assert(simple == simple_escape(e));
            match simple {
                Some(x) => {
                    proof {
                        lemma_prefix_push(acc@, x, basic_from(t@, j + 2, multi));
                    }
                    acc.push(x);
                    j = j + 2;
                },
                None => {
                    if e != 'u' && e != 'U' {
                        return None;
                    }
                    let n: usize = if e == 'u' {
                        4
                    } else {
                        8
                    };
                    match read_hex(t, j + 2, n) {
                        None => {
                            return None;
                        },
                        Some(v) => match char_from_scalar(v) {
                            None => {
                                return None;
                            },
                            Some(x) => {
                                assert(x == (v as int) as char);
                                proof {
                                    lemma_prefix_push(acc@, x, basic_from(t@, j + 2 + n, multi));
                                }
                                acc.push(x);
                                j = j + 2 + n;
                            },
                        },
                    }
                },
            }
        } else if control(c) {
            return None;
        } else {
            proof {
                lemma_prefix_push(acc@, c, basic_from(t@, j + 1, multi));
            }
            acc.push(c);
            j = j + 1;
        }
    }
}

fn read_literal(t: &Vec<char>, i: usize, multi: bool) -> (r: Option<(Vec<char>, usize)>)
    ensures
        read_matches(r, literal_from(t@, i as int, multi)),
{
    let mut acc: Vec<char> = Vec::new();
    let mut j = i;
    assert(acc@ + Seq::<char>::empty() =~= acc@);
    loop
        invariant
            i <= j,
            literal_from(t@, i as int, multi) == prefix_with(acc@, literal_from(t@, j as int, multi)),
        decreases t.len() - j,
    {
        if j >= t.len() {
            return None;
        }
        let c = t[j];
        if closes_here(t, j, '\'', multi) {
            assert(acc@ + Seq::<char>::empty() =~= acc@);
            let end = if multi {
                j + 3
            } else {
                j + 1
            };
            return Some((acc, end));
        } else if control(c) {
            return None;
        } else {
            proof {
                lemma_prefix_push(acc@, c, literal_from(t@, j + 1, multi));
            }
            acc.push(c);
            j = j + 1;
        }
    }
}

fn read_string(t: &Vec<char>, i: usize) -> (r: Option<(Vec<char>, usize)>)
    ensures
        read_matches(r, string_at(t@, i as int)),
{
    if i < t.len() && t[i] == '"' {
        read_basic(t, i + 1, false)
    } else if i < t.len() && t[i] == '\'' {
        read_literal(t, i + 1, false)
    } else {
        None
    }
}

fn read_value_string(t: &Vec<char>, i: usize) -> (r: Option<(Vec<char>, usize)>)
    ensures
        read_matches(r, value_string_at(t@, i as int)),
{
    if triple_here(t, i, '"') {
        read_basic(t, i + 3, true)
    } else if triple_here(t, i, '\'') {
        read_literal(t, i + 3, true)
    } else {
        read_string(t, i)
    }
}

fn skip_blank_chars(t: &Vec<char>, i: usize) -> (r: usize)
    ensures
        r as int == skip_blanks(t@, i as int),
        i <= r,
        i <= t.len() ==> r <= t.len(),
{
    let mut j = i;
    while j < t.len() && blank(t[j])
        invariant
            i <= j,
            i <= t.len() ==> j <= t.len(),
            skip_blanks(t@, j as int) == skip_blanks(t@, i as int),
        decreases t.len() - j,
    {
        j = j + 1;
    }
    j
}

fn bare_key_end(t: &Vec<char>, i: usize) -> (r: usize)
    ensures
        r as int == bare_end(t@, i as int),
        i <= r,
        r > i ==> r <= t.len(),
{
    let mut j = i;
    while j < t.len() && key_char(t[j])
        invariant
            i <= j,
            j > i ==> j <= t.len(),
            bare_end(t@, j as int) == bare_end(t@, i as int),
        decreases t.len() - j,
    {
        j = j + 1;
    }
    j
}

fn read_simple_key(t: &Vec<char>, i: usize) -> (r: Option<(Vec<char>, usize)>)
    ensures
        read_matches(r, simple_key(t@, i as int)),
        r matches Some((_, e)) ==> e > i,
{
    if i < t.len() && (t[i] == '"' || t[i] == '\'') {
        let r = read_string(t, i);
        proof {
            if t@[i as int] == '"' {
                lemma_basic_end(t@, i + 1, false);
            } else {
                lemma_literal_end(t@, i + 1, false);
            }
        }
        r
    } else {
        let e = bare_key_end(t, i);
        if e > i {
            let mut k: Vec<char> = Vec::new();
            let mut x = i;
            while x < e
                invariant
                    i <= x <= e <= t.len(),
                    k@ == t@.subrange(i as int, x as int),
                decreases e - x,
            {
                k.push(t[x]);
                assert(t@.subrange(i as int, x + 1) =~= t@.subrange(i as int, x as int).push(
                    t@[x as int],
                ));
                x = x + 1;
            }
            Some((k, e))
        } else {
            None
        }
    }
}

proof fn lemma_basic_end(t: Seq<char>, i: int, multi: bool)
    ensures
        basic_from(t, i, multi) matches Some((_, e)) ==> e > i,
    decreases t.len() - i,
{
    if 0 <= i < t.len() && !closing_at(t, i, '"', multi) {
        if t[i] == '\\' && i + 1 < t.len() {
            lemma_basic_end(t, i + 2, multi);
            if t[i + 1] == 'u' && i + 6 <= t.len() {
                lemma_basic_end(t, i + 6, multi);
            } else if t[i + 1] == 'U' && i + 10 <= t.len() {
                lemma_basic_end(t, i + 10, multi);
            }
        } else {
            lemma_basic_end(t, i + 1, multi);
        }
    }
}

proof fn lemma_literal_end(t: Seq<char>, i: int, multi: bool)
    ensures
        literal_from(t, i, multi) matches Some((_, e)) ==> e > i,
    decreases t.len() - i,
{
    if 0 <= i < t.len() && !closing_at(t, i, '\'', multi) {
        lemma_literal_end(t, i + 1, multi);
    }
}

/// Decoded key parts and the position after a key.
pub open spec fn path_matches(r: Option<(Vec<Vec<char>>, usize)>, spec_r: Option<(Seq<Seq<char>>, int)>) -> bool {
    match r {
        Some((ks, e)) => spec_r == Some((ks@.map_values(|k: Vec<char>| k@), e as int)),
        None => spec_r is None,
    }
}

pub open spec fn parts_with(a: Seq<Seq<char>>, r: Option<(Seq<Seq<char>>, int)>) -> Option<(Seq<Seq<char>>, int)> {
    match r {
        Some((s, e)) => Some((a + s, e)),
        None => None,
    }
}

fn read_key_path(t: &Vec<char>, i: usize) -> (r: Option<(Vec<Vec<char>>, usize)>)
    ensures
        path_matches(r, key_path(t@, i as int)),
{
    let mut parts: Vec<Vec<char>> = Vec::new();
    let mut j = i;
    assert(parts@.map_values(|k: Vec<char>| k@) + Seq::<Seq<char>>::empty() =~= parts@.map_values(|k: Vec<char>| k@));
    loop
        invariant
            i <= j,
            key_path(t@, i as int) == parts_with(parts@.map_values(|k: Vec<char>| k@), key_path(t@, j as int)),
        decreases t.len() - j,
    {
        let ghost before = parts@.map_values(|k: Vec<char>| k@);
        let s = skip_blank_chars(t, j);
        match read_simple_key(t, s) {
            None => {
                return None;
            },
            Some((k, e)) => {
                let p = skip_blank_chars(t, e);
                let ghost kv = k@;
                parts.push(k);
                assert(parts@.map_values(|k: Vec<char>| k@) =~= before.push(kv));
                if p < t.len() && t[p] == '.' {
                    proof {
                        match key_path(t@, p + 1) {
                            Some((ks, e2)) => {
                                assert(before + (seq![kv] + ks) =~= before.push(kv) + ks);
                            },
                            None => {},
                        }
                    }
                    j = p + 1;
                } else {
                    assert(before + seq![kv] =~= before.push(kv));
                    return Some((parts, p));
                }
            },
        }
    }
}

pub(crate) fn ends_here(t: &Vec<char>, i: usize) -> (r: bool)
    ensures
        r == ends_line(t@, i as int),
{
    let p = skip_blank_chars(t, i);
    p >= t.len() || t[p] == '#'
}

fn header_line(t: &Vec<char>) -> (r: Option<Vec<Vec<char>>>)
    ensures
        match r {
            Some(ks) => header_path(t@) == Some(ks@.map_values(|k: Vec<char>| k@)),
            None => header_path(t@) is None,
        },
{
    if t.len() >= 2 && t[0] == '[' && t[1] == '[' {
        match read_key_path(t, 2) {
            Some((ks, p)) => if p < t.len() - 1 && t[p] == ']' && t[p + 1] == ']' && ends_here(
                t,
                p + 2,
            ) {
                Some(ks)
            } else {
                None
            },
            None => None,
        }
    } else if t.len() >= 1 && t[0] == '[' {
        match read_key_path(t, 1) {
            Some((ks, p)) => if p < t.len() && t[p] == ']' && ends_here(t, p + 1) {
                Some(ks)
            } else {
                None
            },
            None => None,
        }
    } else {
        None
    }
}

/// A line as read: skipped, a header, or an entry with its key parts and,
/// when the value is a string, its text.
pub enum LineRead {
    Skip,
    Header(Vec<Vec<char>>),
    Entry(Vec<Vec<char>>, Option<Vec<char>>, (usize, Option<char>), usize),
}

pub open spec fn line_read_matches(r: LineRead, k: LineKind) -> bool {
    match r {
        LineRead::Skip => k is Skip,
        LineRead::Header(ks) => k == LineKind::Header(ks@.map_values(|x: Vec<char>| x@)),
        LineRead::Entry(ks, v, q, st) => k == LineKind::Entry(
            ks@.map_values(|x: Vec<char>| x@),
            match v {
                Some(s) => Some(s@),
                None => None,
            },
            (q.0 as nat, q.1),
            st as int,
        ),
    }
}

fn read_value(t: &Vec<char>, p: usize) -> (r: Option<Vec<char>>)
    requires
        p < t.len(),
    ensures
        match r {
            Some(s) => string_value(t@, p as int) == Some(s@),
            None => string_value(t@, p as int) is None,
        },
{
    let s = skip_blank_chars(t, p + 1);
    match read_value_string(t, s) {
        Some((v, e)) => if ends_here(t, e) {
            Some(v)
        } else {
            None
        },
        None => None,
    }
}

pub(crate) fn triple_here(t: &Vec<char>, i: usize, q: char) -> (r: bool)
    ensures
        r == triple_at(t@, i as int, q),
        r ==> i + 3 <= t.len(),
{
    i <= t.len() && t.len() - i >= 3 && t[i] == q && t[i + 1] == q && t[i + 2] == q
}

fn is_escaped(t: &Vec<char>, j: usize) -> (r: bool)
    ensures
        r == escaped(t@, j as int),
    decreases j,
{
    if j == 0 || j > t.len() {
        false
    } else {
        t[j - 1] == '\\' && !is_escaped(t, j - 1)
    }
}

/// Follows a value from `t[i]` on (see `scan`).
fn scan_chars(t: &Vec<char>, i: usize, depth: usize, open: Option<(char, bool)>) -> (r: (
    usize,
    Option<char>,
))
    requires
        i <= t.len(),
        depth + (t.len() - i) <= usize::MAX,
    ensures
        (r.0 as nat, r.1) == scan(t@, i as int, depth as nat, open),
        r.0 <= depth + (t.len() - i),
{
    let mut j = i;
    let mut d = depth;
    let mut o = open;
    loop
        invariant
            i <= j <= t.len(),
            depth + (t.len() - i) <= usize::MAX,
            d <= depth + (j - i),
            scan(t@, i as int, depth as nat, open) == scan(t@, j as int, d as nat, o),
        decreases t.len() - j,
    {
        if j >= t.len() {
            let r = match o {
                Some((q, true)) => Some(q),
                _ => None,
            };
            return (d, r);
        }
        let c = t[j];
        match o {
            Some((q, true)) => {
                if triple_here(t, j, q) && !triple_here(t, j + 1, q) && (q == '\'' || !is_escaped(
                    t,
                    j,
                )) {
                    j = j + 3;
                    o = None;
                } else {
                    j = j + 1;
                }
            },
            Some((q, false)) => {
                if q == '"' && c == '\\' {
                    if t.len() - j >= 2 {
                        j = j + 2;
                    } else {
                        return (d, None);
                    }
                } else if c == q {
                    j = j + 1;
                    o = None;
                } else {
                    j = j + 1;
                }
            },
            None => {
                if d == 0 {
                    return (0, None);
                } else if c == '#' {
                    return (d, None);
                } else if triple_here(t, j, '"') {
                    j = j + 3;
                    o = Some(('"', true));
                } else if triple_here(t, j, '\'') {
                    j = j + 3;
                    o = Some(('\'', true));
                } else if c == '"' || c == '\'' {
                    j = j + 1;
                    o = Some((c, false));
                } else if c == '[' || c == '{' {
                    j = j + 1;
                    d = d + 1;
                } else if c == ']' || c == '}' {
                    j = j + 1;
                    d = d - 1;
                } else {
                    j = j + 1;
                }
            },
        }
    }
}

fn value_opened(t: &Vec<char>, p: usize) -> (r: (usize, Option<char>))
    requires
        p < t.len(),
    ensures
        (r.0 as nat, r.1) == value_open(t@, p as int),
        r.0 <= t.len(),
{
    let s = skip_blank_chars(t, p + 1);
    if triple_here(t, s, '"') {
        scan_chars(t, s + 3, 0, Some(('"', true)))
    } else if triple_here(t, s, '\'') {
        scan_chars(t, s + 3, 0, Some(('\'', true)))
    } else if s < t.len() && (t[s] == '[' || t[s] == '{') {
        scan_chars(t, s + 1, 1, None)
    } else {
        (0, None)
    }
}

/// What the continuation line `t` leaves open (see `continue_open`).
pub fn continue_line(t: &Vec<char>, depth: usize, open: Option<char>) -> (r: (usize, Option<char>))
    requires
        depth + t.len() <= usize::MAX,
    ensures
        (r.0 as nat, r.1) == continue_open(t@, depth as nat, open),
        r.0 <= depth + t.len(),
{
    let o = match open {
        Some(q) => Some((q, true)),
        None => None,
    };
    scan_chars(t, 0, depth, o)
}

/// A segment as read (see `Segment`).
pub enum SegmentRead {
    Closed(Vec<char>, usize),
    Open(Vec<char>, bool),
    Invalid,
}

pub open spec fn segment_matches(r: SegmentRead, s: Segment) -> bool {
    match r {
        SegmentRead::Closed(text, e) => s == Segment::Closed(text@, e as int),
        SegmentRead::Open(text, b) => s == Segment::Open(text@, b),
        SegmentRead::Invalid => s is Invalid,
    }
}

proof fn lemma_seg_prefix_push(a: Seq<char>, c: char, r: Segment)
    ensures
        seg_prefix(a, seg_prefix(seq![c], r)) == seg_prefix(a.push(c), r),
{
    match r {
        Segment::Closed(s, e) => {
            assert(a + (seq![c] + s) =~= a.push(c) + s);
        },
        Segment::Open(s, b) => {
            assert(a + (seq![c] + s) =~= a.push(c) + s);
        },
        Segment::Invalid => {},
    }
}

/// Reads a line of a multi-line string quoted with `q` from `t[i]` on.
pub fn read_segment(t: &Vec<char>, i: usize, q: char, trim: bool) -> (r: SegmentRead)
    ensures
        segment_matches(r, segment(t@, i as int, q, trim)),
{
    let mut acc: Vec<char> = Vec::new();
    let mut j = i;
    let mut tr = trim;
    assert(acc@ + Seq::<char>::empty() =~= acc@);
    assert(seg_prefix(acc@, segment(t@, j as int, q, tr)) == segment(t@, i as int, q, trim)) by {
        match segment(t@, i as int, q, trim) {
            Segment::Closed(s, e) => assert(acc@ + s =~= s),
            Segment::Open(s, b) => assert(acc@ + s =~= s),
            Segment::Invalid => {},
        }
    }
    loop
        invariant
            i <= j,
            segment(t@, i as int, q, trim) == seg_prefix(acc@, segment(t@, j as int, q, tr)),
        decreases t.len() - j,
    {
        if j >= t.len() {
            return SegmentRead::Open(acc, tr);
        }
        let c = t[j];
        if tr && blank(c) {
            j = j + 1;
        } else if closes_here(t, j, q, true) {
            return SegmentRead::Closed(acc, j + 3);
        } else if q == '"' && c == '\\' {
            let s = skip_blank_chars(t, j + 1);
            if s >= t.len() {
                return SegmentRead::Open(acc, true);
            }
            let e = t[j + 1];
            let simple = if e == 'b' {
                Some('\u{8}')
            } else if e == 't' {
                Some('\t')
            } else if e == 'n' {
                Some('\n')
            } else if e == 'f' {
                Some('\u{c}')
            } else if e == 'r' {
                Some('\r')
            } else if e == '"' {
                Some('"')
            } else if e == '\\' {
                Some('\\')
            } else {
                None
            };
            assert(simple == simple_escape(e));
            match simple {
                Some(x) => {
                    proof {
                        lemma_seg_prefix_push(acc@, x, segment(t@, j + 2, q, false));
                    }
                    acc.push(x);
                    j = j + 2;
                    tr = false;
                },
                None => {
                    if e != 'u' && e != 'U' {
                        return SegmentRead::Invalid;
                    }
                    let n: usize = if e == 'u' {
                        4
                    } else {
                        8
                    };
                    match read_hex(t, j + 2, n) {
                        None => {
                            return SegmentRead::Invalid;
                        },
                        Some(v) => match char_from_scalar(v) {
                            None => {
                                return SegmentRead::Invalid;
                            },
                            Some(x) => {
                                assert(x == (v as int) as char);
                                proof {
                                    lemma_seg_prefix_push(acc@, x, segment(t@, j + 2 + n, q, false));
                                }
                                acc.push(x);
                                j = j + 2 + n;
                                tr = false;
                            },
                        },
                    }
                },
            }
        } else if control(c) {
            return SegmentRead::Invalid;
        } else {
            proof {
                lemma_seg_prefix_push(acc@, c, segment(t@, j + 1, q, false));
            }
            acc.push(c);
            j = j + 1;
            tr = false;
        }
    }
}

/// Reads the trimmed line `t`.
pub fn read_trimmed(t: &Vec<char>) -> (r: LineRead)
    ensures
        line_read_matches(r, trimmed_kind(t@)),
        r matches LineRead::Entry(_, _, q, st) ==> q.0 <= t.len() && st <= t.len(),
{
    if t.len() == 0 || t[0] == '#' {
        LineRead::Skip
    } else if t[0] == '[' {
        match header_line(t) {
            Some(ks) => LineRead::Header(ks),
            None => LineRead::Skip,
        }
    } else {
        match read_key_path(t, 0) {
            Some((ks, p)) => if p < t.len() && t[p] == '=' {
                let v = read_value(t, p);
                let q = value_opened(t, p);
                let st = skip_blank_chars(t, p + 1);
                LineRead::Entry(ks, v, q, st)
            } else {
                LineRead::Skip
            },
            None => LineRead::Skip,
        }
    }
}

/// Reads the line `v[lo..hi]`; also gives where its text starts once
/// leading whitespace is passed over.
pub fn read_line(v: &Vec<char>, lo: usize, hi: usize) -> (r: (LineRead, usize))
    requires
        lo <= hi <= v.len(),
    ensures
        line_read_matches(r.0, line_kind(v@.subrange(lo as int, hi as int))),
        lo <= r.1 <= hi,
        v@.subrange(r.1 as int, hi as int) == trim_start_by(v@.subrange(lo as int, hi as int), CharClass::Space),
        r.0 matches LineRead::Entry(_, _, q, st) ==> q.0 <= hi - lo && st <= hi - r.1,
{
    let a = skip_front(v, lo, hi, CharClass::Space);
    let b = skip_back(v, a, hi, CharClass::Space);
    assert(v@.subrange(a as int, b as int) == trim(v@.subrange(lo as int, hi as int)));
    let mut t: Vec<char> = Vec::new();
    let mut x = a;
    while x < b
        invariant
            a <= x <= b <= v.len(),
            t@ == v@.subrange(a as int, x as int),
        decreases b - x,
    {
        t.push(v[x]);
        assert(v@.subrange(a as int, x + 1) =~= v@.subrange(a as int, x as int).push(v@[x as int]));
        x = x + 1;
    }
    (read_trimmed(&t), a)
}

} // verus!
