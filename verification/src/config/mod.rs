//! Settings: their defaults, the configuration file, and the order in which
//! the sources of a setting are consulted.
pub mod line;

use vstd::prelude::*;
use crate::config::line::{
    LineKind, LineRead, Segment, SegmentRead, continue_line, continue_open, ends_here, ends_line,
    is_control, is_key_char, key_path, lemma_bare_end, lemma_basic_plain, line_kind, read_line,
    read_segment, segment, skip_blanks, string_value, triple_at, triple_here, value_open,
};
use crate::text::{
    CharClass, chars_of, copy_str, find_char, first_index_of, lemma_first_index_at,
    lemma_trim_by_untouched, matches_at, string_from_chars, trim, trim_start_by,
};

verus! {

/// The settings of the tool.
pub struct Config {
    pub model: String,
    pub ollama_url: String,
    pub language: String,
}

pub open spec fn default_model_text() -> Seq<char> {
    "mistral"@
}

pub open spec fn default_url_text() -> Seq<char> {
    "http://localhost:11434"@
}

pub open spec fn default_language_text() -> Seq<char> {
    "en"@
}

pub fn default_model() -> (r: String)
    ensures
        r@ == default_model_text(),
{
    copy_str("mistral")
}

pub fn default_ollama_url() -> (r: String)
    ensures
        r@ == default_url_text(),
{
    copy_str("http://localhost:11434")
}

pub fn default_language() -> (r: String)
    ensures
        r@ == default_language_text(),
{
    copy_str("en")
}

impl Default for Config {
    /// Every setting at its default.
    fn default() -> (r: Self)
        ensures
            r.model@ == default_model_text(),
            r.ollama_url@ == default_url_text(),
            r.language@ == default_language_text(),
    {
        Config {
            model: default_model(),
            ollama_url: default_ollama_url(),
            language: default_language(),
        }
    }
}

/// A setting comes from the command line if given there, else from the
/// environment, else from the configuration (which holds the default when
/// the file does not set it).
pub fn resolve_setting(cli: Option<String>, env: Option<String>, configured: String) -> (r: String)
    ensures
        cli matches Some(c) ==> r == c,
        cli is None && env is Some ==> r == env->0,
        cli is None && env is None ==> r == configured,
{
    match cli {
        Some(c) => c,
        None => match env {
            Some(e) => e,
            None => configured,
        },
    }
}

// ---------------------------------------------------------------------------
// The configuration file
// ---------------------------------------------------------------------------
//
// The file is TOML, read line by line (see `line`). The settings are the
// top-level keys `model`, `ollama_url` and `language`, each a string: basic
// (with escapes) or literal, in single or triple quotes. A triple-quoted
// string may go on over several lines: a newline right after the opening
// quotes is left out, CRLF line endings read as `\n`, and in a basic
// string a line-ending backslash leaves out the whitespace and newlines
// after it. Other keys, whatever their values, and everything inside
// tables are ignored; the lines that continue another key's value (an
// array, an inline table or a multi-line string) are passed over up to the
// one that closes it. The file is unusable, and all defaults apply, when a
// setting is given twice, is not a string, is used as a table
// (`model.x = ...`, or a header `[model]`), or when a value is left open at
// the end of the file.

/// The lines of `s`, split at each `\n` (the last one may be empty).
#[verifier::opaque]
pub open spec fn lines_of(s: Seq<char>) -> Seq<Seq<char>>
    decreases s.len(),
{
    match first_index_of(s, '\n') {
        None => seq![s],
        Some(i) => if 0 <= i < s.len() {
            seq![s.take(i)] + lines_of(s.skip(i + 1))
        } else {
            seq![s]
        },
    }
}

/// Settings found so far, and whether a table header has been seen.
pub struct FileSettings {
    pub model: Option<Seq<char>>,
    pub ollama_url: Option<Seq<char>>,
    pub language: Option<Seq<char>>,
    pub in_table: bool,
    /// How many arrays of a value that spans lines are still open.
    pub depth: nat,
    /// The quote of a multi-line string that is still open.
    pub open: Option<char>,
    /// A setting whose value, a multi-line string, is still being read.
    pub collecting: Option<Collecting>,
}

/// A setting whose value is a multi-line string that goes on past the
/// lines read so far.
pub struct Collecting {
    pub key: Seq<char>,
    /// `"` for a basic string, `'` for a literal one.
    pub quote: char,
    /// The value's text so far.
    pub text: Seq<char>,
    /// The last line ended in a line-ending backslash.
    pub trim: bool,
}

/// A line without the carriage return of a CRLF line ending.
pub open spec fn strip_cr(l: Seq<char>) -> Seq<char> {
    if l.len() > 0 && l.last() == '\r' {
        l.drop_last()
    } else {
        l
    }
}

/// How much leading whitespace the line `l` has.
pub open spec fn lead(l: Seq<char>) -> int {
    l.len() - trim_start_by(l, CharClass::Space).len()
}

/// A setting `key` whose value, starting at `start` of the trimmed line
/// `l`, is a multi-line string left open at the end of the line: its text
/// on this line, without a newline right after the opening quotes.
pub open spec fn start_collect(acc: FileSettings, key: Seq<char>, l: Seq<char>, start: int) -> Option<
    FileSettings,
> {
    let body = strip_cr(l);
    let r = lead(l) + start;
    let q = if triple_at(body, r, '"') {
        '"'
    } else {
        '\''
    };
    if !triple_at(body, r, q) {
        None
    } else {
        match segment(body, r + 3, q, false) {
            Segment::Open(text, tr) => Some(
                FileSettings {
                    collecting: Some(
                        Collecting {
                            key,
                            quote: q,
                            text: if r + 3 < body.len() && !tr {
                                text + seq!['\n']
                            } else {
                                text
                            },
                            trim: tr,
                        },
                    ),
                    ..acc
                },
            ),
            _ => None,
        }
    }
}

/// One more line of the multi-line value `c`: where the string ends, the
/// setting takes its text; otherwise the line and its newline are added
/// (the newline is left out after a line-ending backslash).
pub open spec fn continue_collect(acc: FileSettings, c: Collecting, l: Seq<char>) -> Option<
    FileSettings,
> {
    let body = strip_cr(l);
    match segment(body, 0, c.quote, c.trim) {
        Segment::Closed(text, end) => if ends_line(body, end) {
            give(FileSettings { collecting: None, ..acc }, c.key, c.text + text)
        } else {
            None
        },
        Segment::Open(text, tr) => Some(
            FileSettings {
                collecting: Some(
                    Collecting {
                        text: if tr {
                            c.text + text
                        } else {
                            c.text + text + seq!['\n']
                        },
                        trim: tr,
                        ..c
                    },
                ),
                ..acc
            },
        ),
        Segment::Invalid => None,
    }
}

/// `acc` with the setting `k` given the value `v`; `None` when `k` was
/// already given.
pub open spec fn give(acc: FileSettings, k: Seq<char>, v: Seq<char>) -> Option<FileSettings> {
    if k == "model"@ {
        if acc.model is Some {
            None
        } else {
            Some(FileSettings { model: Some(v), ..acc })
        }
    } else if k == "ollama_url"@ {
        if acc.ollama_url is Some {
            None
        } else {
            Some(FileSettings { ollama_url: Some(v), ..acc })
        }
    } else if k == "language"@ {
        if acc.language is Some {
            None
        } else {
            Some(FileSettings { language: Some(v), ..acc })
        }
    } else {
        Some(acc)
    }
}

/// One of the settings this tool reads.
pub open spec fn is_setting(k: Seq<char>) -> bool {
    k == "model"@ || k == "ollama_url"@ || k == "language"@
}

/// `acc` after one more line; `None` when the file is unusable. The lines
/// that continue a value of another key (an array or a multi-line string)
/// are passed over up to the one that ends it; those of a setting's
/// multi-line string make up its value.
pub open spec fn apply_line(acc: FileSettings, l: Seq<char>) -> Option<FileSettings> {
    if acc.collecting is Some {
        continue_collect(acc, acc.collecting.unwrap(), l)
    } else if acc.depth > 0 || acc.open is Some {
        let (d, o) = continue_open(l, acc.depth, acc.open);
        Some(FileSettings { depth: d, open: o, ..acc })
    } else {
        match line_kind(l) {
            LineKind::Skip => Some(acc),
            LineKind::Header(ks) => if ks.len() > 0 && is_setting(ks[0]) {
                None
            } else {
                Some(FileSettings { in_table: true, ..acc })
            },
            LineKind::Entry(ks, v, (d, o), start) => if acc.in_table || ks.len() == 0 || !is_setting(
                ks[0],
            ) {
                Some(FileSettings { depth: d, open: o, ..acc })
            } else if ks.len() > 1 {
                None
            } else {
                match v {
                    Some(x) => give(acc, ks[0], x),
                    None => start_collect(acc, ks[0], l, start),
                }
            },
        }
    }
}

/// The settings of a sequence of lines, starting from `acc`.
#[verifier::opaque]
pub open spec fn apply_lines(acc: FileSettings, lines: Seq<Seq<char>>) -> Option<FileSettings>
    decreases lines.len(),
{
    if lines.len() == 0 {
        Some(acc)
    } else {
        match apply_line(acc, lines[0]) {
            None => None,
            Some(next) => apply_lines(next, lines.drop_first()),
        }
    }
}

pub open spec fn no_settings() -> FileSettings {
    FileSettings {
        model: None,
        ollama_url: None,
        language: None,
        in_table: false,
        depth: 0,
        open: None,
        collecting: None,
    }
}

/// Nothing is left open at the end of the file.
pub open spec fn all_closed(st: FileSettings) -> bool {
    st.depth == 0 && st.open is None && st.collecting is None
}

/// The settings a configuration file holds (`None` if it is unusable, a
/// value left open at its end among the reasons).
pub open spec fn file_settings(content: Seq<char>) -> Option<FileSettings> {
    match apply_lines(no_settings(), lines_of(content)) {
        Some(st) => if all_closed(st) {
            Some(st)
        } else {
            None
        },
        None => None,
    }
}

/// A setting's value: the file's, or the default.
pub open spec fn or_default(v: Option<Seq<char>>, default: Seq<char>) -> Seq<char> {
    match v {
        Some(x) => x,
        None => default,
    }
}

/// The configuration for the file contents `content` (`None` when there is
/// no file).
pub open spec fn config_for(content: Option<Seq<char>>) -> (Seq<char>, Seq<char>, Seq<char>) {
    let s = match content {
        Some(c) => match file_settings(c) {
            Some(st) => st,
            None => no_settings(),
        },
        None => no_settings(),
    };
    (
        or_default(s.model, default_model_text()),
        or_default(s.ollama_url, default_url_text()),
        or_default(s.language, default_language_text()),
    )
}

/// Whether the characters `k` spell `word`.
fn spells(k: &Vec<char>, word: &str) -> (r: bool)
    ensures
        r == (k@ == word@),
{
    let w = chars_of(word);
    if w.len() != k.len() {
        return false;
    }
    let r = matches_at(k, &w, 0);
    assert(k@.subrange(0, w@.len() as int) =~= k@);
    r
}

/// Settings as they are read.
struct Found {
    model: Option<String>,
    ollama_url: Option<String>,
    language: Option<String>,
    in_table: bool,
    depth: usize,
    open: Option<char>,
    collecting: Option<Pending>,
}

/// A setting's multi-line value as it is read.
struct Pending {
    key: Vec<char>,
    quote: char,
    text: Vec<char>,
    trim: bool,
}

spec fn pending_view(p: Option<Pending>) -> Option<Collecting> {
    match p {
        Some(p) => Some(Collecting { key: p.key@, quote: p.quote, text: p.text@, trim: p.trim }),
        None => None,
    }
}

spec fn found_view(f: Found) -> FileSettings {
    FileSettings {
        model: match f.model {
            Some(s) => Some(s@),
            None => None,
        },
        ollama_url: match f.ollama_url {
            Some(s) => Some(s@),
            None => None,
        },
        language: match f.language {
            Some(s) => Some(s@),
            None => None,
        },
        in_table: f.in_table,
        depth: f.depth as nat,
        open: f.open,
        collecting: pending_view(f.collecting),
    }
}

/// Nothing read yet.
fn no_found() -> (f: Found)
    ensures
        found_view(f) == no_settings(),
{
    Found {
        model: None,
        ollama_url: None,
        language: None,
        in_table: false,
        depth: 0,
        open: None,
        collecting: None,
    }
}

/// A copy of `k`.
fn copy_chars(k: &Vec<char>) -> (r: Vec<char>)
    ensures
        r@ == k@,
{
    let mut r: Vec<char> = Vec::new();
    let mut i: usize = 0;
    while i < k.len()
        invariant
            i <= k.len(),
            r@ == k@.subrange(0, i as int),
        decreases k.len() - i,
    {
        r.push(k[i]);
        assert(k@.subrange(0, i + 1) =~= k@.subrange(0, i as int).push(k@[i as int]));
        i = i + 1;
    }
    assert(k@.subrange(0, k.len() as int) =~= k@);
    r
}

/// The line `v[lo..hi]` without the carriage return of a CRLF ending.
fn body_of(v: &Vec<char>, lo: usize, hi: usize) -> (t: Vec<char>)
    requires
        lo <= hi <= v.len(),
    ensures
        t@ == strip_cr(v@.subrange(lo as int, hi as int)),
{
    let end = if hi > lo && v[hi - 1] == '\r' {
        hi - 1
    } else {
        hi
    };
    let mut t: Vec<char> = Vec::new();
    let mut x = lo;
    while x < end
        invariant
            lo <= x <= end <= hi <= v.len(),
            t@ == v@.subrange(lo as int, x as int),
        decreases end - x,
    {
        t.push(v[x]);
        assert(v@.subrange(lo as int, x + 1) =~= v@.subrange(lo as int, x as int).push(
            v@[x as int],
        ));
        x = x + 1;
    }
    assert(t@ =~= strip_cr(v@.subrange(lo as int, hi as int)));
    t
}

/// Gives the setting `k` the value `x` (see `give`); false when it was
/// already given.
fn give_setting(found: &mut Found, k: &Vec<char>, x: Vec<char>) -> (ok: bool)
    ensures
        final(found).depth == old(found).depth,
        ok ==> give(found_view(*old(found)), k@, x@) == Some(found_view(*final(found))),
        !ok ==> give(found_view(*old(found)), k@, x@) is None,
{
    let ghost fv = found_view(*found);
    let ghost xv = x@;
    let text = string_from_chars(&x);
    if spells(k, "model") {
        if found.model.is_some() {
            false
        } else {
            found.model = Some(text);
            assert(found_view(*found) == FileSettings { model: Some(xv), ..fv });
            true
        }
    } else if spells(k, "ollama_url") {
        if found.ollama_url.is_some() {
            false
        } else {
            found.ollama_url = Some(text);
            assert(found_view(*found) == FileSettings { ollama_url: Some(xv), ..fv });
            true
        }
    } else if spells(k, "language") {
        if found.language.is_some() {
            false
        } else {
            found.language = Some(text);
            assert(found_view(*found) == FileSettings { language: Some(xv), ..fv });
            true
        }
    } else {
        true
    }
}

/// One more line of a setting's multi-line value (see `continue_collect`).
fn collect_line(v: &Vec<char>, lo: usize, hi: usize, found: &mut Found) -> (ok: bool)
    requires
        lo <= hi <= v.len(),
        old(found).collecting is Some,
    ensures
        final(found).depth == old(found).depth,
        ok ==> continue_collect(
            found_view(*old(found)),
            found_view(*old(found)).collecting.unwrap(),
            v@.subrange(lo as int, hi as int),
        ) == Some(found_view(*final(found))),
        !ok ==> continue_collect(
            found_view(*old(found)),
            found_view(*old(found)).collecting.unwrap(),
            v@.subrange(lo as int, hi as int),
        ) is None,
{
    let ghost fv = found_view(*found);
    let ghost c = fv.collecting.unwrap();
    let body = body_of(v, lo, hi);
    let mut taken: Option<Pending> = None;
    std::mem::swap(&mut found.collecting, &mut taken);
    let p = match taken {
        Some(p) => p,
        None => {
            return false;
        },
    };
    assert(found_view(*found) == FileSettings { collecting: None, ..fv });
    let seg = read_segment(&body, 0, p.quote, p.trim);
    match seg {
        SegmentRead::Closed(text, end) => {
            if !ends_here(&body, end) {
                return false;
            }
            let ghost tv = text@;
            let mut all = p.text;
            let mut more = text;
            all.append(&mut more);
            assert(all@ == c.text + tv);
            give_setting(found, &p.key, all)
        },
        SegmentRead::Open(text, tr) => {
            let ghost tv = text@;
            let mut all = p.text;
            let mut more = text;
            all.append(&mut more);
            if !tr {
                all.push('\n');
            }
            let ghost nc = Collecting {
                text: if tr {
                    c.text + tv
                } else {
                    c.text + tv + seq!['\n']
                },
                trim: tr,
                ..c
            };
            assert(all@ =~= nc.text);
            found.collecting = Some(Pending { key: p.key, quote: p.quote, text: all, trim: tr });
            assert(found_view(*found) == FileSettings { collecting: Some(nc), ..fv });
            true
        },
        SegmentRead::Invalid => false,
    }
}

/// A setting whose value starts at `a + start` of the line `v[lo..hi]`
/// and is no string that ends on the line: it must open a multi-line
/// string (see `start_collect`).
fn open_setting(
    v: &Vec<char>,
    lo: usize,
    hi: usize,
    a: usize,
    start: usize,
    key: Vec<char>,
    found: &mut Found,
) -> (ok: bool)
    requires
        lo <= a <= hi <= v.len(),
        start <= hi - a,
        v@.subrange(a as int, hi as int) == trim_start_by(
            v@.subrange(lo as int, hi as int),
            CharClass::Space,
        ),
        old(found).collecting is None,
    ensures
        final(found).depth == old(found).depth,
        ok ==> start_collect(
            found_view(*old(found)),
            key@,
            v@.subrange(lo as int, hi as int),
            start as int,
        ) == Some(found_view(*final(found))),
        !ok ==> start_collect(
            found_view(*old(found)),
            key@,
            v@.subrange(lo as int, hi as int),
            start as int,
        ) is None,
{
    let ghost fv = found_view(*found);
    let ghost l = v@.subrange(lo as int, hi as int);
    let body = body_of(v, lo, hi);
    let r = (a - lo) + start;
    assert(r as int == lead(l) + start);
    let q = if triple_here(&body, r, '"') {
        '"'
    } else {
        '\''
    };
    if !triple_here(&body, r, q) {
        return false;
    }
    match read_segment(&body, r + 3, q, false) {
        SegmentRead::Open(text, tr) => {
            let ghost tv = text@;
            let mut all = text;
            if r + 3 < body.len() && !tr {
                all.push('\n');
            }
            let ghost nc = Collecting {
                key: key@,
                quote: q,
                text: if r + 3 < body.len() && !tr {
                    tv + seq!['\n']
                } else {
                    tv
                },
                trim: tr,
            };
            assert(all@ =~= nc.text);
            found.collecting = Some(Pending { key, quote: q, text: all, trim: tr });
            assert(found_view(*found) == FileSettings { collecting: Some(nc), ..fv });
            true
        },
        _ => false,
    }
}

/// Applies the line `v[lo..hi]`; false when the file is unusable.
fn take_line(v: &Vec<char>, lo: usize, hi: usize, found: &mut Found) -> (ok: bool)
    requires
        lo <= hi <= v.len(),
        old(found).depth <= lo,
    ensures
        final(found).depth <= hi,
        ok ==> apply_line(found_view(*old(found)), v@.subrange(lo as int, hi as int)) == Some(
            found_view(*final(found)),
        ),
        !ok ==> apply_line(found_view(*old(found)), v@.subrange(lo as int, hi as int)) is None,
{
    let ghost fv = found_view(*found);
    if found.collecting.is_some() {
        return collect_line(v, lo, hi, found);
    }
    if found.depth > 0 || found.open.is_some() {
        let mut t: Vec<char> = Vec::new();
        let mut x = lo;
        while x < hi
            invariant
                lo <= x <= hi <= v.len(),
                t@ == v@.subrange(lo as int, x as int),
            decreases hi - x,
        {
            t.push(v[x]);
            assert(v@.subrange(lo as int, x + 1) =~= v@.subrange(lo as int, x as int).push(
                v@[x as int],
            ));
            x = x + 1;
        }
        let (d, o) = continue_line(&t, found.depth, found.open);
        found.depth = d;
        found.open = o;
        assert(found_view(*found) == FileSettings { depth: d as nat, open: o, ..fv });
        return true;
    }
    let (r, a) = read_line(v, lo, hi);
    match r {
        LineRead::Skip => true,
        LineRead::Header(ks) => {
            if ks.len() > 0 && (spells(&ks[0], "model") || spells(&ks[0], "ollama_url") || spells(
                &ks[0],
                "language",
            )) {
                return false;
            }
            found.in_table = true;
            assert(found_view(*found) == FileSettings { in_table: true, ..fv });
            true
        },
        LineRead::Entry(ks, value, opened, start) => {
            if found.in_table || ks.len() == 0 {
                found.depth = opened.0;
                found.open = opened.1;
                assert(found_view(*found) == FileSettings {
                    depth: opened.0 as nat,
                    open: opened.1,
                    ..fv
                });
                return true;
            }
            let k = &ks[0];
            let known = spells(k, "model") || spells(k, "ollama_url") || spells(k, "language");
            if !known {
                found.depth = opened.0;
                found.open = opened.1;
                assert(found_view(*found) == FileSettings {
                    depth: opened.0 as nat,
                    open: opened.1,
                    ..fv
                });
                return true;
            }
            if ks.len() > 1 {
                return false;
            }
            match value {
                Some(x) => give_setting(found, k, x),
                None => {
                    let key = copy_chars(k);
                    open_setting(v, lo, hi, a, start, key, found)
                },
            }
        },
    }
}

proof fn lemma_lines_last(s: Seq<char>)
    requires
        first_index_of(s, '\n') is None,
    ensures
        lines_of(s) == seq![s],
{
    reveal(lines_of);
}

proof fn lemma_lines_next(s: Seq<char>, i: int)
    requires
        0 <= i < s.len(),
        first_index_of(s, '\n') == Some(i),
    ensures
        lines_of(s) == seq![s.take(i)] + lines_of(s.skip(i + 1)),
{
    reveal(lines_of);
}

proof fn lemma_apply_one(acc: FileSettings, lines: Seq<Seq<char>>)
    requires
        lines.len() > 0,
    ensures
        apply_lines(acc, lines) == match apply_line(acc, lines[0]) {
            None => None,
            Some(next) => apply_lines(next, lines.drop_first()),
        },
{
    reveal(apply_lines);
}

proof fn lemma_apply_none(acc: FileSettings)
    ensures
        apply_lines(acc, Seq::<Seq<char>>::empty()) == Some(acc),
{
    reveal(apply_lines);
}


proof fn lemma_read_next(acc: FileSettings, rest: Seq<char>, i: int)
    requires
        0 <= i < rest.len(),
        first_index_of(rest, '\n') == Some(i),
    ensures
        apply_lines(acc, lines_of(rest)) == match apply_line(acc, rest.take(i)) {
            None => None,
            Some(next) => apply_lines(next, lines_of(rest.skip(i + 1))),
        },
{
    lemma_lines_next(rest, i);
    let ls = lines_of(rest);
    assert(ls.drop_first() =~= lines_of(rest.skip(i + 1)));
    lemma_apply_one(acc, ls);
}

proof fn lemma_read_last(acc: FileSettings, rest: Seq<char>)
    requires
        first_index_of(rest, '\n') is None,
    ensures
        apply_lines(acc, lines_of(rest)) == match apply_line(acc, rest) {
            None => None,
            Some(next) => Some(next),
        },
{
    lemma_lines_last(rest);
    lemma_apply_one(acc, seq![rest]);
    assert(seq![rest].drop_first() =~= Seq::<Seq<char>>::empty());
    match apply_line(acc, rest) {
        None => {},
        Some(next) => lemma_apply_none(next),
    }
}

/// The settings in the file text `content`, if it is usable.
#[verifier::rlimit(40)]
fn read_file(content: &str) -> (r: Option<Found>)
    ensures
        match r {
            Some(f) => file_settings(content@) == Some(found_view(f)),
            None => file_settings(content@) is None,
        },
{
    let v = chars_of(content);
    let n = v.len();
    let mut found = no_found();
    let mut pos: usize = 0;
    assert(v@.subrange(0, n as int) =~= content@);
    loop
        invariant
            pos <= n == v.len(),
            found.depth <= pos,
            v@ == content@,
            apply_lines(no_settings(), lines_of(content@)) == apply_lines(
                found_view(found),
                lines_of(v@.subrange(pos as int, n as int)),
            ),
        decreases n - pos,
    {
        let ghost rest = v@.subrange(pos as int, n as int);
        let ghost before = found_view(found);
        match find_char(&v, pos, n, '\n') {
            None => {
                proof {
                    lemma_read_last(before, rest);
                }
                let ok = take_line(&v, pos, n, &mut found);
                if ok && found.depth == 0 && found.open.is_none() && found.collecting.is_none() {
                    return Some(found);
                } else {
                    return None;
                }
            },
            Some(p) => {
                proof {
                    let i = (p - pos) as int;
                    assert(rest.take(i) =~= v@.subrange(pos as int, p as int));
                    assert(rest.skip(i + 1) =~= v@.subrange(p + 1, n as int));
                    lemma_read_next(before, rest, i);
                }
                let ok = take_line(&v, pos, p, &mut found);
                if !ok {
                    return None;
                }
                pos = p + 1;
            },
        }
    }
}

// ---------------------------------------------------------------------------
// Reading back what was written
// ---------------------------------------------------------------------------

/// A value that can stand between double quotes as it is: no quote, no
/// backslash, no control character.
pub open spec fn plain_text(v: Option<Seq<char>>) -> bool {
    match v {
        Some(x) => forall|k: int| 0 <= k < x.len() ==> plain_char(#[trigger] x[k]),
        None => true,
    }
}

/// A character that a basic string holds as it is.
pub open spec fn plain_char(c: char) -> bool {
    c != '"' && c != '\\' && !is_control(c)
}

/// The line `key = "x"`.
pub open spec fn setting_line(key: Seq<char>, x: Seq<char>) -> Seq<char> {
    key + seq![' ', '=', ' ', '"'] + x + seq!['"']
}

/// The line that sets `key` to `v`, with its newline; nothing for `None`.
pub open spec fn setting_text(key: Seq<char>, v: Option<Seq<char>>) -> Seq<char> {
    match v {
        Some(x) => setting_line(key, x) + seq!['\n'],
        None => Seq::empty(),
    }
}

/// A configuration file that sets the given settings, one per line.
pub open spec fn settings_file(
    model: Option<Seq<char>>,
    ollama_url: Option<Seq<char>>,
    language: Option<Seq<char>>,
) -> Seq<char> {
    setting_text("model"@, model) + setting_text("ollama_url"@, ollama_url) + setting_text(
        "language"@,
        language,
    )
}

/// The line `key = "x"` of a setting reads as that setting with that value.
proof fn lemma_setting_line(key: Seq<char>, x: Seq<char>)
    requires
        is_setting(key),
        forall|k: int| 0 <= k < x.len() ==> plain_char(#[trigger] x[k]),
    ensures
        line_kind(setting_line(key, x)) == LineKind::Entry(
            seq![key],
            Some(x),
            (0, None),
            key.len() + 3int,
        ),
{
    reveal_strlit("model");
    reveal_strlit("ollama_url");
    reveal_strlit("language");
    let l = setting_line(key, x);
    let n = key.len() as int;
    assert(forall|k: int| 0 <= k < n ==> is_key_char(#[trigger] key[k]));
    assert(l[0] == key[0]);
    lemma_trim_by_untouched(l, CharClass::Space);
    assert(forall|k: int| 0 <= k < n ==> #[trigger] l[k] == key[k]);
    assert(l[n] == ' ' && l[n + 1] == '=' && l[n + 2] == ' ' && l[n + 3] == '"');
    assert(l[l.len() - 1] == '"');
    assert(skip_blanks(l, 0) == 0);
    lemma_bare_end(l, 0, n);
    assert(l.subrange(0, n) =~= key);
    assert(skip_blanks(l, n + 1) == n + 1);
    assert(skip_blanks(l, n) == n + 1);
    assert(key_path(l, 0) == Some((seq![key], n + 1)));
    assert(skip_blanks(l, n + 3) == n + 3);
    assert(skip_blanks(l, n + 2) == n + 3);
    let s = n + 3;
    assert(l.len() == s + 2 + x.len());
    if x.len() > 0 {
        assert(l[s + 1] == x[0]);
        assert(plain_char(x[0]));
    }
    assert(!triple_at(l, s, '"'));
    assert(!triple_at(l, s, '\''));
    assert forall|k: int| s + 1 <= k < l.len() - 1 implies #[trigger] l[k] != '"' && l[k] != '\\'
        && !is_control(l[k]) by {
        let j = k - s - 1;
        assert(l[k] == x[j]);
        assert(plain_char(x[j]));
    }
    lemma_basic_plain(l, s + 1, l.len() - 1);
    assert(l.subrange(s + 1, l.len() - 1) =~= x);
    assert(skip_blanks(l, l.len() as int) == l.len());
    assert(string_value(l, n + 1) == Some(x));
    assert(value_open(l, n + 1) == (0nat, None::<char>));
}

/// Reading the lines of a setting's text and then of `rest`.
proof fn lemma_settings_step(acc: FileSettings, key: Seq<char>, v: Option<Seq<char>>, rest: Seq<char>)
    requires
        is_setting(key),
        plain_text(v),
        acc.depth == 0 && acc.open is None && !acc.in_table && acc.collecting is None,
        v is Some ==> give(acc, key, v.unwrap()) is Some,
    ensures
        apply_lines(acc, lines_of(setting_text(key, v) + rest)) == apply_lines(
            match v {
                Some(x) => give(acc, key, x).unwrap(),
                None => acc,
            },
            lines_of(rest),
        ),
{
    match v {
        Some(x) => {
            let l = setting_line(key, x);
            let s = setting_text(key, v) + rest;
            assert(s =~= l + (seq!['\n'] + rest));
            assert forall|k: int| 0 <= k < l.len() implies #[trigger] s[k] != '\n' by {
                reveal_strlit("model");
                reveal_strlit("ollama_url");
                reveal_strlit("language");
                let n = key.len() as int;
                if k < n {
                    assert(s[k] == key[k]);
                } else if n + 4 <= k < n + 4 + x.len() {
                    assert(s[k] == x[k - n - 4]);
                }
            }
            assert(s[l.len() as int] == '\n');
            lemma_first_index_at(s, '\n', l.len() as int);
            lemma_read_next(acc, s, l.len() as int);
            assert(s.take(l.len() as int) =~= l);
            assert(s.skip(l.len() as int + 1) =~= rest);
            lemma_setting_line(key, x);
        },
        None => {
            assert(setting_text(key, v) + rest =~= rest);
        },
    }
}

/// A file written with `model = "…"`, `ollama_url = "…"` and
/// `language = "…"` lines, each setting present or left out, reads back as
/// those settings, with the defaults for the ones left out.
pub proof fn law_written_settings_read_back(
    model: Option<Seq<char>>,
    ollama_url: Option<Seq<char>>,
    language: Option<Seq<char>>,
)
    requires
        plain_text(model),
        plain_text(ollama_url),
        plain_text(language),
    ensures
        file_settings(settings_file(model, ollama_url, language)) matches Some(st) && st.model
            == model && st.ollama_url == ollama_url && st.language == language,
        config_for(Some(settings_file(model, ollama_url, language))) == (
            or_default(model, default_model_text()),
            or_default(ollama_url, default_url_text()),
            or_default(language, default_language_text()),
        ),
{
    reveal_strlit("model");
    reveal_strlit("ollama_url");
    reveal_strlit("language");
    let a = setting_text("model"@, model);
    let b = setting_text("ollama_url"@, ollama_url);
    let c = setting_text("language"@, language);
    let s0 = no_settings();
    let s1 = FileSettings { model, ..s0 };
    let s2 = FileSettings { ollama_url, ..s1 };
    let s3 = FileSettings { language, ..s2 };
    assert(settings_file(model, ollama_url, language) =~= a + (b + c));
    lemma_settings_step(s0, "model"@, model, b + c);
    lemma_settings_step(s1, "ollama_url"@, ollama_url, c);
    assert(c =~= c + Seq::<char>::empty());
    lemma_settings_step(s2, "language"@, language, Seq::<char>::empty());
    assert(first_index_of(Seq::<char>::empty(), '\n') is None);
    lemma_read_last(s3, Seq::<char>::empty());
    assert(trim(Seq::<char>::empty()) =~= Seq::<char>::empty());
    assert(line_kind(Seq::<char>::empty()) == LineKind::Skip);
}

/// The configuration file written when there is none: the default model
/// and server, one per line. It sets no language, so that explanations keep
/// following the locale.
pub open spec fn default_file() -> Seq<char> {
    settings_file(Some(default_model_text()), Some(default_url_text()), None)
}

/// The text of `default_file`.
pub fn default_config_text() -> (r: String)
    ensures
        r@ == default_file(),
{
    let mut s = String::new();
    s.append("model");
    s.append(" = \"");
    s.append("mistral");
    s.append("\"\n");
    s.append("ollama_url");
    s.append(" = \"");
    s.append("http://localhost:11434");
    s.append("\"\n");
    proof {
        reveal_strlit("model");
        reveal_strlit("ollama_url");
        reveal_strlit(" = \"");
        reveal_strlit("\"\n");
        assert(s@ =~= settings_file(Some(default_model_text()), Some(default_url_text()), None));
    }
    s
}

/// The configuration file written when there is none reads back as the
/// default model and server, and leaves the language to the locale.
pub proof fn law_default_file_reads_as_defaults()
    ensures
        config_for(Some(default_file())) == (
            default_model_text(),
            default_url_text(),
            default_language_text(),
        ),
        language_in(Some(default_file())) is None,
{
    reveal_strlit("mistral");
    reveal_strlit("http://localhost:11434");
    assert(plain_text(Some(default_model_text())));
    assert(plain_text(Some(default_url_text())));
    law_written_settings_read_back(Some(default_model_text()), Some(default_url_text()), None);
}

/// A setting is refused as given twice exactly when that same setting was
/// given before; otherwise it is set, and nothing else changes.
pub proof fn law_give_refuses_only_repeats(acc: FileSettings, v: Seq<char>)
    ensures
        give(acc, "model"@, v) is None <==> acc.model is Some,
        give(acc, "ollama_url"@, v) is None <==> acc.ollama_url is Some,
        give(acc, "language"@, v) is None <==> acc.language is Some,
        give(acc, "model"@, v) matches Some(st) ==> st == (FileSettings { model: Some(v), ..acc }),
        give(acc, "ollama_url"@, v) matches Some(st) ==> st == (FileSettings {
            ollama_url: Some(v),
            ..acc
        }),
        give(acc, "language"@, v) matches Some(st) ==> st == (FileSettings {
            language: Some(v),
            ..acc
        }),
{
    reveal_strlit("model");
    reveal_strlit("ollama_url");
    reveal_strlit("language");
    assert("model"@.len() == 5 && "ollama_url"@.len() == 10 && "language"@.len() == 8);
}

/// A file with one `key = "value"` line for each pair, in the given order.
pub open spec fn lines_file(pairs: Seq<(Seq<char>, Seq<char>)>) -> Seq<char>
    decreases pairs.len(),
{
    if pairs.len() == 0 {
        Seq::empty()
    } else {
        setting_line(pairs[0].0, pairs[0].1) + seq!['\n'] + lines_file(pairs.drop_first())
    }
}

/// The value paired with `k`, if any.
pub open spec fn value_in(pairs: Seq<(Seq<char>, Seq<char>)>, k: Seq<char>) -> Option<Seq<char>>
    decreases pairs.len(),
{
    if pairs.len() == 0 {
        None
    } else if pairs[0].0 == k {
        Some(pairs[0].1)
    } else {
        value_in(pairs.drop_first(), k)
    }
}

/// Each pair names a different setting and holds a plain value.
pub open spec fn distinct_settings(pairs: Seq<(Seq<char>, Seq<char>)>) -> bool {
    &&& forall|i: int| 0 <= i < pairs.len() ==> is_setting(#[trigger] pairs[i].0)
    &&& forall|i: int| 0 <= i < pairs.len() ==> plain_text(Some(#[trigger] pairs[i].1))
    &&& forall|i: int, j: int| 0 <= i < j < pairs.len() ==> pairs[i].0 != pairs[j].0
}

spec fn or_else(v: Option<Seq<char>>, d: Option<Seq<char>>) -> Option<Seq<char>> {
    match v {
        Some(x) => Some(x),
        None => d,
    }
}

proof fn lemma_value_absent(pairs: Seq<(Seq<char>, Seq<char>)>, k: Seq<char>)
    requires
        forall|i: int| 0 <= i < pairs.len() ==> #[trigger] pairs[i].0 != k,
    ensures
        value_in(pairs, k) is None,
    decreases pairs.len(),
{
    if pairs.len() > 0 {
        let rest = pairs.drop_first();
        assert forall|i: int| 0 <= i < rest.len() implies #[trigger] rest[i].0 != k by {
            assert(rest[i] == pairs[i + 1]);
        }
        assert(pairs[0].0 != k);
        lemma_value_absent(rest, k);
    }
}

proof fn lemma_pairs(acc: FileSettings, pairs: Seq<(Seq<char>, Seq<char>)>)
    requires
        distinct_settings(pairs),
        acc.depth == 0 && acc.open is None && !acc.in_table && acc.collecting is None,
        forall|i: int|
            0 <= i < pairs.len() ==> (#[trigger] pairs[i].0 == "model"@ ==> acc.model is None) && (
            pairs[i].0 == "ollama_url"@ ==> acc.ollama_url is None) && (pairs[i].0 == "language"@
                ==> acc.language is None),
    ensures
        apply_lines(acc, lines_of(lines_file(pairs))) == Some(
            (FileSettings {
                model: or_else(value_in(pairs, "model"@), acc.model),
                ollama_url: or_else(value_in(pairs, "ollama_url"@), acc.ollama_url),
                language: or_else(value_in(pairs, "language"@), acc.language),
                ..acc
            }),
        ),
    decreases pairs.len(),
{
    reveal_strlit("model");
    reveal_strlit("ollama_url");
    reveal_strlit("language");
    if pairs.len() == 0 {
        let e = Seq::<char>::empty();
        assert(first_index_of(e, '\n') is None);
        lemma_read_last(acc, e);
        assert(trim(e) =~= e);
        assert(line_kind(e) == LineKind::Skip);
        assert(FileSettings {
            model: or_else(value_in(pairs, "model"@), acc.model),
            ollama_url: or_else(value_in(pairs, "ollama_url"@), acc.ollama_url),
            language: or_else(value_in(pairs, "language"@), acc.language),
            ..acc
        } == acc);
    } else {
        let k = pairs[0].0;
        let v = pairs[0].1;
        let rest = pairs.drop_first();
        assert(is_setting(k));
        assert(plain_text(Some(v)));
        assert(lines_file(pairs) =~= setting_text(k, Some(v)) + lines_file(rest));
        law_give_refuses_only_repeats(acc, v);
        assert(give(acc, k, v) is Some);
        lemma_settings_step(acc, k, Some(v), lines_file(rest));
        let acc2 = give(acc, k, v).unwrap();
        assert(distinct_settings(rest)) by {
            assert forall|i: int| 0 <= i < rest.len() implies is_setting(#[trigger] rest[i].0) by {
                assert(rest[i] == pairs[i + 1]);
            }
            assert forall|i: int| 0 <= i < rest.len() implies plain_text(
                Some(#[trigger] rest[i].1),
            ) by {
                assert(rest[i] == pairs[i + 1]);
            }
            assert forall|i: int, j: int| 0 <= i < j < rest.len() implies rest[i].0 != rest[j].0 by {
                assert(rest[i] == pairs[i + 1]);
                assert(rest[j] == pairs[j + 1]);
            }
        }
        assert forall|i: int|
            0 <= i < rest.len() implies (#[trigger] rest[i].0 == "model"@ ==> acc2.model is None)
            && (rest[i].0 == "ollama_url"@ ==> acc2.ollama_url is None) && (rest[i].0
            == "language"@ ==> acc2.language is None) by {
            assert(rest[i] == pairs[i + 1]);
            assert(pairs[0].0 != pairs[i + 1].0);
        }
        lemma_pairs(acc2, rest);
        assert forall|i: int| 0 <= i < rest.len() implies #[trigger] rest[i].0 != k by {
            assert(rest[i] == pairs[i + 1]);
        }
        lemma_value_absent(rest, k);
        assert("model"@.len() == 5 && "ollama_url"@.len() == 10 && "language"@.len() == 8);
    }
}

/// A file that gives each of some settings a plain value, one line each,
/// reads back as those values whatever the order of the lines, with the
/// defaults for the settings it leaves out.
pub proof fn law_settings_read_back_in_any_order(pairs: Seq<(Seq<char>, Seq<char>)>)
    requires
        distinct_settings(pairs),
    ensures
        file_settings(lines_file(pairs)) matches Some(st) && st.model == value_in(pairs, "model"@)
            && st.ollama_url == value_in(pairs, "ollama_url"@) && st.language == value_in(
            pairs,
            "language"@,
        ),
        config_for(Some(lines_file(pairs))) == (
            or_default(value_in(pairs, "model"@), default_model_text()),
            or_default(value_in(pairs, "ollama_url"@), default_url_text()),
            or_default(value_in(pairs, "language"@), default_language_text()),
        ),
{
    lemma_pairs(no_settings(), pairs);
}

/// The configuration, given the text of the configuration file (`None`
/// when there is none): each setting the file holds, the default for the
/// others, and all defaults when the file is unusable.
pub fn load(content: Option<String>) -> (r: Config)
    ensures
        (r.model@, r.ollama_url@, r.language@) == config_for(
            match content {
                Some(c) => Some(c@),
                None => None,
            },
        ),
{
    let found = match content {
        Some(c) => match read_file(c.as_str()) {
            Some(f) => f,
            None => no_found(),
        },
        None => no_found(),
    };
    Config {
        model: match found.model {
            Some(m) => m,
            None => default_model(),
        },
        ollama_url: match found.ollama_url {
            Some(u) => u,
            None => default_ollama_url(),
        },
        language: match found.language {
            Some(l) => l,
            None => default_language(),
        },
    }
}

/// The language that the file contents `content` set, if the file is usable
/// and sets one.
pub open spec fn language_in(content: Option<Seq<char>>) -> Option<Seq<char>> {
    match content {
        Some(c) => match file_settings(c) {
            Some(st) => st.language,
            None => None,
        },
        None => None,
    }
}

/// The language that the configuration file sets, if it is usable and sets
/// one; `None` leaves the choice to the locale.
pub fn configured_language(content: Option<String>) -> (r: Option<String>)
    ensures
        match r {
            Some(l) => language_in(
                match content {
                    Some(c) => Some(c@),
                    None => None,
                },
            ) == Some(l@),
            None => language_in(
                match content {
                    Some(c) => Some(c@),
                    None => None,
                },
            ) is None,
        },
{
    match content {
        Some(c) => match read_file(c.as_str()) {
            Some(f) => f.language,
            None => None,
        },
        None => None,
    }
}

} // verus!
