//! The command history: entries, their rotation, the file location, and
//! ISO-8601 timestamps computed from seconds since the Unix epoch.
use vstd::prelude::*;
use crate::text::{copy_str, decimal, digit, push_padded, string_from_chars, zero_pad};

verus! {

/// The history keeps at most this many entries; older ones are dropped.
pub const MAX_ENTRIES: usize = 1000;

/// Where a command was produced.
pub struct LogContext {
    pub pwd: String,
    pub os: String,
}

/// One line of the command history.
pub struct LogEntry {
    pub timestamp: String,
    pub input: String,
    pub command: String,
    pub action: String,
    pub exit_code: Option<i32>,
    pub context: LogContext,
}

/// The history after `entry` is added: the old entries followed by `entry`,
/// of which only the newest `MAX_ENTRIES` are kept, in their order.
pub open spec fn rotated<T>(old_entries: Seq<T>, entry: T) -> Seq<T> {
    let all = old_entries.push(entry);
    if all.len() > MAX_ENTRIES {
        all.subrange(all.len() - MAX_ENTRIES, all.len() as int)
    } else {
        all
    }
}

/// Adding an entry keeps at most `MAX_ENTRIES` entries: the history grows by
/// one until it is full, the new entry comes last, and the entries that stay
/// are the newest of the old ones, in their original order.
pub proof fn law_rotation_keeps_newest<T>(old_entries: Seq<T>, entry: T)
    ensures
        rotated(old_entries, entry).len() == if old_entries.len() + 1 <= MAX_ENTRIES {
            old_entries.len() + 1 as int
        } else {
            MAX_ENTRIES as int
        },
        rotated(old_entries, entry).last() == entry,
        forall|i: int|
            0 <= i < rotated(old_entries, entry).len() - 1 ==> #[trigger] rotated(
                old_entries,
                entry,
            )[i] == old_entries[old_entries.len() + 1 - rotated(old_entries, entry).len() + i],
{
}

/// Adds `entry` at the end of the history and drops the oldest entries
/// beyond `MAX_ENTRIES`.
pub fn append_entry(entries: &mut Vec<LogEntry>, entry: LogEntry)
    ensures
        final(entries)@ == rotated(old(entries)@, entry),
        final(entries)@.len() <= MAX_ENTRIES,
        final(entries)@.last() == entry,
{
    let n = entries.len();
    if n >= MAX_ENTRIES {
        let kept = entries.split_off(n - (MAX_ENTRIES - 1));
        *entries = kept;
    }
    let ghost before = entries@;
    entries.push(entry);
    proof {
        let all = old(entries)@.push(entry);
        if n >= MAX_ENTRIES {
            assert(entries@ =~= all.subrange(all.len() - MAX_ENTRIES, all.len() as int));
        } else {
            assert(entries@ =~= all);
        }
    }
}



/// What became of a generated command, as the history records it.
#[derive(PartialEq, Eq, Structural, Clone, Copy, Debug)]
pub enum LoggedAction {
    DryRun,
    Executed,
    Cancelled,
    Copied,
}

pub open spec fn action_text(a: LoggedAction) -> Seq<char> {
    match a {
        LoggedAction::DryRun => "dry-run"@,
        LoggedAction::Executed => "executed"@,
        LoggedAction::Cancelled => "cancelled"@,
        LoggedAction::Copied => "copied"@,
    }
}

/// The history's labels: `dry-run`, `executed`, `cancelled`, `copied`.
pub proof fn law_action_labels()
    ensures
        action_text(LoggedAction::DryRun) == "dry-run"@,
        action_text(LoggedAction::Executed) == "executed"@,
        action_text(LoggedAction::Cancelled) == "cancelled"@,
        action_text(LoggedAction::Copied) == "copied"@,
{
}

/// The `action` field written for `a`.
pub fn action_label(a: LoggedAction) -> (r: String)
    ensures
        r@ == action_text(a),
{
    match a {
        LoggedAction::DryRun => copy_str("dry-run"),
        LoggedAction::Executed => copy_str("executed"),
        LoggedAction::Cancelled => copy_str("cancelled"),
        LoggedAction::Copied => copy_str("copied"),
    }
}

/// Adds the entry for one use of the tool to `history`: stamped with the
/// time `now_secs` (seconds since the Unix epoch), rotated as by
/// `append_entry`.
pub fn record(
    history: &mut Vec<LogEntry>,
    now_secs: u64,
    input: &str,
    command: &str,
    action: &str,
    exit_code: Option<i32>,
    pwd: &str,
    os: &str,
)
    ensures
        final(history)@.len() <= MAX_ENTRIES,
        final(history)@.len() >= 1,
        final(history)@ == rotated(old(history)@, final(history)@.last()),
        ({
            let e = final(history)@.last();
            &&& e.input@ == input@
            &&& e.command@ == command@
            &&& e.action@ == action@
            &&& e.exit_code == exit_code
            &&& e.context.pwd@ == pwd@
            &&& e.context.os@ == os@
            &&& e.timestamp@ == timestamp_text(now_secs as nat)
        }),
{
    let entry = LogEntry {
        timestamp: format_timestamp(now_secs),
        input: copy_str(input),
        command: copy_str(command),
        action: copy_str(action),
        exit_code,
        context: LogContext { pwd: copy_str(pwd), os: copy_str(os) },
    };
    append_entry(history, entry);
}

// ---------------------------------------------------------------------------
// History file location
// ---------------------------------------------------------------------------

/// `Path::join` for a relative `rel`: a `/` is inserted unless `base` is
/// empty or already ends with one.
pub open spec fn path_join(base: Seq<char>, rel: Seq<char>) -> Seq<char> {
    if base.len() == 0 || base.last() == '/' {
        base + rel
    } else {
        base + seq!['/'] + rel
    }
}

/// The history file below the home directory (`.` when `HOME` is unset).
pub open spec fn history_file(home: Option<Seq<char>>) -> Seq<char> {
    let base = match home {
        Some(h) => h,
        None => seq!['.'],
    };
    path_join(
        path_join(path_join(path_join(base, ".local"@), "share"@), "ta"@),
        "history.json"@,
    )
}

fn join_into(base: String, rel: &str) -> (r: String)
    ensures
        r@ == path_join(base@, rel@),
{
    let mut out = base;
    let n = out.as_str().unicode_len();
    if n > 0 && out.as_str().get_char(n - 1) != '/' {
        out.append("/");
        proof {
            reveal_strlit("/");
        }
    }
    out.append(rel);
    out
}

/// The history file is `.local/share/ta/history.json` under the home
/// directory (one `/` between the parts), or under `.` without one.
pub proof fn law_history_location(home: Seq<char>)
    ensures
        home.len() > 0 && home.last() != '/' ==> history_file(Some(home)) == home + seq!['/']
            + ".local"@ + seq!['/'] + "share"@ + seq!['/'] + "ta"@ + seq!['/'] + "history.json"@,
        home.len() > 0 && home.last() == '/' ==> history_file(Some(home)) == home + ".local"@
            + seq!['/'] + "share"@ + seq!['/'] + "ta"@ + seq!['/'] + "history.json"@,
        history_file(None) == seq!['.', '/'] + ".local"@ + seq!['/'] + "share"@ + seq!['/']
            + "ta"@ + seq!['/'] + "history.json"@,
{
    reveal_strlit(".local");
    reveal_strlit("share");
    reveal_strlit("ta");
    let tail = ".local"@ + seq!['/'] + "share"@ + seq!['/'] + "ta"@ + seq!['/'] + "history.json"@;
    assert(path_join(seq!['.'], ".local"@) =~= seq!['.', '/'] + ".local"@);
    if home.len() > 0 {
        let a = path_join(home, ".local"@);
        let b = path_join(a, "share"@);
        let c = path_join(b, "ta"@);
        assert(a.last() == 'l');
        assert(b.last() == 'e');
        assert(c.last() == 'a');
        if home.last() != '/' {
            assert(history_file(Some(home)) =~= home + seq!['/'] + tail);
        } else {
            assert(history_file(Some(home)) =~= home + tail);
        }
    }
    assert(history_file(None) =~= seq!['.', '/'] + tail);
}

/// Path of the history file, given the value of `HOME` if it is set.
pub fn history_path(home: Option<String>) -> (r: String)
    ensures
        r@ == history_file(
            match home {
                Some(h) => Some(h@),
                None => None,
            },
        ),
{
    let base = match home {
        Some(h) => h,
        None => {
            let mut d = String::new();
            d.append(".");
            proof {
                reveal_strlit(".");
            }
            d
        },
    };
    let p = join_into(base, ".local");
    let p = join_into(p, "share");
    let p = join_into(p, "ta");
    join_into(p, "history.json")
}

// ---------------------------------------------------------------------------
// Calendar
// ---------------------------------------------------------------------------

/// Gregorian leap year.
pub open spec fn is_leap(y: int) -> bool {
    y % 4 == 0 && (y % 100 != 0 || y % 400 == 0)
}

pub open spec fn year_length(y: int) -> int {
    if is_leap(y) {
        366
    } else {
        365
    }
}

pub open spec fn month_length(y: int, m: int) -> int {
    if m == 2 {
        if is_leap(y) {
            29
        } else {
            28
        }
    } else if m == 4 || m == 6 || m == 9 || m == 11 {
        30
    } else {
        31
    }
}

/// Days of year `y` before the first of month `m`.
pub open spec fn days_before_month(y: int, m: int) -> int {
    let base: int = if m <= 1 {
        0
    } else if m == 2 {
        31
    } else if m == 3 {
        59
    } else if m == 4 {
        90
    } else if m == 5 {
        120
    } else if m == 6 {
        151
    } else if m == 7 {
        181
    } else if m == 8 {
        212
    } else if m == 9 {
        243
    } else if m == 10 {
        273
    } else if m == 11 {
        304
    } else {
        334
    };
    if m > 2 && is_leap(y) {
        base + 1
    } else {
        base
    }
}

/// Leap years among the years `1 ..= y - 1`.
pub open spec fn leaps_before(y: int) -> int {
    (y - 1) / 4 - (y - 1) / 100 + (y - 1) / 400
}

/// Days from 1970-01-01 to the first of January of year `y`.
pub open spec fn days_before_year(y: int) -> int {
    365 * (y - 1970) + leaps_before(y) - leaps_before(1970)
}

/// Days from 1970-01-01 to the date `y-m-d`.
pub open spec fn days_from_civil(y: int, m: int, d: int) -> int {
    days_before_year(y) + days_before_month(y, m) + d - 1
}

/// A date of the proleptic Gregorian calendar.
pub open spec fn valid_date(y: int, m: int, d: int) -> bool {
    1 <= m <= 12 && 1 <= d <= month_length(y, m)
}

proof fn lemma_next_year(y: int)
    ensures
        days_before_year(y + 1) == days_before_year(y) + year_length(y),
{
    let z = y - 1;
    assert(y / 4 == z / 4 + if y % 4 == 0 { 1int } else { 0int });
    assert(y / 100 == z / 100 + if y % 100 == 0 { 1int } else { 0int });
    assert(y / 400 == z / 400 + if y % 400 == 0 { 1int } else { 0int });
    assert(y % 400 == 0 ==> y % 100 == 0) by {
        if y % 400 == 0 {
            assert(y == 400 * (y / 400));
            assert(y == 100 * (4 * (y / 400)));
        }
    }
    assert(y % 100 == 0 ==> y % 4 == 0) by {
        if y % 100 == 0 {
            assert(y == 100 * (y / 100));
            assert(y == 4 * (25 * (y / 100)));
        }
    }
}

// The conversion counts in years that begin on the first of March, so that
// the leap day is the last day of its year. An era of 400 such years has
// 146097 days and begins on the first of March of a multiple of 400.

/// Days from the start of an era to the first of March of its year `k`
/// (`0 <= k < 400`).
spec fn era_days(k: int) -> int {
    365 * k + k / 4 - k / 100
}

/// Days from 0000-03-01 to the first of March of year `y`.
spec fn march_start(y: int) -> int {
    365 * y + y / 4 - y / 100 + y / 400
}

/// Days from the first of March to the first day of month `mp`, counting
/// months from March (`mp == 0`) to February (`mp == 11`).
spec fn month_offset(mp: int) -> int {
    (153 * mp + 2) / 5
}

proof fn lemma_year_of_era(doe: int)
    requires
        0 <= doe <= 146096,
    ensures
        ({
            let yoe = (doe - doe / 1460 + doe / 36524 - doe / 146096) / 365;
            0 <= yoe <= 399 && era_days(yoe) <= doe < era_days(yoe + 1) + if yoe == 399 {
                1int
            } else {
                0int
            }
        }),
{
}

proof fn lemma_month_of_year(doy: int)
    requires
        0 <= doy <= 365,
    ensures
        ({
            let mp = (5 * doy + 2) / 153;
            &&& 0 <= mp <= 11
            &&& month_offset(mp) <= doy
            &&& mp < 11 ==> doy < month_offset(mp + 1)
        }),
{
}

proof fn lemma_march_start_of_era(e: int, k: int)
    requires
        0 <= e,
        0 <= k < 400,
    ensures
        march_start(400 * e + k) == 146097 * e + era_days(k),
{
    assert((400 * e + k) / 4 == 100 * e + k / 4);
    assert((400 * e + k) / 100 == 4 * e + k / 100);
    assert((400 * e + k) / 400 == e);
}

proof fn lemma_march_start_from_epoch(y: int)
    ensures
        days_before_year(y) + 59 + if is_leap(y) {
            1int
        } else {
            0int
        } == march_start(y) - 719468,
{
}

proof fn lemma_march_year_length(e: int, k: int)
    requires
        0 <= e,
        0 <= k < 400,
    ensures
        era_days(k + 1) - era_days(k) + (if k == 399 {
            1int
        } else {
            0int
        }) == 365 + if is_leap(400 * e + k + 1) {
            1int
        } else {
            0int
        },
{
    assert((400 * e + k + 1) % 4 == (k + 1) % 4);
    assert((400 * e + k + 1) % 100 == (k + 1) % 100);
    assert((400 * e + k + 1) % 400 == (k + 1) % 400);
}

proof fn lemma_date_from_march(y: int, doy: int, days: int)
    requires
        march_start(y) + doy == days + 719468,
        0 <= doy < 365 + if is_leap(y + 1) {
            1int
        } else {
            0int
        },
    ensures
        ({
            let mp = (5 * doy + 2) / 153;
            let d = doy - month_offset(mp) + 1;
            let m = if mp < 10 {
                mp + 3
            } else {
                mp - 9
            };
            let year = if m <= 2 {
                y + 1
            } else {
                y
            };
            valid_date(year, m, d) && days_from_civil(year, m, d) == days
        }),
{
    lemma_month_of_year(doy);
    lemma_march_start_from_epoch(y);
    lemma_next_year(y);
    let mp = (5 * doy + 2) / 153;
    if mp < 10 {
        assert(days_before_month(y, mp + 3) == month_offset(mp) + 59 + if is_leap(y) {
            1int
        } else {
            0int
        });
        assert(month_offset(mp + 1) - month_offset(mp) == month_length(y, mp + 3));
    } else {
        assert(days_before_month(y + 1, mp - 9) == month_offset(mp) - 306);
        if mp == 10 {
            assert(month_offset(11) - month_offset(10) == 31);
        }
    }
}

/// The calendar date `days` days after 1970-01-01, as (year, month, day);
/// the year is reduced modulo 2^32.
pub fn days_to_ymd(days: u64) -> (r: (u32, u32, u32))
    ensures
        (r.0 as int, r.1 as int, r.2 as int) == civil_date(days as nat),
{
    // z = days + 719468 counts days from 0000-03-01; z = 146097 * era + doe.
    let mut era: u64 = days / 146097 + 4;
    let mut doe: u64 = days % 146097 + 135080;
    if doe >= 146097 {
        era = era + 1;
        doe = doe - 146097;
    }
    assert(146097 * era + doe == days + 719468);
    proof {
        lemma_year_of_era(doe as int);
    }
    let yoe = (doe - doe / 1460 + doe / 36524 - doe / 146096) / 365;
    let y = yoe + era * 400;
    let doy = doe - (365 * yoe + yoe / 4 - yoe / 100);
    proof {
        lemma_march_year_length(era as int, yoe as int);
        lemma_month_of_year(doy as int);
    }
    let mp = (5 * doy + 2) / 153;
    let d = doy - (153 * mp + 2) / 5 + 1;
    let m = if mp < 10 {
        mp + 3
    } else {
        mp - 9
    };
    let year = if m <= 2 {
        y + 1
    } else {
        y
    };
    proof {
        lemma_march_start_of_era(era as int, yoe as int);
        lemma_date_from_march(y as int, doy as int, days as int);
    }
    let r = ((year % 0x1_0000_0000) as u32, m as u32, d as u32);
    proof {
        lemma_date_of(days as nat);
        assert(valid_date(year as int, m as int, d as int));
        assert((year as int, m as int, d as int) == date_of(days as nat));
    }
    r
}

proof fn lemma_years_increase(a: int, b: int)
    requires
        a <= b,
    ensures
        days_before_year(a) + 365 * (b - a) <= days_before_year(b),
    decreases b - a,
{
    if a < b {
        lemma_next_year(a);
        lemma_years_increase(a + 1, b);
    }
}

proof fn lemma_date_in_year(y: int, m: int, d: int)
    requires
        valid_date(y, m, d),
    ensures
        days_before_year(y) <= days_from_civil(y, m, d) < days_before_year(y + 1),
{
    lemma_next_year(y);
}

proof fn lemma_months_increase(y: int, m1: int, m2: int)
    requires
        1 <= m1 < m2 <= 12,
    ensures
        days_before_month(y, m1) + month_length(y, m1) <= days_before_month(y, m2),
{
}

/// Different calendar dates fall on different days: the day number of a
/// valid date determines the date.
pub proof fn law_day_number_determines_date(y1: int, m1: int, d1: int, y2: int, m2: int, d2: int)
    requires
        valid_date(y1, m1, d1),
        valid_date(y2, m2, d2),
        days_from_civil(y1, m1, d1) == days_from_civil(y2, m2, d2),
    ensures
        y1 == y2 && m1 == m2 && d1 == d2,
{
    lemma_date_in_year(y1, m1, d1);
    lemma_date_in_year(y2, m2, d2);
    if y1 < y2 {
        lemma_years_increase(y1 + 1, y2);
    } else if y2 < y1 {
        lemma_years_increase(y2 + 1, y1);
    } else {
        if m1 < m2 {
            lemma_months_increase(y1, m1, m2);
        } else if m2 < m1 {
            lemma_months_increase(y1, m2, m1);
        }
    }
}

/// The day after `y-m-d`.
pub open spec fn next_day(date: (int, int, int)) -> (int, int, int) {
    let (y, m, d) = date;
    if d < month_length(y, m) {
        (y, m, d + 1)
    } else if m < 12 {
        (y, m + 1, 1)
    } else {
        (y + 1, 1, 1)
    }
}

/// The day after a valid date is a valid date, one day later.
proof fn lemma_next_day(y: int, m: int, d: int)
    requires
        valid_date(y, m, d),
    ensures
        ({
            let (y2, m2, d2) = next_day((y, m, d));
            valid_date(y2, m2, d2) && days_from_civil(y2, m2, d2) == days_from_civil(y, m, d) + 1
        }),
{
    lemma_next_year(y);
}

/// Every day from 1970-01-01 on has a date.
proof fn lemma_date_exists(n: nat)
    ensures
        exists|t: (int, int, int)| valid_date(t.0, t.1, t.2) && days_from_civil(t.0, t.1, t.2) == n,
    decreases n,
{
    if n == 0 {
        let t = (1970int, 1int, 1int);
        assert(valid_date(t.0, t.1, t.2) && days_from_civil(t.0, t.1, t.2) == n);
    } else {
        lemma_date_exists((n - 1) as nat);
        let t = choose|t: (int, int, int)|
            valid_date(t.0, t.1, t.2) && days_from_civil(t.0, t.1, t.2) == n - 1;
        lemma_next_day(t.0, t.1, t.2);
        let u = next_day(t);
        assert(valid_date(u.0, u.1, u.2) && days_from_civil(u.0, u.1, u.2) == n);
    }
}

/// The calendar date `n` days after 1970-01-01, as (year, month, day).
pub open spec fn date_of(n: nat) -> (int, int, int) {
    choose|t: (int, int, int)| valid_date(t.0, t.1, t.2) && days_from_civil(t.0, t.1, t.2) == n
}

/// `date_of(n)` is a valid date `n` days after the epoch, and the only one.
pub proof fn lemma_date_of(n: nat)
    ensures
        valid_date(date_of(n).0, date_of(n).1, date_of(n).2),
        days_from_civil(date_of(n).0, date_of(n).1, date_of(n).2) == n,
        forall|y: int, m: int, d: int|
            valid_date(y, m, d) && days_from_civil(y, m, d) == n ==> (y, m, d) == date_of(n),
{
    lemma_date_exists(n);
    let t = date_of(n);
    assert forall|y: int, m: int, d: int|
        valid_date(y, m, d) && days_from_civil(y, m, d) == n implies (y, m, d) == date_of(n) by {
        law_day_number_determines_date(y, m, d, t.0, t.1, t.2);
    }
}

/// The year of a day `n >= 0` lies between 1970 and `1970 + n / 365`.
pub proof fn lemma_year_bounds(n: nat)
    ensures
        1970 <= date_of(n).0 <= 1970 + n / 365,
{
    lemma_date_of(n);
    let (y, m, d) = date_of(n);
    lemma_date_in_year(y, m, d);
    if y < 1970 {
        lemma_years_increase(y + 1, 1970);
    }
    if y > 1970 {
        lemma_years_increase(1970, y);
    }
}

/// The date that `days_to_ymd(n)` gives: `date_of(n)` with the year reduced
/// modulo 2^32.
pub open spec fn civil_date(n: nat) -> (int, int, int) {
    (date_of(n).0 % 0x1_0000_0000, date_of(n).1, date_of(n).2)
}

/// One day later is the next calendar date.
pub proof fn law_date_of_next_day(n: nat)
    ensures
        date_of(n + 1) == next_day(date_of(n)),
{
    lemma_date_of(n);
    lemma_date_of(n + 1);
    let (y, m, d) = date_of(n);
    lemma_next_day(y, m, d);
    let u = next_day((y, m, d));
    assert((u.0, u.1, u.2) == date_of(n + 1));
}

/// For days before year 2^32 - 1, the date of the next day number is the
/// next calendar date.
pub proof fn law_days_to_ymd_next_day(n: nat)
    requires
        n < 1_000_000_000_000,
    ensures
        civil_date(n + 1) == next_day(civil_date(n)),
{
    law_date_of_next_day(n);
    lemma_year_bounds(n);
    lemma_year_bounds(n + 1);
}

// ---------------------------------------------------------------------------
// Timestamps
// ---------------------------------------------------------------------------

/// `YYYY-MM-DDThh:mm:ssZ`, each field zero-padded (the year to at least four
/// digits).
pub open spec fn iso_text(y: nat, mo: nat, d: nat, h: nat, mi: nat, s: nat) -> Seq<char> {
    zero_pad(decimal(y), 4) + seq!['-'] + zero_pad(decimal(mo), 2) + seq!['-'] + zero_pad(
        decimal(d),
        2,
    ) + seq!['T'] + zero_pad(decimal(h), 2) + seq![':'] + zero_pad(decimal(mi), 2) + seq![':']
        + zero_pad(decimal(s), 2) + seq!['Z']
}

/// The text `iso_text(y, mo, d, h, mi, s)`.
fn iso_string(y: u64, mo: u64, d: u64, h: u64, mi: u64, s: u64) -> (r: String)
    ensures
        r@ == iso_text(y as nat, mo as nat, d as nat, h as nat, mi as nat, s as nat),
{
    let mut out: Vec<char> = Vec::new();
    push_padded(&mut out, y, 4);
    out.push('-');
    let ghost p1 = out@;
    push_padded(&mut out, mo, 2);
    out.push('-');
    let ghost p2 = out@;
    push_padded(&mut out, d, 2);
    out.push('T');
    let ghost p3 = out@;
    push_padded(&mut out, h, 2);
    out.push(':');
    let ghost p4 = out@;
    push_padded(&mut out, mi, 2);
    out.push(':');
    let ghost p5 = out@;
    push_padded(&mut out, s, 2);
    out.push('Z');
    assert(p1 =~= zero_pad(decimal(y as nat), 4) + seq!['-']);
    assert(p2 =~= p1 + zero_pad(decimal(mo as nat), 2) + seq!['-']);
    assert(p3 =~= p2 + zero_pad(decimal(d as nat), 2) + seq!['T']);
    assert(p4 =~= p3 + zero_pad(decimal(h as nat), 2) + seq![':']);
    assert(p5 =~= p4 + zero_pad(decimal(mi as nat), 2) + seq![':']);
    assert(out@ =~= p5 + zero_pad(decimal(s as nat), 2) + seq!['Z']);
    assert(out@ =~= iso_text(y as nat, mo as nat, d as nat, h as nat, mi as nat, s as nat));
    string_from_chars(&out)
}

proof fn lemma_time_of_day(secs: u64)
    ensures
        (secs % 86400) % 3600 == secs % 3600,
        (secs % 86400) % 60 == secs % 60,
{
    assert((secs % 86400) % 3600 == secs % 3600) by (nonlinear_arith);
    assert((secs % 86400) % 60 == secs % 60) by (nonlinear_arith);
}

/// `secs` seconds after the Unix epoch as UTC time in ISO-8601 form.
pub open spec fn timestamp_text(secs: nat) -> Seq<char> {
    let (y, mo, d) = civil_date(secs / 86400);
    iso_text(
        y as nat,
        mo as nat,
        d as nat,
        (secs % 86400) / 3600,
        (secs % 3600) / 60,
        secs % 60,
    )
}

/// The UTC time `secs` seconds after the Unix epoch in ISO-8601 form.
pub fn format_timestamp(secs: u64) -> (r: String)
    ensures
        r@ == timestamp_text(secs as nat),
{
    let time_of_day = secs % 86400;
    let h = time_of_day / 3600;
    let m = (time_of_day % 3600) / 60;
    let s = time_of_day % 60;
    let (year, month, day) = days_to_ymd(secs / 86400);
    proof {
        lemma_time_of_day(secs);
    }
    iso_string(year as u64, month as u64, day as u64, h, m, s)
}

// ---------------------------------------------------------------------------
// Reading a timestamp back
// ---------------------------------------------------------------------------

/// The last instant before year 10000, plus one: 10000-01-01T00:00:00Z.
pub open spec fn year_10000_secs() -> nat {
    253402300800
}

/// A decimal digit character.
pub open spec fn is_digit(c: char) -> bool {
    '0' <= c && c <= '9'
}

/// The value of a digit character.
pub open spec fn digit_value(c: char) -> int {
    c as int - '0' as int
}

/// The number written by the two digits at `t[a..a + 2]`.
pub open spec fn number2(t: Seq<char>, a: int) -> int {
    10 * digit_value(t[a]) + digit_value(t[a + 1])
}

/// The number written by the four digits at `t[a..a + 4]`.
pub open spec fn number4(t: Seq<char>, a: int) -> int {
    1000 * digit_value(t[a]) + 100 * digit_value(t[a + 1]) + 10 * digit_value(t[a + 2])
        + digit_value(t[a + 3])
}

/// `t` has the form `DDDD-DD-DDTDD:DD:DDZ`, each `D` a decimal digit.
pub open spec fn timestamp_shape(t: Seq<char>) -> bool {
    &&& t.len() == 20
    &&& t[4] == '-' && t[7] == '-' && t[10] == 'T' && t[13] == ':' && t[16] == ':' && t[19] == 'Z'
    &&& forall|i: int|
        0 <= i < 20 && i != 4 && i != 7 && i != 10 && i != 13 && i != 16 && i != 19 ==> is_digit(
            #[trigger] t[i],
        )
}

/// The fields of a timestamp of that shape name a real date and time of day.
pub open spec fn timestamp_fields_valid(t: Seq<char>) -> bool {
    &&& valid_date(number4(t, 0), number2(t, 5), number2(t, 8))
    &&& number2(t, 11) < 24 && number2(t, 14) < 60 && number2(t, 17) < 60
}

/// The seconds since the Unix epoch that a timestamp of that shape stands for.
pub open spec fn timestamp_seconds(t: Seq<char>) -> int {
    days_from_civil(number4(t, 0), number2(t, 5), number2(t, 8)) * 86400 + number2(t, 11) * 3600
        + number2(t, 14) * 60 + number2(t, 17)
}

/// `s` comes before `t` in string order: at the first place where they
/// differ, the character of `s` is the smaller one.
pub open spec fn text_before(s: Seq<char>, t: Seq<char>) -> bool {
    exists|i: int|
        0 <= i < s.len() && i < t.len() && s.subrange(0, i) == t.subrange(0, i) && s[i] < t[i]
}

spec fn two_digits(x: int) -> Seq<char> {
    seq![digit(x / 10), digit(x % 10)]
}

spec fn four_digits(x: int) -> Seq<char> {
    seq![digit(x / 1000), digit((x / 100) % 10), digit((x / 10) % 10), digit(x % 10)]
}

spec fn unit(c: char, x: int) -> Seq<char> {
    seq![c] + two_digits(x)
}

/// The timestamp text, grouped from the right.
spec fn stamp(y: int, mo: int, d: int, h: int, mi: int, s: int) -> Seq<char> {
    four_digits(y) + (unit('-', mo) + (unit('-', d) + (unit('T', h) + (unit(':', mi) + (unit(
        ':',
        s,
    ) + seq!['Z'])))))
}

proof fn lemma_digit(k: int)
    requires
        0 <= k <= 9,
    ensures
        is_digit(digit(k)),
        digit_value(digit(k)) == k,
{
}

proof fn lemma_digit_less(a: int, b: int)
    requires
        0 <= a < b <= 9,
    ensures
        digit(a) < digit(b),
{
}

proof fn lemma_pad2(x: nat)
    requires
        x < 100,
    ensures
        zero_pad(decimal(x), 2) == two_digits(x as int),
{
    if x < 10 {
        assert(decimal(x) == seq![digit(x as int)]);
        assert(zero_pad(decimal(x), 2) =~= two_digits(x as int));
    } else {
        assert(decimal((x / 10) as nat) == seq![digit(x as int / 10)]);
        assert(decimal(x) =~= two_digits(x as int));
    }
}

proof fn lemma_pad4(x: nat)
    requires
        1000 <= x < 10000,
    ensures
        zero_pad(decimal(x), 4) == four_digits(x as int),
{
    let x1 = (x / 10) as nat;
    let x2 = (x1 / 10) as nat;
    let x3 = (x2 / 10) as nat;
    assert(x2 == x / 100);
    assert(x3 == x / 1000);
    assert(decimal(x3) == seq![digit(x3 as int)]);
    assert(decimal(x2) == decimal(x3).push(digit((x2 % 10) as int)));
    assert(decimal(x1) == decimal(x2).push(digit((x1 % 10) as int)));
    assert(decimal(x) == decimal(x1).push(digit((x % 10) as int)));
    assert(decimal(x) =~= four_digits(x as int));
}

proof fn lemma_seconds_split(secs: nat)
    ensures
        secs == (secs / 86400) * 86400 + ((secs % 86400) / 3600) * 3600 + ((secs % 3600) / 60) * 60
            + secs % 60,
        (secs % 86400) / 3600 < 24,
        (secs % 3600) / 60 < 60,
{
    assert((secs % 86400) % 3600 == secs % 3600) by (nonlinear_arith);
    assert((secs % 3600) % 60 == secs % 60) by (nonlinear_arith);
}

/// Days before year 10000 fall in years up to 9999.
proof fn lemma_year_below_10000(n: nat)
    requires
        n < 2932897,
    ensures
        1970 <= date_of(n).0 <= 9999,
{
    lemma_date_of(n);
    lemma_year_bounds(n);
    let (y, mo, d) = date_of(n);
    lemma_date_in_year(y, mo, d);
    if y >= 10000 {
        lemma_years_increase(10000, y);
        assert(days_before_year(10000) == 2932897);
    }
}

/// The text of a four-digit year and two-digit fields, character by
/// character.
#[verifier::rlimit(40)]
proof fn lemma_iso_stamp(y: nat, mo: nat, d: nat, h: nat, mi: nat, s: nat)
    requires
        1000 <= y < 10000,
        mo < 100,
        d < 100,
        h < 100,
        mi < 100,
        s < 100,
    ensures
        iso_text(y, mo, d, h, mi, s) == stamp(
            y as int,
            mo as int,
            d as int,
            h as int,
            mi as int,
            s as int,
        ),
{
    lemma_pad4(y);
    lemma_pad2(mo);
    lemma_pad2(d);
    lemma_pad2(h);
    lemma_pad2(mi);
    lemma_pad2(s);
    let y4 = four_digits(y as int);
    let e1 = y4 + seq!['-'];
    let e2 = e1 + two_digits(mo as int);
    let e3 = e2 + seq!['-'];
    let e4 = e3 + two_digits(d as int);
    let e5 = e4 + seq!['T'];
    let e6 = e5 + two_digits(h as int);
    let e7 = e6 + seq![':'];
    let e8 = e7 + two_digits(mi as int);
    let e9 = e8 + seq![':'];
    let e10 = e9 + two_digits(s as int);
    let e11 = e10 + seq!['Z'];
    assert(iso_text(y, mo, d, h, mi, s) == e11);
    let r5 = unit(':', s as int) + seq!['Z'];
    let r4 = unit(':', mi as int) + r5;
    let r3 = unit('T', h as int) + r4;
    let r2 = unit('-', d as int) + r3;
    let r1 = unit('-', mo as int) + r2;
    assert(e11.len() == 20);
    assert(r1.len() == 16);
    assert forall|i: int| 0 <= i < 20 implies e11[i] == (y4 + r1)[i] by {
        if i < 4 {
        } else if i < 7 {
            assert(e11[i] == e2[i]);
        } else if i < 10 {
            assert(e11[i] == e4[i]);
        } else if i < 13 {
            assert(e11[i] == e6[i]);
        } else if i < 16 {
            assert(e11[i] == e8[i]);
        } else {
        }
    }
    assert(e11 =~= y4 + r1);
}

/// The date of a day before year 10000, and the text of its timestamps.
proof fn lemma_stamp(secs: nat)
    requires
        secs < year_10000_secs(),
    ensures
        ({
            let (y, mo, d) = date_of(secs / 86400);
            &&& 1970 <= y <= 9999
            &&& valid_date(y, mo, d)
            &&& days_from_civil(y, mo, d) == secs / 86400
            &&& timestamp_text(secs) == stamp(
                y,
                mo,
                d,
                (secs as int % 86400) / 3600,
                (secs as int % 3600) / 60,
                secs as int % 60,
            )
        }),
{
    let n = secs / 86400;
    lemma_date_of(n);
    lemma_year_below_10000(n);
    let (y, mo, d) = date_of(n);
    assert(civil_date(n) == date_of(n));
    lemma_seconds_split(secs);
    lemma_iso_stamp(
        y as nat,
        mo as nat,
        d as nat,
        (secs % 86400) / 3600,
        (secs % 3600) / 60,
        secs % 60,
    );
}

/// The characters of a timestamp text, one by one.
#[verifier::rlimit(40)]
proof fn lemma_stamp_chars(y: int, mo: int, d: int, h: int, mi: int, s: int)
    ensures
        ({
            let t = stamp(y, mo, d, h, mi, s);
            &&& t.len() == 20
            &&& t[0] == digit(y / 1000) && t[1] == digit((y / 100) % 10) && t[2] == digit(
                (y / 10) % 10,
            ) && t[3] == digit(y % 10)
            &&& t[4] == '-' && t[5] == digit(mo / 10) && t[6] == digit(mo % 10)
            &&& t[7] == '-' && t[8] == digit(d / 10) && t[9] == digit(d % 10)
            &&& t[10] == 'T' && t[11] == digit(h / 10) && t[12] == digit(h % 10)
            &&& t[13] == ':' && t[14] == digit(mi / 10) && t[15] == digit(mi % 10)
            &&& t[16] == ':' && t[17] == digit(s / 10) && t[18] == digit(s % 10)
            &&& t[19] == 'Z'
        }),
{
    let r5 = unit(':', s) + seq!['Z'];
    let r4 = unit(':', mi) + r5;
    let r3 = unit('T', h) + r4;
    let r2 = unit('-', d) + r3;
    let r1 = unit('-', mo) + r2;
    let t = stamp(y, mo, d, h, mi, s);
    assert(t == four_digits(y) + r1);
    assert(t[4] == r1[0] && t[5] == r1[1] && t[6] == r1[2]);
    assert(t[7] == r2[0] && t[8] == r2[1] && t[9] == r2[2]);
    assert(t[10] == r3[0] && t[11] == r3[1] && t[12] == r3[2]);
    assert(t[13] == r4[0] && t[14] == r4[1] && t[15] == r4[2]);
    assert(t[16] == r5[0] && t[17] == r5[1] && t[18] == r5[2] && t[19] == r5[3]);
}

proof fn lemma_value2(x: int)
    requires
        0 <= x < 100,
    ensures
        0 <= x / 10 <= 9,
        0 <= x % 10 <= 9,
        10 * (x / 10) + x % 10 == x,
{
}

proof fn lemma_value4(x: int)
    requires
        0 <= x < 10000,
    ensures
        0 <= x / 1000 <= 9,
        0 <= (x / 100) % 10 <= 9,
        0 <= (x / 10) % 10 <= 9,
        0 <= x % 10 <= 9,
        1000 * (x / 1000) + 100 * ((x / 100) % 10) + 10 * ((x / 10) % 10) + x % 10 == x,
{
    let a = x / 1000;
    let b = x / 100;
    let c = x / 10;
    assert(b / 10 == a);
    assert(c / 10 == b);
}

/// The number written by the digits of a two-digit field.
proof fn lemma_field2(t: Seq<char>, a: int, x: int)
    requires
        0 <= x < 100,
        0 <= a,
        a + 1 < t.len(),
        t[a] == digit(x / 10),
        t[a + 1] == digit(x % 10),
    ensures
        number2(t, a) == x,
        is_digit(t[a]),
        is_digit(t[a + 1]),
{
    lemma_value2(x);
    lemma_digit(x / 10);
    lemma_digit(x % 10);
}

/// Every timestamp before year 10000 has the form `YYYY-MM-DDThh:mm:ssZ`
/// with zero-padded decimal fields that name a real date and time, and
/// reading it back gives the seconds it was made from.
#[verifier::rlimit(30)]
pub proof fn law_timestamp_round_trip(secs: nat)
    requires
        secs < year_10000_secs(),
    ensures
        timestamp_shape(timestamp_text(secs)),
        timestamp_fields_valid(timestamp_text(secs)),
        timestamp_seconds(timestamp_text(secs)) == secs,
{
    lemma_stamp(secs);
    let (y, mo, d) = date_of(secs / 86400);
    let h: int = (secs as int % 86400) / 3600;
    let mi: int = (secs as int % 3600) / 60;
    let s: int = secs as int % 60;
    lemma_seconds_split(secs);
    let t = timestamp_text(secs);
    lemma_stamp_chars(y, mo, d, h, mi, s);
    lemma_value4(y);
    lemma_digit(y / 1000);
    lemma_digit((y / 100) % 10);
    lemma_digit((y / 10) % 10);
    lemma_digit(y % 10);
    assert(number4(t, 0) == y);
    lemma_field2(t, 5, mo);
    lemma_field2(t, 8, d);
    lemma_field2(t, 11, h);
    lemma_field2(t, 14, mi);
    lemma_field2(t, 17, s);
    assert forall|i: int|
        0 <= i < 20 && i != 4 && i != 7 && i != 10 && i != 13 && i != 16 && i != 19 implies is_digit(
        #[trigger] t[i],
    ) by {
        if i == 5 || i == 8 || i == 11 || i == 14 || i == 17 {
            assert(is_digit(t[i]));
        }
    }
}

/// Text that comes first stays first when other text follows each.
proof fn lemma_before_then(u: Seq<char>, u2: Seq<char>, r: Seq<char>, r2: Seq<char>)
    requires
        u.len() == u2.len(),
        text_before(u, u2),
    ensures
        text_before(u + r, u2 + r2),
{
    let i = choose|i: int|
        0 <= i < u.len() && i < u2.len() && u.subrange(0, i) == u2.subrange(0, i) && u[i] < u2[i];
    assert((u + r).subrange(0, i) =~= u.subrange(0, i));
    assert((u2 + r2).subrange(0, i) =~= u2.subrange(0, i));
    assert((u + r)[i] == u[i] && (u2 + r2)[i] == u2[i]);
}

/// Text that comes first stays first behind a common beginning.
proof fn lemma_before_behind(p: Seq<char>, r: Seq<char>, r2: Seq<char>)
    requires
        text_before(r, r2),
    ensures
        text_before(p + r, p + r2),
{
    let i = choose|i: int|
        0 <= i < r.len() && i < r2.len() && r.subrange(0, i) == r2.subrange(0, i) && r[i] < r2[i];
    let j = p.len() + i;
    assert((p + r).subrange(0, j) =~= p + r.subrange(0, i));
    assert((p + r2).subrange(0, j) =~= p + r2.subrange(0, i));
    assert((p + r)[j] == r[i] && (p + r2)[j] == r2[i]);
}

proof fn lemma_two_digits_before(x: int, x2: int)
    requires
        0 <= x < x2 < 100,
    ensures
        text_before(two_digits(x), two_digits(x2)),
{
    lemma_value2(x);
    lemma_value2(x2);
    let s = two_digits(x);
    let t = two_digits(x2);
    if x / 10 < x2 / 10 {
        lemma_digit_less(x / 10, x2 / 10);
        assert(s.subrange(0, 0) =~= t.subrange(0, 0));
        assert(0 <= 0 < s.len() && 0 < t.len() && s.subrange(0, 0) == t.subrange(0, 0) && s[0] < t[0]);
    } else {
        lemma_digit_less(x % 10, x2 % 10);
        assert(s.subrange(0, 1) =~= t.subrange(0, 1));
        assert(0 <= 1 < s.len() && 1 < t.len() && s.subrange(0, 1) == t.subrange(0, 1) && s[1] < t[1]);
    }
}

proof fn lemma_four_digits_before(x: int, x2: int)
    requires
        0 <= x < x2 < 10000,
    ensures
        text_before(four_digits(x), four_digits(x2)),
{
    lemma_value4(x);
    lemma_value4(x2);
    let s = four_digits(x);
    let t = four_digits(x2);
    if x / 1000 < x2 / 1000 {
        lemma_digit_less(x / 1000, x2 / 1000);
        assert(s.subrange(0, 0) =~= t.subrange(0, 0));
        assert(0 <= 0 < s.len() && 0 < t.len() && s.subrange(0, 0) == t.subrange(0, 0) && s[0] < t[0]);
    } else if (x / 100) % 10 < (x2 / 100) % 10 {
        lemma_digit_less((x / 100) % 10, (x2 / 100) % 10);
        assert(s.subrange(0, 1) =~= t.subrange(0, 1));
        assert(0 <= 1 < s.len() && 1 < t.len() && s.subrange(0, 1) == t.subrange(0, 1) && s[1] < t[1]);
    } else if (x / 10) % 10 < (x2 / 10) % 10 {
        lemma_digit_less((x / 10) % 10, (x2 / 10) % 10);
        assert(s.subrange(0, 2) =~= t.subrange(0, 2));
        assert(0 <= 2 < s.len() && 2 < t.len() && s.subrange(0, 2) == t.subrange(0, 2) && s[2] < t[2]);
    } else {
        lemma_digit_less(x % 10, x2 % 10);
        assert(s.subrange(0, 3) =~= t.subrange(0, 3));
        assert(0 <= 3 < s.len() && 3 < t.len() && s.subrange(0, 3) == t.subrange(0, 3) && s[3] < t[3]);
    }
}

/// A two-digit field after a separator: a smaller number comes first.
proof fn lemma_unit_before(c: char, x: int, x2: int, r: Seq<char>, r2: Seq<char>)
    requires
        0 <= x < x2 < 100,
    ensures
        text_before(unit(c, x) + r, unit(c, x2) + r2),
{
    lemma_two_digits_before(x, x2);
    lemma_before_behind(seq![c], two_digits(x), two_digits(x2));
    lemma_before_then(unit(c, x), unit(c, x2), r, r2);
}

/// Later valid dates have larger day numbers.
proof fn lemma_date_order(y1: int, m1: int, d1: int, y2: int, m2: int, d2: int)
    requires
        valid_date(y1, m1, d1),
        valid_date(y2, m2, d2),
        y1 < y2 || (y1 == y2 && (m1 < m2 || (m1 == m2 && d1 < d2))),
    ensures
        days_from_civil(y1, m1, d1) < days_from_civil(y2, m2, d2),
{
    lemma_date_in_year(y1, m1, d1);
    lemma_date_in_year(y2, m2, d2);
    if y1 < y2 {
        lemma_years_increase(y1 + 1, y2);
    } else if m1 < m2 {
        lemma_months_increase(y1, m1, m2);
    }
}

/// Timestamps before year 10000 sort as the instants they stand for: an
/// earlier instant gives a text that comes first in string order, so two
/// different instants never give the same text.
#[verifier::rlimit(60)]
pub proof fn law_timestamp_order(a: nat, b: nat)
    requires
        a < b < year_10000_secs(),
    ensures
        text_before(timestamp_text(a), timestamp_text(b)),
        timestamp_text(a) != timestamp_text(b),
{
    lemma_stamp(a);
    lemma_stamp(b);
    lemma_seconds_split(a);
    lemma_seconds_split(b);
    let (y, mo, d) = date_of(a / 86400);
    let (y2, mo2, d2) = date_of(b / 86400);
    let h: int = (a as int % 86400) / 3600;
    let mi: int = (a as int % 3600) / 60;
    let s: int = a as int % 60;
    let h2: int = (b as int % 86400) / 3600;
    let mi2: int = (b as int % 3600) / 60;
    let s2: int = b as int % 60;
    let r5 = unit(':', s) + seq!['Z'];
    let r4 = unit(':', mi) + r5;
    let r3 = unit('T', h) + r4;
    let r2 = unit('-', d) + r3;
    let r1 = unit('-', mo) + r2;
    let q5 = unit(':', s2) + seq!['Z'];
    let q4 = unit(':', mi2) + q5;
    let q3 = unit('T', h2) + q4;
    let q2 = unit('-', d2) + q3;
    let q1 = unit('-', mo2) + q2;
    let fa = four_digits(y);
    let fb = four_digits(y2);
    assert(timestamp_text(a) == fa + r1);
    assert(timestamp_text(b) == fb + q1);
    if a / 86400 < b / 86400 {
        if y2 < y || (y2 == y && (mo2 < mo || (mo2 == mo && d2 < d))) {
            lemma_date_order(y2, mo2, d2, y, mo, d);
        }
        if y < y2 {
            lemma_four_digits_before(y, y2);
            lemma_before_then(fa, fb, r1, q1);
        } else if mo < mo2 {
            lemma_unit_before('-', mo, mo2, r2, q2);
            lemma_before_behind(fa, r1, q1);
        } else {
            assert(d < d2);
            lemma_unit_before('-', d, d2, r3, q3);
            lemma_before_behind(unit('-', mo), r2, q2);
            lemma_before_behind(fa, r1, q1);
        }
    } else {
        assert(h < h2 || (h == h2 && (mi < mi2 || (mi == mi2 && s < s2))));
        if h < h2 {
            lemma_unit_before('T', h, h2, r4, q4);
        } else if mi < mi2 {
            lemma_unit_before(':', mi, mi2, r5, q5);
            lemma_before_behind(unit('T', h), r4, q4);
        } else {
            lemma_unit_before(':', s, s2, seq!['Z'], seq!['Z']);
            lemma_before_behind(unit(':', mi), r5, q5);
            lemma_before_behind(unit('T', h), r4, q4);
        }
        lemma_before_behind(unit('-', d), r3, q3);
        lemma_before_behind(unit('-', mo), r2, q2);
        lemma_before_behind(fa, r1, q1);
    }
    let t = timestamp_text(a);
    let i = choose|i: int|
        0 <= i < t.len() && i < timestamp_text(b).len() && t.subrange(0, i) == timestamp_text(
            b,
        ).subrange(0, i) && t[i] < timestamp_text(b)[i];
    assert(t[i] != timestamp_text(b)[i]);
}

} // verus!
