//! Small shared helpers: token estimation, time, paths, text limits and diffs.
use vstd::prelude::*;
use vstd::string::StringExecFns;
use crate::text;

verus! {

// ---------------------------------------------------------------------------
// Tokens
// ---------------------------------------------------------------------------

/// Four bytes per token, rounded up.
pub open spec fn token_estimate(s: Seq<char>) -> nat {
    (text::byte_count(s) + 3) / 4
}

/// Approximate the token count of a string.
///
/// The estimate is needed before a request is sent, to decide whether to
/// compact. It errs high on code, which is the safe direction.
pub fn estimate_tokens(text: &str) -> (r: u64)
    ensures
        r == token_estimate(text@),
{
    let n: u64 = text::byte_len(text) as u64;
    n / 4 + if n % 4 == 0 { 0 } else { 1 }
}

// ---------------------------------------------------------------------------
// Time
// ---------------------------------------------------------------------------

/// The Gregorian rule for leap years.
pub open spec fn is_leap(y: nat) -> bool {
    y % 4 == 0 && (y % 100 != 0 || y % 400 == 0)
}

pub open spec fn year_len(y: nat) -> nat {
    if is_leap(y) {
        366
    } else {
        365
    }
}

/// The number of days in month `m`, January being 1.
pub open spec fn month_len(y: nat, m: nat) -> nat {
    if m == 2 {
        if is_leap(y) {
            29
        } else {
            28
        }
    } else if m == 4 || m == 6 || m == 9 || m == 11 {
        30
    } else {
        31
    }
}

/// The year that holds the day `days` after the start of year `y`, and the
/// day's place in it, counted from 0.
pub open spec fn year_and_day(days: nat, y: nat) -> (nat, nat)
    decreases days,
{
    if days < year_len(y) {
        (y, days)
    } else {
        year_and_day((days - year_len(y)) as nat, y + 1)
    }
}

/// The month that holds the day `day` after the start of month `m` of year
/// `y`, and the day's number in it, counted from 1.
pub open spec fn month_and_day(day: nat, y: nat, m: nat) -> (nat, nat)
    decreases day,
{
    if day < month_len(y, m) {
        (m, day + 1)
    } else {
        month_and_day((day - month_len(y, m)) as nat, y, m + 1)
    }
}

/// The date (year, month, day) that lies `days` days after 1970-01-01.
pub open spec fn date_of(days: nat) -> (nat, nat, nat) {
    let (y, k) = year_and_day(days, 1970);
    let (m, d) = month_and_day(k, y, 1);
    (y, m, d)
}

/// The days from the start of 1970 to the start of year `y`.
pub open spec fn year_start(y: nat) -> nat
    decreases y,
{
    if y <= 1970 {
        0
    } else {
        year_start((y - 1) as nat) + year_len((y - 1) as nat)
    }
}

pub(crate) proof fn lemma_year_start(y: nat)
    requires
        y >= 1970,
    ensures
        year_start(y) == 365 * (y - 1970) + (y - 1) / 4 - (y - 1) / 100 + (y - 1) / 400 - 477,
    decreases y,
{
    if y > 1970 {
        lemma_year_start((y - 1) as nat);
    }
}

proof fn lemma_year_and_day(y0: nat, y: nat, k: nat)
    requires
        1970 <= y0 <= y,
        k < year_len(y),
    ensures
        year_start(y) >= year_start(y0),
        year_and_day((year_start(y) - year_start(y0) + k) as nat, y0) == (y, k),
    decreases y - y0,
{
    if y0 < y {
        lemma_year_and_day(y0 + 1, y, k);
        assert(year_start(y0 + 1) == year_start(y0) + year_len(y0));
    }
}

/// The calendar arithmetic within one cycle of 400 years that begins on a
/// first of March: day `doe` of the cycle lies in its year `yoe`.
proof fn lemma_year_of_era(doe: int, yoe: int)
    requires
        0 <= doe < 146097,
        yoe == (doe - doe / 1460 + doe / 36524 - doe / 146096) / 365,
    ensures
        0 <= yoe <= 399,
        365 * yoe + yoe / 4 - yoe / 100 <= doe,
        doe - (365 * yoe + yoe / 4 - yoe / 100) <= 365,
        doe - (365 * yoe + yoe / 4 - yoe / 100) == 365 ==> (yoe + 1) % 4 == 0 && ((yoe + 1) % 100
            != 0 || (yoe + 1) % 400 == 0),
{
}


proof fn lemma_march_year(days: nat, era: int, yoe: int, doy: int)
    requires
        era >= 0,
        0 <= yoe <= 399,
        0 <= doy <= 365,
        days + 719468 == era * 146097 + 365 * yoe + yoe / 4 - yoe / 100 + doy,
    ensures
        ({
            let y = 400 * era + yoe;
            &&& y >= 1970 ==> days == year_start(y as nat) + 59 + doy + (if is_leap(y as nat) {
                1int
            } else {
                0
            })
            &&& y + 1 >= 1970 ==> days == year_start((y + 1) as nat) + doy - 306
            &&& y + 1 >= 1970
            &&& doy < 306 ==> y >= 1970
        }),
{
    let y = 400 * era + yoe;
    vstd::arithmetic::div_mod::lemma_mod_multiples_vanish(100 * era, yoe, 4);
    vstd::arithmetic::div_mod::lemma_mod_multiples_vanish(4 * era, yoe, 100);
    vstd::arithmetic::div_mod::lemma_mod_multiples_vanish(era, yoe, 400);
    assert(y / 4 == 100 * era + yoe / 4);
    assert(y / 100 == 4 * era + yoe / 100);
    assert(y / 400 == era);
    assert(y % 4 == yoe % 4);
    assert(y % 100 == yoe % 100);
    assert(y % 400 == yoe);
    if y >= 1970 {
        lemma_year_start(y as nat);
    }
    if y + 1 >= 1970 {
        lemma_year_start((y + 1) as nat);
    }
}

proof fn lemma_month_of_march_year(y: nat, doy: int, mp: int, d: int)
    requires
        0 <= doy <= 365,
        mp == (5 * doy + 2) / 153,
        d == doy - (153 * mp + 2) / 5 + 1,
        doy >= 306 && !is_leap(y) ==> doy <= 364,
    ensures
        0 <= mp <= 11,
        1 <= d <= 31,
        (mp < 10) == (doy < 306),
        mp < 10 ==> month_and_day(
            (doy + 59 + if is_leap(y) {
                1int
            } else {
                0
            }) as nat,
            y,
            1,
        ) == ((mp + 3) as nat, d as nat),
        mp >= 10 ==> month_and_day((doy - 306) as nat, y, 1) == ((mp - 9) as nat, d as nat),
{
    reveal_with_fuel(month_and_day, 13);
}

proof fn lemma_leap_in_cycle(era: int, yoe: int)
    requires
        era >= 0,
        0 <= yoe <= 399,
    ensures
        is_leap((400 * era + yoe + 1) as nat) == ((yoe + 1) % 4 == 0 && ((yoe + 1) % 100 != 0 || (yoe
            + 1) % 400 == 0)),
{
    let y = 400 * era + yoe + 1;
    vstd::arithmetic::div_mod::lemma_mod_multiples_vanish(100 * era, yoe + 1, 4);
    vstd::arithmetic::div_mod::lemma_mod_multiples_vanish(4 * era, yoe + 1, 100);
    vstd::arithmetic::div_mod::lemma_mod_multiples_vanish(era, yoe + 1, 400);
    assert(y == 4 * (100 * era) + (yoe + 1));
    assert(y == 100 * (4 * era) + (yoe + 1));
}

proof fn lemma_civil(days: nat, era: int, yoe: int, doy: int, mp: int, d: int)
    requires
        era >= 0,
        0 <= yoe <= 399,
        0 <= doy <= 365,
        doy == 365 ==> (yoe + 1) % 4 == 0 && ((yoe + 1) % 100 != 0 || (yoe + 1) % 400 == 0),
        days + 719468 == era * 146097 + 365 * yoe + yoe / 4 - yoe / 100 + doy,
        mp == (5 * doy + 2) / 153,
        d == doy - (153 * mp + 2) / 5 + 1,
    ensures
        0 <= mp <= 11,
        1 <= d <= 31,
        mp < 10 ==> date_of(days) == ((400 * era + yoe) as nat, (mp + 3) as nat, d as nat)
            && 400 * era + yoe >= 1970,
        mp >= 10 ==> date_of(days) == ((400 * era + yoe + 1) as nat, (mp - 9) as nat, d as nat)
            && 400 * era + yoe + 1 >= 1970,
{
    lemma_march_year(days, era, yoe, doy);
    lemma_leap_in_cycle(era, yoe);
    let y = (400 * era + yoe) as nat;
    if doy < 306 {
        lemma_month_of_march_year(y, doy, mp, d);
        let k = (doy + 59 + if is_leap(y) { 1int } else { 0 }) as nat;
        lemma_year_and_day(1970, y, k);
        assert(year_start(1970) == 0);
    } else {
        lemma_month_of_march_year(y + 1, doy, mp, d);
        lemma_year_and_day(1970, y + 1, (doy - 306) as nat);
        assert(year_start(1970) == 0);
    }
}

/// Days since 1970-01-01 to (year, month, day), exact for the whole Gregorian
/// calendar.
fn civil_from_days(days: u64) -> (r: (u64, u64, u64))
    requires
        days <= 0x1_0000_0000_0000,
    ensures
        date_of(days as nat) == (r.0 as nat, r.1 as nat, r.2 as nat),
        1970 <= r.0,
        1 <= r.1 <= 12,
        1 <= r.2 <= 31,
{
    let z: u64 = days + 719_468;
    let era: u64 = z / 146_097;
    let doe: u64 = z % 146_097;
    let yoe: u64 = (doe - doe / 1460 + doe / 36_524 - doe / 146_096) / 365;
    proof {
        lemma_year_of_era(doe as int, yoe as int);
    }
    let doy: u64 = doe - (365 * yoe + yoe / 4 - yoe / 100);
    let mp: u64 = (5 * doy + 2) / 153;
    let d: u64 = doy + 1 - (153 * mp + 2) / 5;
    let m: u64 = if mp < 10 { mp + 3 } else { mp - 9 };
    let y: u64 = yoe + era * 400;
    proof {
        lemma_civil(days as nat, era as int, yoe as int, doy as int, mp as int, d as int);
    }
    (if m <= 2 { y + 1 } else { y }, m, d)
}

/// A number in decimal notation with leading zeros up to `width` digits.
pub open spec fn zero_padded(n: nat, width: nat) -> Seq<char> {
    text::right_aligned(text::decimal(n), width, '0')
}

fn padded(n: u64, width: usize) -> (r: String)
    ensures
        r@ == zero_padded(n as nat, width as nat),
{
    text::pad_left(&text::number(n), width, '0')
}

/// The RFC-3339 text of an instant, in UTC: `2026-09-07T05:24:20Z`.
pub open spec fn rfc3339(secs: nat) -> Seq<char> {
    let (y, m, d) = date_of(secs / 86400);
    let rem = secs % 86400;
    zero_padded(y, 4) + "-"@ + zero_padded(m, 2) + "-"@ + zero_padded(d, 2) + "T"@ + zero_padded(
        rem / 3600,
        2,
    ) + ":"@ + zero_padded(rem % 3600 / 60, 2) + ":"@ + zero_padded(rem % 60, 2) + "Z"@
}

/// The RFC-3339 text of the instant `secs` seconds after the Unix epoch.
pub fn format_unix_utc(secs: u64) -> (r: String)
    ensures
        r@ == rfc3339(secs as nat),
{
    let days: u64 = secs / 86_400;
    let rem: u64 = secs % 86_400;
    let (y, mo, d) = civil_from_days(days);
    let mut out = padded(y, 4);
    out.append("-");
    out.append(&padded(mo, 2));
    out.append("-");
    out.append(&padded(d, 2));
    out.append("T");
    out.append(&padded(rem / 3600, 2));
    out.append(":");
    out.append(&padded((rem % 3600) / 60, 2));
    out.append(":");
    out.append(&padded(rem % 60, 2));
    out.append("Z");
    out
}

/// `SystemTime::now` and `duration_since`: the whole seconds since the Unix
/// epoch, or 0 where the clock stands before it. Nothing is claimed of the
/// number, which is whatever the clock shows.
#[verifier::external_body]
fn unix_seconds() -> u64 {
    std::time::SystemTime::now().duration_since(std::time::UNIX_EPOCH).map_or(0, |d| d.as_secs())
}

/// Current time as an RFC-3339 UTC string, e.g. `2026-09-07T05:24:20Z`.
pub fn now_rfc3339() -> (r: String)
    ensures
        exists|secs: u64| r@ == #[trigger] rfc3339(secs as nat),
{
    let secs: u64 = unix_seconds();
    let r = format_unix_utc(secs);
    assert(r@ == rfc3339(secs as nat));
    r
}

proof fn lemma_timestamp_is_long(secs: nat)
    ensures
        rfc3339(secs).len() >= 10,
{
    reveal_strlit("-");
    let (y, m, d) = date_of(secs / 86400);
    assert(zero_padded(y, 4).len() >= 4);
    assert(zero_padded(m, 2).len() >= 2);
    assert(zero_padded(d, 2).len() >= 2);
}

/// Today's date in UTC, e.g. `2026-09-07`: the first ten characters of the
/// current time.
pub fn today() -> (r: String)
    ensures
        exists|secs: u64| r@ == (#[trigger] rfc3339(secs as nat)).take(10),
{
    let now = now_rfc3339();
    let ghost secs = choose|secs: u64| now@ == #[trigger] rfc3339(secs as nat);
    proof {
        lemma_timestamp_is_long(secs as nat);
    }
    let v = text::chars_of(&now);
    let r = text::string_between(&v, 0, 10);
    assert(r@ =~= rfc3339(secs as nat).take(10));
    r
}

/// What `Duration::as_secs_f64` formatted with one decimal gives for a number
/// of nanoseconds.
pub uninterp spec fn seconds_text(nanos: nat) -> Seq<char>;

/// `Duration::as_secs_f64` under the format `{:.1}`. The text is named: how a
/// binary fraction rounds to one decimal is left to the formatter.
#[verifier::external_body]
fn seconds_with_tenths(nanos: u64) -> (r: String)
    ensures
        r@ == seconds_text(nanos as nat),
{
    format!("{:.1}", std::time::Duration::from_nanos(nanos).as_secs_f64())
}

/// A duration for humans: `340ms`, `2.4s`, `1m12s`.
pub open spec fn duration_text(nanos: nat) -> Seq<char> {
    let secs = nanos / 1_000_000_000;
    if secs < 1 {
        text::decimal(nanos / 1_000_000) + "ms"@
    } else if secs < 60 {
        seconds_text(nanos) + "s"@
    } else {
        text::decimal(secs / 60) + "m"@ + zero_padded(secs % 60, 2) + "s"@
    }
}

/// A span of time, to the nanosecond.
#[derive(Debug, Clone, Copy, PartialEq, Eq, Structural)]
pub struct Duration {
    pub secs: u64,
    /// Below one second.
    pub nanos: u32,
}

impl Duration {
    /// The span in nanoseconds.
    pub open spec fn total_nanos(self) -> nat {
        (self.secs * 1_000_000_000 + self.nanos) as nat
    }

    pub open spec fn wf(self) -> bool {
        self.nanos < 1_000_000_000
    }

    pub fn from_millis(ms: u64) -> (r: Self)
        ensures
            r.wf(),
            r.total_nanos() == ms * 1_000_000,
    {
        Duration { secs: ms / 1000, nanos: (ms % 1000) as u32 * 1_000_000 }
    }

    pub fn from_secs(secs: u64) -> (r: Self)
        ensures
            r.wf(),
            r.total_nanos() == secs * 1_000_000_000,
    {
        Duration { secs, nanos: 0 }
    }
}

/// Format a duration for humans: `340ms`, `2.4s`, `1m12s`.
pub fn format_duration(d: Duration) -> (r: String)
    requires
        d.wf(),
    ensures
        r@ == duration_text(d.total_nanos()),
{
    let secs: u64 = d.secs;
    assert(d.total_nanos() / 1_000_000_000 == secs);
    if secs < 1 {
        let mut out = text::number((d.nanos / 1_000_000) as u64);
        out.append("ms");
        return out;
    }
    if secs < 60 {
        let mut out = seconds_with_tenths(secs * 1_000_000_000 + d.nanos as u64);
        out.append("s");
        return out;
    }
    let mut out = text::number(secs / 60);
    out.append("m");
    out.append(&padded(secs % 60, 2));
    out.append("s");
    out
}

// ---------------------------------------------------------------------------
// Paths
// ---------------------------------------------------------------------------
//
// A path is the text of a Unix path: names separated by slashes.

/// The text between two slashes, or between a slash and an end.
pub open spec fn segments(s: Seq<char>) -> Seq<Seq<char>> {
    text::pieces(s, '/')
}

/// Whether a path starts at the root.
pub open spec fn is_absolute(s: Seq<char>) -> bool {
    s.len() > 0 && s[0] == '/'
}

/// Whether a segment names something: it is not empty and not `.`.
pub open spec fn is_name(p: Seq<char>) -> bool {
    p.len() > 0 && p != seq!['.']
}

/// The names along a path, without empty segments and without `.`.
pub open spec fn names(s: Seq<char>) -> Seq<Seq<char>> {
    segments(s).filter(|p: Seq<char>| is_name(p))
}

/// The components of a path: `/` for the root, `.` for a path that starts with
/// it, and the names.
pub open spec fn components(s: Seq<char>) -> Seq<Seq<char>> {
    (if is_absolute(s) {
        seq![seq!['/']]
    } else if segments(s)[0] == seq!['.'] {
        seq![seq!['.']]
    } else {
        Seq::empty()
    }) + names(s)
}

/// The names with each `..` taken together with the name before it. At the
/// root `..` stays at the root; a relative path keeps a `..` that has nothing
/// before it.
pub open spec fn collapsed(absolute: bool, names: Seq<Seq<char>>) -> Seq<Seq<char>>
    decreases names.len(),
{
    if names.len() == 0 {
        Seq::empty()
    } else {
        let rest = collapsed(absolute, names.drop_last());
        if names.last() != seq!['.', '.'] {
            rest.push(names.last())
        } else if rest.len() > 0 {
            rest.drop_last()
        } else if absolute {
            rest
        } else {
            rest.push(names.last())
        }
    }
}

/// The text of a path with the given names.
pub open spec fn path_text(absolute: bool, names: Seq<Seq<char>>) -> Seq<char> {
    if absolute {
        "/"@ + text::joined(names, "/"@)
    } else {
        text::joined(names, "/"@)
    }
}

/// A path without `.` and with `..` resolved textually.
pub open spec fn normalized(s: Seq<char>) -> Seq<char> {
    path_text(is_absolute(s), collapsed(is_absolute(s), names(s)))
}

/// `path` seen from `workspace`.
pub open spec fn resolved(workspace: Seq<char>, path: Seq<char>) -> Seq<char> {
    if is_absolute(path) {
        normalized(path)
    } else {
        path_text(
            is_absolute(workspace),
            collapsed(is_absolute(workspace), names(workspace) + names(path)),
        )
    }
}

/// Whether the components of `path` begin with those of `root`.
pub open spec fn lies_within(root: Seq<char>, path: Seq<char>) -> bool {
    components(root).is_prefix_of(components(path))
}

/// The names along a path.
fn name_list(s: &str) -> (r: Vec<String>)
    ensures
        text::views(r@) == names(s@),
{
    let parts = text::split(s, '/');
    let mut out: Vec<String> = Vec::new();
    let mut i: usize = 0;
    let ghost all = segments(s@);
    let ghost keep = |p: Seq<char>| is_name(p);
    assert(all.take(0).filter(keep) =~= Seq::<Seq<char>>::empty()) by {
        reveal(Seq::filter);
    }
    while i < parts.len()
        invariant
            i <= parts.len(),
            text::views(parts@) == all,
            keep == (|p: Seq<char>| is_name(p)),
            text::views(out@) == all.take(i as int).filter(keep),
        decreases parts.len() - i,
    {
        proof {
            reveal(Seq::filter);
            assert(all.take(i + 1).drop_last() =~= all.take(i as int));
            assert(all[i as int] == parts@[i as int]@);
            reveal_strlit(".");
            assert("."@ =~= seq!['.']);
        }
        if !parts[i].as_str().is_empty() && !text::same(&parts[i], ".") {
            let ghost before = text::views(out@);
            out.push(parts[i].clone());
            assert(text::views(out@) =~= before.push(parts@[i as int]@));
        }
        i += 1;
    }
    assert(all.take(all.len() as int) =~= all);
    out
}

fn starts_at_root(s: &str) -> (r: bool)
    ensures
        r == is_absolute(s@),
{
    let v = text::chars_of(s);
    v.len() > 0 && v[0] == '/'
}

/// The names with each `..` taken together with the name before it.
fn collapse(absolute: bool, parts: &Vec<String>) -> (r: Vec<String>)
    ensures
        text::views(r@) == collapsed(absolute, text::views(parts@)),
{
    let mut out: Vec<String> = Vec::new();
    let mut i: usize = 0;
    let ghost all = text::views(parts@);
    assert(text::views(out@) =~= Seq::<Seq<char>>::empty());
    while i < parts.len()
        invariant
            i <= parts.len(),
            all == text::views(parts@),
            text::views(out@) == collapsed(absolute, all.take(i as int)),
        decreases parts.len() - i,
    {
        let ghost before = text::views(out@);
        proof {
            assert(all.take(i + 1).drop_last() =~= all.take(i as int));
            assert(all[i as int] == parts@[i as int]@);
            reveal_strlit("..");
            assert(".."@ =~= seq!['.', '.']);
        }
        if text::same(&parts[i], "..") {
            if out.len() > 0 {
                out.pop();
                assert(text::views(out@) =~= before.drop_last());
            } else if !absolute {
                out.push(parts[i].clone());
                assert(text::views(out@) =~= before.push(parts@[i as int]@));
            }
        } else {
            out.push(parts[i].clone());
            assert(text::views(out@) =~= before.push(parts@[i as int]@));
        }
        i += 1;
    }
    assert(all.take(all.len() as int) =~= all);
    out
}

fn path_of(absolute: bool, parts: &Vec<String>) -> (r: String)
    ensures
        r@ == path_text(absolute, text::views(parts@)),
{
    let body = text::join(parts, "/");
    if absolute {
        let mut out = String::new();
        out.append("/");
        assert(out@ =~= "/"@);
        out.append(&body);
        out
    } else {
        body
    }
}

/// Lexically normalize a path, removing `.` and resolving `..` textually.
pub fn normalize(path: &str) -> (r: String)
    ensures
        r@ == normalized(path@),
{
    let absolute = starts_at_root(path);
    path_of(absolute, &collapse(absolute, &name_list(path)))
}

/// Resolve `path` against `workspace`, collapsing `.` and `..` lexically.
///
/// The path need not exist, and no symbolic link is followed.
pub fn resolve(workspace: &str, path: &str) -> (r: String)
    ensures
        r@ == resolved(workspace@, path@),
{
    if starts_at_root(path) {
        return normalize(path);
    }
    let absolute = starts_at_root(workspace);
    let mut all = name_list(workspace);
    let mut more = name_list(path);
    let ghost joined = text::views(all@) + text::views(more@);
    all.append(&mut more);
    assert(text::views(all@) =~= joined);
    path_of(absolute, &collapse(absolute, &all))
}


/// Where the segments of a path stand in its text.
pub open spec fn segment_spans(s: Seq<char>) -> Seq<(int, int)>
    decreases s.len(),
{
    let n = s.len() as int;
    if n == 0 {
        seq![(0int, 0int)]
    } else {
        let rest = segment_spans(s.drop_last());
        if s.last() == '/' {
            rest.push((n, n))
        } else {
            rest.drop_last().push((rest.last().0, n))
        }
    }
}

/// Where the components of a path stand in its text.
pub open spec fn component_spans(s: Seq<char>) -> Seq<(int, int)> {
    (if is_absolute(s) || segments(s)[0] == seq!['.'] {
        seq![(0int, 1int)]
    } else {
        Seq::empty()
    }) + segment_spans(s).filter(|p: (int, int)| is_name(s.subrange(p.0, p.1)))
}

/// The text of a path from the start of component `k` to the end of its last one.
pub open spec fn tail_text(s: Seq<char>, k: int) -> Seq<char> {
    let spans = component_spans(s);
    if k >= spans.len() {
        Seq::empty()
    } else {
        s.subrange(spans[k].0, spans.last().1)
    }
}

/// What is shown for `path`: the part below `workspace` where it lies within,
/// else the path itself.
pub open spec fn shown_path(workspace: Seq<char>, path: Seq<char>) -> Seq<char> {
    if lies_within(workspace, path) {
        tail_text(path, components(workspace).len() as int)
    } else {
        path
    }
}

pub(crate) proof fn lemma_segment_spans(s: Seq<char>)
    ensures
        segment_spans(s).len() == segments(s).len(),
        segment_spans(s).len() >= 1,
        segment_spans(s).last().1 == s.len(),
        forall|i: int|
            0 <= i < segment_spans(s).len() ==> {
                let p = #[trigger] segment_spans(s)[i];
                0 <= p.0 <= p.1 <= s.len() && s.subrange(p.0, p.1) == segments(s)[i]
            },
        forall|i: int, j: int|
            0 <= i < j < segment_spans(s).len() ==> (#[trigger] segment_spans(s)[i]).1 < (
            #[trigger] segment_spans(s)[j]).0,
    decreases s.len(),
{
    if s.len() == 0 {
        assert(s.subrange(0, 0) =~= Seq::<char>::empty());
    } else {
        let t = s.drop_last();
        lemma_segment_spans(t);
        assert forall|i: int| 0 <= i < segment_spans(s).len() implies {
            let p = #[trigger] segment_spans(s)[i];
            0 <= p.0 <= p.1 <= s.len() && s.subrange(p.0, p.1) == segments(s)[i]
        } by {
            let p = segment_spans(s)[i];
            if i < segment_spans(t).len() {
                let q = segment_spans(t)[i];
                assert(t.subrange(q.0, q.1) =~= s.subrange(q.0, q.1));
                if i == segment_spans(t).len() - 1 && s.last() != '/' {
                    assert(s.subrange(p.0, p.1) =~= t.subrange(q.0, q.1).push(s.last()));
                }
            } else {
                assert(s.subrange(p.0, p.1) =~= Seq::<char>::empty());
            }
        }
    }
}

/// A filter on spans picks the spans of what the filter on the texts picks.
proof fn lemma_filter_spans(s: Seq<char>, spans: Seq<(int, int)>, texts: Seq<Seq<char>>)
    requires
        spans.len() == texts.len(),
        forall|i: int|
            0 <= i < spans.len() ==> s.subrange((#[trigger] spans[i]).0, spans[i].1) == texts[i],
    ensures
        ({
            let a = spans.filter(|p: (int, int)| is_name(s.subrange(p.0, p.1)));
            let b = texts.filter(|p: Seq<char>| is_name(p));
            a.len() == b.len() && forall|i: int|
                0 <= i < a.len() ==> s.subrange((#[trigger] a[i]).0, a[i].1) == b[i]
        }),
    decreases spans.len(),
{
    reveal(Seq::filter);
    if spans.len() > 0 {
        lemma_filter_spans(s, spans.drop_last(), texts.drop_last());
    }
}

/// The component spans are the places of the components.
pub proof fn lemma_component_spans(s: Seq<char>)
    ensures
        component_spans(s).len() == components(s).len(),
        forall|i: int|
            0 <= i < components(s).len() ==> {
                let p = #[trigger] component_spans(s)[i];
                0 <= p.0 <= p.1 <= s.len() && s.subrange(p.0, p.1) == components(s)[i]
            },
        forall|i: int, j: int|
            0 <= i < j < component_spans(s).len() ==> (#[trigger] component_spans(s)[i]).0 <= (
            #[trigger] component_spans(s)[j]).1,
{
    lemma_segment_spans(s);
    lemma_filter_spans(s, segment_spans(s), segments(s));
    let keep = |p: (int, int)| is_name(s.subrange(p.0, p.1));
    let a = segment_spans(s).filter(keep);
    lemma_filtered_spans_ordered(s, segment_spans(s), keep);
    if is_absolute(s) {
        assert(s.subrange(0, 1) =~= seq!['/']);
    } else if segments(s)[0] == seq!['.'] {
        let p = segment_spans(s)[0];
        assert(s.subrange(p.0, p.1) == seq!['.']);
        lemma_first_span(s);
    }
    assert forall|i: int| 0 <= i < components(s).len() implies {
        let p = #[trigger] component_spans(s)[i];
        0 <= p.0 <= p.1 <= s.len() && s.subrange(p.0, p.1) == components(s)[i]
    } by {
        let off = component_spans(s).len() - a.len();
        if i >= off {
            assert(component_spans(s)[i] == a[i - off]);
        }
    }
    assert forall|i: int, j: int| 0 <= i < j < component_spans(s).len() implies (
    #[trigger] component_spans(s)[i]).0 <= (#[trigger] component_spans(s)[j]).1 by {
        let off = component_spans(s).len() - a.len();
        if i >= off {
            assert(component_spans(s)[i] == a[i - off]);
        }
        if j >= off {
            assert(component_spans(s)[j] == a[j - off]);
        }
    }
}

proof fn lemma_first_span(s: Seq<char>)
    ensures
        segment_spans(s).len() >= 1,
        segment_spans(s)[0].0 == 0,
    decreases s.len(),
{
    if s.len() > 0 {
        lemma_first_span(s.drop_last());
    }
}

proof fn lemma_filtered_spans_ordered(
    s: Seq<char>,
    spans: Seq<(int, int)>,
    keep: spec_fn((int, int)) -> bool,
)
    requires
        forall|i: int|
            0 <= i < spans.len() ==> 0 <= (#[trigger] spans[i]).0 <= spans[i].1 <= s.len(),
        forall|i: int, j: int|
            0 <= i < j < spans.len() ==> (#[trigger] spans[i]).1 < (#[trigger] spans[j]).0,
    ensures
        ({
            let a = spans.filter(keep);
            &&& forall|i: int|
                0 <= i < a.len() ==> 0 <= (#[trigger] a[i]).0 <= a[i].1 <= s.len()
            &&& forall|i: int, j: int|
                0 <= i < j < a.len() ==> (#[trigger] a[i]).1 < (#[trigger] a[j]).0
            &&& a.len() > 0 ==> a.last().1 <= spans.last().1
        }),
    decreases spans.len(),
{
    reveal(Seq::filter);
    if spans.len() > 0 {
        let t = spans.drop_last();
        lemma_filtered_spans_ordered(s, t, keep);
        let b = t.filter(keep);
        let a = spans.filter(keep);
        if b.len() > 0 {
            assert(t.len() > 0);
            assert(t.last() == spans[spans.len() - 2]);
        }
        if keep(spans.last()) {
            assert forall|i: int, j: int| 0 <= i < j < a.len() implies (#[trigger] a[i]).1 < (
            #[trigger] a[j]).0 by {
                if j == a.len() - 1 {
                    if i < b.len() - 1 {
                        assert(b[i].1 < b[b.len() - 1].0);
                    }
                }
            }
        }
    }
}

/// Where the segments of a path stand in its text.
fn segment_list(v: &Vec<char>) -> (spans: Vec<(usize, usize)>)
    ensures
        spans.len() == segment_spans(v@).len(),
        forall|i: int|
            0 <= i < spans.len() ==> (spans@[i].0 as int, spans@[i].1 as int)
                == #[trigger] segment_spans(v@)[i],
{
    let mut spans: Vec<(usize, usize)> = Vec::new();
    let mut start: usize = 0;
    let mut i: usize = 0;
    proof {
        assert(v@.take(0) =~= Seq::<char>::empty());
    }
    while i < v.len()
        invariant
            start <= i <= v.len(),
            segment_spans(v@.take(i as int)).len() == spans.len() + 1,
            segment_spans(v@.take(i as int)).last() == (start as int, i as int),
            forall|k: int|
                0 <= k < spans.len() ==> (spans@[k].0 as int, spans@[k].1 as int)
                    == #[trigger] segment_spans(v@.take(i as int))[k],
        decreases v.len() - i,
    {
        proof {
            assert(v@.take(i + 1).drop_last() =~= v@.take(i as int));
        }
        if v[i] == '/' {
            spans.push((start, i));
            start = i + 1;
        }
        i += 1;
    }
    spans.push((start, i));
    assert(v@.take(v@.len() as int) =~= v@);
    spans
}

/// Where the names of a path stand in its text.
fn name_spans(v: &Vec<char>) -> (out: Vec<(usize, usize)>)
    ensures
        ({
            let a = segment_spans(v@).filter(|p: (int, int)| is_name(v@.subrange(p.0, p.1)));
            out.len() == a.len() && forall|k: int|
                0 <= k < out.len() ==> (out@[k].0 as int, out@[k].1 as int) == #[trigger] a[k]
        }),
{
    let spans = segment_list(v);
    let ghost all = segment_spans(v@);
    proof {
        lemma_segment_spans(v@);
    }
    let ghost keep = |p: (int, int)| is_name(v@.subrange(p.0, p.1));
    let mut out: Vec<(usize, usize)> = Vec::new();
    let mut j: usize = 0;
    assert(all.take(0).filter(keep) =~= Seq::<(int, int)>::empty()) by {
        reveal(Seq::filter);
    }
    while j < spans.len()
        invariant
            j <= spans.len(),
            spans.len() == all.len(),
            keep == (|p: (int, int)| is_name(v@.subrange(p.0, p.1))),
            forall|k: int|
                0 <= k < spans.len() ==> (spans@[k].0 as int, spans@[k].1 as int)
                    == #[trigger] all[k],
            forall|k: int|
                0 <= k < all.len() ==> 0 <= (#[trigger] all[k]).0 <= all[k].1 <= v@.len(),
            out.len() == all.take(j as int).filter(keep).len(),
            forall|k: int|
                0 <= k < out.len() ==> (out@[k].0 as int, out@[k].1 as int)
                    == #[trigger] all.take(j as int).filter(keep)[k],
        decreases spans.len() - j,
    {
        let (a, b) = spans[j];
        proof {
            reveal(Seq::filter);
            assert(all.take(j + 1).drop_last() =~= all.take(j as int));
            assert(all[j as int] == (a as int, b as int));
            reveal_strlit(".");
            assert("."@ =~= seq!['.']);
        }
        let name = text::string_between(v, a, b);
        if a < b && !text::same(&name, ".") {
            assert(keep(all[j as int]));
            out.push((a, b));
        } else {
            assert(!keep(all[j as int]));
        }
        j += 1;
    }
    assert(all.take(all.len() as int) =~= all);
    out
}

/// Where the components of a path stand in its text.
fn component_list(v: &Vec<char>) -> (r: Vec<(usize, usize)>)
    ensures
        r.len() == component_spans(v@).len(),
        forall|i: int|
            0 <= i < r.len() ==> (r@[i].0 as int, r@[i].1 as int) == #[trigger] component_spans(v@)[i],
{
    let mut rest = name_spans(v);
    let spans = segment_list(v);
    proof {
        lemma_segment_spans(v@);
        lemma_first_span(v@);
        assert(segment_spans(v@)[0] == (spans@[0].0 as int, spans@[0].1 as int));
        reveal_strlit(".");
        assert("."@ =~= seq!['.']);
    }
    let first = text::string_between(v, 0, spans[0].1);
    if (v.len() > 0 && v[0] == '/') || text::same(&first, ".") {
        rest.insert(0, (0, 1));
    }
    rest
}

/// Whether the components of `path` begin with those of `root`.
fn within(
    r: &Vec<char>,
    rs: &Vec<(usize, usize)>,
    p: &Vec<char>,
    ps: &Vec<(usize, usize)>,
) -> (b: bool)
    requires
        rs.len() == component_spans(r@).len(),
        forall|i: int|
            0 <= i < rs.len() ==> (rs@[i].0 as int, rs@[i].1 as int)
                == #[trigger] component_spans(r@)[i],
        ps.len() == component_spans(p@).len(),
        forall|i: int|
            0 <= i < ps.len() ==> (ps@[i].0 as int, ps@[i].1 as int)
                == #[trigger] component_spans(p@)[i],
    ensures
        b == lies_within(r@, p@),
{
    proof {
        lemma_component_spans(r@);
        lemma_component_spans(p@);
    }
    if rs.len() > ps.len() {
        return false;
    }
    let mut i: usize = 0;
    while i < rs.len()
        invariant
            i <= rs.len() <= ps.len(),
            rs.len() == component_spans(r@).len() == components(r@).len(),
            ps.len() == component_spans(p@).len() == components(p@).len(),
            forall|i: int|
                0 <= i < rs.len() ==> (rs@[i].0 as int, rs@[i].1 as int)
                    == #[trigger] component_spans(r@)[i],
            forall|i: int|
                0 <= i < ps.len() ==> (ps@[i].0 as int, ps@[i].1 as int)
                    == #[trigger] component_spans(p@)[i],
            forall|i: int|
                0 <= i < components(r@).len() ==> {
                    let q = #[trigger] component_spans(r@)[i];
                    0 <= q.0 <= q.1 <= r@.len() && r@.subrange(q.0, q.1) == components(r@)[i]
                },
            forall|i: int|
                0 <= i < components(p@).len() ==> {
                    let q = #[trigger] component_spans(p@)[i];
                    0 <= q.0 <= q.1 <= p@.len() && p@.subrange(q.0, q.1) == components(p@)[i]
                },
            forall|k: int| 0 <= k < i ==> components(r@)[k] == components(p@)[k],
        decreases rs.len() - i,
    {
        assert(component_spans(r@)[i as int].1 <= r@.len());
        assert(component_spans(p@)[i as int].1 <= p@.len());
        let a = text::string_between(r, rs[i].0, rs[i].1);
        let b = text::string_between(p, ps[i].0, ps[i].1);
        if !text::same(&a, &b) {
            return false;
        }
        i += 1;
    }
    assert(components(r@) =~= components(p@).take(rs.len() as int));
    true
}

/// True if `path` is inside `root`. Both should already be normalized.
pub fn is_within(root: &str, path: &str) -> (r: bool)
    ensures
        r == lies_within(root@, path@),
{
    let a = text::chars_of(root);
    let b = text::chars_of(path);
    within(&a, &component_list(&a), &b, &component_list(&b))
}

/// Render `path` relative to `workspace` when possible, for display only.
pub fn display_path(workspace: &str, path: &str) -> (r: String)
    ensures
        r@ == shown_path(workspace@, path@),
{
    let a = text::chars_of(workspace);
    let b = text::chars_of(path);
    let asp = component_list(&a);
    let bsp = component_list(&b);
    proof {
        lemma_component_spans(a@);
        lemma_component_spans(b@);
    }
    if !within(&a, &asp, &b, &bsp) {
        return path.to_owned();
    }
    let k: usize = asp.len();
    let n: usize = bsp.len();
    if k >= n {
        return String::new();
    }
    assert(component_spans(b@)[k as int].0 <= component_spans(b@)[n - 1].1);
    text::string_between(&b, bsp[k].0, bsp[n - 1].1)
}


/// `name` below the directory `dir`.
pub open spec fn below(dir: Seq<char>, name: Seq<char>) -> Seq<char> {
    if is_absolute(name) || dir.len() == 0 {
        name
    } else if dir.last() == '/' {
        dir + name
    } else {
        dir + "/"@ + name
    }
}

/// `name` below the directory `dir`.
pub fn join_path(dir: &str, name: &str) -> (r: String)
    ensures
        r@ == below(dir@, name@),
{
    let d = text::chars_of(dir);
    if starts_at_root(name) || d.len() == 0 {
        return name.to_owned();
    }
    let mut out = dir.to_owned();
    if d[d.len() - 1] != '/' {
        out.append("/");
    }
    out.append(name);
    out
}

/// The directory that holds a path: its text up to the end of the component
/// before the last. The root and the empty path have none.
pub open spec fn parent_of(s: Seq<char>) -> Option<Seq<char>> {
    let spans = component_spans(s);
    let n = spans.len();
    if n == 0 || components(s).last() == seq!['/'] {
        None
    } else if n == 1 {
        Some(Seq::empty())
    } else {
        Some(s.take(spans[n - 2].1))
    }
}

/// The directory that holds a path.
pub fn parent(path: &str) -> (r: Option<String>)
    ensures
        text::opt_view(r) == parent_of(path@),
{
    let v = text::chars_of(path);
    let spans = component_list(&v);
    proof {
        lemma_component_spans(v@);
        reveal_strlit("/");
        assert("/"@ =~= seq!['/']);
    }
    let n: usize = spans.len();
    if n == 0 {
        return None;
    }
    assert(component_spans(v@)[n - 1] == (spans@[n - 1].0 as int, spans@[n - 1].1 as int));
    let last = text::string_between(&v, spans[n - 1].0, spans[n - 1].1);
    if text::same(&last, "/") {
        return None;
    }
    if n == 1 {
        return Some(String::new());
    }
    assert(component_spans(v@)[n - 2] == (spans@[n - 2].0 as int, spans@[n - 2].1 as int));
    assert(v@.subrange(0, spans@[n - 2].1 as int) =~= v@.take(spans@[n - 2].1 as int));
    Some(text::string_between(&v, 0, spans[n - 2].1))
}

/// Whether two paths have the same components.
pub fn same_path(a: &str, b: &str) -> (r: bool)
    ensures
        r == (components(a@) == components(b@)),
{
    let r = is_within(a, b) && is_within(b, a);
    proof {
        if r {
            assert(components(a@) =~= components(b@));
        }
    }
    r
}

/// The directory of a path has a shorter text.
pub proof fn lemma_parent_shorter(s: Seq<char>)
    requires
        parent_of(s) is Some,
    ensures
        parent_of(s)->0.len() < s.len(),
{
    lemma_component_spans(s);
    let spans = component_spans(s);
    let n = spans.len() as int;
    let last = components(s)[n - 1];
    assert(s.subrange(spans[n - 1].0, spans[n - 1].1) == last);
    lemma_components_nonempty(s, n - 1);
    if n >= 2 {
        lemma_span_ends_grow(s, n - 2, n - 1);
    }
}

proof fn lemma_components_nonempty(s: Seq<char>, i: int)
    requires
        0 <= i < components(s).len(),
    ensures
        components(s)[i].len() > 0,
{
    lemma_names_plain(s);
    let off = components(s).len() - names(s).len();
    if i >= off {
        assert(components(s)[i] == names(s)[i - off]);
        assert(is_name(names(s)[i - off]));
    }
}

proof fn lemma_span_ends_grow(s: Seq<char>, i: int, j: int)
    requires
        0 <= i < j < component_spans(s).len(),
    ensures
        component_spans(s)[i].1 < component_spans(s)[j].1,
{
    lemma_segment_spans(s);
    lemma_first_span(s);
    lemma_component_spans(s);
    let keep = |p: (int, int)| is_name(s.subrange(p.0, p.1));
    let a = segment_spans(s).filter(keep);
    lemma_filtered_spans_ordered(s, segment_spans(s), keep);
    let off = component_spans(s).len() - a.len();
    assert(component_spans(s)[j] == a[j - off]);
    if i >= off {
        assert(component_spans(s)[i] == a[i - off]);
    } else {
        // The first component is `/` or `.`, at the very start; every name ends after it.
        segment_spans(s).lemma_filter_pred(keep, j - off);
        assert(keep(a[j - off]));
        let p = a[j - off];
        let t = s.subrange(p.0, p.1);
        if p.1 <= 1 {
            assert(t.len() == 1 && p.0 == 0);
            assert(t[0] == s[0]);
            if is_absolute(s) {
                lemma_names_plain(s);
                lemma_filter_spans(s, segment_spans(s), segments(s));
                assert(t == names(s)[j - off]);
                assert(is_name(names(s)[j - off]) && !names(s)[j - off].contains('/'));
                assert(t.contains(t[0]));
            } else {
                assert(segments(s)[0] == seq!['.']);
                let q = segment_spans(s)[0];
                let u = s.subrange(q.0, q.1);
                assert(q.0 == 0 && 0 <= q.1 <= s.len());
                assert(u == seq!['.']);
                assert(u.len() == q.1);
                assert(u[0] == s[0]);
                assert(t =~= seq!['.']);
            }
        }
    }
}

/// The name of what a path leads to. A path that ends with the root, `.` or
/// `..` has none.
pub open spec fn file_name_of(s: Seq<char>) -> Option<Seq<char>> {
    let c = components(s);
    if c.len() == 0 || c.last() == seq!['/'] || c.last() == seq!['.'] || c.last() == seq!['.', '.'] {
        None
    } else {
        Some(c.last())
    }
}

/// The name of what a path leads to.
pub fn file_name(path: &str) -> (r: Option<String>)
    ensures
        text::opt_view(r) == file_name_of(path@),
{
    let v = text::chars_of(path);
    let spans = component_list(&v);
    proof {
        lemma_component_spans(v@);
        reveal_strlit("/");
        reveal_strlit(".");
        reveal_strlit("..");
        assert("/"@ =~= seq!['/'] && "."@ =~= seq!['.'] && ".."@ =~= seq!['.', '.']);
    }
    let n: usize = spans.len();
    if n == 0 {
        return None;
    }
    assert(component_spans(v@)[n - 1] == (spans@[n - 1].0 as int, spans@[n - 1].1 as int));
    let last = text::string_between(&v, spans[n - 1].0, spans[n - 1].1);
    if text::same(&last, "/") || text::same(&last, ".") || text::same(&last, "..") {
        None
    } else {
        Some(last)
    }
}

/// The place of the last dot at or before `end`, counted from the start.
pub open spec fn last_dot(name: Seq<char>, end: int) -> Option<int>
    decreases end,
{
    if end <= 0 || end > name.len() {
        None
    } else if name[end - 1] == '.' {
        Some(end - 1)
    } else {
        last_dot(name, end - 1)
    }
}

/// A file name in two: what stands before its last dot, and what follows it. A
/// dot that the name begins with sets nothing apart.
pub open spec fn name_parts(name: Seq<char>) -> (Seq<char>, Option<Seq<char>>) {
    match last_dot(name, name.len() as int) {
        Some(i) => if i == 0 {
            (name, None)
        } else {
            (name.take(i), Some(name.skip(i + 1)))
        },
        None => (name, None),
    }
}

/// The file name of a path without its extension.
pub open spec fn stem_of(path: Seq<char>) -> Option<Seq<char>> {
    match file_name_of(path) {
        Some(name) => Some(name_parts(name).0),
        None => None,
    }
}

/// The extension of a path's file name.
pub open spec fn extension_of(path: Seq<char>) -> Option<Seq<char>> {
    match file_name_of(path) {
        Some(name) => name_parts(name).1,
        None => None,
    }
}

fn split_name(name: &str) -> (r: (String, Option<String>))
    ensures
        (r.0@, text::opt_view(r.1)) == name_parts(name@),
{
    let v = text::chars_of(name);
    let mut end: usize = v.len();
    while end > 0
        invariant
            end <= v.len(),
            v@ == name@,
            last_dot(name@, name@.len() as int) == last_dot(name@, end as int),
        decreases end,
    {
        if v[end - 1] == '.' {
            if end == 1 {
                return (name.to_owned(), None);
            }
            let stem = text::string_between(&v, 0, end - 1);
            let ext = text::string_between(&v, end, v.len());
            assert(stem@ =~= name@.take(end - 1));
            assert(ext@ =~= name@.skip(end as int));
            return (stem, Some(ext));
        }
        end -= 1;
    }
    (name.to_owned(), None)
}

/// The file name of a path without its extension.
pub fn file_stem(path: &str) -> (r: Option<String>)
    ensures
        text::opt_view(r) == stem_of(path@),
{
    match file_name(path) {
        Some(name) => Some(split_name(&name).0),
        None => None,
    }
}

/// Whether a path's file name has the given extension.
pub fn has_extension(path: &str, ext: &str) -> (r: bool)
    ensures
        r == (extension_of(path@) == Some(ext@)),
{
    match file_name(path) {
        Some(name) => match split_name(&name).1 {
            Some(e) => text::same(&e, ext),
            None => false,
        },
        None => false,
    }
}

/// A name below a directory adds a component to the directory's.
pub proof fn lemma_below_components(dir: Seq<char>, name: Seq<char>)
    requires
        is_name(name),
        !name.contains('/'),
    ensures
        components(dir).is_prefix_of(components(below(dir, name))),
{
    reveal(Seq::filter);
    reveal_strlit("/");
    assert("/"@ =~= seq!['/']);
    let keep = |p: Seq<char>| is_name(p);
    let r = below(dir, name);
    assert(!is_absolute(name)) by {
        if is_absolute(name) {
            assert(name.contains(name[0]));
        }
    }
    if dir.len() == 0 {
        assert(segments(dir) =~= seq![Seq::<char>::empty()]);
        assert(seq![Seq::<char>::empty()].drop_last().filter(keep) =~= Seq::<Seq<char>>::empty());
        assert(components(dir) =~= Seq::<Seq<char>>::empty());
        assert(components(r).take(0) =~= components(dir));
    } else {
        let e = if dir.last() == '/' { dir.drop_last() } else { dir };
        assert(r =~= e.push('/') + name);
        text::lemma_pieces_concat(e, name, '/');
        text::lemma_pieces_single(name, '/');
        text::lemma_pieces_nonempty(e, '/');
        let pe = segments(e);
        assert(segments(r) == pe + seq![name]);
        assert((pe + seq![name]).drop_last() =~= pe);
        assert((pe + seq![name]).last() == name);
        assert(names(r) == names(e).push(name));
        if dir.last() == '/' {
            assert(dir =~= e.push('/') + Seq::<char>::empty());
            text::lemma_pieces_concat(e, Seq::empty(), '/');
            assert(segments(dir) =~= pe + seq![Seq::<char>::empty()]);
            assert((pe + seq![Seq::<char>::empty()]).drop_last() =~= pe);
            assert(names(dir) == names(e));
        }
        assert(segments(dir)[0] == segments(r)[0]);
        assert(is_absolute(dir) == is_absolute(r)) by {
            if e.len() == 0 {
                assert(dir =~= seq!['/']);
                assert(r[0] == '/');
            } else {
                assert(r[0] == e[0] && dir[0] == e[0]);
            }
        }
        assert(components(r) =~= components(dir).push(name));
        assert(components(dir) =~= components(r).take(components(dir).len() as int));
    }
}

/// A path, its directory, and so on, up to the root or to `stop`.
pub open spec fn ancestors(path: Seq<char>, stop: Option<Seq<char>>) -> Seq<Seq<char>>
    decreases path.len(),
{
    if stop matches Some(h) && components(h) == components(path) {
        seq![path]
    } else {
        match parent_of(path) {
            Some(up) => {
                proof {
                    lemma_parent_shorter(path);
                }
                seq![path] + ancestors(up, stop)
            },
            None => seq![path],
        }
    }
}

/// A path, its directory, and so on, up to the root or to `stop`.
pub fn ancestor_list(path: &str, stop: Option<&str>) -> (r: Vec<String>)
    ensures
        text::views(r@) == ancestors(
            path@,
            match stop {
                Some(h) => Some(h@),
                None => None,
            },
        ),
{
    let ghost limit = match stop {
        Some(h) => Some(h@),
        None => None,
    };
    let mut out: Vec<String> = Vec::new();
    let mut cur = path.to_owned();
    assert(text::views(out@) + ancestors(path@, limit) =~= ancestors(path@, limit));
    loop
        invariant
            limit == (match stop {
                Some(h) => Some(h@),
                None => None,
            }),
            text::views(out@) + ancestors(cur@, limit) == ancestors(path@, limit),
        decreases cur@.len(),
    {
        let ghost before = text::views(out@);
        let ghost cv = cur@;
        let at_stop = match stop {
            Some(h) => same_path(h, &cur),
            None => false,
        };
        let up = parent(&cur);
        out.push(cur);
        assert(text::views(out@) =~= before.push(cv));
        if at_stop {
            assert(before + seq![cv] =~= before.push(cv));
            return out;
        }
        match up {
            None => {
                assert(before + seq![cv] =~= before.push(cv));
                return out;
            },
            Some(dir) => {
                proof {
                    lemma_parent_shorter(cv);
                    let rest = ancestors(dir@, limit);
                    assert(before.push(cv) + rest =~= before + (seq![cv] + rest));
                }
                cur = dir;
            },
        }
    }
}

/// Whether each is a name, and so holds no slash.
pub open spec fn plain_names(ns: Seq<Seq<char>>) -> bool {
    forall|i: int| 0 <= i < ns.len() ==> is_name(#[trigger] ns[i]) && !ns[i].contains('/')
}

proof fn lemma_filter_names(ns: Seq<Seq<char>>)
    requires
        forall|i: int| 0 <= i < ns.len() ==> !(#[trigger] ns[i]).contains('/'),
    ensures
        plain_names(ns.filter(|p: Seq<char>| is_name(p))),
        plain_names(ns) ==> ns.filter(|p: Seq<char>| is_name(p)) == ns,
    decreases ns.len(),
{
    reveal(Seq::filter);
    let keep = |p: Seq<char>| is_name(p);
    if ns.len() > 0 {
        let t = ns.drop_last();
        assert forall|i: int| 0 <= i < t.len() implies !(#[trigger] t[i]).contains('/') by {
            assert(t[i] == ns[i]);
        }
        lemma_filter_names(t);
        if plain_names(ns) {
            assert forall|i: int| 0 <= i < t.len() implies is_name(#[trigger] t[i])
                && !t[i].contains('/') by {
                assert(t[i] == ns[i]);
            }
            assert(keep(ns.last()));
            assert(t.push(ns.last()) =~= ns);
        }
        let a = ns.filter(keep);
        let b = t.filter(keep);
        assert forall|i: int| 0 <= i < a.len() implies is_name(#[trigger] a[i])
            && !a[i].contains('/') by {
            if i < b.len() {
                assert(a[i] == b[i]);
            } else {
                assert(a[i] == ns[ns.len() - 1]);
            }
        }
    } else {
        assert(ns.filter(keep) =~= ns);
    }
}

/// The names along a path are names.
pub proof fn lemma_names_plain(s: Seq<char>)
    ensures
        plain_names(names(s)),
{
    text::lemma_pieces_free(s, '/');
    lemma_filter_names(segments(s));
}

proof fn lemma_collapsed_plain(absolute: bool, ns: Seq<Seq<char>>)
    requires
        plain_names(ns),
    ensures
        plain_names(collapsed(absolute, ns)),
        absolute ==> !collapsed(absolute, ns).contains(seq!['.', '.']),
    decreases ns.len(),
{
    if ns.len() > 0 {
        let t = ns.drop_last();
        assert(plain_names(t)) by {
            assert forall|i: int| 0 <= i < t.len() implies is_name(#[trigger] t[i])
                && !t[i].contains('/') by {
                assert(t[i] == ns[i]);
            }
        }
        lemma_collapsed_plain(absolute, t);
        let rest = collapsed(absolute, t);
        let c = collapsed(absolute, ns);
        assert forall|i: int| 0 <= i < c.len() implies is_name(#[trigger] c[i])
            && !c[i].contains('/') by {
            if i < rest.len() {
                assert(c[i] == rest[i]);
            } else {
                assert(c[i] == ns[ns.len() - 1]);
            }
        }
        if absolute {
            assert forall|i: int| 0 <= i < c.len() implies c[i] != seq!['.', '.'] by {
                if i < rest.len() {
                    assert(c[i] == rest[i]);
                    assert(rest.contains(rest[i]));
                }
            }
        }
    }
}

pub(crate) proof fn lemma_names_of_text(absolute: bool, ns: Seq<Seq<char>>)
    requires
        plain_names(ns),
    ensures
        names(path_text(absolute, ns)) == ns,
        is_absolute(path_text(absolute, ns)) == absolute,
{
    reveal_strlit("/");
    assert("/"@ =~= seq!['/']);
    let body = text::joined(ns, "/"@);
    if ns.len() > 0 {
        text::lemma_pieces_joined(ns, '/');
        lemma_filter_names(ns);
        assert(body.len() > 0 && body[0] != '/') by {
            lemma_joined_start(ns, "/"@);
            assert(is_name(ns[0]) && ns[0].contains(ns[0][0]));
        }
    } else {
        reveal(Seq::filter);
        assert(segments(body) =~= seq![Seq::<char>::empty()]);
        assert(seq![Seq::<char>::empty()].drop_last().filter(|p: Seq<char>| is_name(p))
            =~= Seq::<Seq<char>>::empty());
        assert(names(body) =~= ns);
    }
    if absolute {
        let whole = "/"@ + body;
        text::lemma_pieces_concat(Seq::empty(), body, '/');
        assert(whole =~= Seq::<char>::empty().push('/') + body);
        text::lemma_pieces_single(Seq::empty(), '/');
        assert(segments(whole) =~= seq![Seq::<char>::empty()] + segments(body));
        lemma_filter_skips_empty(segments(body));
    }
}

proof fn lemma_filter_skips_empty(ns: Seq<Seq<char>>)
    ensures
        (seq![Seq::<char>::empty()] + ns).filter(|p: Seq<char>| is_name(p)) == ns.filter(
            |p: Seq<char>| is_name(p),
        ),
    decreases ns.len(),
{
    reveal(Seq::filter);
    let whole = seq![Seq::<char>::empty()] + ns;
    if ns.len() == 0 {
        assert(whole.drop_last() =~= ns);
    } else {
        lemma_filter_skips_empty(ns.drop_last());
        assert(whole.drop_last() =~= seq![Seq::<char>::empty()] + ns.drop_last());
    }
}

proof fn lemma_joined_start(ns: Seq<Seq<char>>, sep: Seq<char>)
    requires
        ns.len() > 0,
        ns[0].len() > 0,
    ensures
        text::joined(ns, sep).len() > 0,
        text::joined(ns, sep)[0] == ns[0][0],
    decreases ns.len(),
{
    if ns.len() > 1 {
        lemma_joined_start(ns.drop_last(), sep);
    }
}

/// A path resolved against an absolute workspace is absolute, and no `.` and
/// no `..` is left in it: what lies within a directory by its components lies
/// there textually.
pub proof fn law_resolved_is_plain(workspace: Seq<char>, path: Seq<char>)
    requires
        is_absolute(workspace),
    ensures
        is_absolute(resolved(workspace, path)),
        !components(resolved(workspace, path)).contains(seq!['.']),
        !components(resolved(workspace, path)).contains(seq!['.', '.']),
{
    let (abs, ns) = if is_absolute(path) {
        (true, names(path))
    } else {
        (true, names(workspace) + names(path))
    };
    lemma_names_plain(path);
    lemma_names_plain(workspace);
    assert(plain_names(ns)) by {
        if !is_absolute(path) {
            let w = names(workspace);
            assert forall|i: int| 0 <= i < ns.len() implies is_name(#[trigger] ns[i])
                && !ns[i].contains('/') by {
                if i < w.len() {
                    assert(ns[i] == w[i]);
                } else {
                    assert(ns[i] == names(path)[i - w.len()]);
                }
            }
        }
    }
    lemma_collapsed_plain(abs, ns);
    lemma_names_of_text(abs, collapsed(abs, ns));
    let r = resolved(workspace, path);
    assert(names(r) == collapsed(abs, ns));
    assert forall|i: int| 0 <= i < components(r).len() implies components(r)[i] != seq!['.']
        && components(r)[i] != seq!['.', '.'] by {
        if i == 0 {
            assert(components(r)[0][0] == '/');
        } else {
            assert(components(r)[i] == names(r)[i - 1]);
            assert(is_name(names(r)[i - 1]));
            assert(names(r).contains(names(r)[i - 1]));
        }
    }
}

/// Normalizing a normalized path changes nothing, where the path is absolute.
pub proof fn law_normalize_idempotent(path: Seq<char>)
    requires
        is_absolute(path),
    ensures
        normalized(normalized(path)) == normalized(path),
{
    lemma_names_plain(path);
    lemma_collapsed_plain(true, names(path));
    let c = collapsed(true, names(path));
    lemma_names_of_text(true, c);
    lemma_collapsed_fixed(c);
}

pub(crate) proof fn lemma_collapsed_fixed(ns: Seq<Seq<char>>)
    requires
        !ns.contains(seq!['.', '.']),
    ensures
        collapsed(true, ns) == ns,
    decreases ns.len(),
{
    if ns.len() > 0 {
        let t = ns.drop_last();
        assert forall|i: int| 0 <= i < t.len() implies t[i] != seq!['.', '.'] by {
            assert(t[i] == ns[i]);
        }
        lemma_collapsed_fixed(t);
        assert(ns.contains(ns.last()));
        assert(t.push(ns.last()) =~= ns);
    }
}

// ---------------------------------------------------------------------------
// Text
// ---------------------------------------------------------------------------

/// Text cut to `max` bytes, with a note on what was dropped.
pub open spec fn truncated(s: Seq<char>, max: nat) -> Seq<char> {
    let total = text::byte_count(s);
    if total <= max {
        s
    } else {
        let kept = text::fitting(s, max);
        kept + "\n\n[truncated "@ + text::decimal((total - text::byte_count(kept)) as nat)
            + " bytes of "@ + text::decimal(total) + " total]"@
    }
}

spec fn ten_to(k: nat) -> nat
    decreases k,
{
    if k == 0 {
        1
    } else {
        10 * ten_to((k - 1) as nat)
    }
}

proof fn lemma_decimal_is_short(n: nat, k: nat)
    requires
        k > 0,
        n < ten_to(k),
    ensures
        text::byte_count(text::decimal(n)) <= k,
    decreases k,
{
    reveal_with_fuel(text::byte_count, 2);
    if n < 10 {
        assert(text::decimal(n).drop_last() =~= Seq::<char>::empty());
    } else {
        assert(k > 1) by {
            reveal_with_fuel(ten_to, 2);
        }
        lemma_decimal_is_short(n / 10, (k - 1) as nat);
        assert(text::decimal(n).drop_last() =~= text::decimal(n / 10));
    }
}

pub(crate) proof fn lemma_number_is_short(n: nat)
    requires
        n <= u64::MAX,
    ensures
        text::byte_count(text::decimal(n)) <= 20,
{
    assert(n < ten_to(20)) by {
        reveal_with_fuel(ten_to, 21);
    }
    lemma_decimal_is_short(n, 20);
}

pub(crate) proof fn lemma_bytes_of_sum(a: Seq<char>, b: Seq<char>)
    ensures
        text::byte_count(a + b) == text::byte_count(a) + text::byte_count(b),
    decreases b.len(),
{
    if b.len() == 0 {
        assert(a + b =~= a);
    } else {
        lemma_bytes_of_sum(a, b.drop_last());
        assert((a + b).drop_last() =~= a + b.drop_last());
    }
}

pub(crate) proof fn lemma_plain_bytes(s: Seq<char>)
    requires
        forall|i: int| 0 <= i < s.len() ==> #[trigger] s[i] <= '\u{7f}',
    ensures
        text::byte_count(s) == s.len(),
    decreases s.len(),
{
    if s.len() > 0 {
        lemma_plain_bytes(s.drop_last());
        assert(s.last() == s[s.len() - 1]);
    }
}

/// Text that was cut has at most the bytes it was cut to, and a note of seventy
/// more. Text that fits is left alone.
pub proof fn law_cut_text_is_bounded(s: Seq<char>, max: nat)
    requires
        text::byte_count(s) <= u64::MAX,
    ensures
        text::byte_count(truncated(s, max)) <= max + 70,
        text::byte_count(s) <= max ==> truncated(s, max) == s,
{
    if text::byte_count(s) > max {
        text::lemma_fitting(s, max);
        let total = text::byte_count(s);
        let kept = text::fitting(s, max);
        let dropped = (total - text::byte_count(kept)) as nat;
        lemma_number_is_short(dropped);
        lemma_number_is_short(total);
        reveal_strlit("\n\n[truncated ");
        reveal_strlit(" bytes of ");
        reveal_strlit(" total]");
        lemma_plain_bytes("\n\n[truncated "@);
        lemma_plain_bytes(" bytes of "@);
        lemma_plain_bytes(" total]"@);
        let a = kept + "\n\n[truncated "@;
        let b = a + text::decimal(dropped);
        let c = b + " bytes of "@;
        let d = c + text::decimal(total);
        lemma_bytes_of_sum(kept, "\n\n[truncated "@);
        lemma_bytes_of_sum(a, text::decimal(dropped));
        lemma_bytes_of_sum(b, " bytes of "@);
        lemma_bytes_of_sum(c, text::decimal(total));
        lemma_bytes_of_sum(d, " total]"@);
    }
}

/// Truncate to at most `max` bytes on a character boundary, appending a note
/// about what was dropped.
pub fn truncate_text(text: &str, max: usize) -> (r: String)
    ensures
        r@ == truncated(text@, max as nat),
{
    let total: usize = text::byte_len(text);
    if total <= max {
        return text.to_owned();
    }
    let mut out = text::fit(text, max);
    proof {
        text::lemma_fitting(text@, max as nat);
    }
    let dropped: usize = total - text::byte_len(&out);
    out.append("\n\n[truncated ");
    out.append(&text::number(dropped as u64));
    out.append(" bytes of ");
    out.append(&text::number(total as u64));
    out.append(" total]");
    out
}

/// Heuristic binary-file detection: a NUL byte in the first 8 KiB.
pub fn looks_binary(bytes: &[u8]) -> (r: bool)
    ensures
        r == exists|i: int| 0 <= i < bytes@.len() && i < 8192 && #[trigger] bytes@[i] == 0,
{
    let mut i: usize = 0;
    while i < bytes.len() && i < 8192
        invariant
            i <= bytes@.len(),
            i <= 8192,
            forall|k: int| 0 <= k < i ==> bytes@[k] != 0,
        decreases bytes.len() - i,
    {
        if bytes[i] == 0 {
            return true;
        }
        i += 1;
    }
    false
}

/// What stands between a line's number and its text when a file is read.
pub const LINE_NUMBER_SEPARATOR: char = '\u{2502}';

/// Lines numbered from `start`, each number in a field of six.
pub open spec fn numbered(lines: Seq<Seq<char>>, start: nat, sep: char) -> Seq<char>
    decreases lines.len(),
{
    if lines.len() == 0 {
        Seq::empty()
    } else {
        numbered(lines.drop_last(), start, sep) + text::right_aligned(
            text::decimal((start + lines.len() - 1) as nat),
            6,
            ' ',
        ) + seq![sep] + lines.last() + seq!['\n']
    }
}

/// Number lines, starting at `start`, with `sep` after each number.
pub fn number_lines_with(text: &str, start: usize, sep: char) -> (r: String)
    requires
        start + text::lines_of(text@).len() <= usize::MAX + 1,
    ensures
        r@ == numbered(text::lines_of(text@), start as nat, sep),
{
    let lines = text::lines(text);
    let ghost all = text::lines_of(text@);
    let mut out = String::new();
    let mut i: usize = 0;
    while i < lines.len()
        invariant
            i <= lines.len(),
            all == text::views(lines@),
            start + lines.len() <= usize::MAX + 1,
            out@ == numbered(all.take(i as int), start as nat, sep),
        decreases lines.len() - i,
    {
        proof {
            assert(all.take(i + 1).drop_last() =~= all.take(i as int));
            assert(all[i as int] == lines@[i as int]@);
        }
        out.append(&text::pad_left(&text::number((start + i) as u64), 6, ' '));
        out.push(sep);
        out.append(&lines[i]);
        out.push('\n');
        i += 1;
        assert(out@ =~= numbered(all.take(i as int), start as nat, sep));
    }
    assert(all.take(all.len() as int) =~= all);
    out
}

/// Number lines in `cat -n` style, starting at `start`.
pub fn number_lines(text: &str, start: usize) -> (r: String)
    requires
        start + text::lines_of(text@).len() <= usize::MAX + 1,
    ensures
        r@ == numbered(text::lines_of(text@), start as nat, '\t'),
{
    number_lines_with(text, start, '\t')
}

// ---------------------------------------------------------------------------
// Diffs
// ---------------------------------------------------------------------------

/// A single line of a rendered diff.
#[derive(Debug, Clone, PartialEq, Eq)]
pub struct DiffLine {
    pub kind: DiffKind,
    pub old_line: Option<usize>,
    pub new_line: Option<usize>,
    pub text: String,
}

#[derive(Debug, Clone, Copy, PartialEq, Eq, Structural)]
pub enum DiffKind {
    Context,
    Added,
    Removed,
}

/// One change of a diff: its kind, the line's index in the old and in the new
/// text, and the line with its line break.
pub type RawChange = (DiffKind, Option<usize>, Option<usize>, Seq<char>);

/// The changes that a line diff of two texts shows, in order, with `context`
/// unchanged lines around each.
pub uninterp spec fn line_changes(old: Seq<char>, new: Seq<char>, context: nat) -> Seq<RawChange>;

/// `similar::TextDiff::from_lines`, `grouped_ops` and `iter_changes`: the
/// changes of a line diff, group by group. The algorithm's choice among equally
/// short diffs is named and not stated. An index lies within the text it
/// belongs to, an unchanged line has both indices, an added one only the new
/// and a removed one only the old. Equal texts have no changes.
#[verifier::external_body]
fn diff_changes(old: &str, new: &str, context: usize) -> (r: Vec<
    (DiffKind, Option<usize>, Option<usize>, String),
>)
    requires
        context <= usize::MAX / 2,
    ensures
        r@.map_values(
            |c: (DiffKind, Option<usize>, Option<usize>, String)| (c.0, c.1, c.2, c.3@),
        ) == line_changes(old@, new@, context as nat),
        forall|i: int|
            #![trigger r@[i]]
            0 <= i < r@.len() ==> {
                &&& r@[i].1 matches Some(k) ==> k < old@.len()
                &&& r@[i].2 matches Some(k) ==> k < new@.len()
                &&& (r@[i].1 is Some) == (r@[i].0 != DiffKind::Added)
                &&& (r@[i].2 is Some) == (r@[i].0 != DiffKind::Removed)
            },
        old@ == new@ ==> r@.len() == 0,
{
    let diff = similar::TextDiff::from_lines(old, new);
    let ops = diff.grouped_ops(context);
    let all = ops.iter().flatten().flat_map(|op| diff.iter_changes(op));
    all.map(|c| {
        let kind = match c.tag() {
            similar::ChangeTag::Equal => DiffKind::Context,
            similar::ChangeTag::Insert => DiffKind::Added,
            similar::ChangeTag::Delete => DiffKind::Removed,
        };
        (kind, c.old_index(), c.new_index(), c.value().to_string())
    }).collect()
}

/// A line without the line breaks it ends with.
pub open spec fn without_breaks(s: Seq<char>) -> Seq<char>
    decreases s.len(),
{
    if s.len() > 0 && s.last() == '\n' {
        without_breaks(s.drop_last())
    } else {
        s
    }
}

fn strip_breaks(s: &str) -> (r: String)
    ensures
        r@ == without_breaks(s@),
{
    let v = text::chars_of(s);
    let mut j: usize = v.len();
    assert(v@.take(j as int) =~= v@);
    while j > 0 && v[j - 1] == '\n'
        invariant
            j <= v.len(),
            v@ == s@,
            without_breaks(v@.take(j as int)) == without_breaks(s@),
        decreases j,
    {
        assert(v@.take(j as int).drop_last() =~= v@.take(j - 1));
        j -= 1;
    }
    text::string_between(&v, 0, j)
}

/// A line number is one more than an index.
pub open spec fn line_number(i: Option<usize>) -> Option<int> {
    match i {
        Some(k) => Some(k + 1),
        None => None,
    }
}

pub open spec fn as_int(i: Option<usize>) -> Option<int> {
    match i {
        Some(k) => Some(k as int),
        None => None,
    }
}

/// Whether a diff line renders a change.
pub open spec fn renders(l: DiffLine, c: RawChange) -> bool {
    &&& l.kind == c.0
    &&& as_int(l.old_line) == line_number(c.1)
    &&& as_int(l.new_line) == line_number(c.2)
    &&& l.text@ == without_breaks(c.3)
}

/// Produce a unified-style diff with `context` lines of surrounding context.
pub fn diff_lines(old: &str, new: &str, context: usize) -> (r: Vec<DiffLine>)
    requires
        context <= usize::MAX / 2,
    ensures
        r@.len() == line_changes(old@, new@, context as nat).len(),
        forall|i: int|
            0 <= i < r@.len() ==> renders(
                #[trigger] r@[i],
                line_changes(old@, new@, context as nat)[i],
            ),
        forall|i: int|
            #![trigger r@[i]]
            0 <= i < r@.len() ==> (r@[i].old_line is Some) == (r@[i].kind != DiffKind::Added) && (
            r@[i].new_line is Some) == (r@[i].kind != DiffKind::Removed),
        old@ == new@ ==> r@.len() == 0,
{
    let changes = diff_changes(old, new, context);
    let ghost all = line_changes(old@, new@, context as nat);
    let old_len: usize = text::byte_len(old);
    let new_len: usize = text::byte_len(new);
    let mut out: Vec<DiffLine> = Vec::new();
    let mut i: usize = 0;
    while i < changes.len()
        invariant
            i <= changes.len(),
            i == out.len(),
            old@.len() <= old_len,
            new@.len() <= new_len,
            all == changes@.map_values(
                |c: (DiffKind, Option<usize>, Option<usize>, String)| (c.0, c.1, c.2, c.3@),
            ),
            forall|i: int|
                #![trigger changes@[i]]
                0 <= i < changes@.len() ==> {
                    &&& changes@[i].1 matches Some(k) ==> k < old@.len()
                    &&& changes@[i].2 matches Some(k) ==> k < new@.len()
                    &&& (changes@[i].1 is Some) == (changes@[i].0 != DiffKind::Added)
                    &&& (changes@[i].2 is Some) == (changes@[i].0 != DiffKind::Removed)
                },
            forall|k: int| 0 <= k < i ==> renders(#[trigger] out@[k], all[k]),
            forall|i: int|
                #![trigger out@[i]]
                0 <= i < out@.len() ==> (out@[i].old_line is Some) == (out@[i].kind
                    != DiffKind::Added) && (out@[i].new_line is Some) == (out@[i].kind
                    != DiffKind::Removed),
        decreases changes.len() - i,
    {
        let c = &changes[i];
        assert(all[i as int] == (c.0, c.1, c.2, c.3@));
        let old_line = match c.1 {
            Some(k) => Some(k + 1),
            None => None,
        };
        let new_line = match c.2 {
            Some(k) => Some(k + 1),
            None => None,
        };
        out.push(DiffLine { kind: c.0, old_line, new_line, text: strip_breaks(&c.3) });
        i += 1;
    }
    out
}

/// The number of changes of a kind.
pub open spec fn count_kind(changes: Seq<RawChange>, kind: DiffKind) -> nat
    decreases changes.len(),
{
    if changes.len() == 0 {
        0
    } else {
        count_kind(changes.drop_last(), kind) + if changes.last().0 == kind {
            1nat
        } else {
            0
        }
    }
}

/// Count added and removed lines, for the `+3 -1` summary on an edit.
pub fn diff_stats(old: &str, new: &str) -> (r: (usize, usize))
    ensures
        r.0 == count_kind(line_changes(old@, new@, 0), DiffKind::Added),
        r.1 == count_kind(line_changes(old@, new@, 0), DiffKind::Removed),
        old@ == new@ ==> r == (0usize, 0usize),
{
    let lines = diff_lines(old, new, 0);
    let ghost all = line_changes(old@, new@, 0);
    let mut added: usize = 0;
    let mut removed: usize = 0;
    let mut i: usize = 0;
    while i < lines.len()
        invariant
            i <= lines.len(),
            lines.len() == all.len(),
            added <= i,
            removed <= i,
            forall|k: int| 0 <= k < lines@.len() ==> renders(#[trigger] lines@[k], all[k]),
            added == count_kind(all.take(i as int), DiffKind::Added),
            removed == count_kind(all.take(i as int), DiffKind::Removed),
        decreases lines.len() - i,
    {
        proof {
            assert(all.take(i + 1).drop_last() =~= all.take(i as int));
            assert(renders(lines@[i as int], all[i as int]));
        }
        match lines[i].kind {
            DiffKind::Added => {
                added += 1;
            },
            DiffKind::Removed => {
                removed += 1;
            },
            DiffKind::Context => {},
        }
        i += 1;
    }
    assert(all.take(all.len() as int) =~= all);
    (added, removed)
}

} // verus!
