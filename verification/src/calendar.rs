//! What holds of timestamps: they name real dates, and sorting them as text sorts
//! them by time.
use vstd::prelude::*;
use crate::table::{lemma_precedes_total, precedes};
use crate::text;
use crate::util::{
    date_of, lemma_plain_bytes, lemma_year_start, month_and_day, month_len, rfc3339, year_and_day,
    year_len, year_start, zero_padded,
};

verus! {

proof fn lemma_year_split(days: nat, y0: nat)
    requires
        y0 >= 1970,
    ensures
        ({
            let (y, k) = year_and_day(days, y0);
            &&& y >= y0
            &&& k < year_len(y)
            &&& days == year_start(y) - year_start(y0) + k
        }),
    decreases days,
{
    if days >= year_len(y0) {
        lemma_year_split((days - year_len(y0)) as nat, y0 + 1);
        assert(year_start(y0 + 1) == year_start(y0) + year_len(y0));
    }
}

proof fn lemma_years_ascend(a: nat, b: nat)
    requires
        1970 <= a <= b,
    ensures
        year_start(a) <= year_start(b),
    decreases b - a,
{
    if a < b {
        lemma_years_ascend(a, (b - 1) as nat);
    }
}

/// The days from the start of a year to the start of month `m`.
spec fn month_start(y: nat, m: nat) -> nat
    decreases m,
{
    if m <= 1 {
        0
    } else {
        month_start(y, (m - 1) as nat) + month_len(y, (m - 1) as nat)
    }
}

proof fn lemma_month_split(day: nat, y: nat, m0: nat)
    requires
        m0 >= 1,
    ensures
        ({
            let (m, d) = month_and_day(day, y, m0);
            &&& m >= m0
            &&& 1 <= d <= month_len(y, m)
            &&& day == month_start(y, m) - month_start(y, m0) + d - 1
        }),
    decreases day,
{
    if day >= month_len(y, m0) {
        lemma_month_split((day - month_len(y, m0)) as nat, y, m0 + 1);
        assert(month_start(y, m0 + 1) == month_start(y, m0) + month_len(y, m0));
    }
}

proof fn lemma_months_ascend(y: nat, a: nat, b: nat)
    requires
        1 <= a <= b,
    ensures
        month_start(y, a) <= month_start(y, b),
    decreases b - a,
{
    if a < b {
        lemma_months_ascend(y, a, (b - 1) as nat);
    }
}

/// Every day has a date of the Gregorian calendar, and those before the year
/// 10000 have four digits for the year.
proof fn lemma_date_is_real(days: nat)
    ensures
        ({
            let (y, m, d) = date_of(days);
            &&& y >= 1970
            &&& 1 <= m <= 12
            &&& 1 <= d <= month_len(y, m)
            &&& days == year_start(y) + month_start(y, m) + d - 1
            &&& days < 2_932_897 ==> y <= 9999
        }),
{
    lemma_year_split(days, 1970);
    assert(year_start(1970) == 0);
    let (y, k) = year_and_day(days, 1970);
    lemma_month_split(k, y, 1);
    let (m, d) = month_and_day(k, y, 1);
    assert(month_start(y, 13) == year_len(y)) by {
        reveal_with_fuel(month_start, 14);
    }
    if m >= 13 {
        lemma_months_ascend(y, 13, m);
    }
    if y >= 10000 {
        lemma_years_ascend(10000, y);
        lemma_year_start(10000);
    }
}

/// Later days have later dates.
proof fn lemma_dates_ascend(a: nat, b: nat)
    requires
        a < b,
    ensures
        ({
            let (y1, m1, d1) = date_of(a);
            let (y2, m2, d2) = date_of(b);
            y1 < y2 || (y1 == y2 && (m1 < m2 || (m1 == m2 && d1 < d2)))
        }),
{
    lemma_date_is_real(a);
    lemma_date_is_real(b);
    let (y1, m1, d1) = date_of(a);
    let (y2, m2, d2) = date_of(b);
    lemma_year_split(a, 1970);
    lemma_year_split(b, 1970);
    assert(year_start(1970) == 0);
    if y1 > y2 {
        lemma_years_ascend(y2 + 1, y1);
        assert(year_start(y2 + 1) == year_start(y2) + year_len(y2));
    } else if y1 == y2 && m1 > m2 {
        lemma_months_ascend(y1, m2 + 1, m1);
        assert(month_start(y1, m2 + 1) == month_start(y1, m2) + month_len(y1, m2));
    }
}

pub(crate) proof fn lemma_two_digits(n: nat)
    requires
        n < 100,
    ensures
        zero_padded(n, 2) == seq![text::digit(n / 10), text::digit(n % 10)],
{
    reveal_with_fuel(text::decimal, 3);
    if n < 10 {
        assert(zero_padded(n, 2) =~= seq!['0', text::digit(n)]);
        assert(text::digit(0) == '0');
    } else {
        assert(zero_padded(n, 2) =~= seq![text::digit(n / 10), text::digit(n % 10)]);
    }
}

pub(crate) proof fn lemma_four_digits(n: nat)
    requires
        1000 <= n < 10000,
    ensures
        zero_padded(n, 4) == seq![
            text::digit(n / 100 / 10),
            text::digit(n / 100 % 10),
            text::digit(n % 100 / 10),
            text::digit(n % 100 % 10),
        ],
{
    reveal_with_fuel(text::decimal, 5);
    assert(n / 10 / 10 / 10 == n / 100 / 10);
    assert(n / 10 / 10 % 10 == n / 100 % 10);
    assert(n / 10 % 10 == n % 100 / 10);
    assert(n % 10 == n % 100 % 10);
    assert(zero_padded(n, 4) =~= seq![
        text::digit(n / 100 / 10),
        text::digit(n / 100 % 10),
        text::digit(n % 100 / 10),
        text::digit(n % 100 % 10),
    ]);
}

/// A number of two digits at a place.
spec fn holds_at(s: Seq<char>, at: int, n: nat) -> bool {
    &&& n < 100
    &&& 0 <= at
    &&& at + 2 <= s.len()
    &&& s[at] == text::digit(n / 10)
    &&& s[at + 1] == text::digit(n % 10)
}

/// Whether two texts begin with the same `n` characters.
spec fn agree(x: Seq<char>, y: Seq<char>, n: int) -> bool {
    &&& 0 <= n <= x.len()
    &&& n <= y.len()
    &&& forall|k: int| 0 <= k < n ==> #[trigger] x[k] == y[k]
}

proof fn lemma_first_difference(x: Seq<char>, y: Seq<char>, n: int)
    requires
        agree(x, y, n),
        n < x.len(),
        n < y.len(),
        x[n] < y[n],
    ensures
        precedes(x, y),
    decreases n,
{
    if n > 0 {
        assert(x[0] == y[0]);
        let a = x.skip(1);
        let b = y.skip(1);
        assert forall|k: int| 0 <= k < n - 1 implies #[trigger] a[k] == b[k] by {
            assert(x[k + 1] == y[k + 1]);
        }
        lemma_first_difference(a, b, n - 1);
    }
}

/// Texts that agree up to a number are ordered as the number is.
proof fn lemma_number_decides(x: Seq<char>, y: Seq<char>, at: int, m: nat, n: nat)
    requires
        agree(x, y, at),
        holds_at(x, at, m),
        holds_at(y, at, n),
    ensures
        m < n ==> precedes(x, y),
        m == n ==> agree(x, y, at + 2),
{
    if m < n {
        if m / 10 < n / 10 {
            assert(x[at] < y[at]);
            lemma_first_difference(x, y, at);
        } else {
            assert(m / 10 == n / 10);
            assert(m % 10 < n % 10);
            assert(x[at + 1] < y[at + 1]);
            lemma_first_difference(x, y, at + 1);
        }
    }
}

/// Whether a text names a date and a time of day in the form
/// `YYYY-MM-DDTHH:MM:SSZ`.
spec fn laid_out(s: Seq<char>, y: nat, m: nat, d: nat, rem: nat) -> bool {
    &&& s.len() == 20
    &&& holds_at(s, 0, y / 100)
    &&& holds_at(s, 2, y % 100)
    &&& s[4] == '-'
    &&& holds_at(s, 5, m)
    &&& s[7] == '-'
    &&& holds_at(s, 8, d)
    &&& s[10] == 'T'
    &&& holds_at(s, 11, rem / 3600)
    &&& s[13] == ':'
    &&& holds_at(s, 14, rem % 3600 / 60)
    &&& s[16] == ':'
    &&& holds_at(s, 17, rem % 60)
    &&& s[19] == 'Z'
}

proof fn lemma_layout(secs: nat)
    requires
        secs < 253_402_300_800,
    ensures
        ({
            let (y, m, d) = date_of(secs / 86400);
            laid_out(rfc3339(secs), y, m, d, secs % 86400)
        }),
{
    reveal_strlit("-");
    reveal_strlit("T");
    reveal_strlit(":");
    reveal_strlit("Z");
    let (y, m, d) = date_of(secs / 86400);
    let rem = secs % 86400;
    lemma_date_is_real(secs / 86400);
    lemma_four_digits(y);
    lemma_two_digits(m);
    lemma_two_digits(d);
    lemma_two_digits(rem / 3600);
    lemma_two_digits(rem % 3600 / 60);
    lemma_two_digits(rem % 60);
}

/// Texts of the same date are ordered as the times of day are.
proof fn lemma_times_decide(x: Seq<char>, z: Seq<char>, y: nat, m: nat, d: nat, r1: nat, r2: nat)
    requires
        laid_out(x, y, m, d, r1),
        laid_out(z, y, m, d, r2),
        agree(x, z, 11),
        r1 < r2,
    ensures
        precedes(x, z),
{
    lemma_number_decides(x, z, 11, r1 / 3600, r2 / 3600);
    if r1 / 3600 == r2 / 3600 {
        assert(agree(x, z, 14));
        lemma_number_decides(x, z, 14, r1 % 3600 / 60, r2 % 3600 / 60);
        if r1 % 3600 / 60 == r2 % 3600 / 60 {
            assert(agree(x, z, 17));
            lemma_number_decides(x, z, 17, r1 % 60, r2 % 60);
            assert(r1 % 3600 % 60 == r1 % 60);
            assert(r2 % 3600 % 60 == r2 % 60);
        }
    }
}

proof fn lemma_dates_decide(
    x: Seq<char>,
    z: Seq<char>,
    a: (nat, nat, nat, nat),
    b: (nat, nat, nat, nat),
)
    requires
        laid_out(x, a.0, a.1, a.2, a.3),
        laid_out(z, b.0, b.1, b.2, b.3),
        a.0 < b.0 || (a.0 == b.0 && (a.1 < b.1 || (a.1 == b.1 && (a.2 < b.2 || (a.2 == b.2 && a.3
            < b.3))))),
    ensures
        precedes(x, z),
{
    assert(agree(x, z, 0));
    lemma_number_decides(x, z, 0, a.0 / 100, b.0 / 100);
    if a.0 / 100 == b.0 / 100 {
        lemma_number_decides(x, z, 2, a.0 % 100, b.0 % 100);
        if a.0 == b.0 {
            assert(agree(x, z, 5));
            lemma_number_decides(x, z, 5, a.1, b.1);
            if a.1 == b.1 {
                assert(agree(x, z, 8));
                lemma_number_decides(x, z, 8, a.2, b.2);
                if a.2 == b.2 {
                    assert(agree(x, z, 11));
                    lemma_times_decide(x, z, a.0, a.1, a.2, a.3, b.3);
                }
            }
        }
    }
}

/// Before the year 10000 the text of an instant has twenty characters, in the
/// form `YYYY-MM-DDTHH:MM:SSZ`, and names a date of the Gregorian calendar.
pub proof fn law_timestamps_have_twenty_characters(secs: nat)
    requires
        secs < 253_402_300_800,
    ensures
        ({
            let s = rfc3339(secs);
            &&& s.len() == 20
            &&& s[4] == '-' && s[7] == '-' && s[10] == 'T' && s[13] == ':' && s[16] == ':'
            &&& s[19] == 'Z'
        }),
        text::byte_count(rfc3339(secs)) == 20,
        ({
            let (y, m, d) = date_of(secs / 86400);
            1970 <= y <= 9999 && 1 <= m <= 12 && 1 <= d <= month_len(y, m)
        }),
{
    lemma_date_is_real(secs / 86400);
    lemma_layout(secs);
    let (y, m, d) = date_of(secs / 86400);
    lemma_plain_layout(rfc3339(secs), y, m, d, secs % 86400);
}

proof fn lemma_plain_layout(s: Seq<char>, y: nat, m: nat, d: nat, rem: nat)
    requires
        laid_out(s, y, m, d, rem),
    ensures
        text::byte_count(s) == 20,
{
    assert forall|i: int| 0 <= i < s.len() implies #[trigger] s[i] <= '\u{7f}' by {
        assert(i == 0 || i == 1 || i == 2 || i == 3 || i == 4 || i == 5 || i == 6 || i == 7 || i
            == 8 || i == 9 || i == 10 || i == 11 || i == 12 || i == 13 || i == 14 || i == 15 || i
            == 16 || i == 17 || i == 18 || i == 19);
    }
    lemma_plain_bytes(s);
}

/// Text order is time order: of two instants before the year 10000 the earlier
/// one has the text that comes first, so that no two of them share a text.
pub proof fn law_text_order_is_time_order(a: nat, b: nat)
    requires
        a < b < 253_402_300_800,
    ensures
        precedes(rfc3339(a), rfc3339(b)),
        rfc3339(a) != rfc3339(b),
{
    lemma_layout(a);
    lemma_layout(b);
    let (y1, m1, d1) = date_of(a / 86400);
    let (y2, m2, d2) = date_of(b / 86400);
    if a / 86400 < b / 86400 {
        lemma_dates_ascend(a / 86400, b / 86400);
    } else {
        assert(a / 86400 == b / 86400);
        assert(a % 86400 < b % 86400);
    }
    lemma_dates_decide(
        rfc3339(a),
        rfc3339(b),
        (y1, m1, d1, a % 86400),
        (y2, m2, d2, b % 86400),
    );
    lemma_precedes_total(rfc3339(a), rfc3339(b));
}

} // verus!
