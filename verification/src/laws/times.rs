//! What dates and moments are called.
use vstd::prelude::*;
use crate::calendar::{lemma_four_digits, lemma_two_digits, law_timestamps_have_twenty_characters};
use crate::text;
use crate::text::digits_value;
use crate::util::{date_of, month_and_day, month_len, rfc3339, year_and_day, year_len, zero_padded};

verus! {

/// How many days a month has in the Gregorian calendar.
pub open spec fn days_in(y: nat, m: nat) -> nat {
    if m == 1 || m == 3 || m == 5 || m == 7 || m == 8 || m == 10 || m == 12 {
        31
    } else if m != 2 {
        30
    } else if y % 400 == 0 || (y % 4 == 0 && y % 100 != 0) {
        29
    } else {
        28
    }
}

/// Whether one date is the day behind another.
pub open spec fn is_next_day(a: (nat, nat, nat), b: (nat, nat, nat)) -> bool {
    let (y, m, d) = a;
    if d < days_in(y, m) {
        b == (y, m, d + 1)
    } else if m < 12 {
        b == (y, m + 1, 1nat)
    } else {
        b == (y + 1, 1nat, 1nat)
    }
}

/// The days begin on the first of January 1970 and follow each other as they do in
/// the calendar.
pub proof fn law_days_follow_each_other(days: nat)
    ensures
        date_of(0) == (1970nat, 1nat, 1nat),
        is_next_day(date_of(days), date_of(days + 1)),
{
    lemma_next_in_years(days, 1970);
    let (y, k) = year_and_day(days, 1970);
    lemma_year_day(days, 1970);
    lemma_next_in_months(k, y, 1);
    lemma_months(k, y);
    if k + 1 < year_len(y) {
        lemma_months(k + 1, y);
    }
    assert(month_and_day(0, y + 1, 1) == (1nat, 1nat));
    assert(month_and_day(0, 1970, 1) == (1nat, 1nat));
}

proof fn lemma_year_day(days: nat, y: nat)
    ensures
        year_and_day(days, y).1 < year_len(year_and_day(days, y).0),
    decreases days,
{
    if days >= year_len(y) {
        lemma_year_day((days - year_len(y)) as nat, y + 1);
    }
}

proof fn lemma_next_in_years(days: nat, y: nat)
    ensures
        ({
            let (z, k) = year_and_day(days, y);
            if k + 1 < year_len(z) {
                year_and_day(days + 1, y) == (z, k + 1)
            } else {
                year_and_day(days + 1, y) == (z + 1, 0nat)
            }
        }),
    decreases days,
{
    if days >= year_len(y) {
        lemma_next_in_years((days - year_len(y)) as nat, y + 1);
        assert((days + 1 - year_len(y)) as nat == (days - year_len(y)) as nat + 1);
    } else if days + 1 == year_len(y) {
        assert(year_and_day(0, y + 1) == (y + 1, 0nat));
    }
}

proof fn lemma_next_in_months(day: nat, y: nat, m: nat)
    ensures
        ({
            let (n, d) = month_and_day(day, y, m);
            if d < month_len(y, n) {
                month_and_day(day + 1, y, m) == (n, d + 1)
            } else {
                month_and_day(day + 1, y, m) == (n + 1, 1nat)
            }
        }),
    decreases day,
{
    if day >= month_len(y, m) {
        lemma_next_in_months((day - month_len(y, m)) as nat, y, m + 1);
        assert((day + 1 - month_len(y, m)) as nat == (day - month_len(y, m)) as nat + 1);
    } else if day + 1 == month_len(y, m) {
        assert(month_and_day(0, y, m + 1) == (m + 1, 1nat));
    }
}

proof fn lemma_months(k: nat, y: nat)
    requires
        k < year_len(y),
    ensures
        ({
            let (m, d) = month_and_day(k, y, 1);
            &&& 1 <= m <= 12
            &&& 1 <= d <= month_len(y, m)
            &&& k + 1 == year_len(y) <==> m == 12 && d == 31
        }),
{
    reveal_with_fuel(month_and_day, 13);
}

/// A moment is called by its date and by its hour, minute and second, in two
/// digits each.
pub proof fn law_moments_are_called_by_their_date(secs: nat)
    requires
        secs < 253_402_300_800,
    ensures
        ({
            let s = rfc3339(secs);
            let (y, m, d) = date_of(secs / 86400);
            let hour = digits_value(s.subrange(11, 13));
            let minute = digits_value(s.subrange(14, 16));
            let second = digits_value(s.subrange(17, 19));
            &&& digits_value(s.subrange(0, 4)) == y
            &&& digits_value(s.subrange(5, 7)) == m
            &&& digits_value(s.subrange(8, 10)) == d
            &&& hour < 24 && minute < 60 && second < 60
            &&& hour * 3600 + minute * 60 + second == secs % 86400
        }),
{
    law_timestamps_have_twenty_characters(secs);
    let (y, m, d) = date_of(secs / 86400);
    let rem = secs % 86400;
    reveal_strlit("-");
    reveal_strlit("T");
    reveal_strlit(":");
    reveal_strlit("Z");
    lemma_four_digits(y);
    lemma_two_digits(m);
    lemma_two_digits(d);
    lemma_two_digits(rem / 3600);
    lemma_two_digits(rem % 3600 / 60);
    lemma_two_digits(rem % 60);
    let s = rfc3339(secs);
    assert(s.subrange(0, 4) =~= zero_padded(y, 4));
    assert(s.subrange(5, 7) =~= zero_padded(m, 2));
    assert(s.subrange(8, 10) =~= zero_padded(d, 2));
    assert(s.subrange(11, 13) =~= zero_padded(rem / 3600, 2));
    assert(s.subrange(14, 16) =~= zero_padded(rem % 3600 / 60, 2));
    assert(s.subrange(17, 19) =~= zero_padded(rem % 60, 2));
    lemma_value_of_four(y);
    lemma_value_of_two(m);
    lemma_value_of_two(d);
    lemma_value_of_two(rem / 3600);
    lemma_value_of_two(rem % 3600 / 60);
    lemma_value_of_two(rem % 60);
    assert(rem / 3600 * 3600 + rem % 3600 / 60 * 60 + rem % 60 == rem);
}

proof fn lemma_value_of_two(n: nat)
    requires
        n < 100,
    ensures
        digits_value(seq![text::digit(n / 10), text::digit(n % 10)]) == n,
{
    let s = seq![text::digit(n / 10), text::digit(n % 10)];
    assert(s.drop_last() =~= seq![text::digit(n / 10)]);
    assert(s.drop_last().drop_last() =~= Seq::<char>::empty());
    reveal_with_fuel(digits_value, 3);
}

proof fn lemma_value_of_four(n: nat)
    requires
        1000 <= n < 10000,
    ensures
        digits_value(
            seq![
                text::digit(n / 100 / 10),
                text::digit(n / 100 % 10),
                text::digit(n % 100 / 10),
                text::digit(n % 100 % 10),
            ],
        ) == n,
{
    let s = seq![
        text::digit(n / 100 / 10),
        text::digit(n / 100 % 10),
        text::digit(n % 100 / 10),
        text::digit(n % 100 % 10),
    ];
    let t = s.drop_last().drop_last();
    assert(t =~= seq![text::digit(n / 100 / 10), text::digit(n / 100 % 10)]);
    lemma_value_of_two(n / 100);
    assert(s.drop_last().last() == text::digit(n % 100 / 10));
    assert(digits_value(s.drop_last()) == 10 * (n / 100) + n % 100 / 10);
    assert(digits_value(s) == 10 * digits_value(s.drop_last()) + n % 100 % 10);
}

} // verus!
