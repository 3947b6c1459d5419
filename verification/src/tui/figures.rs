//! Figures for the screen: token counts and shares of the context window.
//!
//! Shares are rounded as double-precision arithmetic rounds them: a number is
//! held to 53 binary digits after each step, and a tie goes to the even digit.
use vstd::prelude::*;
use vstd::string::StringExecFns;
use crate::text;

verus! {

/// A power of two.
pub open spec fn two(k: nat) -> nat
    decreases k,
{
    if k == 0 {
        1
    } else {
        2 * two((k - 1) as nat)
    }
}

/// The whole number nearest to a quotient; a tie goes to the even one.
pub open spec fn nearest(num: nat, den: nat) -> nat {
    let q = num / den;
    let r = num % den;
    if 2 * r < den || (2 * r == den && q % 2 == 0) {
        q
    } else {
        q + 1
    }
}

/// The smallest number that takes more than 53 binary digits.
pub const LIMIT: u128 = 0x20_0000_0000_0000;

/// The smallest number that takes 53 binary digits.
pub const FULL: u128 = 0x10_0000_0000_0000;

/// How many binary digits beyond 53 a number takes.
pub open spec fn excess(n: nat) -> nat
    decreases n,
{
    if n < LIMIT {
        0
    } else {
        1 + excess(n / 2)
    }
}

/// A number held to 53 binary digits.
pub open spec fn held(n: nat) -> nat {
    nearest(n, two(excess(n))) * two(excess(n))
}

/// A number in binary notation: `digits` with the last `places` of them behind
/// the point.
#[derive(Debug, Clone, Copy)]
pub struct Binary {
    pub digits: u128,
    pub places: u32,
}

/// By how many places a number is moved before it is divided, so that the
/// quotient takes at least 53 binary digits.
pub open spec fn scale(m: nat, b: nat) -> nat
    decreases
            if m < b * FULL {
                b * FULL - m
            } else {
                0
            },
{
    if m == 0 || m >= b * FULL {
        0
    } else {
        1 + scale(2 * m, b)
    }
}

/// A quotient held to 53 binary digits: its digits and its places.
pub open spec fn over(m: nat, s: nat, b: nat) -> (nat, nat) {
    (nearest(m * two(scale(m, b)), b), s + scale(m, b))
}

/// The share of a whole that a part is, in percent.
pub open spec fn percentage(part: nat, whole: nat) -> (nat, nat) {
    let (m, s) = over(held(part), 0, whole);
    (held(m * 100), s)
}

/// A number with one decimal.
pub open spec fn one_decimal(m: nat, s: nat) -> Seq<char> {
    let t = nearest(m * 10, two(s));
    text::decimal(t / 10) + "."@ + text::decimal(t % 10)
}

/// A token count in a few characters: `999`, `12.4k`, `2.0M`.
pub open spec fn tokens_text(n: nat) -> Seq<char> {
    if n < 1000 {
        text::decimal(n)
    } else if n < 1_000_000 {
        let (m, s) = over(held(n), 0, 1000);
        one_decimal(m, s) + "k"@
    } else {
        let (m, s) = over(held(n), 0, 1_000_000);
        one_decimal(m, s) + "M"@
    }
}

pub(crate) proof fn lemma_two_step(k: nat)
    ensures
        two(k + 1) == 2 * two(k),
        two(k) > 0,
    decreases k,
{
    if k > 0 {
        lemma_two_step((k - 1) as nat);
    }
}

proof fn lemma_two_monotone(a: nat, b: nat)
    requires
        a <= b,
    ensures
        two(a) <= two(b),
    decreases b,
{
    if a < b {
        lemma_two_monotone(a, (b - 1) as nat);
        lemma_two_step((b - 1) as nat);
    }
}

proof fn lemma_two_100()
    ensures
        two(100) == 0x10_0000_0000_0000_0000_0000_0000,
{
    lemma_two_20();
    lemma_two_sum(20, 20);
    lemma_two_sum(40, 40);
    lemma_two_sum(80, 20);
    assert(two(40) == 0x100_0000_0000) by (nonlinear_arith)
        requires
            two(40) == two(20) * two(20),
            two(20) == 0x10_0000,
    ;
    assert(two(80) == 0x1_0000_0000_0000_0000_0000) by (nonlinear_arith)
        requires
            two(80) == two(40) * two(40),
            two(40) == 0x100_0000_0000,
    ;
    assert(two(100) == 0x10_0000_0000_0000_0000_0000_0000) by (nonlinear_arith)
        requires
            two(100) == two(80) * two(20),
            two(80) == 0x1_0000_0000_0000_0000_0000,
            two(20) == 0x10_0000,
    ;
}

proof fn lemma_two_20()
    ensures
        two(20) == 0x10_0000,
{
    reveal_with_fuel(two, 21);
}

pub(crate) proof fn lemma_two_sum(a: nat, b: nat)
    ensures
        two(a + b) == two(a) * two(b),
    decreases b,
{
    if b == 0 {
        assert(two(a) * 1 == two(a)) by (nonlinear_arith);
    } else {
        lemma_two_sum(a, (b - 1) as nat);
        lemma_two_step((a + b - 1) as nat);
        lemma_two_step((b - 1) as nat);
        assert(2 * (two(a) * two((b - 1) as nat)) == two(a) * (2 * two((b - 1) as nat)))
            by (nonlinear_arith);
    }
}

/// A power of two.
fn power(k: u32) -> (r: u128)
    requires
        k <= 100,
    ensures
        r == two(k as nat),
        0 < r <= 0x10_0000_0000_0000_0000_0000_0000,
{
    let mut r: u128 = 1;
    let mut i: u32 = 0;
    while i < k
        invariant
            i <= k,
            k <= 100,
            r == two(i as nat),
        decreases k - i,
    {
        proof {
            lemma_two_step(i as nat);
            lemma_two_monotone((i + 1) as nat, 100);
            lemma_two_100();
        }
        r = 2 * r;
        i += 1;
    }
    proof {
        lemma_two_step(k as nat);
        lemma_two_monotone(k as nat, 100);
        lemma_two_100();
    }
    r
}

/// The whole number nearest to a quotient.
fn round(num: u128, den: u128) -> (r: u128)
    requires
        0 < den <= 0x10_0000_0000_0000_0000_0000_0000,
        num <= 0x7fff_ffff_ffff_ffff_ffff_ffff_ffff_ffff,
    ensures
        r == nearest(num as nat, den as nat),
        r <= num / den + 1,
{
    let q: u128 = num / den;
    let r: u128 = num % den;
    if 2 * r < den || (2 * r == den && q % 2 == 0) {
        q
    } else {
        q + 1
    }
}

pub(crate) proof fn lemma_excess(n: nat)
    ensures
        n > 0 ==> two(excess(n)) <= n,
        n >= LIMIT ==> two(excess(n)) * LIMIT <= 2 * n,
    decreases n,
{
    if n >= LIMIT {
        lemma_excess(n / 2);
        lemma_two_step(excess(n / 2));
        let e = excess(n / 2);
        if n / 2 >= LIMIT {
            assert(2 * two(e) * LIMIT <= 2 * n) by (nonlinear_arith)
                requires
                    two(e) * LIMIT <= 2 * (n / 2),
                    n / 2 * 2 <= n,
                    two(e) * LIMIT <= n,
            ;
        } else {
            assert(e == 0);
            assert(two(0) == 1);
        }
    } else {
        assert(two(0) == 1);
    }
}

/// A number held to 53 binary digits.
fn hold(n: u128) -> (r: u128)
    requires
        n <= 0xffff_ffff_ffff_ffff_ffff_ffff,
    ensures
        r == held(n as nat),
        r <= 2 * n,
{
    let mut k: u32 = 0;
    let mut rest: u128 = n;
    assert(two(0) == 1);
    while rest >= LIMIT
        invariant
            k + excess(rest as nat) == excess(n as nat),
            n <= 0xffff_ffff_ffff_ffff_ffff_ffff,
            rest <= n,
            k <= 96,
            rest * two(k as nat) <= n,
        decreases rest,
    {
        proof {
            lemma_two_step(k as nat);
            let t = two(k as nat);
            assert((rest / 2) * (2 * t) <= n) by (nonlinear_arith)
                requires
                    rest * t <= n,
                    rest / 2 * 2 <= rest,
                    t > 0,
            ;
            if k >= 96 {
                lemma_two_monotone(96, k as nat);
                lemma_two_sum(80, 16);
                lemma_two_100();
                lemma_two_sum(96, 4);
                reveal_with_fuel(two, 5);
                assert(two(4) == 16);
                assert(two(96) * 16 == two(100));
                assert(rest * t > n) by (nonlinear_arith)
                    requires
                        rest >= 1,
                        t >= two(96),
                        two(96) > n,
                ;
            }
        }
        rest = rest / 2;
        k += 1;
    }
    proof {
        lemma_excess(n as nat);
        if n > 0 {
            let e = excess(n as nat);
            let q = n as nat / two(e);
            lemma_two_step(e);
            assert(q * two(e) <= n && (q + 1) * two(e) <= 2 * n) by (nonlinear_arith)
                requires
                    q == n as nat / two(e),
                    two(e) > 0,
                    two(e) <= n,
            ;
        } else {
            assert(two(0) == 1);
            assert(held(0) == 0) by (nonlinear_arith)
                requires
                    held(0) == nearest(0, 1) * 1,
                    nearest(0, 1) == 0,
            ;
        }
    }
    let p: u128 = power(k);
    let q: u128 = round(n, p);
    proof {
        let e = excess(n as nat);
        assert(q * p <= 2 * n) by (nonlinear_arith)
            requires
                q == n as nat / two(e) || q == n as nat / two(e) + 1,
                p == two(e),
                n == 0 || ((n as nat / two(e)) * two(e) <= n && (n as nat / two(e) + 1) * two(e)
                    <= 2 * n),
                n == 0 ==> q == 0,
        ;
    }
    q * p
}


/// A quotient held to 53 binary digits.
fn divide(m: u128, s: u32, b: u64) -> (r: Binary)
    requires
        m <= 0xffff_ffff_ffff_ffff_ffff,
        s <= 96,
        0 < b <= 0xffff_ffff,
    ensures
        (r.digits as nat, r.places as nat) == over(m as nat, s as nat, b as nat),
        r.places <= s + 86,
        r.digits <= m + 0x20_0000_0000_0001,
{
    let bound: u128 = b as u128 * FULL;
    let mut t: u32 = 0;
    let mut scaled: u128 = m;
    assert(two(0) == 1);
    assert(m * two(0) == m) by (nonlinear_arith)
        requires
            two(0) == 1,
    ;
    while scaled != 0 && scaled < bound
        invariant
            0 < b <= 0xffff_ffff,
            bound == b * FULL,
            m <= 0xffff_ffff_ffff_ffff_ffff,
            scaled == m * two(t as nat),
            t + scale(scaled as nat, b as nat) == scale(m as nat, b as nat),
            scaled != 0 ==> two(t as nat) <= scaled,
            t > 0 ==> scaled < 2 * bound,
            scaled == 0 ==> t == 0,
            t <= 86,
        decreases
                if scaled < bound {
                    bound - scaled
                } else {
                    0
                },
    {
        proof {
            lemma_two_step(t as nat);
            let p = two(t as nat);
            assert(2 * (m * p) == m * (2 * p)) by (nonlinear_arith);
            if t >= 85 {
                lemma_two_monotone(85, t as nat);
                lemma_two_sum(80, 5);
                lemma_two_100();
                lemma_two_sum(85, 15);
                reveal_with_fuel(two, 6);
                assert(two(5) == 32);
                lemma_two_sum(40, 40);
                lemma_two_sum(20, 20);
                lemma_two_20();
                assert(two(40) == 0x100_0000_0000) by (nonlinear_arith)
                    requires
                        two(40) == two(20) * two(20),
                        two(20) == 0x10_0000,
                ;
                assert(two(80) == 0x1_0000_0000_0000_0000_0000) by (nonlinear_arith)
                    requires
                        two(80) == two(40) * two(40),
                        two(40) == 0x100_0000_0000,
                ;
                assert(false);
            }
        }
        scaled = 2 * scaled;
        t += 1;
    }
    let q: u128 = round(scaled, b as u128);
    assert(scaled as nat / b as nat <= scaled) by (nonlinear_arith)
        requires
            b >= 1,
    ;
    if t > 0 {
        assert(scaled as nat / b as nat <= 0x20_0000_0000_0000) by (nonlinear_arith)
            requires
                b >= 1,
                scaled < 2 * (b * 0x10_0000_0000_0000),
        ;
    } else {
        assert(scaled == m) by (nonlinear_arith)
            requires
                scaled == m * two(0),
                two(0) == 1,
        ;
    }
    Binary { digits: q, places: s + t }
}

/// The share of a whole that a part is, in percent.
pub fn percent(part: u64, whole: u64) -> (r: Binary)
    requires
        0 < whole <= 0xffff_ffff,
    ensures
        (r.digits as nat, r.places as nat) == percentage(part as nat, whole as nat),
        r.places <= 96,
        r.digits <= 0xffff_ffff_ffff_ffff_ffff,
{
    let x = divide(hold(part as u128), 0, whole);
    Binary { digits: hold(x.digits * 100), places: x.places }
}

/// A number with one decimal.
pub fn with_one_decimal(x: Binary) -> (r: String)
    requires
        x.places <= 96,
        x.digits <= 0xffff_ffff_ffff_ffff_ffff,
    ensures
        r@ == one_decimal(x.digits as nat, x.places as nat),
{
    let t: u128 = round(x.digits * 10, power(x.places));
    let mut s = text::wide_number(t / 10);
    s.append(".");
    s.append(&text::wide_number(t % 10));
    s
}

/// Human-readable token count for the status bar: `12.4k`.
pub fn format_tokens(n: u64) -> (r: String)
    ensures
        r@ == tokens_text(n as nat),
{
    if n < 1000 {
        return text::number(n);
    }
    if n < 1_000_000 {
        let mut s = with_one_decimal(divide(hold(n as u128), 0, 1000));
        s.append("k");
        return s;
    }
    let mut s = with_one_decimal(divide(hold(n as u128), 0, 1_000_000));
    s.append("M");
    s
}

/// A number without decimals.
pub open spec fn no_decimals(m: nat, s: nat) -> Seq<char> {
    text::decimal(nearest(m, two(s)))
}

/// A number without decimals.
pub fn without_decimals(x: Binary) -> (r: String)
    requires
        x.places <= 96,
        x.digits <= 0xffff_ffff_ffff_ffff_ffff,
    ensures
        r@ == no_decimals(x.digits as nat, x.places as nat),
{
    text::wide_number(round(x.digits, power(x.places)))
}

/// Whether a number is greater than a whole one.
pub open spec fn exceeds(m: nat, s: nat, n: nat) -> bool {
    m > n * two(s)
}

/// Whether a number is greater than a whole one.
pub fn is_over(x: Binary, n: u32) -> (r: bool)
    requires
        x.places <= 96,
        n <= 1000,
    ensures
        r == exceeds(x.digits as nat, x.places as nat, n as nat),
{
    let p: u128 = power(x.places);
    assert(n * p <= 1000 * 0x10_0000_0000_0000_0000_0000_0000) by (nonlinear_arith)
        requires
            n <= 1000,
            p <= 0x10_0000_0000_0000_0000_0000_0000,
    ;
    x.digits > n as u128 * p
}

/// The cells of the context meter.
pub const METER_CELLS: u32 = 8;

/// How many cells of the meter are filled for a share in percent: the nearest
/// number, and at least one as soon as anything is used.
pub open spec fn filled_cells(m: nat, s: nat) -> nat {
    let (q, t) = over(m, s, 100);
    let n = (16 * q + two(t)) / (2 * two(t));
    if m == 0 {
        0
    } else if n < 1 {
        1
    } else if n > METER_CELLS {
        METER_CELLS as nat
    } else {
        n
    }
}

/// The context meter.
pub open spec fn meter_text(m: nat, s: nat) -> Seq<char> {
    text::repeated("▮"@, filled_cells(m, s)) + text::repeated(
        "▯"@,
        (METER_CELLS - filled_cells(m, s)) as nat,
    )
}

/// How many cells of the meter are filled for a share in percent.
pub fn filled(x: Binary) -> (r: u32)
    requires
        x.places <= 96,
        x.digits <= 0xffff_ffff_ffff_ffff_ffff,
    ensures
        r == filled_cells(x.digits as nat, x.places as nat),
        r <= METER_CELLS,
{
    if x.digits == 0 {
        return 0;
    }
    let y = divide(x.digits, x.places, 100);
    if y.places > 96 {
        proof {
            let t = y.places as nat;
            lemma_two_monotone(97, t);
            lemma_two_100();
            lemma_two_sum(97, 3);
            reveal_with_fuel(two, 4);
            assert(two(3) == 8);
            let q = y.digits as nat;
            let p = two(t);
            assert(16 * q < p);
            assert((16 * q + p) / (2 * p) < 1) by (nonlinear_arith)
                requires
                    16 * q < p,
                    p > 0,
            ;
        }
        return 1;
    }
    let p: u128 = power(y.places);
    let n: u128 = (16 * y.digits + p) / (2 * p);
    if n < 1 {
        1
    } else if n > METER_CELLS as u128 {
        METER_CELLS
    } else {
        n as u32
    }
}

/// An eight-cell bar for context usage.
pub fn meter(x: Binary) -> (r: String)
    requires
        x.places <= 96,
        x.digits <= 0xffff_ffff_ffff_ffff_ffff,
    ensures
        r@ == meter_text(x.digits as nat, x.places as nat),
{
    let n: u32 = filled(x);
    let mut s = text::repeat("▮", n as usize);
    s.append(&text::repeat("▯", (METER_CELLS - n) as usize));
    s
}

/// The meter always has the same number of cells, and is empty exactly where
/// nothing is used.
pub proof fn law_meter_has_eight_cells(m: nat, s: nat)
    ensures
        meter_text(m, s).len() == METER_CELLS,
        meter_text(m, s) == text::repeated("▯"@, METER_CELLS as nat) <==> m == 0,
{
    reveal_strlit("▮");
    reveal_strlit("▯");
    let n = filled_cells(m, s);
    lemma_repeated_len("▮"@, n);
    lemma_repeated_len("▯"@, (METER_CELLS - n) as nat);
    let none = text::repeated("▯"@, METER_CELLS as nat);
    if m == 0 {
        assert(meter_text(m, s) =~= none);
    } else {
        lemma_repeated_first("▮"@, n);
        lemma_repeated_first("▯"@, METER_CELLS as nat);
        assert(meter_text(m, s)[0] == '▮');
        assert(none[0] == '▯');
    }
}

proof fn lemma_repeated_len(unit: Seq<char>, n: nat)
    requires
        unit.len() == 1,
    ensures
        text::repeated(unit, n).len() == n,
    decreases n,
{
    if n > 0 {
        lemma_repeated_len(unit, (n - 1) as nat);
    }
}

proof fn lemma_repeated_first(unit: Seq<char>, n: nat)
    requires
        unit.len() == 1,
        n > 0,
    ensures
        text::repeated(unit, n).len() > 0,
        text::repeated(unit, n)[0] == unit[0],
    decreases n,
{
    if n > 1 {
        lemma_repeated_first(unit, (n - 1) as nat);
    } else {
        assert(text::repeated(unit, 0).len() == 0);
    }
}

} // verus!
