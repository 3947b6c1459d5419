//! What the figures on the screen stand for.
use vstd::prelude::*;
use crate::text;
use crate::tui::figures::{
    exceeds, excess, filled_cells, held, lemma_excess, lemma_two_step, lemma_two_sum, nearest,
    no_decimals, one_decimal, over, percentage, scale, tokens_text, two, FULL, LIMIT,
};

verus! {

/// Whether two numbers are no further apart than half of a third.
pub open spec fn is_within_half(a: int, b: int, unit: int) -> bool {
    -unit <= 2 * (a - b) <= unit
}

proof fn lemma_nearest(num: nat, den: nat)
    requires
        den > 0,
    ensures
        is_within_half((nearest(num, den) * den) as int, num as int, den as int),
{
    let q = num / den;
    let r = num % den;
    assert(num == q * den + r && 0 <= r < den) by (nonlinear_arith)
        requires
            den > 0,
            q == num / den,
            r == num % den,
    ;
    assert((q + 1) * den == q * den + den) by (nonlinear_arith);
}

proof fn lemma_scale(m: nat, b: nat)
    requires
        m > 0,
        b > 0,
    ensures
        m * two(scale(m, b)) >= b * FULL,
    decreases
            if m < b * FULL {
                b * FULL - m
            } else {
                0
            },
{
    if m >= b * FULL {
        assert(m * 1 == m) by (nonlinear_arith);
    } else {
        lemma_scale(2 * m, b);
        let k = scale(2 * m, b);
        lemma_two_step(k);
        assert(m * (2 * two(k)) == 2 * m * two(k)) by (nonlinear_arith);
    }
}

proof fn lemma_held_small(n: nat)
    requires
        n < LIMIT,
    ensures
        held(n) == n,
{
    assert(two(0) == 1);
    assert(nearest(n, 1) == n);
    assert(n * 1 == n) by (nonlinear_arith);
}

proof fn lemma_tenths(n: int, u: int, p: int, m: int, t: int)
    requires
        u > 0,
        p > 10 * u,
        is_within_half(m * (10 * u), n * p, 10 * u),
        is_within_half(t * p, m * 10, p),
    ensures
        is_within_half(t * u, n, u),
{
    let a = t * p - m * 10;
    let b = m * (10 * u) - n * p;
    let x = t * u - n;
    assert(x * p == u * a + b) by (nonlinear_arith)
        requires
            a == t * p - m * 10,
            b == m * (10 * u) - n * p,
            x == t * u - n,
    ;
    assert(-(u * p) <= 2 * (u * a) <= u * p) by (nonlinear_arith)
        requires
            u > 0,
            -p <= 2 * a <= p,
    ;
    assert(2 * x * p < u * p + p && -(u * p) - p < 2 * x * p) by (nonlinear_arith)
        requires
            x * p == u * a + b,
            -(u * p) <= 2 * (u * a) <= u * p,
            -(10 * u) <= 2 * b <= 10 * u,
            p > 10 * u,
    ;
    assert(2 * x < u + 1 && -u - 1 < 2 * x) by (nonlinear_arith)
        requires
            2 * x * p < u * p + p,
            -(u * p) - p < 2 * x * p,
            p > 0,
    ;
}

proof fn lemma_scaled_tokens(n: nat, u: nat)
    requires
        u == 100 || u == 100_000,
        10 * u <= n < 0x100_0000_0000,
        u == 100 ==> n < 1_000_000,
    ensures
        ({
            let (m, s) = over(held(n), 0, 10 * u);
            let t = nearest(m * 10, two(s));
            is_within_half((t * u) as int, n as int, u as int)
        }),
{
    lemma_held_small(n);
    let b = 10 * u;
    let k = scale(n, b);
    lemma_two_step(k);
    lemma_scale(n, b);
    let p = two(k);
    assert(p > b) by (nonlinear_arith)
        requires
            n * p >= b * FULL,
            0 < n < 0x100_0000_0000,
            u == 100 || u == 100_000,
            b == 10 * u,
            FULL == 0x10_0000_0000_0000,
    ;
    let (m, s) = over(held(n), 0, b);
    lemma_nearest(n * p, b);
    lemma_nearest(m * 10, p);
    lemma_tenths(n as int, u as int, p as int, m as int, nearest(m * 10, p) as int);
}

/// Tokens below a thousand are counted one by one, those below a million in tenths
/// of a thousand and more in tenths of a million, each to the nearest.
pub proof fn law_tokens_are_rounded(n: nat)
    requires
        n < 0x100_0000_0000,
    ensures
        n < 1_000 ==> tokens_text(n) == text::decimal(n),
        1_000 <= n < 1_000_000 ==> exists|t: nat|
            tokens_text(n) == #[trigger] text::decimal(t / 10) + "."@ + text::decimal(t % 10) + "k"@
                && is_within_half((t * 100) as int, n as int, 100),
        1_000_000 <= n ==> exists|t: nat|
            tokens_text(n) == #[trigger] text::decimal(t / 10) + "."@ + text::decimal(t % 10) + "M"@
                && is_within_half((t * 100_000) as int, n as int, 100_000),
{
    if 1_000 <= n < 1_000_000 {
        lemma_scaled_tokens(n, 100);
        let (m, s) = over(held(n), 0, 1000);
        let t = nearest(m * 10, two(s));
        assert(tokens_text(n) == text::decimal(t / 10) + "."@ + text::decimal(t % 10) + "k"@);
    } else if 1_000_000 <= n {
        lemma_scaled_tokens(n, 100_000);
        let (m, s) = over(held(n), 0, 1_000_000);
        let t = nearest(m * 10, two(s));
        assert(tokens_text(n) == text::decimal(t / 10) + "."@ + text::decimal(t % 10) + "M"@);
    }
}

/// How far a held share may be from the true one, in units of its last place.
proof fn lemma_percentage(part: nat, whole: nat)
    requires
        0 < part < 0x100_0000_0000,
        0 < whole < 0x100_0000_0000,
    ensures
        ({
            let (h, s) = percentage(part, whole);
            let p = two(s);
            &&& p > 4000 * whole
            &&& -p < 40 * (h * whole - 100 * part * p) < p
        }),
{
    lemma_held_small(part);
    let k = scale(part, whole);
    lemma_two_step(k);
    lemma_scale(part, whole);
    let p = two(k);
    assert(p > 4000 * whole) by (nonlinear_arith)
        requires
            part * p >= whole * FULL,
            0 < part < 0x100_0000_0000,
            whole > 0,
            FULL == 0x10_0000_0000_0000,
    ;
    let q = nearest(part * p, whole);
    lemma_nearest(part * p, whole);
    let z = q * 100;
    let e = excess(z);
    lemma_excess(z);
    lemma_two_step(e);
    lemma_nearest(z, two(e));
    let h = held(z);
    assert(0 + k == k);
    // The unit of the last place is small beside the whole.
    if z >= LIMIT {
        assert(two(e) * LIMIT <= 2 * z);
        assert(whole * two(e) * LIMIT <= 200 * (q * whole)) by (nonlinear_arith)
            requires
                two(e) * LIMIT <= 2 * z,
                z == q * 100,
                whole > 0,
        ;
        let y = part * p;
        assert(y <= 0xff_ffff_ffff * p) by (nonlinear_arith)
            requires
                y == part * p,
                part <= 0xff_ffff_ffff,
                p > 0,
        ;
        let g = whole * two(e);
        assert(g * 0x20_0000_0000_0000 <= 200 * (q * whole)) by (nonlinear_arith)
            requires
                whole * two(e) * LIMIT <= 200 * (q * whole),
                g == whole * two(e),
                LIMIT == 0x20_0000_0000_0000,
        ;
        assert(40 * g < p);
        let d = h - z;
        assert(-two(e) <= 2 * d <= two(e));
        assert(-(whole * two(e)) <= 2 * (d * whole) <= whole * two(e)) by (nonlinear_arith)
            requires
                -two(e) <= 2 * d <= two(e),
                whole > 0,
        ;
        assert(h * whole == d * whole + 100 * (q * whole)) by (nonlinear_arith)
            requires
                d == h - z,
                z == q * 100,
        ;
    } else {
        lemma_held_small(z);
        assert(h * whole == 100 * (q * whole)) by (nonlinear_arith)
            requires
                h == z,
                z == q * 100,
        ;
    }
    assert(100 * part * p == 100 * (part * p)) by (nonlinear_arith);
}

proof fn lemma_rounded_share(h: int, p: int, part: int, whole: int, k: int, t: int)
    requires
        whole > 0,
        p > 0,
        k == 1 || k == 10,
        -p < 40 * (h * whole - 100 * part * p) < p,
        is_within_half(t * p, k * h, p),
    ensures
        is_within_half(t * whole, k * (100 * part), whole),
{
    let a = t * p - k * h;
    let b = h * whole - 100 * part * p;
    let x = t * whole - k * (100 * part);
    assert(x * p == whole * a + k * b) by (nonlinear_arith)
        requires
            a == t * p - k * h,
            b == h * whole - 100 * part * p,
            x == t * whole - k * (100 * part),
    ;
    assert(-(whole * p) <= 2 * (whole * a) <= whole * p) by (nonlinear_arith)
        requires
            whole > 0,
            -p <= 2 * a <= p,
    ;
    assert(-p < 2 * (k * b) < p) by (nonlinear_arith)
        requires
            k == 1 || k == 10,
            -p < 40 * b < p,
    ;
    assert(2 * x < whole + 1 && -whole - 1 < 2 * x) by (nonlinear_arith)
        requires
            x * p == whole * a + k * b,
            -(whole * p) <= 2 * (whole * a) <= whole * p,
            -p < 2 * (k * b) < p,
            p > 0,
    ;
}

/// A share is shown in percent to the nearest, or to the nearest tenth.
pub proof fn law_shares_are_rounded(part: nat, whole: nat)
    requires
        0 < part < 0x100_0000_0000,
        0 < whole < 0x100_0000_0000,
    ensures
        ({
            let (m, s) = percentage(part, whole);
            &&& exists|t: nat|
                no_decimals(m, s) == #[trigger] text::decimal(t) && is_within_half(
                    (t * whole) as int,
                    (100 * part) as int,
                    whole as int,
                )
            &&& exists|t: nat|
                one_decimal(m, s) == #[trigger] text::decimal(t / 10) + "."@ + text::decimal(t % 10)
                    && is_within_half((t * whole) as int, (1000 * part) as int, whole as int)
        }),
{
    let (m, s) = percentage(part, whole);
    let p = two(s);
    lemma_percentage(part, whole);
    lemma_nearest(m, p);
    lemma_nearest(m * 10, p);
    let t = nearest(m, p);
    let u = nearest(m * 10, p);
    lemma_rounded_share(m as int, p as int, part as int, whole as int, 1, t as int);
    lemma_rounded_share(m as int, p as int, part as int, whole as int, 10, u as int);
    assert(no_decimals(m, s) == text::decimal(t));
    assert(one_decimal(m, s) == text::decimal(u / 10) + "."@ + text::decimal(u % 10));
}

/// A share is over a number of percent where it is more than that.
pub proof fn law_shares_exceed(part: nat, whole: nat, n: nat)
    requires
        0 < part < 0x100_0000_0000,
        0 < whole < 0x100_0000_0000,
    ensures
        ({
            let (m, s) = percentage(part, whole);
            &&& 100 * part > n * whole ==> exceeds(m, s, n)
            &&& 100 * part < n * whole ==> !exceeds(m, s, n)
        }),
{
    let (h, s) = percentage(part, whole);
    let p = two(s);
    lemma_percentage(part, whole);
    let x = 100 * part - n * whole;
    let b = h * whole - 100 * part * p;
    assert((h - n * p) * whole == b + x * p) by (nonlinear_arith)
        requires
            x == 100 * part - n * whole,
            b == h * whole - 100 * part * p,
    ;
    if x >= 1 {
        assert(h - n * p > 0) by (nonlinear_arith)
            requires
                (h - n * p) * whole == b + x * p,
                x >= 1,
                -p < 40 * b,
                p > 0,
                whole > 0,
        ;
    }
    if x <= -1 {
        assert(h - n * p < 0) by (nonlinear_arith)
            requires
                (h - n * p) * whole == b + x * p,
                x <= -1,
                40 * b < p,
                p > 0,
                whole > 0,
        ;
    }
}

/// The meter has eight cells. As many are filled as is nearest to the share that is
/// used, and at least one as soon as anything is used.
pub proof fn law_the_meter_shows_the_share(part: nat, whole: nat)
    requires
        0 < part <= whole < 0x100_0000_0000,
    ensures
        ({
            let (m, s) = percentage(part, whole);
            let n = filled_cells(m, s);
            &&& 1 <= n <= 8
            &&& is_within_half((n * whole) as int, (8 * part) as int, whole as int) || (n == 1 && 16 * part <= whole)
        }),
{
    let (h, s) = percentage(part, whole);
    let p = two(s);
    lemma_percentage(part, whole);
    if h == 0 {
        assert(100 * part * p >= p) by (nonlinear_arith)
            requires
                part >= 1,
                p > 0,
        ;
        assert(h * whole == 0) by (nonlinear_arith)
            requires
                h == 0,
        ;
    }
    let k = scale(h, 100);
    let c = two(k);
    lemma_two_step(k);
    lemma_two_step(s);
    lemma_two_sum(s, k);
    let q = nearest(h * c, 100);
    lemma_nearest(h * c, 100);
    let w = two(s + k);
    let f = (16 * q + w) / (2 * w);
    assert(w == p * c && w > 0) by (nonlinear_arith)
        requires
            w == p * c,
            p > 0,
            c > 0,
    ;
    assert(f * (2 * w) <= 16 * q + w < f * (2 * w) + 2 * w) by (nonlinear_arith)
        requires
            f == (16 * q + w) / (2 * w),
            w > 0,
    ;
    let x = f * whole - 8 * part;
    let a = f * w - 8 * q;
    let b = q * 100 - h * c;
    let d = h * whole - 100 * part * p;
    assert(-w <= 2 * a <= w) by (nonlinear_arith)
        requires
            f * (2 * w) <= 16 * q + w,
            16 * q + w < f * (2 * w) + 2 * w,
            a == f * w - 8 * q,
    ;
    assert(100 * (x * w) == 100 * (whole * a) + 8 * (whole * b) + 8 * (c * d)) by (nonlinear_arith)
        requires
            x == f * whole - 8 * part,
            a == f * w - 8 * q,
            b == q * 100 - h * c,
            d == h * whole - 100 * part * p,
            w == p * c,
    ;
    assert(-(whole * w) <= 2 * (whole * a) <= whole * w) by (nonlinear_arith)
        requires
            -w <= 2 * a <= w,
            whole > 0,
    ;
    assert(-(100 * whole) <= 2 * (whole * b) <= 100 * whole) by (nonlinear_arith)
        requires
            -100 <= 2 * b <= 100,
            whole > 0,
    ;
    assert(-w < 40 * (c * d) < w) by (nonlinear_arith)
        requires
            -p < 40 * d < p,
            w == p * c,
            c > 0,
    ;
    assert(w > 4000 * whole) by (nonlinear_arith)
        requires
            p > 4000 * whole,
            c >= 1,
            w == p * c,
            whole > 0,
    ;
    assert(200 * (x * w) < 100 * (whole * w) + 100 * w && -(100 * (whole * w)) - 100 * w < 200 * (x
        * w));
    assert(2 * x < whole + 1 && -whole - 1 < 2 * x) by (nonlinear_arith)
        requires
            200 * (x * w) < 100 * (whole * w) + 100 * w,
            -(100 * (whole * w)) - 100 * w < 200 * (x * w),
            w > 0,
    ;
    if f > 8 {
        assert(f * whole >= 9 * whole) by (nonlinear_arith)
            requires
                f >= 9,
                whole > 0,
        ;
    }
    if f < 1 {
        assert(f * whole == 0) by (nonlinear_arith)
            requires
                f == 0,
        ;
    }
}

} // verus!
