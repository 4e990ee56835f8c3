//! Token counts for the reader: shortened numbers and context fullness.
//!
//! The one decimal of a shortened number is rounded as the quotient is when it is
//! held in a double and printed. Here that is worked out on integers.
use vstd::arithmetic::power2::pow2;
use vstd::prelude::*;

use crate::text::{decimal_text, digit_text};
#[allow(unused_imports)]
use crate::text::decimal;

verus! {

/// The first number that does not fit the significand of a double.
pub const DOUBLE_LIMIT: u128 = 0x20_0000_0000_0000;

/// The integer nearest to `num / den`; the even one where two are equally near.
pub open spec fn nearest(num: nat, den: nat) -> nat {
    let floor = num / den;
    let rest = num % den;
    if 2 * rest < den || (2 * rest == den && floor % 2 == 0) {
        floor
    } else {
        floor + 1
    }
}

/// How many low bits of `n` the significand of a double has no room for.
pub open spec fn spare_bits(n: nat) -> nat
    decreases n,
{
    if n < DOUBLE_LIMIT {
        0
    } else {
        1 + spare_bits(n / 2)
    }
}

/// The double nearest to `n`.
pub open spec fn double_of(n: nat) -> nat {
    nearest(n, pow2(spare_bits(n))) * pow2(spare_bits(n))
}

/// How often `num / den` has to be doubled to fill the significand of a double.
pub open spec fn fraction_bits(num: nat, den: nat) -> nat
    decreases 0x20_0000_0000_0000 * den - num,
{
    if num == 0 || 2 * num >= 0x20_0000_0000_0000 * den {
        0
    } else {
        1 + fraction_bits(2 * num, den)
    }
}

/// The tenths that one decimal of `n / scale` shows: `n` and then the quotient are
/// taken to the nearest double, and that double to the nearest tenth. This is for
/// quotients from 1 up to `DOUBLE_LIMIT`, whose doubles have a fraction.
pub open spec fn tenths(n: nat, scale: nat) -> nat {
    let dividend = double_of(n);
    let bits = fraction_bits(dividend, scale);
    nearest(10 * nearest(dividend * pow2(bits), scale), pow2(bits))
}

/// `nearest` is off by half a unit at most.
pub proof fn lemma_nearest_error(num: nat, den: nat)
    requires
        den > 0,
    ensures
        2 * (nearest(num, den) * den) <= 2 * num + den,
        2 * num <= 2 * (nearest(num, den) * den) + den,
        nearest(num, den) <= num + 1,
{
    let floor = num / den;
    let rest = num % den;
    vstd::arithmetic::div_mod::lemma_fundamental_div_mod(num as int, den as int);
    vstd::arithmetic::mul::lemma_mul_is_commutative(floor as int, den as int);
    vstd::arithmetic::mul::lemma_mul_is_distributive_add_other_way(den as int, floor as int, 1);
    assert(floor <= num) by (nonlinear_arith)
        requires
            den > 0,
            floor == num / den,
    ;
}

/// The bits that a double drops are fewer than the ones it keeps reach down to.
pub proof fn lemma_spare_bits(n: nat)
    ensures
        n < DOUBLE_LIMIT ==> pow2(spare_bits(n)) == 1,
        n >= DOUBLE_LIMIT ==> pow2(spare_bits(n)) * 0x20_0000_0000_0000 <= 2 * n,
    decreases n,
{
    vstd::arithmetic::power2::lemma2_to64();
    if n >= DOUBLE_LIMIT {
        lemma_spare_bits(n / 2);
        vstd::arithmetic::power2::lemma_pow2_unfold(spare_bits(n));
    }
}

/// Taking a number to the nearest double is off by at most one part in
/// `DOUBLE_LIMIT`.
pub proof fn lemma_double_error(n: nat)
    ensures
        double_of(n) * 0x20_0000_0000_0000 <= n * 0x20_0000_0000_0000 + n,
        n * 0x20_0000_0000_0000 <= double_of(n) * 0x20_0000_0000_0000 + n,
        n < DOUBLE_LIMIT ==> double_of(n) == n,
{
    let unit = pow2(spare_bits(n));
    vstd::arithmetic::power2::lemma_pow2_pos(spare_bits(n));
    lemma_spare_bits(n);
    lemma_nearest_error(n, unit);
    if n < DOUBLE_LIMIT {
        assert(nearest(n, 1) == n);
    }
}

/// The quotient, doubled `fraction_bits` times, fills the significand.
pub proof fn lemma_fraction_bits(num: nat, den: nat)
    requires
        0 < num < 0x20_0000_0000_0000 * den,
    ensures
        0x20_0000_0000_0000 * den <= 2 * (num * pow2(fraction_bits(num, den))),
        num * pow2(fraction_bits(num, den)) < 0x20_0000_0000_0000 * den,
    decreases 0x20_0000_0000_0000 * den - num,
{
    vstd::arithmetic::power2::lemma2_to64();
    if 2 * num < 0x20_0000_0000_0000 * den {
        lemma_fraction_bits(2 * num, den);
        let bits = fraction_bits(2 * num, den);
        vstd::arithmetic::power2::lemma_pow2_unfold(bits + 1);
        assert(num * (2 * pow2(bits)) == (2 * num) * pow2(bits)) by (nonlinear_arith);
    } else {
        assert(num * pow2(0) == num) by (nonlinear_arith)
            requires
                pow2(0) == 1,
        ;
    }
}

/// The tenths shown are off by half a tenth at most, but for what the two
/// roundings to a double add: 41 parts in `2 * DOUBLE_LIMIT` of the number.
pub proof fn law_tenths_error(n: nat, scale: nat)
    requires
        0 < n,
        double_of(n) < 0x20_0000_0000_0000 * scale,
    ensures
        0x40_0000_0000_0000 * (tenths(n, scale) * scale - 10 * n) <= 0x20_0000_0000_0000 * scale
            + 41 * n,
        0x40_0000_0000_0000 * (10 * n - tenths(n, scale) * scale) <= 0x20_0000_0000_0000 * scale
            + 41 * n,
{
    let a = double_of(n);
    lemma_double_error(n);
    let p = pow2(fraction_bits(a, scale));
    let m = nearest(a * p, scale);
    let t = nearest(10 * m, p);
    lemma_fraction_bits(a, scale);
    vstd::arithmetic::power2::lemma_pow2_pos(fraction_bits(a, scale));
    lemma_nearest_error(a * p, scale);
    lemma_nearest_error(10 * m, p);
    let d: int = 0x20_0000_0000_0000;
    lemma_scaled_error(t as int, m as int, a as int, p as int, scale as int, d);
    let product: int = (t * scale) as int;
    assert(d * (t * scale) == 0x20_0000_0000_0000 * product);
    assert(d * a == 0x20_0000_0000_0000 * a);
    assert(d * scale == 0x20_0000_0000_0000 * scale);
    assert(20 * a <= 21 * n);
}

proof fn lemma_scaled_error(t: int, m: int, a: int, p: int, s: int, d: int)
    requires
        p > 0,
        s > 0,
        d > 0,
        2 * (m * s) <= 2 * (a * p) + s,
        2 * (a * p) <= 2 * (m * s) + s,
        2 * (t * p) <= 2 * (10 * m) + p,
        2 * (10 * m) <= 2 * (t * p) + p,
        d * s <= 2 * (a * p),
    ensures
        2 * (d * (t * s)) <= 20 * (d * a) + d * s + 20 * a,
        20 * (d * a) <= 2 * (d * (t * s)) + d * s + 20 * a,
{
    let x = 2 * (t * s) - 20 * a;
    assert(s * (2 * (t * p)) <= s * (2 * (10 * m) + p) && s * (2 * (10 * m)) <= s * (2 * (t * p)
        + p)) by (nonlinear_arith)
        requires
            s > 0,
            2 * (t * p) <= 2 * (10 * m) + p,
            2 * (10 * m) <= 2 * (t * p) + p,
    ;
    assert(s * (2 * (t * p)) == p * (2 * (t * s))) by (nonlinear_arith);
    assert(s * (2 * (10 * m) + p) == 20 * (m * s) + p * s) by (nonlinear_arith);
    assert(s * (2 * (10 * m)) == 20 * (m * s)) by (nonlinear_arith);
    assert(s * (2 * (t * p) + p) == p * (2 * (t * s)) + p * s) by (nonlinear_arith);
    assert(p * x == p * (2 * (t * s)) - 20 * (a * p)) by (nonlinear_arith)
        requires
            x == 2 * (t * s) - 20 * a,
    ;
    assert(d * x <= d * s + 20 * a && -(d * x) <= d * s + 20 * a) by (nonlinear_arith)
        requires
            p > 0,
            d > 0,
            p * x <= p * s + 10 * s,
            -(p * x) <= p * s + 10 * s,
            d * s <= 2 * (a * p),
    {
        assert(d * (p * x) <= d * (p * s + 10 * s));
        assert(d * (-(p * x)) <= d * (p * s + 10 * s));
        assert(d * (p * s + 10 * s) == p * (d * s) + 10 * (d * s));
        assert(10 * (d * s) <= p * (20 * a));
        assert(d * (p * x) == p * (d * x));
        assert(p * (d * x) <= p * (d * s + 20 * a));
        assert(p * (-(d * x)) <= p * (d * s + 20 * a));
    }
    assert(d * x == 2 * (d * (t * s)) - 20 * (d * a)) by (nonlinear_arith)
        requires
            x == 2 * (t * s) - 20 * a,
    ;
}

/// The step that a number is shortened by: a thousand, a million or a billion.
pub open spec fn scale_of(n: nat) -> nat {
    if n < 1_000_000 {
        1000
    } else if n < 1_000_000_000 {
        1_000_000
    } else {
        1_000_000_000
    }
}

/// The letter that stands for that step.
pub open spec fn unit_of(n: nat) -> Seq<char> {
    if n < 1_000_000 {
        "k"@
    } else if n < 1_000_000_000 {
        "M"@
    } else {
        "B"@
    }
}

/// A number as the row shows it: as it is under a thousand, else in thousands,
/// millions or billions with one decimal, which is left out where it is 0.
pub open spec fn shortened(n: nat) -> Seq<char> {
    if n < 1000 {
        decimal(n)
    } else {
        let shown = tenths(n, scale_of(n));
        if shown % 10 == 0 {
            decimal(shown / 10) + unit_of(n)
        } else {
            decimal(shown / 10) + "."@ + decimal(shown % 10) + unit_of(n)
        }
    }
}

/// Shortens a number with k, M or B: 5500 gives `5.5k`, 5000 gives `5k`, 1200000
/// gives `1.2M`, 1500000000 gives `1.5B`.
pub fn fmt_num(n: u64) -> (text: String)
    ensures
        text@ == shortened(n as nat),
{
    if n < 1000 {
        return decimal_text(n);
    }
    let (scale, unit): (u64, &str) = if n < 1_000_000 {
        (1000, "k")
    } else if n < 1_000_000_000 {
        (1_000_000, "M")
    } else {
        (1_000_000_000, "B")
    };
    let shown: u64 = tenths_exec(n, scale) as u64;
    let mut text = decimal_text(shown / 10);
    if shown % 10 != 0 {
        text.append(".");
        text.append(digit_text(shown % 10));
    }
    text.append(unit);
    text
}

/// A shortened number under a billion is the nearest tenth of its unit; from a
/// billion on, what the roundings to a double add is under one part in ten
/// thousand of a unit.
pub proof fn law_shortened_is_nearest(n: u64)
    requires
        n >= 1000,
    ensures
        ({
            let scale = scale_of(n as nat);
            let off = tenths(n as nat, scale) * scale - 10 * n;
            let slack: int = if n < 1_000_000_000 {
                0
            } else {
                100_000
            };
            -(scale + slack) <= 2 * off <= scale + slack
        }),
{
    lemma_double_error(n as nat);
    law_tenths_error(n as nat, scale_of(n as nat));
}

/// A whole number of tenths of the unit is shown as exactly that many.
pub proof fn law_whole_tenths_are_exact(n: u64, count: nat)
    requires
        n >= 1000,
        10 * n == count * scale_of(n as nat),
    ensures
        tenths(n as nat, scale_of(n as nat)) == count,
{
    law_shortened_is_nearest(n);
    let scale = scale_of(n as nat);
    let shown = tenths(n as nat, scale);
    assert(shown == count) by (nonlinear_arith)
        requires
            scale == 1000 || scale == 1_000_000 || scale == 1_000_000_000,
            -(scale + 100_000) <= 2 * (shown * scale - count * scale) <= scale + 100_000,
            scale < 1_000_000_000 ==> -scale <= 2 * (shown * scale - count * scale) <= scale,
    {
        assert(shown * scale - count * scale == (shown - count) * scale);
    }
}

/// A larger quotient is not nearest to a smaller integer.
pub proof fn lemma_nearest_monotone(x: nat, p: nat, y: nat, q: nat)
    requires
        p > 0,
        q > 0,
        x * q <= y * p,
    ensures
        nearest(x, p) <= nearest(y, q),
{
    let a = nearest(x, p);
    let b = nearest(y, q);
    lemma_nearest_error(x, p);
    lemma_nearest_error(y, q);
    if a > b {
        // Both quotients lie halfway between `b` and `b + 1`, and go the same way.
        assert(a == b + 1 && 2 * x == (2 * b + 1) * p && 2 * y == (2 * b + 1) * q)
            by (nonlinear_arith)
            requires
                p > 0,
                q > 0,
                x * q <= y * p,
                2 * (a * p) <= 2 * x + p,
                2 * y <= 2 * (b * q) + q,
                a >= b + 1,
        {
            assert((2 * a - 1) * p <= 2 * x);
            assert(2 * y <= (2 * b + 1) * q);
            assert((2 * a - 1) * p * q <= 2 * x * q);
            assert(2 * y * p <= (2 * b + 1) * q * p);
            assert(2 * x * q <= 2 * y * p);
            assert((2 * a - 1) * (p * q) <= (2 * b + 1) * (p * q));
            assert(p * q > 0);
            assert(2 * a - 1 <= 2 * b + 1);
            assert((2 * b + 1) * (p * q) <= (2 * x) * q);
            assert((2 * x) * q <= ((2 * b + 1) * p) * q);
            assert((2 * b + 1) * (p * q) <= (2 * y) * p);
            assert(((2 * b + 1) * q) * p <= (2 * y) * p);
        }
        lemma_nearest_of_halfway(x, p, b);
        lemma_nearest_of_halfway(y, q, b);
    }
}

proof fn lemma_nearest_of_halfway(x: nat, p: nat, floor: nat)
    requires
        p > 0,
        2 * x == (2 * floor + 1) * p,
    ensures
        nearest(x, p) == if floor % 2 == 0 {
            floor
        } else {
            floor + 1
        },
{
    let rest = x - floor * p;
    assert(2 * rest == p) by (nonlinear_arith)
        requires
            2 * x == (2 * floor + 1) * p,
            rest == x - floor * p,
    ;
    assert(x == p * floor + rest) by (nonlinear_arith)
        requires
            rest == x - floor * p,
    ;
    vstd::arithmetic::div_mod::lemma_fundamental_div_mod_converse(
        x as int,
        p as int,
        floor as int,
        rest,
    );
}

proof fn lemma_nearest_of_whole(count: nat, p: nat)
    requires
        p > 0,
    ensures
        nearest(count * p, p) == count,
{
    vstd::arithmetic::mul::lemma_mul_is_commutative(count as int, p as int);
    vstd::arithmetic::div_mod::lemma_fundamental_div_mod_converse(
        (count * p) as int,
        p as int,
        count as int,
        0,
    );
}

/// `nearest` keeps to bounds that are whole.
proof fn lemma_nearest_bounds(x: nat, p: nat, low: nat, high: nat)
    requires
        p > 0,
        low * p <= x <= high * p,
    ensures
        low <= nearest(x, p) <= high,
{
    lemma_nearest_of_whole(low, p);
    lemma_nearest_of_whole(high, p);
    assert((low * p) * p <= x * p && x * p <= (high * p) * p) by (nonlinear_arith)
        requires
            low * p <= x <= high * p,
    ;
    lemma_nearest_monotone(low * p, p, x, p);
    lemma_nearest_monotone(x, p, high * p, p);
}

proof fn lemma_pow2_of_more(low: nat, high: nat)
    requires
        low < high,
    ensures
        2 * pow2(low) <= pow2(high),
    decreases high,
{
    vstd::arithmetic::power2::lemma_pow2_unfold(high);
    vstd::arithmetic::power2::lemma_pow2_pos((high - 1) as nat);
    if low < high - 1 {
        lemma_pow2_of_more(low, (high - 1) as nat);
    }
}

proof fn lemma_spare_bits_monotone(m: nat, n: nat)
    requires
        m <= n,
    ensures
        spare_bits(m) <= spare_bits(n),
        m < 0x20_0000_0000_0000 * pow2(spare_bits(m)),
    decreases n,
{
    vstd::arithmetic::power2::lemma2_to64();
    if m >= DOUBLE_LIMIT {
        lemma_spare_bits_monotone(m / 2, n / 2);
        vstd::arithmetic::power2::lemma_pow2_unfold(spare_bits(m));
    }
}

/// A larger number has no smaller double.
pub proof fn lemma_double_monotone(m: nat, n: nat)
    requires
        m <= n,
    ensures
        double_of(m) <= double_of(n),
{
    let u = pow2(spare_bits(m));
    let w = pow2(spare_bits(n));
    vstd::arithmetic::power2::lemma_pow2_pos(spare_bits(m));
    vstd::arithmetic::power2::lemma_pow2_pos(spare_bits(n));
    lemma_spare_bits_monotone(m, n);
    if spare_bits(m) == spare_bits(n) {
        assert(m * u <= n * u) by (nonlinear_arith)
            requires
                m <= n,
        ;
        lemma_nearest_monotone(m, u, n, u);
        let a = nearest(m, u);
        let b = nearest(n, u);
        assert(a * u <= b * u) by (nonlinear_arith)
            requires
                a <= b,
        ;
    } else {
        lemma_spare_bits(n);
        lemma_pow2_of_more(spare_bits(m), spare_bits(n));
        assert(0 * u == 0);
        lemma_nearest_bounds(m, u, 0, 0x20_0000_0000_0000);
        vstd::arithmetic::mul::lemma_mul_is_commutative(w as int, 0x20_0000_0000_0000);
        lemma_nearest_of_whole(0x10_0000_0000_0000, w);
        assert((0x10_0000_0000_0000 * w) * w <= n * w) by (nonlinear_arith)
            requires
                0x10_0000_0000_0000 * w <= n,
        ;
        lemma_nearest_monotone(0x10_0000_0000_0000 * w, w, n, w);
        let a = nearest(m, u);
        let b = nearest(n, w);
        assert(a * u <= b * w) by (nonlinear_arith)
            requires
                a <= 0x20_0000_0000_0000,
                b >= 0x10_0000_0000_0000,
                2 * u <= w,
        ;
    }
}

proof fn lemma_fraction_bits_monotone(a: nat, b: nat, den: nat)
    requires
        0 < a <= b,
        b < 0x20_0000_0000_0000 * den,
    ensures
        fraction_bits(a, den) >= fraction_bits(b, den),
    decreases 0x20_0000_0000_0000 * den - a,
{
    if 2 * b < 0x20_0000_0000_0000 * den {
        lemma_fraction_bits_monotone(2 * a, 2 * b, den);
    }
}

/// A larger number has no fewer tenths of the same unit.
pub proof fn law_tenths_never_fall(m: nat, n: nat, scale: nat)
    requires
        0 < m <= n,
        double_of(n) < 0x20_0000_0000_0000 * scale,
    ensures
        tenths(m, scale) <= tenths(n, scale),
{
    let a = double_of(m);
    let b = double_of(n);
    lemma_double_error(m);
    lemma_double_monotone(m, n);
    lemma_fraction_bits(a, scale);
    lemma_fraction_bits(b, scale);
    lemma_fraction_bits_monotone(a, b, scale);
    let p = pow2(fraction_bits(a, scale));
    let q = pow2(fraction_bits(b, scale));
    vstd::arithmetic::power2::lemma_pow2_pos(fraction_bits(a, scale));
    vstd::arithmetic::power2::lemma_pow2_pos(fraction_bits(b, scale));
    let x = nearest(a * p, scale);
    let y = nearest(b * q, scale);
    if fraction_bits(a, scale) == fraction_bits(b, scale) {
        assert((a * p) * scale <= (b * p) * scale) by (nonlinear_arith)
            requires
                a <= b,
        ;
        lemma_nearest_monotone(a * p, scale, b * p, scale);
        assert((10 * x) * p <= (10 * y) * p) by (nonlinear_arith)
            requires
                x <= y,
        ;
    } else {
        lemma_pow2_of_more(fraction_bits(b, scale), fraction_bits(a, scale));
        assert(0 * scale == 0);
        lemma_nearest_bounds(a * p, scale, 0, 0x20_0000_0000_0000);
        lemma_nearest_bounds(b * q, scale, 0x10_0000_0000_0000, 0x20_0000_0000_0000);
        assert((10 * x) * q <= (10 * y) * p) by (nonlinear_arith)
            requires
                x <= 0x20_0000_0000_0000,
                y >= 0x10_0000_0000_0000,
                2 * q <= p,
        ;
    }
    lemma_nearest_monotone(10 * x, p, 10 * y, q);
}

/// The value that a shortened number shows, in tenths.
pub open spec fn shown_value(n: nat) -> nat {
    if n < 1000 {
        10 * n
    } else {
        tenths(n, scale_of(n)) * scale_of(n)
    }
}

/// The value shown in a unit is from one of it to a thousand of it; there is no
/// upper bound for the last unit.
proof fn lemma_shown_value_bounds(n: u64)
    requires
        n >= 1000,
    ensures
        10 * scale_of(n as nat) <= shown_value(n as nat),
        n < 1_000_000_000 ==> shown_value(n as nat) <= 10_000 * scale_of(n as nat),
{
    law_shortened_is_nearest(n);
    let scale = scale_of(n as nat);
    let shown = tenths(n as nat, scale);
    assert(shown >= 10) by (nonlinear_arith)
        requires
            scale == 1000 || scale == 1_000_000 || scale == 1_000_000_000,
            n >= scale,
            2 * (shown * scale - 10 * n) >= -(scale + 100_000),
            scale < 1_000_000_000 ==> 2 * (shown * scale - 10 * n) >= -scale,
    ;
    assert(10 * scale <= shown * scale) by (nonlinear_arith)
        requires
            shown >= 10,
    ;
    if n < 1_000_000_000 {
        assert(shown <= 10_000) by (nonlinear_arith)
            requires
                scale == 1000 || scale == 1_000_000,
                n < 1000 * scale,
                2 * (shown * scale - 10 * n) <= scale,
        ;
        assert(shown * scale <= 10_000 * scale) by (nonlinear_arith)
            requires
                shown <= 10_000,
        ;
    }
}

/// A larger number never shows a smaller value, in the same unit or across units.
pub proof fn law_shown_value_never_falls(m: u64, n: u64)
    requires
        m <= n,
    ensures
        shown_value(m as nat) <= shown_value(n as nat),
{
    if m >= 1000 {
        lemma_shown_value_bounds(m);
    }
    if n >= 1000 {
        lemma_shown_value_bounds(n);
        lemma_double_error(n as nat);
    }
    let scale = scale_of(n as nat);
    if m >= 1000 && scale_of(m as nat) == scale {
        law_tenths_never_fall(m as nat, n as nat, scale);
        let a = tenths(m as nat, scale);
        let b = tenths(n as nat, scale);
        assert(a * scale <= b * scale) by (nonlinear_arith)
            requires
                a <= b,
        ;
    }
}

/// A shortened number is at most 23 characters long.
pub proof fn law_shortened_is_short(n: u64)
    ensures
        shortened(n as nat).len() <= 23,
{
    reveal_with_fuel(crate::text::ten_to, 21);
    reveal_strlit("k");
    reveal_strlit("M");
    reveal_strlit("B");
    reveal_strlit(".");
    if n < 1000 {
        crate::text::lemma_decimal_len(n as nat, 20);
    } else {
        law_shortened_is_nearest(n);
        let scale = scale_of(n as nat);
        let shown = tenths(n as nat, scale);
        assert(shown <= 1 + n) by (nonlinear_arith)
            requires
                scale >= 1000,
                2 * (shown * scale - 10 * n) <= scale + 100_000,
                n < 1_000_000_000 ==> 2 * (shown * scale - 10 * n) <= scale,
                n >= 1000,
        ;
        crate::text::lemma_decimal_len(shown / 10, 20);
        crate::text::lemma_decimal_len(shown % 10, 1);
    }
}

/// How full the context is, in tenths of a percent. The product saturates.
pub open spec fn per_mille(last_in: u64, window: u64) -> nat {
    (if last_in * 1000 <= u64::MAX {
        (last_in * 1000) as nat
    } else {
        u64::MAX as nat
    }) / (window as nat)
}

/// The context-fullness section: `ctx:<percent>% (<tokens>/<window>)`. There is
/// none until both numbers are known, and 0 is not a known number.
pub open spec fn ctx_section(last_in: u64, window: Option<u64>) -> Option<Seq<char>> {
    match window {
        Some(w) if w != 0 && last_in != 0 => Some(
            "ctx:"@ + decimal(per_mille(last_in, w) / 10) + "."@ + decimal(
                per_mille(last_in, w) % 10,
            ) + "% ("@ + shortened(last_in as nat) + "/"@ + shortened(w as nat) + ")"@,
        ),
        _ => None,
    }
}

/// The section hides exactly while the last input or the window is not known.
pub proof fn law_ctx_section_needs_both(last_in: u64, window: Option<u64>)
    ensures
        ctx_section(last_in, window) is None <==> last_in == 0 || window is None || window == Some(
            0u64,
        ),
{
}

/// The context-fullness section from the last measured input and the window of
/// the model.
pub fn ctx_text(last_in: u64, window: Option<u64>) -> (section: Option<String>)
    ensures
        match section {
            Some(text) => ctx_section(last_in, window) == Some(text@),
            None => ctx_section(last_in, window) is None,
        },
{
    let w: u64 = match window {
        Some(w) => w,
        None => return None,
    };
    if last_in == 0 || w == 0 {
        return None;
    }
    let thousandfold: u64 = match last_in.checked_mul(1000) {
        Some(product) => product,
        None => u64::MAX,
    };
    let fullness: u64 = thousandfold / w;
    let mut text = "ctx:".to_owned();
    text.append(decimal_text(fullness / 10).as_str());
    text.append(".");
    text.append(digit_text(fullness % 10));
    text.append("% (");
    text.append(fmt_num(last_in).as_str());
    text.append("/");
    text.append(fmt_num(w).as_str());
    text.append(")");
    Some(text)
}

fn nearest_exec(num: u128, den: u128) -> (r: u128)
    requires
        0 < den <= u128::MAX / 2,
        num < u128::MAX,
    ensures
        r == nearest(num as nat, den as nat),
{
    let floor: u128 = num / den;
    let rest: u128 = num % den;
    proof {
        lemma_nearest_error(num as nat, den as nat);
    }
    if 2 * rest < den || (2 * rest == den && floor % 2 == 0) {
        floor
    } else {
        floor + 1
    }
}

fn double_of_exec(n: u64) -> (r: u128)
    ensures
        r == double_of(n as nat),
{
    let mut rest: u128 = n as u128;
    let mut unit: u128 = 1;
    let ghost mut bits: nat = 0;
    proof {
        vstd::arithmetic::power2::lemma2_to64();
        lemma_spare_bits(n as nat);
        lemma_double_error(n as nat);
    }
    while rest >= DOUBLE_LIMIT
        invariant
            unit == pow2(bits),
            1 <= unit,
            unit * rest <= n,
            spare_bits(n as nat) == bits + spare_bits(rest as nat),
        decreases rest,
    {
        proof {
            assert(unit * 2 * (rest / 2) <= unit * rest) by (nonlinear_arith);
            assert(unit * 0x20_0000_0000_0000 <= unit * rest) by (nonlinear_arith)
                requires
                    rest >= 0x20_0000_0000_0000,
            ;
            vstd::arithmetic::power2::lemma_pow2_unfold(bits + 1);
            bits = bits + 1;
        }
        rest = rest / 2;
        unit = unit * 2;
    }
    nearest_exec(n as u128, unit) * unit
}

/// The tenths that one decimal of `n / scale` shows.
fn tenths_exec(n: u64, scale: u64) -> (r: u128)
    requires
        1000 <= scale <= n,
        n < 1000 * scale || scale == 1_000_000_000,
        scale <= 1_000_000_000,
    ensures
        r == tenths(n as nat, scale as nat),
        r <= n,
{
    let dividend: u128 = double_of_exec(n);
    let full: u128 = 0x10_0000_0000_0000 * scale as u128;
    let mut shifted: u128 = dividend;
    let mut unit: u128 = 1;
    let ghost mut bits: nat = 0;
    proof {
        lemma_double_error(n as nat);
        vstd::arithmetic::power2::lemma2_to64();
    }
    while shifted < full
        invariant
            unit == pow2(bits),
            1 <= unit <= shifted,
            shifted <= 0x10_0000_0000_0000_0000_0000,
            full == 0x10_0000_0000_0000 * scale,
            scale <= 1_000_000_000,
            shifted == dividend * unit,
            fraction_bits(dividend as nat, scale as nat) == bits + fraction_bits(
                shifted as nat,
                scale as nat,
            ),
        decreases 2 * full - shifted,
    {
        proof {
            assert(dividend * (unit * 2) == 2 * (dividend * unit)) by (nonlinear_arith);
            vstd::arithmetic::power2::lemma_pow2_unfold(bits + 1);
            bits = bits + 1;
        }
        shifted = shifted * 2;
        unit = unit * 2;
    }
    proof {
        lemma_nearest_error(shifted as nat, scale as nat);
        law_tenths_error(n as nat, scale as nat);
        let t = tenths(n as nat, scale as nat);
        assert(t * scale <= 12 * n);
        assert(t <= n) by (nonlinear_arith)
            requires
                1000 <= scale,
                t * scale <= 12 * n,
        ;
    }
    nearest_exec(10 * nearest_exec(shifted, scale as u128), unit)
}

/// The integer nearest to a quotient is the one that is off by half at most, and the
/// even one of two that are off by half.
pub proof fn law_nearest_is_nearest(num: nat, den: nat, r: nat)
    requires
        den > 0,
        -den <= 2 * (r * den - num) <= den,
        -den == 2 * (r * den - num) || 2 * (r * den - num) == den ==> r % 2 == 0,
    ensures
        nearest(num, den) == r,
{
    let off = r * den - num;
    if off <= 0 {
        assert(num == den * r + (-off)) by (nonlinear_arith)
            requires
                off == r * den - num,
        ;
        vstd::arithmetic::div_mod::lemma_fundamental_div_mod_converse(
            num as int,
            den as int,
            r as int,
            -off,
        );
    } else {
        let floor: int = r - 1;
        let rest: int = den - off;
        assert(num == den * floor + rest) by (nonlinear_arith)
            requires
                off == r * den - num,
                floor == r - 1,
                rest == den - off,
        ;
        assert(floor >= 0) by (nonlinear_arith)
            requires
                off > 0,
                off == r * den - num,
                floor == r - 1,
                r >= 0,
                num >= 0,
        ;
        vstd::arithmetic::div_mod::lemma_fundamental_div_mod_converse(
            num as int,
            den as int,
            floor,
            rest,
        );
    }
}

proof fn lemma_spare_bits_are(n: nat, bits: nat)
    requires
        bits == 0 ==> n < 0x20_0000_0000_0000,
        bits > 0 ==> 0x10_0000_0000_0000 * pow2(bits) <= n < 0x20_0000_0000_0000 * pow2(bits),
    ensures
        spare_bits(n) == bits,
    decreases bits,
{
    if bits > 0 {
        let fewer = (bits - 1) as nat;
        vstd::arithmetic::power2::lemma_pow2_unfold(bits);
        vstd::arithmetic::power2::lemma_pow2_pos(fewer);
        vstd::arithmetic::power2::lemma2_to64();
        lemma_spare_bits_are(n / 2, fewer);
    }
}

proof fn lemma_fraction_bits_are(num: nat, den: nat, bits: nat)
    requires
        num > 0,
        0x10_0000_0000_0000 * den <= num * pow2(bits) < 0x20_0000_0000_0000 * den,
    ensures
        fraction_bits(num, den) == bits,
    decreases bits,
{
    vstd::arithmetic::power2::lemma2_to64();
    if bits == 0 {
        assert(num * pow2(0) == num) by (nonlinear_arith)
            requires
                pow2(0) == 1,
        ;
    } else {
        let fewer = (bits - 1) as nat;
        vstd::arithmetic::power2::lemma_pow2_unfold(bits);
        vstd::arithmetic::power2::lemma_pow2_pos(fewer);
        let p = pow2(fewer);
        assert(num * (2 * p) == (2 * num) * p) by (nonlinear_arith);
        assert(2 * num <= (2 * num) * p) by (nonlinear_arith)
            requires
                p >= 1,
        ;
        lemma_fraction_bits_are(2 * num, den, fewer);
    }
}

/// The tenths shown are those of doubles. With `c` times `2` to the `low` the double
/// nearest to the number, and `m` over `2` to the `high` the double nearest to its
/// quotient by the scale, each with a significand of 53 bits, they are the tenths
/// nearest to the latter. Of two that are equally near, each step takes the even
/// one.
pub proof fn law_tenths_are_those_of_doubles(
    n: nat,
    scale: nat,
    low: nat,
    c: nat,
    high: nat,
    m: nat,
    t: nat,
)
    requires
        n > 0,
        scale > 0,
        low == 0 ==> n < 0x20_0000_0000_0000,
        low > 0 ==> 0x10_0000_0000_0000 * pow2(low) <= n < 0x20_0000_0000_0000 * pow2(low),
        -pow2(low) <= 2 * (c * pow2(low) - n) <= pow2(low),
        -pow2(low) == 2 * (c * pow2(low) - n) || 2 * (c * pow2(low) - n) == pow2(low) ==> c % 2
            == 0,
        0x10_0000_0000_0000 * scale <= (c * pow2(low)) * pow2(high) < 0x20_0000_0000_0000 * scale,
        -scale <= 2 * (m * scale - (c * pow2(low)) * pow2(high)) <= scale,
        -scale == 2 * (m * scale - (c * pow2(low)) * pow2(high)) || 2 * (m * scale - (c * pow2(
            low,
        )) * pow2(high)) == scale ==> m % 2 == 0,
        -pow2(high) <= 2 * (t * pow2(high) - 10 * m) <= pow2(high),
        -pow2(high) == 2 * (t * pow2(high) - 10 * m) || 2 * (t * pow2(high) - 10 * m) == pow2(high)
            ==> t % 2 == 0,
    ensures
        tenths(n, scale) == t,
{
    vstd::arithmetic::power2::lemma_pow2_pos(low);
    vstd::arithmetic::power2::lemma_pow2_pos(high);
    let a = c * pow2(low);
    lemma_spare_bits_are(n, low);
    law_nearest_is_nearest(n, pow2(low), c);
    assert(double_of(n) == a);
    let p = pow2(high);
    assert(a > 0) by (nonlinear_arith)
        requires
            a * p >= 0x10_0000_0000_0000 * scale,
            scale > 0,
    ;
    lemma_fraction_bits_are(a, scale, high);
    law_nearest_is_nearest(a * p, scale, m);
    law_nearest_is_nearest(10 * m, p, t);
}

/// A number under a thousand is shown with all its digits. Any other is shown by its
/// tenths of a thousand, a million or a billion: what stands before the letter is a
/// tenth of them, with one decimal, or none where it would be 0.
pub proof fn law_shortened_shows_its_tenths(n: nat, whole: nat, tenth: nat)
    requires
        tenth < 10,
    ensures
        n < 1000 ==> shortened(n) == decimal(n),
        1000 <= n < 1_000_000 && tenths(n, 1000) == 10 * whole + tenth ==> shortened(n) == decimal(
            whole,
        ) + (if tenth == 0 {
            "k"@
        } else {
            "."@ + decimal(tenth) + "k"@
        }),
        1_000_000 <= n < 1_000_000_000 && tenths(n, 1_000_000) == 10 * whole + tenth ==> shortened(
            n,
        ) == decimal(whole) + (if tenth == 0 {
            "M"@
        } else {
            "."@ + decimal(tenth) + "M"@
        }),
        1_000_000_000 <= n && tenths(n, 1_000_000_000) == 10 * whole + tenth ==> shortened(n)
            == decimal(whole) + (if tenth == 0 {
            "B"@
        } else {
            "."@ + decimal(tenth) + "B"@
        }),
{
    let shown: nat = 10 * whole + tenth;
    assert(shown / 10 == whole);
    assert(shown % 10 == tenth);
    assert(decimal(whole) + "."@ + decimal(tenth) + unit_of(n) =~= decimal(whole) + ("."@
        + decimal(tenth) + unit_of(n)));
}

/// The text of a shortened number is right to the nearest tenth: where some tenths
/// of the unit are nearer to the number than half a tenth, the text shows exactly
/// those. From a billion on this holds but for what the roundings to a double add,
/// one part in ten thousand of a tenth.
pub proof fn law_shortened_shows_the_nearest_tenth(n: u64, whole: nat, tenth: nat)
    requires
        tenth < 10,
    ensures
        1000 <= n < 1_000_000 && -1000 < 2 * (1000 * (10 * whole + tenth) - 10 * n) < 1000
            ==> shortened(n as nat) == decimal(whole) + (if tenth == 0 {
            "k"@
        } else {
            "."@ + decimal(tenth) + "k"@
        }),
        1_000_000 <= n < 1_000_000_000 && -1_000_000 < 2 * (1_000_000 * (10 * whole + tenth) - 10
            * n) < 1_000_000 ==> shortened(n as nat) == decimal(whole) + (if tenth == 0 {
            "M"@
        } else {
            "."@ + decimal(tenth) + "M"@
        }),
        1_000_000_000 <= n && -999_900_000 < 2 * (1_000_000_000 * (10 * whole + tenth) - 10 * n)
            < 999_900_000 ==> shortened(n as nat) == decimal(whole) + (if tenth == 0 {
            "B"@
        } else {
            "."@ + decimal(tenth) + "B"@
        }),
{
    law_shortened_shows_its_tenths(n as nat, whole, tenth);
    if n >= 1000 {
        law_shortened_is_nearest(n);
    }
}

/// The percentage shown is rounded down to a tenth: in tenths it is the number `p`
/// for which `p` windows are no more than a thousand times the input, and one
/// window more is more. Where that product would not fit 64 bits, the largest
/// number of 64 bits stands for it.
pub proof fn law_ctx_percentage_is_rounded_down(last_in: u64, window: u64, p: nat)
    requires
        last_in > 0,
        window > 0,
        1000 * last_in <= u64::MAX ==> p * window <= 1000 * last_in < (p + 1) * window,
        1000 * last_in > u64::MAX ==> p * window <= u64::MAX < (p + 1) * window,
    ensures
        per_mille(last_in, window) == p,
        ctx_section(last_in, Some(window)) == Some(
            "ctx:"@ + decimal(p / 10) + "."@ + decimal(p % 10) + "% ("@ + shortened(last_in as nat)
                + "/"@ + shortened(window as nat) + ")"@,
        ),
{
    let product: int = if 1000 * last_in <= u64::MAX {
        1000 * last_in
    } else {
        u64::MAX as int
    };
    let rest: int = product - p * window;
    assert(0 <= rest < window && product == window * p + rest) by (nonlinear_arith)
        requires
            p * window <= product < (p + 1) * window,
            rest == product - p * window,
    ;
    vstd::arithmetic::div_mod::lemma_fundamental_div_mod_converse(
        product,
        window as int,
        p as int,
        rest,
    );
}

/// The tenths of a percent shown times the window are at most a thousand times the
/// input, and less than a window short of it.
pub proof fn law_ctx_percentage_is_the_floor(last_in: u64, window: u64)
    requires
        window > 0,
        1000 * last_in <= u64::MAX,
    ensures
        per_mille(last_in, window) * window <= 1000 * last_in,
        1000 * last_in < (per_mille(last_in, window) + 1) * window,
{
    let p = per_mille(last_in, window);
    vstd::arithmetic::div_mod::lemma_fundamental_div_mod(1000 * last_in, window as int);
    assert(p * window <= 1000 * last_in < (p + 1) * window) by (nonlinear_arith)
        requires
            1000 * last_in == window * p + (1000 * last_in) % (window as int),
            0 <= (1000 * last_in) % (window as int) < window,
    ;
}

/// The percentage never falls when the input grows, and never rises when the window
/// does.
pub proof fn law_ctx_percentage_grows_with_the_input(less: u64, more: u64, window: u64, wider: u64)
    requires
        less <= more,
        0 < window <= wider,
    ensures
        per_mille(less, window) <= per_mille(more, window),
        per_mille(less, wider) <= per_mille(less, window),
{
    let small: nat = if less * 1000 <= u64::MAX {
        (less * 1000) as nat
    } else {
        u64::MAX as nat
    };
    let large: nat = if more * 1000 <= u64::MAX {
        (more * 1000) as nat
    } else {
        u64::MAX as nat
    };
    vstd::arithmetic::div_mod::lemma_div_is_ordered(small as int, large as int, window as int);
    vstd::arithmetic::div_mod::lemma_div_is_ordered_by_denominator(
        small as int,
        window as int,
        wider as int,
    );
}

} // verus!
