//! Integers as 64-bit floats, by their bits, and the values that bits stand for.

use vstd::prelude::*;
use crate::embeddings;
use crate::json::JsonNumber;
use crate::json::NumberModel;
use vstd::arithmetic::power2;

verus! {

/// The place of the highest bit that is set.
pub open spec fn top_bit(m: nat) -> nat
    decreases m,
{
    if m < 2 {
        0
    } else {
        1 + top_bit(m / 2)
    }
}

/// `m` divided by `2^k`, rounded to the nearest integer, halves to the even one.
pub open spec fn rounded(m: nat, k: nat) -> nat {
    let q = m / power2::pow2(k);
    let r = m % power2::pow2(k);
    if 2 * r > power2::pow2(k) || (2 * r == power2::pow2(k) && q % 2 == 1) {
        q + 1
    } else {
        q
    }
}

/// The bits of the float nearest to a natural number: the exponent, and the digits
/// after the first. Where rounding carries, the sum carries too.
pub open spec fn nat_bits(m: nat) -> nat {
    let e = top_bit(m);
    if m == 0 {
        0
    } else if e <= 52 {
        (1022 + e) * 0x10_0000_0000_0000 + m * power2::pow2((52 - e) as nat)
    } else {
        (1022 + e) * 0x10_0000_0000_0000 + rounded(m, (e - 52) as nat)
    }
}

/// The bits of the float nearest to an integer.
pub open spec fn int_bits(i: int) -> nat {
    if i < 0 {
        0x8000_0000_0000_0000 + nat_bits((-i) as nat)
    } else {
        nat_bits(i as nat)
    }
}

proof fn top_bit_bounds(m: nat)
    requires
        m > 0,
    ensures
        power2::pow2(top_bit(m)) <= m < 2 * power2::pow2(top_bit(m)),
    decreases m,
{
    power2::lemma2_to64();
    if m >= 2 {
        top_bit_bounds(m / 2);
        power2::lemma_pow2_unfold(top_bit(m));
    }
}

fn highest_bit(m: u64) -> (r: u64)
    requires
        m > 0,
    ensures
        r == top_bit(m as nat),
        r <= 63,
{
    let mut rest: u64 = m;
    let mut e: u64 = 0;
    while rest >= 2
        invariant
            rest > 0,
            e + top_bit(rest as nat) == top_bit(m as nat),
        decreases rest,
    {
        rest = rest / 2;
        assert(e < u64::MAX) by {
            top_bit_is_small(m);
        }
        e += 1;
    }
    proof {
        top_bit_is_small(m);
    }
    e
}

proof fn top_bit_is_small(m: u64)
    ensures
        top_bit(m as nat) <= 63,
{
    power2::lemma2_to64();
    power2::lemma2_to64_rest();
    if m > 0 {
        top_bit_bounds(m as nat);
        if top_bit(m as nat) > 63 {
            power2::lemma_pow2_strictly_increases(63, top_bit(m as nat));
            power2::lemma_pow2_unfold(64);
            assert(power2::pow2(64) == 0x1_0000_0000_0000_0000);
            if top_bit(m as nat) > 64 {
                power2::lemma_pow2_strictly_increases(64, top_bit(m as nat));
            }
        }
    }
}

fn power(k: u64) -> (r: u64)
    requires
        k <= 63,
    ensures
        r == power2::pow2(k as nat),
{
    proof {
        power2::lemma2_to64();
        power2::lemma2_to64_rest();
    }
    let mut p: u64 = 1;
    let mut i: u64 = 0;
    while i < k
        invariant
            i <= k <= 63,
            p == power2::pow2(i as nat),
        decreases k - i,
    {
        proof {
            power2::lemma2_to64_rest();
            power2::lemma_pow2_unfold((i + 1) as nat);
            if i + 1 < 63 {
                power2::lemma_pow2_strictly_increases((i + 1) as nat, 63);
            }
        }
        p = p * 2;
        i += 1;
    }
    p
}

fn natural_bits(m: u64) -> (r: u64)
    requires
        m <= 0x8000_0000_0000_0000,
    ensures
        r == nat_bits(m as nat),
        r < 0x8000_0000_0000_0000,
{
    if m == 0 {
        return 0;
    }
    let e = highest_bit(m);
    proof {
        power2::lemma2_to64();
        power2::lemma2_to64_rest();
        top_bit_bounds(m as nat);
    }
    if e <= 52 {
        let p = power(52 - e);
        proof {
            let x = power2::pow2(e as nat);
            let y = power2::pow2((52 - e) as nat);
            power2::lemma_pow2_adds(e as nat, (52 - e) as nat);
            assert(x * y == 0x10_0000_0000_0000);
            assert(m * y < (2 * x) * y) by (nonlinear_arith)
                requires
                    m < 2 * x,
                    y > 0,
            ;
            assert((2 * x) * y == 2 * (x * y)) by (nonlinear_arith);
        }
        (1022 + e) * 0x10_0000_0000_0000 + m * p
    } else {
        let p = power(e - 52);
        let q = m / p;
        let rem = m % p;
        proof {
            let x = power2::pow2(e as nat);
            let y = power2::pow2((e - 52) as nat);
            power2::lemma_pow2_adds((e - 52) as nat, 52);
            assert(y * 0x10_0000_0000_0000 == x);
            assert(q * y <= m) by (nonlinear_arith)
                requires
                    q == m as nat / y,
                    y > 0,
            ;
            assert(q < 0x20_0000_0000_0000) by (nonlinear_arith)
                requires
                    q * y <= m,
                    m < 2 * (y * 0x10_0000_0000_0000),
                    y > 0,
            ;
        }
        let up = rem > p - rem || (rem == p - rem && q % 2 == 1);
        let shown = if up {
            q + 1
        } else {
            q
        };
        assert(shown == rounded(m as nat, (e - 52) as nat));
        (1022 + e) * 0x10_0000_0000_0000 + shown
    }
}

/// The bits of the float nearest to an integer.
pub fn integer_bits(i: i64) -> (r: u64)
    ensures
        r == int_bits(i as int),
{
    if i < 0 {
        let m = (-(i + 1)) as u64 + 1;
        0x8000_0000_0000_0000 + natural_bits(m)
    } else {
        natural_bits(i as u64)
    }
}

/// The bits of a number as a float.
pub open spec fn number_bits(n: NumberModel) -> u64 {
    match n {
        NumberModel::Int(i) => int_bits(i as int) as u64,
        NumberModel::Big(_, f) => f.bits,
        NumberModel::Float(f) => f.bits,
    }
}

/// The bits of a number as a float.
pub fn bits_of_number(n: &JsonNumber) -> (r: u64)
    ensures
        r == number_bits(n.deep_view()),
{
    match n {
        JsonNumber::Int(i) => integer_bits(*i),
        JsonNumber::Big(_, f) => f.bits,
        JsonNumber::Float(f) => f.bits,
    }
}

/// The magnitude that an exponent and the digits after the first stand for, in units of
/// the least positive float. `width` is how many digits there are.
pub open spec fn magnitude(exponent: nat, digits: nat, width: nat) -> nat {
    if exponent == 0 {
        digits
    } else {
        (power2::pow2(width) + digits) * power2::pow2((exponent - 1) as nat)
    }
}

/// The value of a 64-bit float in units of the least positive one. Infinity is greater
/// than every other value; what is not a number has no value to speak of.
pub open spec fn wide_value(bits: u64) -> int {
    let m = (bits % 0x8000_0000_0000_0000) as nat;
    let size = magnitude(m / 0x10_0000_0000_0000, m % 0x10_0000_0000_0000, 52) as int;
    if bits < 0x8000_0000_0000_0000 {
        size
    } else {
        -size
    }
}

/// The value of a 32-bit float in units of the least positive one.
pub open spec fn narrow_value(bits: u32) -> int {
    let m = (bits % 0x8000_0000) as nat;
    let size = magnitude(m / 0x80_0000, m % 0x80_0000, 23) as int;
    if bits < 0x8000_0000 {
        size
    } else {
        -size
    }
}

proof fn magnitude_grows(e: nat, d: nat, f: nat, g: nat, width: nat)
    requires
        d < power2::pow2(width),
        g < power2::pow2(width),
        e < f || (e == f && d < g),
    ensures
        magnitude(e, d, width) < magnitude(f, g, width),
{
    let base = power2::pow2(width);
    let q = power2::pow2((f - 1) as nat);
    power2::lemma_pow2_pos((f - 1) as nat);
    power2::lemma_pow2_pos(width);
    if e == f {
        if e > 0 {
            assert((base + d) * q < (base + g) * q) by (nonlinear_arith)
                requires
                    d < g,
                    q > 0,
            ;
        }
    } else {
        assert((base + g) * q >= base * q) by (nonlinear_arith)
            requires
                g >= 0,
                q > 0,
        ;
        if e == 0 {
            assert(base * q >= base) by (nonlinear_arith)
                requires
                    q >= 1,
                    base >= 0,
            ;
        } else {
            let p = power2::pow2((e - 1) as nat);
            power2::lemma_pow2_pos((e - 1) as nat);
            power2::lemma_pow2_unfold(e);
            assert(2 * p <= q) by {
                if e < f - 1 {
                    power2::lemma_pow2_strictly_increases(e, (f - 1) as nat);
                }
            }
            assert((base + d) * p < base * q) by (nonlinear_arith)
                requires
                    d < base,
                    2 * p <= q,
                    p > 0,
                    base > 0,
            ;
        }
    }
}

proof fn wide_sizes_grow(m: nat, n: nat)
    requires
        m < n,
    ensures
        magnitude(m / 0x10_0000_0000_0000, m % 0x10_0000_0000_0000, 52) < magnitude(
            n / 0x10_0000_0000_0000,
            n % 0x10_0000_0000_0000,
            52,
        ),
{
    power2::lemma2_to64_rest();
    magnitude_grows(
        m / 0x10_0000_0000_0000,
        m % 0x10_0000_0000_0000,
        n / 0x10_0000_0000_0000,
        n % 0x10_0000_0000_0000,
        52,
    );
}

proof fn narrow_sizes_grow(m: nat, n: nat)
    requires
        m < n,
    ensures
        magnitude(m / 0x80_0000, m % 0x80_0000, 23) < magnitude(n / 0x80_0000, n % 0x80_0000, 23),
{
    power2::lemma2_to64();
    magnitude_grows(m / 0x80_0000, m % 0x80_0000, n / 0x80_0000, n % 0x80_0000, 23);
}

proof fn wide_values_in_order(a: u64, b: u64)
    ensures
        embeddings::wide_rank(a) < embeddings::wide_rank(b) <==> wide_value(a) < wide_value(b),
{
    let m = (a % 0x8000_0000_0000_0000) as nat;
    let n = (b % 0x8000_0000_0000_0000) as nat;
    if m < n {
        wide_sizes_grow(m, n);
    }
    if n < m {
        wide_sizes_grow(n, m);
    }
    if m > 0 {
        wide_sizes_grow(0, m);
    }
    if n > 0 {
        wide_sizes_grow(0, n);
    }
}

proof fn narrow_values_in_order(a: u32, b: u32)
    ensures
        embeddings::value_rank(a) < embeddings::value_rank(b) <==> narrow_value(a) < narrow_value(b),
{
    let m = (a % 0x8000_0000) as nat;
    let n = (b % 0x8000_0000) as nat;
    if m < n {
        narrow_sizes_grow(m, n);
    }
    if n < m {
        narrow_sizes_grow(n, m);
    }
    if m > 0 {
        narrow_sizes_grow(0, m);
    }
    if n > 0 {
        narrow_sizes_grow(0, n);
    }
}

/// 64-bit floats compare as their values do, and not at all where one of them is not
/// a number, that is where its exponent is full and a digit is set.
pub proof fn law_wide_floats_compare_by_value(a: u64, b: u64)
    ensures
        embeddings::is_wide_nan(a) <==> (a % 0x8000_0000_0000_0000) / 0x10_0000_0000_0000 == 0x7ff
            && a % 0x10_0000_0000_0000 != 0,
        embeddings::is_wide_nan(a) || embeddings::is_wide_nan(b) ==> !embeddings::wide_less(a, b)
            && !embeddings::wide_at_least(a, b),
        !embeddings::is_wide_nan(a) && !embeddings::is_wide_nan(b) ==> {
            &&& embeddings::wide_less(a, b) <==> wide_value(a) < wide_value(b)
            &&& embeddings::wide_at_least(a, b) <==> wide_value(a) >= wide_value(b)
        },
{
    wide_values_in_order(a, b);
}

/// 32-bit floats compare as their values do, and not at all where one of them is not
/// a number.
pub proof fn law_narrow_floats_compare_by_value(a: u32, b: u32)
    ensures
        embeddings::is_nan(a) <==> (a % 0x8000_0000) / 0x80_0000 == 0xff && a % 0x80_0000 != 0,
        embeddings::is_nan(a) || embeddings::is_nan(b) ==> !embeddings::at_least(a, b),
        !embeddings::is_nan(a) && !embeddings::is_nan(b) ==> (embeddings::at_least(a, b)
            <==> narrow_value(a) >= narrow_value(b)),
        narrow_value(a) < narrow_value(b) ==> embeddings::total_rank(a) < embeddings::total_rank(b),
{
    narrow_values_in_order(a, b);
}

/// An integer that fits in the digits of a float is that float exactly: its value is the
/// integer, in units of the least positive float.
pub proof fn law_small_integers_are_exact(i: int)
    requires
        -0x20_0000_0000_0000 < i < 0x20_0000_0000_0000,
    ensures
        int_bits(i) <= u64::MAX,
        !embeddings::is_wide_nan(int_bits(i) as u64),
        wide_value(int_bits(i) as u64) == i * power2::pow2(1074),
{
    power2::lemma2_to64();
    power2::lemma2_to64_rest();
    let m = if i < 0 {
        (-i) as nat
    } else {
        i as nat
    };
    if m > 0 {
        let e = top_bit(m);
        top_bit_bounds(m);
        if e > 52 {
            power2::lemma_pow2_strictly_increases(52, e);
            power2::lemma_pow2_unfold(53);
            if e > 53 {
                power2::lemma_pow2_strictly_increases(53, e);
            }
        }
        let x = power2::pow2(e);
        let y = power2::pow2((52 - e) as nat);
        power2::lemma_pow2_adds(e, (52 - e) as nat);
        power2::lemma_pow2_pos((52 - e) as nat);
        let digits = m * y;
        assert(x * y <= m * y < (2 * x) * y) by (nonlinear_arith)
            requires
                x <= m < 2 * x,
                y > 0,
        ;
        assert((2 * x) * y == 2 * (x * y)) by (nonlinear_arith);
        let bits = nat_bits(m);
        assert(bits == (1022 + e) * 0x10_0000_0000_0000 + digits);
        let d = (digits - 0x10_0000_0000_0000) as nat;
        assert(bits == (1023 + e) * 0x10_0000_0000_0000 + d);
        assert(bits / 0x10_0000_0000_0000 == 1023 + e);
        assert(bits % 0x10_0000_0000_0000 == d);
        assert(bits < 0x8000_0000_0000_0000);
        power2::lemma_pow2_adds((52 - e) as nat, (1022 + e) as nat);
        let p = power2::pow2((1022 + e) as nat);
        assert(digits * p == m * (y * p)) by (nonlinear_arith)
            requires
                digits == m * y,
        ;
        assert(magnitude((1023 + e) as nat, d, 52) == m * power2::pow2(1074));
        let b = int_bits(i) as u64;
        assert(b % 0x8000_0000_0000_0000 == bits);
        let unit = power2::pow2(1074);
        if i < 0 {
            assert(i * unit == -(m * unit)) by (nonlinear_arith)
                requires
                    i == -m,
            ;
        }
    } else {
        assert(0 * power2::pow2(1074) == 0) by (nonlinear_arith);
    }
}

} // verus!
