//! Arithmetic in GF(2^16), the field the erasure code works over.
//!
//! Field elements are `u16` values; addition is bitwise xor and
//! multiplication is carry-less multiplication reduced modulo the
//! irreducible polynomial x^16 + x^12 + x^3 + x + 1 (0x1100B).

use vstd::prelude::*;

verus! {

/// Multiply a field element by x: shift left and reduce.
pub open spec fn gf_xtime(a: u16) -> u16 {
    if a & 0x8000 == 0x8000 {
        (a << 1) ^ 0x100B
    } else {
        a << 1
    }
}

/// Product of two field elements, by shift-and-add over the bits of `b`.
pub open spec fn gf_mul(a: u16, b: u16) -> u16
    decreases b via gf_mul_decreases
{
    if b == 0 {
        0
    } else {
        (if b & 1 == 1 { a } else { 0 }) ^ gf_mul(gf_xtime(a), b >> 1)
    }
}

#[via_fn]
proof fn gf_mul_decreases(a: u16, b: u16) {
    assert(b != 0 ==> (b >> 1) < b) by (bit_vector);
}

/// `a` raised to the power `e` in the field.
pub open spec fn gf_pow(a: u16, e: nat) -> u16
    decreases e
{
    if e == 0 {
        1
    } else {
        gf_mul(gf_pow(a, (e - 1) as nat), a)
    }
}

/// Multiplicative inverse of a nonzero element, as a^(2^16 - 2).
pub open spec fn gf_inv(a: u16) -> u16 {
    gf_pow(a, 65534)
}

fn gf_xtime_exec(a: u16) -> (r: u16)
    ensures
        r == gf_xtime(a),
{
    if a & 0x8000 == 0x8000 {
        (a << 1u16) ^ 0x100B
    } else {
        a << 1u16
    }
}

/// Field multiplication.
pub fn gmul(a: u16, b: u16) -> (r: u16)
    ensures
        r == gf_mul(a, b),
{
    let mut acc: u16 = 0;
    let mut x: u16 = a;
    let mut y: u16 = b;
    proof {
        let g = gf_mul(a, b);
        assert(0u16 ^ g == g) by (bit_vector);
    }
    while y != 0
        invariant
            gf_mul(a, b) == acc ^ gf_mul(x, y),
        decreases y,
    {
        let part: u16 = if y & 1 == 1 { x } else { 0 };
        proof {
            assert(gf_mul(x, y) == part ^ gf_mul(gf_xtime(x), y >> 1));
            let rest = gf_mul(gf_xtime(x), y >> 1);
            assert(acc ^ (part ^ rest) == (acc ^ part) ^ rest) by (bit_vector);
            assert(y != 0 ==> (y >> 1) < y) by (bit_vector);
        }
        acc = acc ^ part;
        x = gf_xtime_exec(x);
        y = y >> 1;
    }
    proof {
        assert(acc ^ 0 == acc) by (bit_vector);
    }
    acc
}

/// Field exponentiation by repeated multiplication.
pub fn gpow(a: u16, e: u32) -> (r: u16)
    ensures
        r == gf_pow(a, e as nat),
{
    let mut acc: u16 = 1;
    let mut i: u32 = 0;
    while i < e
        invariant
            i <= e,
            acc == gf_pow(a, i as nat),
        decreases e - i,
    {
        acc = gmul(acc, a);
        i = i + 1;
    }
    acc
}

/// Field inverse (of a nonzero element).
pub fn ginv(a: u16) -> (r: u16)
    ensures
        r == gf_inv(a),
{
    gpow(a, 65534)
}

/// Linear combination sum over the first `m` positions:
/// xor of `gf_mul(coeffs[i], vals[i])` for `i < m`.
pub open spec fn combine_upto(coeffs: Seq<u16>, vals: Seq<u16>, m: int) -> u16
    decreases m
{
    if m <= 0 {
        0
    } else {
        combine_upto(coeffs, vals, m - 1) ^ gf_mul(coeffs[m - 1], vals[m - 1])
    }
}

/// Linear combination of `vals` under `coeffs`, over the whole sequences.
pub fn combine(coeffs: &Vec<u16>, vals: &Vec<u16>) -> (r: u16)
    requires
        coeffs@.len() == vals@.len(),
    ensures
        r == combine_upto(coeffs@, vals@, coeffs@.len() as int),
{
    let mut acc: u16 = 0;
    let mut i: usize = 0;
    while i < coeffs.len()
        invariant
            i <= coeffs@.len(),
            coeffs@.len() == vals@.len(),
            acc == combine_upto(coeffs@, vals@, i as int),
        decreases coeffs@.len() - i,
    {
        acc = acc ^ gmul(coeffs[i], vals[i]);
        i = i + 1;
    }
    acc
}

/// Product over `m` of `(x ^ xs[m])` for `m < bound`, skipping `m == skip`.
pub open spec fn lag_prod(xs: Seq<u16>, skip: int, x: u16, bound: int) -> u16
    decreases bound
{
    if bound <= 0 {
        1
    } else {
        let p = lag_prod(xs, skip, x, bound - 1);
        if bound - 1 == skip {
            p
        } else {
            gf_mul(p, x ^ xs[bound - 1])
        }
    }
}

/// Lagrange basis coefficient: the value at point `x` of the polynomial that
/// is 1 at `xs[i]` and 0 at every other point of `xs`.
pub open spec fn lag_coeff(xs: Seq<u16>, i: int, x: u16) -> u16 {
    gf_mul(
        lag_prod(xs, i, x, xs.len() as int),
        gf_inv(lag_prod(xs, i, xs[i], xs.len() as int)),
    )
}

/// Lagrange basis coefficient for interpolation point `i` of `xs`, target `x`.
pub fn lagrange_coeff(xs: &Vec<u16>, i: usize, x: u16) -> (r: u16)
    requires
        i < xs@.len(),
    ensures
        r == lag_coeff(xs@, i as int, x),
{
    let xi = xs[i];
    let mut num: u16 = 1;
    let mut den: u16 = 1;
    let mut m: usize = 0;
    while m < xs.len()
        invariant
            m <= xs@.len(),
            i < xs@.len(),
            xi == xs@[i as int],
            num == lag_prod(xs@, i as int, x, m as int),
            den == lag_prod(xs@, i as int, xi, m as int),
        decreases xs@.len() - m,
    {
        if m != i {
            num = gmul(num, x ^ xs[m]);
            den = gmul(den, xi ^ xs[m]);
        }
        m = m + 1;
    }
    gmul(num, ginv(den))
}

} // verus!
