//! Exact decimal numbers for the report values: an integer numerator
//! over a power of ten.  Report values are plain decimal texts, so
//! parsing, the cross-curve mean (a division by five) and differences
//! all stay exact in this form.
use vstd::arithmetic::mul::{
    lemma_mul_is_distributive_add_other_way, lemma_mul_is_distributive_sub_other_way,
    lemma_mul_strictly_positive,
};
use vstd::arithmetic::power::{lemma_pow_adds, lemma_pow_increases, lemma_pow_positive, pow};
use vstd::prelude::*;

verus! {

/// A decimal value: `num / 10^scale`.
#[derive(Clone, Copy, PartialEq, Eq, Structural, Debug)]
pub struct Value {
    /// The numerator, sign included.
    pub num: i128,
    /// The power of ten that divides the numerator.
    pub scale: u32,
}

/// Ten to the power `e`.
pub open spec fn pow10(e: nat) -> int {
    pow(10, e)
}

/// A fraction of integers, for stating what the decimal operations
/// mean; the denominator is positive wherever fractions arise here.
pub struct Frac {
    /// The numerator.
    pub num: int,
    /// The denominator.
    pub den: int,
}

/// The fraction that a decimal value stands for.
pub open spec fn frac_of(v: Value) -> Frac {
    Frac { num: v.num as int, den: pow10(v.scale as nat) }
}

/// Equality of fractions, by cross multiplication.
pub open spec fn frac_eq(a: Frac, b: Frac) -> bool {
    a.num * b.den == b.num * a.den
}

/// The sum of two fractions.
pub open spec fn frac_add(a: Frac, b: Frac) -> Frac {
    Frac { num: a.num * b.den + b.num * a.den, den: a.den * b.den }
}

/// The difference of two fractions.
pub open spec fn frac_sub(a: Frac, b: Frac) -> Frac {
    Frac { num: a.num * b.den - b.num * a.den, den: a.den * b.den }
}

/// A fraction divided by `k`.
pub open spec fn frac_div(a: Frac, k: int) -> Frac {
    Frac { num: a.num, den: a.den * k }
}

/// The value's magnitude is below `10^b`, and its scale at most `s`:
/// the room that the arithmetic here needs to stay within 128 bits.
pub open spec fn val_bounded(v: Value, b: nat, s: nat) -> bool {
    v.scale <= s && -pow10(v.scale as nat + b) < v.num as int && (v.num as int) < pow10(v.scale as nat + b)
}

/// No trailing zero in the fraction digits, and zero has scale zero.
pub open spec fn canonical(v: Value) -> bool {
    (v.num == 0 ==> v.scale == 0) && (v.scale > 0 ==> v.num as int % 10 != 0)
}

pub proof fn lemma_pow10_pos(e: nat)
    ensures
        pow10(e) > 0,
{
    lemma_pow_positive(10, e);
}

/// The concrete powers of ten that the bound proofs lean on.
proof fn lemma_pow10_vals()
    ensures
        pow10(18) == 1_000_000_000_000_000_000,
        pow10(36) == 1_000_000_000_000_000_000_000_000_000_000_000_000,
        pow10(37) == 10_000_000_000_000_000_000_000_000_000_000_000_000,
        pow10(38) == 100_000_000_000_000_000_000_000_000_000_000_000_000,
{
    reveal_with_fuel(pow, 40);
}

/// Fraction equality is transitive when the middle denominator is
/// positive.
pub proof fn lemma_frac_eq_trans(a: Frac, b: Frac, c: Frac)
    requires
        b.den > 0,
        frac_eq(a, b),
        frac_eq(b, c),
    ensures
        frac_eq(a, c),
{
    assert((a.num * c.den) * b.den == (c.num * a.den) * b.den) by (nonlinear_arith)
        requires
            a.num * b.den == b.num * a.den,
            b.num * c.den == c.num * b.den,
    ;
    assert(a.num * c.den == c.num * a.den) by (nonlinear_arith)
        requires
            (a.num * c.den) * b.den == (c.num * a.den) * b.den,
            b.den > 0,
    ;
}

/// A value aligned to a common scale keeps its meaning.
proof fn lemma_align(v: Value, s: nat)
    requires
        v.scale <= s,
    ensures
        frac_eq(Frac { num: v.num * pow10((s - v.scale) as nat), den: pow10(s) }, frac_of(v)),
{
    lemma_pow_adds(10, (s - v.scale) as nat, v.scale as nat);
    assert((v.num * pow10((s - v.scale) as nat)) * pow10(v.scale as nat) == v.num * (pow10(
        (s - v.scale) as nat,
    ) * pow10(v.scale as nat))) by (nonlinear_arith);
}

/// Adding two fractions over one denominator adds the numerators.
proof fn lemma_add_same_den(x: int, y: int, d: int)
    requires
        d > 0,
    ensures
        frac_eq(frac_add(Frac { num: x, den: d }, Frac { num: y, den: d }), Frac {
            num: x + y,
            den: d,
        }),
{
    assert((x * d + y * d) * d == (x + y) * (d * d)) by (nonlinear_arith);
}

/// Subtracting two fractions over one denominator subtracts the
/// numerators.
proof fn lemma_sub_same_den(x: int, y: int, d: int)
    requires
        d > 0,
    ensures
        frac_eq(frac_sub(Frac { num: x, den: d }, Frac { num: y, den: d }), Frac {
            num: x - y,
            den: d,
        }),
{
    assert((x * d - y * d) * d == (x - y) * (d * d)) by (nonlinear_arith);
}

/// Products of four factors, regrouped.
proof fn lemma_mul_rearrange(x: int, y: int, z: int, w: int)
    ensures
        (x * y) * (z * w) == (x * z) * (y * w),
        (x * y) * (z * w) == (x * w) * (y * z),
{
    assert((x * y) * (z * w) == (x * z) * (y * w)) by (nonlinear_arith);
    assert((x * y) * (z * w) == (x * w) * (y * z)) by (nonlinear_arith);
}

/// A sum times a factor, spelt out.
proof fn lemma_mul_distribute(x: int, y: int, z: int)
    ensures
        (x + y) * z == x * z + y * z,
        (x - y) * z == x * z - y * z,
{
    lemma_mul_is_distributive_add_other_way(z, x, y);
    lemma_mul_is_distributive_sub_other_way(z, x, y);
}

/// Replacing both operands of a sum by equal fractions keeps the sum
/// equal.
proof fn lemma_add_congr(a: Frac, a2: Frac, b: Frac, b2: Frac)
    requires
        a.den > 0,
        a2.den > 0,
        b.den > 0,
        b2.den > 0,
        frac_eq(a, a2),
        frac_eq(b, b2),
    ensures
        frac_eq(frac_add(a, b), frac_add(a2, b2)),
{
    lemma_mul_distribute(a.num * b.den, b.num * a.den, a2.den * b2.den);
    lemma_mul_rearrange(a.num, b.den, a2.den, b2.den);
    lemma_mul_rearrange(b.num, a.den, a2.den, b2.den);
    lemma_mul_distribute(a2.num * b2.den, b2.num * a2.den, a.den * b.den);
    lemma_mul_rearrange(a2.num, b2.den, a.den, b.den);
    lemma_mul_rearrange(b2.num, a2.den, a.den, b.den);
    assert((a.den * a2.den) == (a2.den * a.den)) by (nonlinear_arith);
    assert((b.den * b2.den) == (b2.den * b.den)) by (nonlinear_arith);
    assert((a.num * a2.den) * (b.den * b2.den) == (a2.num * a.den) * (b2.den * b.den));
    assert((b.num * b2.den) * (a.den * a2.den) == (b2.num * b.den) * (a2.den * a.den));
}

/// Replacing both operands of a difference by equal fractions keeps
/// the difference equal.
proof fn lemma_sub_congr(a: Frac, a2: Frac, b: Frac, b2: Frac)
    requires
        a.den > 0,
        a2.den > 0,
        b.den > 0,
        b2.den > 0,
        frac_eq(a, a2),
        frac_eq(b, b2),
    ensures
        frac_eq(frac_sub(a, b), frac_sub(a2, b2)),
{
    lemma_mul_distribute(a.num * b.den, b.num * a.den, a2.den * b2.den);
    lemma_mul_rearrange(a.num, b.den, a2.den, b2.den);
    lemma_mul_rearrange(b.num, a.den, a2.den, b2.den);
    lemma_mul_distribute(a2.num * b2.den, b2.num * a2.den, a.den * b.den);
    lemma_mul_rearrange(a2.num, b2.den, a.den, b.den);
    lemma_mul_rearrange(b2.num, a2.den, a.den, b.den);
    assert((a.den * a2.den) == (a2.den * a.den)) by (nonlinear_arith);
    assert((b.den * b2.den) == (b2.den * b.den)) by (nonlinear_arith);
    assert((a.num * a2.den) * (b.den * b2.den) == (a2.num * a.den) * (b2.den * b.den));
    assert((b.num * b2.den) * (a.den * a2.den) == (b2.num * b.den) * (a2.den * a.den));
}

/// Dividing equal fractions by the same positive `k` keeps them equal.
proof fn lemma_div_congr(a: Frac, b: Frac, k: int)
    requires
        k > 0,
        frac_eq(a, b),
    ensures
        frac_eq(frac_div(a, k), frac_div(b, k)),
{
    assert(a.num * (b.den * k) == b.num * (a.den * k)) by (nonlinear_arith)
        requires
            a.num * b.den == b.num * a.den,
    ;
}

/// Ten to the power `e`, executable.
#[verifier::loop_isolation(false)]
pub fn pow10_i128(e: u32) -> (r: i128)
    requires
        e <= 38,
    ensures
        r == pow10(e as nat),
{
    proof {
        lemma_pow10_vals();
        assert(pow10(0) == 1) by {
            reveal_with_fuel(pow, 1);
        }
    }
    let mut r: i128 = 1;
    let mut k: u32 = 0;
    while k < e
        invariant
            k <= e,
            r == pow10(k as nat),
        decreases e - k,
    {
        proof {
            lemma_pow_increases(10, (k + 1) as nat, 38);
            lemma_pow_adds(10, k as nat, 1);
            assert(pow10(1) == 10) by {
                reveal_with_fuel(pow, 2);
            }
            lemma_pow10_pos(k as nat);
        }
        r = r * 10;
        k = k + 1;
    }
    r
}

/// The value with trailing zeros moved out of the fraction digits:
/// the canonical spelling of the same number.
pub open spec fn spec_normalize(v: Value) -> Value
    decreases v.scale,
{
    if v.num == 0 {
        Value { num: 0, scale: 0 }
    } else if v.scale > 0 && v.num as int % 10 == 0 {
        spec_normalize(Value { num: (v.num as int / 10) as i128, scale: (v.scale - 1) as u32 })
    } else {
        v
    }
}

/// `spec_normalize` keeps the meaning and yields the canonical form.
pub proof fn lemma_normalize(v: Value)
    ensures
        frac_eq(frac_of(spec_normalize(v)), frac_of(v)),
        canonical(spec_normalize(v)),
        spec_normalize(v).scale <= v.scale,
    decreases v.scale,
{
    lemma_pow10_pos(v.scale as nat);
    if v.num == 0 {
    } else if v.scale > 0 && v.num as int % 10 == 0 {
        let w = Value { num: (v.num as int / 10) as i128, scale: (v.scale - 1) as u32 };
        assert(v.num as int == 10 * (v.num as int / 10));
        lemma_normalize(w);
        // the one dropped zero keeps the fraction equal
        lemma_pow_adds(10, (v.scale - 1) as nat, 1);
        assert(pow10(1) == 10) by {
            reveal_with_fuel(pow, 2);
        }
        assert(w.num * pow10(v.scale as nat) == v.num * pow10(w.scale as nat)) by (nonlinear_arith)
            requires
                v.num as int == 10 * (w.num as int),
                pow10(v.scale as nat) == pow10(w.scale as nat) * 10,
        ;
        lemma_pow10_pos(w.scale as nat);
        lemma_frac_eq_trans(frac_of(spec_normalize(w)), frac_of(w), frac_of(v));
    }
}

/// `spec_normalize` never grows the magnitude bound.
pub proof fn lemma_normalize_bound(v: Value, b: nat)
    requires
        -pow10((v.scale + b) as nat) < v.num as int,
        (v.num as int) < pow10((v.scale + b) as nat),
    ensures
        -pow10((spec_normalize(v).scale + b) as nat) < spec_normalize(v).num as int,
        (spec_normalize(v).num as int) < pow10((spec_normalize(v).scale + b) as nat),
    decreases v.scale,
{
    if v.num == 0 {
        lemma_pow10_pos(b);
    } else if v.scale > 0 && v.num as int % 10 == 0 {
        let w = Value { num: (v.num as int / 10) as i128, scale: (v.scale - 1) as u32 };
        assert(v.num as int == 10 * (v.num as int / 10));
        lemma_pow_adds(10, (w.scale + b) as nat, 1);
        assert(pow10(1) == 10) by {
            reveal_with_fuel(pow, 2);
        }
        assert((v.scale + b) as nat == (w.scale + b) as nat + 1);
        assert(pow10((v.scale + b) as nat) == pow10((w.scale + b) as nat) * 10);
        assert(-pow10((w.scale + b) as nat) < w.num as int && (w.num as int) < pow10(
            (w.scale + b) as nat,
        )) by (nonlinear_arith)
            requires
                v.num as int == 10 * (w.num as int),
                -pow10((v.scale + b) as nat) < v.num as int,
                (v.num as int) < pow10((v.scale + b) as nat),
                pow10((v.scale + b) as nat) == pow10((w.scale + b) as nat) * 10,
        ;
        lemma_normalize_bound(w, b);
    }
}

/// Strips trailing zeros from the fraction digits.
#[verifier::loop_isolation(false)]
pub fn normalize(v: Value) -> (r: Value)
    ensures
        r == spec_normalize(v),
{
    let mut num: i128 = v.num;
    let mut scale: u32 = v.scale;
    if num == 0 {
        return Value { num: 0, scale: 0 };
    }
    while scale > 0 && num % 10 == 0
        invariant
            num != 0,
            spec_normalize(v) == spec_normalize(Value { num, scale }),
        decreases scale,
    {
        assert(num / 10 != 0) by (nonlinear_arith)
            requires
                num != 0,
                num % 10 == 0,
        ;
        num = num / 10;
        scale = scale - 1;
    }
    Value { num, scale }
}

/// The numerator of `v` brought to scale `s`.
pub open spec fn aligned_num(v: Value, s: nat) -> int {
    v.num * pow10((s - v.scale) as nat)
}

/// The larger of two scales.
pub open spec fn scale_max2(a: u32, b: u32) -> u32 {
    if a >= b {
        a
    } else {
        b
    }
}

/// The common scale of five values.
pub open spec fn scale_max5(a: Value, b: Value, c: Value, d: Value, e: Value) -> u32 {
    scale_max2(scale_max2(scale_max2(scale_max2(a.scale, b.scale), c.scale), d.scale), e.scale)
}

/// The exact arithmetic mean of five decimal values: align, add,
/// halve the denominator's growth by doubling, and normalize.
pub open spec fn spec_avg5(a: Value, b: Value, c: Value, d: Value, e: Value) -> Value {
    let s = scale_max5(a, b, c, d, e) as nat;
    let total = aligned_num(a, s) + aligned_num(b, s) + aligned_num(c, s) + aligned_num(d, s)
        + aligned_num(e, s);
    spec_normalize(Value { num: (2 * total) as i128, scale: (s + 1) as u32 })
}

/// The exact difference `a - b` of two decimal values.
pub open spec fn spec_sub(a: Value, b: Value) -> Value {
    let s = scale_max2(a.scale, b.scale) as nat;
    spec_normalize(
        Value { num: (aligned_num(a, s) - aligned_num(b, s)) as i128, scale: s as u32 },
    )
}

/// An aligned numerator stays under `10^(s + b)` when the value's
/// magnitude is under `10^b`.
proof fn lemma_aligned_bound(v: Value, s: nat, b: nat)
    requires
        v.scale <= s,
        -pow10(v.scale as nat + b) < v.num as int,
        (v.num as int) < pow10(v.scale as nat + b),
    ensures
        -pow10(s + b) < aligned_num(v, s),
        (aligned_num(v, s)) < pow10(s + b),
{
    let p = pow10((s - v.scale) as nat);
    let m = pow10(v.scale as nat + b);
    lemma_pow10_pos((s - v.scale) as nat);
    lemma_pow10_pos(v.scale as nat + b);
    lemma_pow_adds(10, v.scale as nat + b, (s - v.scale) as nat);
    assert(m * p == pow10(s + b));
    assert(-(m * p) < v.num as int * p && (v.num as int * p) < m * p) by (nonlinear_arith)
        requires
            -m < v.num as int,
            (v.num as int) < m,
            p > 0,
            m > 0,
    ;
}

/// The arithmetic mean of five values, each of magnitude under
/// `10^18` and scale at most 18.  The result is the exact mean:
/// its fraction equals the five summed and divided by five.
#[verifier::loop_isolation(false)]
pub fn avg5(a: &Value, b: &Value, c: &Value, d: &Value, e: &Value) -> (r: Value)
    requires
        val_bounded(*a, 18, 18),
        val_bounded(*b, 18, 18),
        val_bounded(*c, 18, 18),
        val_bounded(*d, 18, 18),
        val_bounded(*e, 18, 18),
    ensures
        r == spec_avg5(*a, *b, *c, *d, *e),
        frac_eq(
            frac_of(r),
            frac_div(
                frac_add(
                    frac_add(frac_add(frac_add(frac_of(*a), frac_of(*b)), frac_of(*c)), frac_of(*d)),
                    frac_of(*e),
                ),
                5,
            ),
        ),
        val_bounded(r, 18, 19),
        canonical(r),
{
    proof {
        lemma_pow10_vals();
    }
    let smax: u32 = {
        let mut m = a.scale;
        if b.scale > m {
            m = b.scale;
        }
        if c.scale > m {
            m = c.scale;
        }
        if d.scale > m {
            m = d.scale;
        }
        if e.scale > m {
            m = e.scale;
        }
        m
    };
    assert(smax == scale_max5(*a, *b, *c, *d, *e));
    let ghost s = smax as nat;
    proof {
        lemma_aligned_bound(*a, s, 18);
        lemma_aligned_bound(*b, s, 18);
        lemma_aligned_bound(*c, s, 18);
        lemma_aligned_bound(*d, s, 18);
        lemma_aligned_bound(*e, s, 18);
        lemma_pow_increases(10, s + 18, 36);
        lemma_pow10_pos(s + 18);
    }
    let aa: i128 = a.num * pow10_i128(smax - a.scale);
    let bb: i128 = b.num * pow10_i128(smax - b.scale);
    let cc: i128 = c.num * pow10_i128(smax - c.scale);
    let dd: i128 = d.num * pow10_i128(smax - d.scale);
    let ee: i128 = e.num * pow10_i128(smax - e.scale);
    let total: i128 = aa + bb + cc + dd + ee;
    let num2: i128 = 2 * total;
    let r0 = Value { num: num2, scale: smax + 1 };
    let r = normalize(r0);
    proof {
        let fa = frac_of(*a);
        let fb = frac_of(*b);
        let fc = frac_of(*c);
        let fd = frac_of(*d);
        let fe = frac_of(*e);
        let dcom = pow10(s);
        lemma_pow10_pos(s);
        lemma_pow10_pos(a.scale as nat);
        lemma_pow10_pos(b.scale as nat);
        lemma_pow10_pos(c.scale as nat);
        lemma_pow10_pos(d.scale as nat);
        lemma_pow10_pos(e.scale as nat);
        lemma_align(*a, s);
        lemma_align(*b, s);
        lemma_align(*c, s);
        lemma_align(*d, s);
        lemma_align(*e, s);
        let qa = Frac { num: aa as int, den: dcom };
        let qb = Frac { num: bb as int, den: dcom };
        let qc = Frac { num: cc as int, den: dcom };
        let qd = Frac { num: dd as int, den: dcom };
        let qe = Frac { num: ee as int, den: dcom };
        // the running sums over the common denominator
        let s2 = Frac { num: aa as int + bb as int, den: dcom };
        let s3 = Frac { num: aa as int + bb as int + cc as int, den: dcom };
        let s4 = Frac { num: aa as int + bb as int + cc as int + dd as int, den: dcom };
        let s5 = Frac { num: total as int, den: dcom };
        // the spec-side sums
        let g2 = frac_add(fa, fb);
        let g3 = frac_add(g2, fc);
        let g4 = frac_add(g3, fd);
        let g5 = frac_add(g4, fe);
        lemma_mul_strictly_positive(fa.den, fb.den);
        lemma_mul_strictly_positive(g2.den, fc.den);
        lemma_mul_strictly_positive(g3.den, fd.den);
        lemma_mul_strictly_positive(g4.den, fe.den);
        lemma_mul_strictly_positive(dcom, dcom);
        lemma_pow10_pos((smax + 1) as nat);
        lemma_add_same_den(aa as int, bb as int, dcom);
        lemma_add_congr(qa, fa, qb, fb);
        lemma_frac_eq_trans(s2, frac_add(qa, qb), g2);
        lemma_add_same_den(aa as int + bb as int, cc as int, dcom);
        lemma_add_congr(s2, g2, qc, fc);
        lemma_frac_eq_trans(s3, frac_add(s2, qc), g3);
        lemma_add_same_den(aa as int + bb as int + cc as int, dd as int, dcom);
        lemma_add_congr(s3, g3, qd, fd);
        lemma_frac_eq_trans(s4, frac_add(s3, qd), g4);
        lemma_add_same_den(aa as int + bb as int + cc as int + dd as int, ee as int, dcom);
        lemma_add_congr(s4, g4, qe, fe);
        lemma_frac_eq_trans(s5, frac_add(s4, qe), g5);
        // divide by five: double the numerator, bump the scale
        lemma_div_congr(s5, g5, 5);
        lemma_pow_adds(10, s, 1);
        assert(pow10(1) == 10) by {
            reveal_with_fuel(pow, 2);
        }
        assert(frac_eq(frac_of(r0), frac_div(s5, 5))) by (nonlinear_arith)
            requires
                r0.num as int == 2 * (total as int),
                frac_of(r0).den == pow10(s) * 10,
                frac_div(s5, 5) == (Frac { num: total as int, den: pow10(s) * 5 }),
                frac_of(r0).num == r0.num as int,
                pow10(s) > 0,
        ;
        lemma_mul_strictly_positive(dcom, 5);
        lemma_frac_eq_trans(frac_of(r0), frac_div(s5, 5), frac_div(g5, 5));
        lemma_normalize(r0);
        lemma_frac_eq_trans(frac_of(r), frac_of(r0), frac_div(g5, 5));
        // and the bound: the doubled sum stays under 10^(scale + 18)
        assert(-pow10(s + 1 + 18) < r0.num as int && (r0.num as int) < pow10(s + 1 + 18)) by {
            lemma_pow_adds(10, s + 18, 1);
            assert(pow10(s + 1 + 18) == pow10(s + 18) * 10);
        }
        lemma_normalize_bound(r0, 18);
    }
    r
}

/// The exact difference `a - b` of two decimal values of magnitude
/// under `10^18` and scale at most 19.
#[verifier::loop_isolation(false)]
pub fn sub_values(a: &Value, b: &Value) -> (r: Value)
    requires
        val_bounded(*a, 18, 19),
        val_bounded(*b, 18, 19),
    ensures
        r == spec_sub(*a, *b),
        frac_eq(frac_of(r), frac_sub(frac_of(*a), frac_of(*b))),
        val_bounded(r, 19, 19),
        canonical(r),
{
    proof {
        lemma_pow10_vals();
    }
    let smax: u32 = if a.scale >= b.scale {
        a.scale
    } else {
        b.scale
    };
    let ghost s = smax as nat;
    proof {
        lemma_aligned_bound(*a, s, 18);
        lemma_aligned_bound(*b, s, 18);
        lemma_pow_increases(10, s + 18, 37);
        lemma_pow10_pos(s + 18);
    }
    let aa: i128 = a.num * pow10_i128(smax - a.scale);
    let bb: i128 = b.num * pow10_i128(smax - b.scale);
    let diff: i128 = aa - bb;
    let r0 = Value { num: diff, scale: smax };
    let r = normalize(r0);
    proof {
        let fa = frac_of(*a);
        let fb = frac_of(*b);
        let dcom = pow10(s);
        lemma_pow10_pos(s);
        lemma_pow10_pos(a.scale as nat);
        lemma_pow10_pos(b.scale as nat);
        lemma_align(*a, s);
        lemma_align(*b, s);
        let qa = Frac { num: aa as int, den: dcom };
        let qb = Frac { num: bb as int, den: dcom };
        lemma_sub_same_den(aa as int, bb as int, dcom);
        lemma_sub_congr(qa, fa, qb, fb);
        lemma_mul_strictly_positive(fa.den, fb.den);
        lemma_mul_strictly_positive(dcom, dcom);
        lemma_frac_eq_trans(frac_of(r0), frac_sub(qa, qb), frac_sub(fa, fb));
        lemma_normalize(r0);
        lemma_frac_eq_trans(frac_of(r), frac_of(r0), frac_sub(fa, fb));
        // magnitude: the difference of two values under 10^(s+18)
        // stays under 10^(s+19)
        assert(-pow10(s + 19) < r0.num as int && (r0.num as int) < pow10(s + 19)) by {
            lemma_pow_adds(10, s + 18, 1);
            assert(pow10(1) == 10) by {
                reveal_with_fuel(pow, 2);
            }
            assert(pow10(s + 19) == pow10(s + 18) * 10);
        }
        lemma_normalize_bound(r0, 19);
    }
    r
}

/// The numeric value of a decimal digit character, `-1` for others.
pub open spec fn digit_of(c: char) -> int {
    if c == '0' {
        0
    } else if c == '1' {
        1
    } else if c == '2' {
        2
    } else if c == '3' {
        3
    } else if c == '4' {
        4
    } else if c == '5' {
        5
    } else if c == '6' {
        6
    } else if c == '7' {
        7
    } else if c == '8' {
        8
    } else if c == '9' {
        9
    } else {
        -1
    }
}

/// Whether `c` is a decimal digit.
pub open spec fn is_digit_char(c: char) -> bool {
    digit_of(c) >= 0
}

/// Whether every character of `s` is a decimal digit.
pub open spec fn all_digits(s: Seq<char>) -> bool {
    forall|k: int| 0 <= k < s.len() ==> is_digit_char(s[k])
}

/// The number that a digit string names.
pub open spec fn digits_val(s: Seq<char>) -> int
    decreases s.len(),
{
    if s.len() == 0 {
        0
    } else {
        10 * digits_val(s.take(s.len() - 1)) + digit_of(s[s.len() - 1])
    }
}

pub proof fn lemma_digits_val_nonneg(s: Seq<char>)
    requires
        all_digits(s),
    ensures
        digits_val(s) >= 0,
    decreases s.len(),
{
    if s.len() > 0 {
        assert(all_digits(s.take(s.len() - 1)));
        lemma_digits_val_nonneg(s.take(s.len() - 1));
    }
}

/// A digit string names at least what any of its prefixes names.
pub proof fn lemma_digits_val_prefix(s: Seq<char>, j: int)
    requires
        all_digits(s),
        0 <= j <= s.len(),
    ensures
        digits_val(s.take(j)) <= digits_val(s),
    decreases s.len() - j,
{
    if j == s.len() {
        assert(s.take(j) =~= s);
    } else {
        assert(s.take(j + 1).take(j) =~= s.take(j));
        assert(s.take(j + 1)[j] == s[j]);
        assert(all_digits(s.take(j)));
        lemma_digits_val_nonneg(s.take(j));
        assert(digits_val(s.take(j + 1)) == 10 * digits_val(s.take(j)) + digit_of(s[j]));
        lemma_digits_val_prefix(s, j + 1);
    }
}

/// The text after an optional leading sign.
pub open spec fn parse_body(s: Seq<char>) -> Seq<char> {
    if s.len() > 0 && (s[0] == '+' || s[0] == '-') {
        s.skip(1)
    } else {
        s
    }
}

/// Whether the text carries a leading minus.
pub open spec fn parse_neg(s: Seq<char>) -> bool {
    s.len() > 0 && s[0] == '-'
}

/// The digits before the first point of the unsigned body.
pub open spec fn int_part(b: Seq<char>) -> Seq<char> {
    match crate::text::spec_find(b, seq!['.'], 0) {
        None => b,
        Some(i) => b.take(i),
    }
}

/// The digits after the first point of the unsigned body.
pub open spec fn frac_part(b: Seq<char>) -> Seq<char> {
    match crate::text::spec_find(b, seq!['.'], 0) {
        None => Seq::empty(),
        Some(i) => b.skip(i + 1),
    }
}

/// What parsing a decimal text yields: an optional sign, digits with
/// at most one point among them and at least one digit, of at most
/// eighteen significant digits and at most eighteen digits after the
/// point; anything else, a longer text included, is no value.  The
/// grammar is deliberately plain decimal notation alone: exponent,
/// infinity and not-a-number spellings are rejected, so that every
/// accepted value is an exact decimal whose arithmetic stays within
/// 128 bits; a report line carrying such a spelling yields a parse
/// warning and no row, never a wrong value.
pub open spec fn spec_parse_value(s: Seq<char>) -> Option<Value> {
    let b = parse_body(s);
    let ip = int_part(b);
    let fp = frac_part(b);
    let digits = ip + fp;
    if all_digits(ip) && all_digits(fp) && digits.len() >= 1 && fp.len() <= 18 && digits_val(
        digits,
    ) < pow10(18) {
        Some(
            Value {
                num: (if parse_neg(s) {
                    -digits_val(digits)
                } else {
                    digits_val(digits)
                }) as i128,
                scale: fp.len() as u32,
            },
        )
    } else {
        None
    }
}

fn exec_digit(c: char) -> (d: Option<u64>)
    ensures
        match d {
            Some(v) => is_digit_char(c) && v as int == digit_of(c),
            None => !is_digit_char(c),
        },
{
    match c {
        '0' => Some(0),
        '1' => Some(1),
        '2' => Some(2),
        '3' => Some(3),
        '4' => Some(4),
        '5' => Some(5),
        '6' => Some(6),
        '7' => Some(7),
        '8' => Some(8),
        '9' => Some(9),
        _ => None,
    }
}

/// Parses a decimal text into an exact value; only plain decimal
/// notation is accepted, as `spec_parse_value` lays out.
#[verifier::loop_isolation(false)]
#[verifier::rlimit(100)]
#[verifier::spinoff_prover]
pub fn parse_value(s: &str) -> (r: Option<Value>)
    ensures
        r == spec_parse_value(s@),
        match r {
            Some(v) => val_bounded(v, 18, 18),
            None => true,
        },
{
    proof {
        lemma_pow10_vals();
    }
    let n: usize = s.unicode_len();
    let mut pos: usize = 0;
    let mut neg = false;
    if n > 0 {
        let c0 = s.get_char(0);
        if c0 == '+' || c0 == '-' {
            pos = 1;
            neg = c0 == '-';
        }
    }
    let ghost b = parse_body(s@);
    proof {
        assert(b =~= s@.skip(pos as int));
        assert(neg == parse_neg(s@));
    }
    // find the first point of the body
    let mut k: usize = pos;
    while k < n && s.get_char(k) != '.'
        invariant
            pos <= k <= n,
            forall|t: int| pos <= t < k ==> s@[t] != '.',
        decreases n - k,
    {
        k = k + 1;
    }
    let ghost ip = int_part(b);
    let ghost fp = frac_part(b);
    let ip_end: usize = k;
    let fp_start: usize = if k < n {
        k + 1
    } else {
        k
    };
    proof {
        assert(forall|t: int| 0 <= t < k - pos ==> b[t] == s@[pos + t] && b[t] != '.');
        if k < n {
            assert(b[k - pos] == s@[k as int]);
            crate::text::lemma_find_char_at(b, '.', 0, k - pos);
        } else {
            crate::text::lemma_find_char_none(b, '.', 0);
        }
        assert(ip =~= s@.subrange(pos as int, ip_end as int));
        assert(fp =~= s@.subrange(fp_start as int, n as int));
    }
    // the digit count and the length of the fraction part
    let digit_count: usize = (ip_end - pos) + (n - fp_start);
    if digit_count < 1 {
        assert((ip + fp).len() == 0);
        return None;
    }
    if n - fp_start > 18 {
        assert(fp.len() > 18);
        return None;
    }
    // accumulate the integer digits
    let mut acc: u64 = 0;
    let mut i: usize = pos;
    proof {
        assert(ip.take(0) =~= Seq::<char>::empty());
    }
    while i < ip_end
        invariant
            pos <= i <= ip_end,
            acc as int == digits_val(ip.take(i - pos)),
            acc < 1_000_000_000_000_000_000,
            all_digits(ip.take(i - pos)),
        decreases ip_end - i,
    {
        let c = s.get_char(i);
        let ghost t = i - pos as int;
        proof {
            assert(ip[t] == s@[i as int]);
            assert(ip.take(t + 1).take(t) =~= ip.take(t));
            assert(ip.take(t + 1)[t] == ip[t]);
        }
        match exec_digit(c) {
            None => {
                proof {
                    assert(!all_digits(ip));
                }
                return None;
            },
            Some(d) => {
                if acc >= 100_000_000_000_000_000 {
                    proof {
                        assert(digits_val(ip.take(t + 1)) >= 10 * digits_val(ip.take(t)));
                        if all_digits(ip) && all_digits(fp) {
                            lemma_digits_val_prefix(ip, t + 1);
                            lemma_digits_val_nonneg(fp);
                            lemma_concat_digits_val(ip, fp);
                            assert(digits_val(ip + fp) >= pow10(18));
                        }
                    }
                    return None;
                }
                acc = acc * 10 + d;
            },
        }
        i = i + 1;
    }
    proof {
        assert(ip.take(ip_end - pos) =~= ip);
    }
    // accumulate the fraction digits
    let mut j: usize = fp_start;
    proof {
        assert(ip + fp.take(0) =~= ip);
    }
    while j < n
        invariant
            fp_start <= j <= n,
            acc as int == digits_val(ip + fp.take(j - fp_start)),
            acc < 1_000_000_000_000_000_000,
            all_digits(ip),
            all_digits(fp.take(j - fp_start)),
        decreases n - j,
    {
        let c = s.get_char(j);
        let ghost t = j - fp_start as int;
        let ghost u = ip + fp.take(t);
        proof {
            assert(fp[t] == s@[j as int]);
            assert((ip + fp.take(t + 1)).take(ip.len() + t) =~= u);
            assert((ip + fp.take(t + 1))[ip.len() + t] == fp[t]);
            assert(fp.take(t + 1).take(t) =~= fp.take(t));
            assert(fp.take(t + 1)[t] == fp[t]);
        }
        match exec_digit(c) {
            None => {
                proof {
                    assert(!all_digits(fp));
                }
                return None;
            },
            Some(d) => {
                if acc >= 100_000_000_000_000_000 {
                    proof {
                        assert(digits_val(ip + fp.take(t + 1)) >= 10 * digits_val(u));
                        if all_digits(fp) {
                            lemma_digits_val_concat_prefix(ip, fp, t + 1);
                            assert(digits_val(ip + fp) >= pow10(18));
                        }
                    }
                    return None;
                }
                acc = acc * 10 + d;
            },
        }
        j = j + 1;
    }
    proof {
        assert(fp.take(n - fp_start) =~= fp);
    }
    let num: i128 = if neg {
        -(acc as i128)
    } else {
        acc as i128
    };
    let scale: u32 = (n - fp_start) as u32;
    let v = Value { num, scale };
    proof {
        lemma_pow10_pos(scale as nat + 18);
        vstd::arithmetic::power::lemma_pow_increases(10, 18, scale as nat + 18);
    }
    Some(v)
}

/// The value of a concatenation of digit strings.
pub proof fn lemma_concat_digits_val(a: Seq<char>, c: Seq<char>)
    requires
        all_digits(a),
        all_digits(c),
    ensures
        digits_val(a + c) >= digits_val(a),
    decreases c.len(),
{
    if c.len() == 0 {
        assert(a + c =~= a);
    } else {
        let c0 = c.take(c.len() - 1);
        assert((a + c).take((a + c).len() - 1) =~= a + c0);
        assert((a + c)[(a + c).len() - 1] == c[c.len() - 1]);
        assert(all_digits(c0));
        lemma_concat_digits_val(a, c0);
        lemma_digits_val_nonneg(a);
        lemma_digits_val_nonneg(c0);
        assert(digits_val(a + c) == 10 * digits_val(a + c0) + digit_of(c[c.len() - 1]));
    }
}

/// A prefix of the fraction digits bounds the whole from below.
proof fn lemma_digits_val_concat_prefix(a: Seq<char>, c: Seq<char>, j: int)
    requires
        all_digits(a),
        all_digits(c),
        0 <= j <= c.len(),
    ensures
        digits_val(a + c) >= digits_val(a + c.take(j)),
{
    assert(all_digits(a + c)) by {
        assert(forall|k: int|
            0 <= k < (a + c).len() ==> is_digit_char(
                #[trigger] (a + c)[k],
            ));
    }
    assert((a + c).take(a.len() + j) =~= a + c.take(j));
    lemma_digits_val_prefix(a + c, a.len() + j);
}

/// A tighter scale bound implies the looser one.
pub proof fn lemma_bound_widen(v: Value)
    requires
        val_bounded(v, 18, 18),
    ensures
        val_bounded(v, 18, 19),
{
}

/// Decides the parser's value bound.
pub fn val_bounded_check(v: &Value) -> (r: bool)
    ensures
        r == val_bounded(*v, 18, 18),
{
    if v.scale > 18 {
        return false;
    }
    let lim = pow10_i128(v.scale + 18);
    proof {
        lemma_pow10_pos((v.scale + 18) as nat);
    }
    -lim < v.num && v.num < lim
}

} // verus!
