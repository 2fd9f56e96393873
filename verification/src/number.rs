//! Numeric bounds for the `int32`, `int64`, `float` and `double` formats.
//!
//! A bound is compared with a JSON number as a binary floating-point value:
//! a float number by its exact value, an integer by the double nearest to it
//! (ties to even), which is the value a JSON reader gives it as a double.
use vstd::prelude::*;
use crate::json::{Float, Json, JsonV, Member, NumV, Number, get_member, members_view, set_member};

verus! {

/// `2^e`.
pub open spec fn p2(e: nat) -> nat
    decreases e,
{
    if e == 0 {
        1
    } else {
        2 * p2((e - 1) as nat)
    }
}

/// A power of two is positive.
pub proof fn lemma_p2_pos(e: nat)
    ensures
        p2(e) >= 1,
    decreases e,
{
    if e > 0 {
        lemma_p2_pos((e - 1) as nat);
    }
}

/// Powers of two grow with the exponent.
pub proof fn lemma_p2_mono(a: nat, b: nat)
    requires
        a <= b,
    ensures
        p2(a) <= p2(b),
    decreases b,
{
    if a < b {
        lemma_p2_mono(a, (b - 1) as nat);
        lemma_p2_pos((b - 1) as nat);
    }
}

/// The powers of two that bound 64-bit integers and double mantissas.
pub proof fn lemma_p2_64()
    ensures
        p2(64) == 0x1_0000_0000_0000_0000,
        p2(53) == 0x20_0000_0000_0000,
        p2(63) == 0x8000_0000_0000_0000,
{
    reveal_with_fuel(p2, 65);
}

/// `m1 * 2^e1 < m2 * 2^e2`.
pub open spec fn dyadic_lt(m1: int, e1: int, m2: int, e2: int) -> bool {
    if e1 >= e2 {
        m1 * p2((e1 - e2) as nat) < m2
    } else {
        m1 < m2 * p2((e2 - e1) as nat)
    }
}

/// The number of halvings that bring `a` below `2^53`: the exponent of the
/// spacing of doubles around `a`.
pub open spec fn binade_shift(a: nat) -> nat
    decreases a,
{
    if a < 0x20_0000_0000_0000 {
        0
    } else {
        1 + binade_shift(a / 2)
    }
}

/// The mantissa of the double nearest to `a`, at exponent `binade_shift(a)`,
/// rounding a tie to the even mantissa.
pub open spec fn round_mantissa(a: nat) -> nat {
    let u = p2(binade_shift(a));
    let q = a / u;
    let r = a % u;
    if 2 * r < u {
        q
    } else if 2 * r > u {
        q + 1
    } else if q % 2 == 0 {
        q
    } else {
        q + 1
    }
}

/// The double nearest to the integer `x`, as `(mantissa, exponent)`.
pub open spec fn nearest_double(x: int) -> (int, int) {
    if x >= 0 {
        (round_mantissa(x as nat) as int, binade_shift(x as nat) as int)
    } else {
        (-(round_mantissa((-x) as nat) as int), binade_shift((-x) as nat) as int)
    }
}

/// A number as a double, `(mantissa, exponent)`.
pub open spec fn as_double(n: NumV) -> (int, int) {
    match n {
        NumV::Int(x) => nearest_double(x),
        NumV::Float(m, e, _) => (m, e),
    }
}

/// A number equal to zero.
pub open spec fn is_zero(n: NumV) -> bool {
    match n {
        NumV::Int(x) => x == 0,
        NumV::Float(m, _, _) => m == 0,
    }
}

/// The numeric formats that carry bounds.
#[derive(PartialEq, Eq, Structural, Clone, Copy)]
pub enum NumericFormat {
    Int32,
    Int64,
    Float,
    Double,
}

/// The lower limit of a format, `(mantissa, exponent)`, as a double: `i32::MIN`,
/// `i64::MIN`, the lowest finite binary32 value and the lowest finite double.
pub open spec fn min_limit(f: NumericFormat) -> (int, int) {
    match f {
        NumericFormat::Int32 => (-0x8000_0000, 0),
        NumericFormat::Int64 => (-1, 63),
        NumericFormat::Float => (-0xff_ffff, 104),
        NumericFormat::Double => (-0x1f_ffff_ffff_ffff, 971),
    }
}

/// The upper limit of a format, `(mantissa, exponent)`, as a double. The
/// `int64` limit is `i64::MAX` rounded to a double, `2^63`; the `float` limit
/// is the largest finite binary32 value, `(2^24 - 1) * 2^104`.
pub open spec fn max_limit(f: NumericFormat) -> (int, int) {
    match f {
        NumericFormat::Int32 => (0x7fff_ffff, 0),
        NumericFormat::Int64 => (1, 63),
        NumericFormat::Float => (0xff_ffff, 104),
        NumericFormat::Double => (0x1f_ffff_ffff_ffff, 971),
    }
}

/// The JSON number written for a lower limit: the `int32` and `int64` bounds
/// are the exact integers `i32::MIN` and `i64::MIN`; the `float` and `double`
/// bounds are floats.
pub open spec fn min_bound_json(f: NumericFormat) -> JsonV {
    match f {
        NumericFormat::Int32 => JsonV::Number(NumV::Int(-0x8000_0000)),
        NumericFormat::Int64 => JsonV::Number(NumV::Int(-0x8000_0000_0000_0000)),
        NumericFormat::Float => JsonV::Number(
            NumV::Float(-0xff_ffff, 104, "-3.4028234663852886e+38"@),
        ),
        NumericFormat::Double => JsonV::Number(
            NumV::Float(-0x1f_ffff_ffff_ffff, 971, "-1.7976931348623157e+308"@),
        ),
    }
}

/// The JSON number written for an upper limit: the `int32` and `int64` bounds
/// are the exact integers `i32::MAX` and `i64::MAX`.
pub open spec fn max_bound_json(f: NumericFormat) -> JsonV {
    match f {
        NumericFormat::Int32 => JsonV::Number(NumV::Int(0x7fff_ffff)),
        NumericFormat::Int64 => JsonV::Number(NumV::Int(0x7fff_ffff_ffff_ffff)),
        NumericFormat::Float => JsonV::Number(NumV::Float(0xff_ffff, 104, "3.4028234663852886e+38"@)),
        NumericFormat::Double => JsonV::Number(
            NumV::Float(0x1f_ffff_ffff_ffff, 971, "1.7976931348623157e+308"@),
        ),
    }
}

/// Whether a format's bound replaces the current value: a missing value, a
/// falsy non-number, or a non-zero number out of range, that is below
/// `limit` when `lower` and above it otherwise. `limit` is a
/// `(mantissa, exponent)` pair.
pub open spec fn takes_bound(cur: Option<JsonV>, limit: (int, int), lower: bool) -> bool {
    match cur {
        None => true,
        Some(JsonV::Number(n)) => !is_zero(n) && if lower {
            dyadic_lt(as_double(n).0, as_double(n).1, limit.0, limit.1)
        } else {
            dyadic_lt(limit.0, limit.1, as_double(n).0, as_double(n).1)
        },
        Some(v) => !crate::json::truthy(v),
    }
}

/// Set or clamp `minimum` and `maximum` of an object's members.
pub open spec fn clamp_members(es: Seq<(Seq<char>, JsonV)>, f: NumericFormat) -> Seq<
    (Seq<char>, JsonV),
> {
    let es1 = if takes_bound(get_member(es, "minimum"@), min_limit(f), true) {
        set_member(es, "minimum"@, min_bound_json(f))
    } else {
        es
    };
    if takes_bound(get_member(es1, "maximum"@), max_limit(f), false) {
        set_member(es1, "maximum"@, max_bound_json(f))
    } else {
        es1
    }
}

// ---- exec ------------------------------------------------------------------
/// `2^d` for `d < 64`.
fn pow2_i128(d: u32) -> (r: i128)
    requires
        d < 64,
    ensures
        r == p2(d as nat),
        r <= 0x8000_0000_0000_0000,
{
    let mut r: i128 = 1;
    let mut i: u32 = 0;
    while i < d
        invariant
            i <= d < 64,
            r == p2(i as nat),
            r <= p2(i as nat),
        decreases d - i,
    {
        proof {
            lemma_p2_mono((i + 1) as nat, 63);
            lemma_p2_64();
        }
        r = r * 2;
        i = i + 1;
    }
    proof {
        lemma_p2_mono(d as nat, 63);
        lemma_p2_64();
    }
    r
}

/// `m1 * 2^(shift) < m2` where the left side is `m1` shifted by `d >= 0`.
fn shifted_less(m1: i64, d: i64, m2: i64) -> (r: bool)
    requires
        d >= 0,
    ensures
        r == (m1 * p2(d as nat) < m2),
{
    if d >= 64 {
        proof {
            lemma_p2_mono(64, d as nat);
            lemma_p2_64();
        }
        if m1 > 0 {
            proof {
                assert(m1 * p2(d as nat) >= p2(d as nat)) by (nonlinear_arith)
                    requires
                        m1 >= 1,
                        p2(d as nat) >= 1,
                ;
            }
            false
        } else if m1 < 0 {
            proof {
                assert(m1 * p2(d as nat) <= -p2(d as nat)) by (nonlinear_arith)
                    requires
                        m1 <= -1,
                        p2(d as nat) >= 1,
                ;
            }
            true
        } else {
            0 < m2
        }
    } else {
        let p = pow2_i128(d as u32);
        proof {
            lemma_p2_pos(d as nat);
            assert(-0x8000_0000_0000_0000 * 0x8000_0000_0000_0000 <= m1 * p <= 0x8000_0000_0000_0000
                * 0x8000_0000_0000_0000) by (nonlinear_arith)
                requires
                    -0x8000_0000_0000_0000 <= m1 <= 0x8000_0000_0000_0000,
                    1 <= p <= 0x8000_0000_0000_0000,
            ;
        }
        (m1 as i128) * p < (m2 as i128)
    }
}

/// `m2 < m1 * 2^d` for `d >= 0`.
fn shifted_greater(m1: i64, d: i64, m2: i64) -> (r: bool)
    requires
        d >= 0,
    ensures
        r == (m2 < m1 * p2(d as nat)),
{
    if d >= 64 {
        proof {
            lemma_p2_mono(64, d as nat);
            lemma_p2_64();
        }
        if m1 > 0 {
            proof {
                assert(m1 * p2(d as nat) >= p2(d as nat)) by (nonlinear_arith)
                    requires
                        m1 >= 1,
                        p2(d as nat) >= 1,
                ;
            }
            true
        } else if m1 < 0 {
            proof {
                assert(m1 * p2(d as nat) <= -p2(d as nat)) by (nonlinear_arith)
                    requires
                        m1 <= -1,
                        p2(d as nat) >= 1,
                ;
            }
            false
        } else {
            m2 < 0
        }
    } else {
        let p = pow2_i128(d as u32);
        proof {
            lemma_p2_pos(d as nat);
            assert(-0x8000_0000_0000_0000 * 0x8000_0000_0000_0000 <= m1 * p <= 0x8000_0000_0000_0000
                * 0x8000_0000_0000_0000) by (nonlinear_arith)
                requires
                    -0x8000_0000_0000_0000 <= m1 <= 0x8000_0000_0000_0000,
                    1 <= p <= 0x8000_0000_0000_0000,
            ;
        }
        (m2 as i128) < (m1 as i128) * p
    }
}

/// `m1 * 2^e1 < m2 * 2^e2`.
pub fn dyadic_less(m1: i64, e1: i64, m2: i64, e2: i64) -> (r: bool)
    requires
        -0x1_0000_0000 <= e1 <= 0x1_0000_0000,
        -0x1_0000_0000 <= e2 <= 0x1_0000_0000,
    ensures
        r == dyadic_lt(m1 as int, e1 as int, m2 as int, e2 as int),
{
    if e1 >= e2 {
        shifted_less(m1, e1 - e2, m2)
    } else {
        shifted_greater(m2, e2 - e1, m1)
    }
}

/// The double nearest to `a`, as `(mantissa, exponent)`.
fn round_nat_exec(a: u64) -> (r: (i64, i64))
    ensures
        r.0 == round_mantissa(a as nat),
        r.1 == binade_shift(a as nat),
        0 <= r.0 <= 0x20_0000_0000_0000,
        0 <= r.1 <= 11,
{
    let mut b: u64 = a;
    let mut u: u64 = 1;
    let mut k: i64 = 0;
    proof {
        lemma_p2_64();
    }
    proof {
        lemma_p2_pos(0);
    }
    while b >= 0x20_0000_0000_0000
        invariant
            u == p2(k as nat),
            u >= 1,
            0 <= k <= 11,
            b == a / u,
            binade_shift(a as nat) == k + binade_shift(b as nat),
            b * u <= a,
            k > 0 ==> b >= 0x10_0000_0000_0000,
        decreases b,
    {
        proof {
            assert(b / 2 < b);
            vstd::arithmetic::div_mod::lemma_div_denominator(a as int, u as int, 2);
            assert(u * b <= 0xffff_ffff_ffff_ffff);
            assert(u < 0x800) by (nonlinear_arith)
                requires
                    u * b <= 0xffff_ffff_ffff_ffff,
                    b >= 0x20_0000_0000_0000,
                    u >= 1,
            ;
            assert((b / 2) * (u * 2) <= b * u) by (nonlinear_arith)
                requires
                    u >= 1,
            ;
            assert(k < 11) by {
                if k >= 11 {
                    lemma_p2_mono(11, k as nat);
                    reveal_with_fuel(p2, 12);
                }
            }
        }
        b = b / 2;
        u = u * 2;
        k = k + 1;
    }
    proof {
        assert(binade_shift(b as nat) == 0);
        vstd::arithmetic::div_mod::lemma_fundamental_div_mod(a as int, u as int);
    }
    let r: u64 = a - b * u;
    let mut q: u64 = b;
    if r > u / 2 || (r == u / 2 && u > 1 && r * 2 == u && q % 2 == 1) {
        q = q + 1;
    }
    proof {
        assert(b * u == u * b) by (nonlinear_arith);
        assert(r == a as nat % u as nat);
        assert(u as nat == p2(binade_shift(a as nat)));
        if u == 1 {
            assert(r == 0);
        } else {
            assert(u % 2 == 0) by {
                assert(p2(k as nat) == 2 * p2((k - 1) as nat));
            }
        }
    }
    (q as i64, k)
}

/// The double nearest to an integer number, as `(mantissa, exponent)`.
fn int_as_double(n: &Number) -> (r: (i64, i64))
    requires
        !(n is Float),
    ensures
        (r.0 as int, r.1 as int) == as_double(n@),
        0 <= r.1 <= 11,
{
    match n {
        Number::PosInt(u) => {
            let (m, e) = round_nat_exec(*u);
            (m, e)
        },
        Number::NegInt(i) => {
            if *i >= 0 {
                let (m, e) = round_nat_exec(*i as u64);
                (m, e)
            } else {
                let a: u64 = if *i == i64::MIN {
                    0x8000_0000_0000_0000
                } else {
                    (-*i) as u64
                };
                let (m, e) = round_nat_exec(a);
                (-m, e)
            }
        },
        Number::Float(_) => (0, 0),
    }
}

fn number_is_zero(n: &Number) -> (r: bool)
    ensures
        r == is_zero(n@),
{
    match n {
        Number::PosInt(u) => *u == 0,
        Number::NegInt(i) => *i == 0,
        Number::Float(f) => f.mantissa == 0,
    }
}

fn min_limit_exec(f: NumericFormat) -> (r: (i64, i64))
    ensures
        (r.0 as int, r.1 as int) == min_limit(f),
{
    match f {
        NumericFormat::Int32 => (-0x8000_0000, 0),
        NumericFormat::Int64 => (-1, 63),
        NumericFormat::Float => (-0xff_ffff, 104),
        NumericFormat::Double => (-0x1f_ffff_ffff_ffff, 971),
    }
}

fn max_limit_exec(f: NumericFormat) -> (r: (i64, i64))
    ensures
        (r.0 as int, r.1 as int) == max_limit(f),
{
    match f {
        NumericFormat::Int32 => (0x7fff_ffff, 0),
        NumericFormat::Int64 => (1, 63),
        NumericFormat::Float => (0xff_ffff, 104),
        NumericFormat::Double => (0x1f_ffff_ffff_ffff, 971),
    }
}

/// The double value of a number, `(mantissa, exponent)`.
fn number_as_double(n: &Number) -> (r: (i64, i64))
    ensures
        (r.0 as int, r.1 as int) == as_double(n@),
        -0x1_0000_0000 <= r.1 <= 0x1_0000_0000,
{
    match n {
        Number::Float(f) => (f.mantissa, f.exponent as i64),
        _ => int_as_double(n),
    }
}

/// Whether a format's bound replaces the current value.
pub fn take_bound(cur: Option<&Json>, limit_mantissa: i64, limit_exponent: i64, lower: bool) -> (r:
    bool)
    requires
        -0x1_0000_0000 <= limit_exponent <= 0x1_0000_0000,
    ensures
        r == takes_bound(
            match cur {
                Some(v) => Some(v@),
                None => None,
            },
            (limit_mantissa as int, limit_exponent as int),
            lower,
        ),
{
    match cur {
        None => true,
        Some(Json::Number(n)) => {
            if number_is_zero(n) {
                false
            } else {
                let (m, e) = number_as_double(n);
                if lower {
                    dyadic_less(m, e, limit_mantissa, limit_exponent)
                } else {
                    dyadic_less(limit_mantissa, limit_exponent, m, e)
                }
            }
        },
        Some(v) => !crate::json::json_truthy(v),
    }
}

/// The JSON number written for the lower limit.
pub fn min_bound_value(f: NumericFormat) -> (r: Json)
    ensures
        r@ == min_bound_json(f),
{
    match f {
        NumericFormat::Int32 => Json::Number(Number::NegInt(-0x8000_0000)),
        NumericFormat::Int64 => Json::Number(Number::NegInt(i64::MIN)),
        NumericFormat::Float => Json::Number(
            Number::Float(
                Float {
                    mantissa: -0xff_ffff,
                    exponent: 104,
                    text: crate::text::owned("-3.4028234663852886e+38"),
                },
            ),
        ),
        NumericFormat::Double => Json::Number(
            Number::Float(
                Float {
                    mantissa: -0x1f_ffff_ffff_ffff,
                    exponent: 971,
                    text: crate::text::owned("-1.7976931348623157e+308"),
                },
            ),
        ),
    }
}

/// The JSON number written for the upper limit.
pub fn max_bound_value(f: NumericFormat) -> (r: Json)
    ensures
        r@ == max_bound_json(f),
{
    match f {
        NumericFormat::Int32 => Json::Number(Number::PosInt(0x7fff_ffff)),
        NumericFormat::Int64 => Json::Number(Number::PosInt(0x7fff_ffff_ffff_ffff)),
        NumericFormat::Float => Json::Number(
            Number::Float(
                Float {
                    mantissa: 0xff_ffff,
                    exponent: 104,
                    text: crate::text::owned("3.4028234663852886e+38"),
                },
            ),
        ),
        NumericFormat::Double => Json::Number(
            Number::Float(
                Float {
                    mantissa: 0x1f_ffff_ffff_ffff,
                    exponent: 971,
                    text: crate::text::owned("1.7976931348623157e+308"),
                },
            ),
        ),
    }
}

/// Set or clamp `minimum` and `maximum` of an object's members.
pub fn clamp_bounds(es: &mut Vec<Member>, f: NumericFormat)
    ensures
        members_view(final(es)@) == clamp_members(members_view(old(es)@), f),
{
    let (lm, le) = min_limit_exec(f);
    let take = take_bound(crate::json::get_member_ref(es, "minimum"), lm, le, true);
    if take {
        crate::json::set_member_exec(es, "minimum", min_bound_value(f));
    }
    let (um, ue) = max_limit_exec(f);
    let take = take_bound(crate::json::get_member_ref(es, "maximum"), um, ue, false);
    if take {
        crate::json::set_member_exec(es, "maximum", max_bound_value(f));
    }
}

} // verus!
