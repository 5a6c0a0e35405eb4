//! Fixed-point decimal arithmetic for the numeric payload of a `Token`.
//!
//! A number is stored as an `i64` holding the value scaled by `SCALE`, so
//! six fractional decimal digits are carried exactly. Arithmetic truncates
//! toward zero, as the surface language's `/` and `%` do, and every
//! operation reports overflow instead of wrapping.
use vstd::prelude::*;

verus! {

/// One whole unit of the fixed-point representation.
pub const SCALE: i64 = 1000000;

pub open spec fn abs1(a: int) -> int {
    if a < 0 {
        -a
    } else {
        a
    }
}

/// True when `n` fits the stored representation.
pub open spec fn in64(n: int) -> bool {
    i64::MIN <= n <= i64::MAX
}

/// Integer division truncated toward zero.
pub open spec fn tdiv(a: int, b: int) -> int
    recommends
        b != 0,
{
    if (a < 0) != (b < 0) {
        -(abs1(a) / abs1(b))
    } else {
        abs1(a) / abs1(b)
    }
}

/// Remainder matching truncated division: it carries the sign of `a`.
pub open spec fn tmod(a: int, b: int) -> int
    recommends
        b != 0,
{
    a - b * tdiv(a, b)
}

pub open spec fn num_add_spec(a: int, b: int) -> Option<int> {
    if in64(a + b) {
        Option::Some(a + b)
    } else {
        Option::None
    }
}

pub open spec fn num_sub_spec(a: int, b: int) -> Option<int> {
    if in64(a - b) {
        Option::Some(a - b)
    } else {
        Option::None
    }
}

pub open spec fn num_mul_spec(a: int, b: int) -> Option<int> {
    if in64(tdiv(a * b, SCALE as int)) {
        Option::Some(tdiv(a * b, SCALE as int))
    } else {
        Option::None
    }
}

pub open spec fn num_div_spec(a: int, b: int) -> Option<int> {
    if b == 0 {
        Option::None
    } else if in64(tdiv(a * (SCALE as int), b)) {
        Option::Some(tdiv(a * (SCALE as int), b))
    } else {
        Option::None
    }
}

pub open spec fn num_rem_spec(a: int, b: int) -> Option<int> {
    if b == 0 {
        Option::None
    } else {
        Option::Some(tmod(a, b))
    }
}

proof fn lemma_tmod_sign(a: int, b: int)
    requires
        b != 0,
    ensures
        tmod(a, b) == if a >= 0 {
            abs1(a) % abs1(b)
        } else {
            -(abs1(a) % abs1(b))
        },
        in64(a) && in64(b) ==> in64(tmod(a, b)),
{
    let m1 = abs1(a);
    let m2 = abs1(b);
    vstd::arithmetic::div_mod::lemma_fundamental_div_mod(m1, m2);
    assert(m1 == m2 * (m1 / m2) + m1 % m2);
    vstd::arithmetic::div_mod::lemma_mod_bound(m1, m2);
    let q = m1 / m2;
    let r = m1 % m2;
    if a >= 0 {
        if b > 0 {
            assert(tdiv(a, b) == q);
            assert(a - b * q == r) by (nonlinear_arith)
                requires
                    a == m2 * q + r,
                    b == m2,
            ;
        } else {
            assert(tdiv(a, b) == -q);
            assert(a - b * (-q) == r) by (nonlinear_arith)
                requires
                    a == m2 * q + r,
                    b == -m2,
            ;
        }
    } else {
        if b > 0 {
            assert(tdiv(a, b) == -q);
            assert(a - b * (-q) == -r) by (nonlinear_arith)
                requires
                    -a == m2 * q + r,
                    b == m2,
            ;
        } else {
            assert(tdiv(a, b) == q);
            assert(a - b * q == -r) by (nonlinear_arith)
                requires
                    -a == m2 * q + r,
                    b == -m2,
            ;
        }
    }
}

/// Truncated division of `a` by nonzero `b`, reported as magnitude with a
/// negativity flag so the callers can finish their own range checks.
fn udiv_magnitude(a: i128, b: i128) -> (r: (u128, bool))
    requires
        b != 0,
        a != i128::MIN,
        b != i128::MIN,
    ensures
        r.0 == abs1(a as int) / abs1(b as int),
        r.1 == ((a < 0) != (b < 0)),
{
    let m1: u128 = if a < 0 {
        (-a) as u128
    } else {
        a as u128
    };
    let m2: u128 = if b < 0 {
        (-b) as u128
    } else {
        b as u128
    };
    (m1 / m2, (a < 0) != (b < 0))
}

fn clamp_i64(m: u128, neg: bool) -> (r: Option<i64>)
    ensures
        ({
            let v = if neg {
                -(m as int)
            } else {
                m as int
            };
            r == if in64(v) {
                Option::<i64>::Some(v as i64)
            } else {
                Option::<i64>::None
            }
        }),
{
    if neg {
        if m <= 9223372036854775808u128 {
            let v: i128 = -(m as i128);
            Option::Some(v as i64)
        } else {
            Option::None
        }
    } else {
        if m <= 9223372036854775807u128 {
            Option::Some(m as i64)
        } else {
            Option::None
        }
    }
}

/// Checked fixed-point addition.
pub fn num_add(a: i64, b: i64) -> (r: Option<i64>)
    ensures
        r == match num_add_spec(a as int, b as int) {
            Option::Some(v) => Option::<i64>::Some(v as i64),
            Option::None => Option::<i64>::None,
        },
{
    let s: i128 = a as i128 + b as i128;
    if s >= i64::MIN as i128 && s <= i64::MAX as i128 {
        Option::Some(s as i64)
    } else {
        Option::None
    }
}

/// Checked fixed-point subtraction.
pub fn num_sub(a: i64, b: i64) -> (r: Option<i64>)
    ensures
        r == match num_sub_spec(a as int, b as int) {
            Option::Some(v) => Option::<i64>::Some(v as i64),
            Option::None => Option::<i64>::None,
        },
{
    let s: i128 = a as i128 - b as i128;
    if s >= i64::MIN as i128 && s <= i64::MAX as i128 {
        Option::Some(s as i64)
    } else {
        Option::None
    }
}

/// Checked fixed-point multiplication, truncating toward zero.
pub fn num_mul(a: i64, b: i64) -> (r: Option<i64>)
    ensures
        r == match num_mul_spec(a as int, b as int) {
            Option::Some(v) => Option::<i64>::Some(v as i64),
            Option::None => Option::<i64>::None,
        },
{
    proof {
        assert(-0x8000000000000000 * 0x8000000000000000 <= (a as int) * (b as int)
            <= 0x8000000000000000 * 0x8000000000000000) by (nonlinear_arith)
            requires
                -0x8000000000000000 <= a as int <= 0x7fffffffffffffff,
                -0x8000000000000000 <= b as int <= 0x7fffffffffffffff,
        ;
    }
    let p: i128 = a as i128 * b as i128;
    let (m, neg) = udiv_magnitude(p, SCALE as i128);
    clamp_i64(m, neg)
}

/// Checked fixed-point division, truncating toward zero; `None` for a zero
/// divisor or an out-of-range quotient.
pub fn num_div(a: i64, b: i64) -> (r: Option<i64>)
    ensures
        r == match num_div_spec(a as int, b as int) {
            Option::Some(v) => Option::<i64>::Some(v as i64),
            Option::None => Option::<i64>::None,
        },
{
    if b == 0 {
        return Option::None;
    }
    proof {
        assert(-0x8000000000000000 * 0x100000 <= (a as int) * (SCALE as int)
            <= 0x8000000000000000 * 0x100000) by (nonlinear_arith)
            requires
                -0x8000000000000000 <= a as int <= 0x7fffffffffffffff,
                SCALE as int == 0x0f4240,
        ;
    }
    let p: i128 = a as i128 * SCALE as i128;
    let (m, neg) = udiv_magnitude(p, b as i128);
    clamp_i64(m, neg)
}

/// Checked fixed-point remainder, with the sign of the dividend; `None` for
/// a zero divisor.
pub fn num_rem(a: i64, b: i64) -> (r: Option<i64>)
    ensures
        r == match num_rem_spec(a as int, b as int) {
            Option::Some(v) => Option::<i64>::Some(v as i64),
            Option::None => Option::<i64>::None,
        },
        b != 0 ==> -abs1(b as int) < tmod(a as int, b as int) < abs1(b as int),
{
    if b == 0 {
        return Option::None;
    }
    let m1: u64 = if a < 0 {
        (-(a as i128)) as u64
    } else {
        a as u64
    };
    let m2: u64 = if b < 0 {
        (-(b as i128)) as u64
    } else {
        b as u64
    };
    let m = m1 % m2;
    proof {
        lemma_tmod_sign(a as int, b as int);
    }
    if a < 0 {
        Option::Some(-(m as i64))
    } else {
        Option::Some(m as i64)
    }
}

/// The whole part of a fixed-point number, truncated toward zero.
pub fn num_whole(n: i64) -> (r: i64)
    ensures
        r as int == tdiv(n as int, SCALE as int),
        -9223372036855i64 <= r <= 9223372036854i64,
{
    let m: u64 = if n < 0 {
        (-(n as i128)) as u64
    } else {
        n as u64
    };
    let q = m / 1000000u64;
    if n < 0 {
        -(q as i64)
    } else {
        q as i64
    }
}

// ---------------------------------------------------------------------------
// Decimal rendering
// ---------------------------------------------------------------------------

pub open spec fn digit_char(d: int) -> char {
    if d == 0 {
        '0'
    } else if d == 1 {
        '1'
    } else if d == 2 {
        '2'
    } else if d == 3 {
        '3'
    } else if d == 4 {
        '4'
    } else if d == 5 {
        '5'
    } else if d == 6 {
        '6'
    } else if d == 7 {
        '7'
    } else if d == 8 {
        '8'
    } else {
        '9'
    }
}

/// The decimal digits of a nonnegative integer, most significant first.
pub open spec fn dec_digits(n: int) -> Seq<char>
    recommends
        n >= 0,
    decreases n,
{
    if n < 10 {
        seq![digit_char(n)]
    } else {
        dec_digits(n / 10).push(digit_char(n % 10))
    }
}

/// `w` digits of `f` with leading zeros kept.
pub open spec fn padded_digits(f: int, w: int) -> Seq<char>
    decreases w,
{
    if w <= 1 {
        seq![digit_char(f % 10)]
    } else {
        padded_digits(f / 10, w - 1).push(digit_char(f % 10))
    }
}

/// The fractional digits of `f` rendered at width `w`, with trailing zeros
/// stripped but leading zeros kept.
pub open spec fn frac_digits(f: int, w: int) -> Seq<char>
    decreases w,
{
    if w <= 1 {
        seq![digit_char(f % 10)]
    } else if f % 10 == 0 {
        frac_digits(f / 10, w - 1)
    } else {
        padded_digits(f, w)
    }
}

pub open spec fn render_magnitude(m: int) -> Seq<char>
    recommends
        m >= 0,
{
    let whole = m / (SCALE as int);
    let frac = m % (SCALE as int);
    if frac == 0 {
        dec_digits(whole)
    } else {
        dec_digits(whole) + seq!['.'] + frac_digits(frac, 6)
    }
}

/// The display form of a fixed-point number: an optional minus sign, the
/// whole part, and, when the fractional part is not zero, a point followed
/// by the fractional digits with trailing zeros stripped.
pub open spec fn render_number(n: int) -> Seq<char> {
    if n < 0 {
        seq!['-'] + render_magnitude(-n)
    } else {
        render_magnitude(n)
    }
}

fn digit_char_exec(d: u64) -> (c: char)
    requires
        d < 10,
    ensures
        c == digit_char(d as int),
{
    if d == 0 {
        '0'
    } else if d == 1 {
        '1'
    } else if d == 2 {
        '2'
    } else if d == 3 {
        '3'
    } else if d == 4 {
        '4'
    } else if d == 5 {
        '5'
    } else if d == 6 {
        '6'
    } else if d == 7 {
        '7'
    } else if d == 8 {
        '8'
    } else {
        '9'
    }
}

pub fn push_digits(out: &mut String, n: u64)
    ensures
        final(out)@ == old(out)@ + dec_digits(n as int),
    decreases n,
{
    if n >= 10 {
        push_digits(out, n / 10);
    }
    let c = digit_char_exec(n % 10);
    out.push(c);
    proof {
        if n < 10 {
            assert(n as int % 10 == n as int);
            assert(old(out)@ + dec_digits(n as int) =~= out@);
        } else {
            assert(old(out)@ + dec_digits(n as int) =~= out@);
        }
    }
}

fn push_padded(out: &mut String, f: u64, w: u64)
    ensures
        final(out)@ == old(out)@ + padded_digits(f as int, w as int),
    decreases w,
{
    if w > 1 {
        push_padded(out, f / 10, w - 1);
    }
    let c = digit_char_exec(f % 10);
    out.push(c);
    proof {
        assert(old(out)@ + padded_digits(f as int, w as int) =~= out@);
    }
}

fn push_frac(out: &mut String, f: u64, w: u64)
    ensures
        final(out)@ == old(out)@ + frac_digits(f as int, w as int),
    decreases w,
{
    if w <= 1 {
        let c = digit_char_exec(f % 10);
        out.push(c);
        proof {
            assert(old(out)@ + frac_digits(f as int, w as int) =~= out@);
        }
    } else if f % 10 == 0 {
        push_frac(out, f / 10, w - 1);
    } else {
        push_padded(out, f, w);
    }
}

/// Renders a fixed-point number to its display form.
pub fn num_to_string(n: i64) -> (r: String)
    ensures
        r@ == render_number(n as int),
{
    let mut out = String::new();
    let m: u64 = if n < 0 {
        (-(n as i128)) as u64
    } else {
        n as u64
    };
    if n < 0 {
        out.push('-');
    }
    push_digits(&mut out, m / 1000000);
    let frac = m % 1000000;
    if frac != 0 {
        out.push('.');
        push_frac(&mut out, frac, 6);
    }
    proof {
        assert(m as int / (SCALE as int) == (m / 1000000) as int);
        assert(m as int % (SCALE as int) == frac as int);
        if n < 0 {
            assert(out@ =~= render_number(n as int));
        } else {
            assert(out@ =~= render_number(n as int));
        }
    }
    out
}

} // verus!
