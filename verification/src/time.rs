//! Exact rational logical time.
//!
//! A [`Time`] is the fraction `num / den` with `den >= 1`. Values are kept
//! exact so that due times on the event queue compare and add without any
//! rounding: the comparison of `a/b` and `c/d` is the comparison of the
//! cross products `a*d` and `c*b`, and a sum is formed over the common
//! denominator and then reduced by a common divisor so that chained sums
//! stay inside machine range.

use vstd::prelude::*;

verus! {

/// An instant (or interval) of logical time, the exact rational `num / den`.
///
/// Well-formed values have `den >= 1` (see [`Time::wf`]). Two well-formed
/// values may denote the same rational with different representations
/// (`1/2` and `2/4`); [`Time::spec_eq_val`] compares by value.
#[derive(Clone, Copy, Debug, PartialEq, Eq, Structural)]
pub struct Time {
    pub num: i64,
    pub den: i64,
}

impl Time {
    /// Well-formedness: the denominator is positive.
    pub open spec fn wf(self) -> bool {
        1 <= self.den
    }

    /// `self <= other` as rationals, by cross multiplication.
    pub open spec fn spec_le(self, other: Time) -> bool {
        self.num * other.den <= other.num * self.den
    }

    /// `self < other` as rationals, by cross multiplication.
    pub open spec fn spec_lt(self, other: Time) -> bool {
        self.num * other.den < other.num * self.den
    }

    /// `self == other` as rationals (the representations may differ).
    pub open spec fn spec_eq_val(self, other: Time) -> bool {
        self.num * other.den == other.num * self.den
    }

    /// The whole number `n`, as `n / 1`.
    pub fn from_int(n: i64) -> (t: Time)
        ensures
            t == (Time { num: n, den: 1 }),
            t.wf(),
    {
        Time { num: n, den: 1 }
    }

    /// Logical time zero.
    pub fn zero() -> (t: Time)
        ensures
            t == (Time { num: 0, den: 1 }),
            t.wf(),
    {
        Time { num: 0, den: 1 }
    }

    /// The fraction `num / den`; rejected exactly when `den < 1`.
    pub fn new(num: i64, den: i64) -> (t: Option<Time>)
        ensures
            t == (if 1 <= den {
                Some(Time { num, den })
            } else {
                None::<Time>
            }),
    {
        if den >= 1 {
            Some(Time { num, den })
        } else {
            None
        }
    }

    /// `self <= other` as rationals.
    pub fn le(&self, other: &Time) -> (r: bool)
        ensures
            r == self.spec_le(*other),
    {
        proof {
            lemma_i64_mul_fits_i128(self.num as int, other.den as int);
            lemma_i64_mul_fits_i128(other.num as int, self.den as int);
        }
        let left: i128 = (self.num as i128) * (other.den as i128);
        let right: i128 = (other.num as i128) * (self.den as i128);
        left <= right
    }

    /// `self < other` as rationals.
    pub fn lt(&self, other: &Time) -> (r: bool)
        ensures
            r == self.spec_lt(*other),
    {
        proof {
            lemma_i64_mul_fits_i128(self.num as int, other.den as int);
            lemma_i64_mul_fits_i128(other.num as int, self.den as int);
        }
        let left: i128 = (self.num as i128) * (other.den as i128);
        let right: i128 = (other.num as i128) * (self.den as i128);
        left < right
    }

    /// `self == other` as rationals.
    pub fn eq_value(&self, other: &Time) -> (r: bool)
        ensures
            r == self.spec_eq_val(*other),
    {
        proof {
            lemma_i64_mul_fits_i128(self.num as int, other.den as int);
            lemma_i64_mul_fits_i128(other.num as int, self.den as int);
        }
        let left: i128 = (self.num as i128) * (other.den as i128);
        let right: i128 = (other.num as i128) * (self.den as i128);
        left == right
    }
}

impl Time {
    /// `c` equals `a + b` as rationals: cross-multiplied over the common
    /// denominator `a.den * b.den`.
    pub open spec fn is_sum_of(self, a: Time, b: Time) -> bool {
        self.num * (a.den * b.den) == (a.num * b.den + b.num * a.den) * self.den
    }

    /// The functional model of [`Time::checked_add`]: the sum over the
    /// common denominator, reduced by the greatest common divisor, or
    /// `None` when the reduced representation leaves `i64` range.
    pub open spec fn spec_checked_add(a: Time, b: Time) -> Option<Time> {
        let sn: int = a.num * b.den + b.num * a.den;
        let sd: int = a.den * b.den;
        let g: int = gcd(sd, vstd::math::abs(sn) as int);
        let rn: int = sn / g;
        let rd: int = sd / g;
        if i64::MIN <= rn <= i64::MAX && 1 <= rd <= i64::MAX {
            Some(Time { num: rn as i64, den: rd as i64 })
        } else {
            None
        }
    }

    /// The reduced sum of two well-formed times, or `None` exactly when the
    /// reduced representation no longer fits in `i64`.
    pub fn checked_add(&self, other: &Time) -> (r: Option<Time>)
        requires
            self.wf(),
            other.wf(),
        ensures
            r == Time::spec_checked_add(*self, *other),
    {
        proof {
            lemma_num_times_den_fits(self.num as int, other.den as int);
            lemma_num_times_den_fits(other.num as int, self.den as int);
            lemma_num_times_den_fits(self.den as int, other.den as int);
        }
        let sn: i128 = (self.num as i128) * (other.den as i128) + (other.num as i128)
            * (self.den as i128);
        let sd: i128 = (self.den as i128) * (other.den as i128);
        proof {
            assert(1 <= sd) by (nonlinear_arith)
                requires
                    1 <= self.den,
                    1 <= other.den,
                    sd == self.den * other.den,
            ;
        }
        let neg: bool = sn < 0;
        let mag: u128 = if neg {
            (-sn) as u128
        } else {
            sn as u128
        };
        let g: u128 = gcd_exec(sd as u128, mag);
        let ghost gi: int = g as int;
        let ghost sni: int = sn as int;
        let ghost sdi: int = sd as int;
        proof {
            lemma_gcd(sdi, mag as int);
            // g divides sn, whatever its sign.
            if neg {
                let k = choose|k: int| mag as int == #[trigger] (gi * k);
                assert(sni == gi * (-k)) by (nonlinear_arith)
                    requires
                        mag as int == gi * k,
                        sni == -(mag as int),
                ;
            }
            assert(divides(gi, sni));
            lemma_div_exact(gi, sni);
            lemma_div_exact(gi, sdi);
            lemma_div_exact(gi, mag as int);
        }
        let rn_mag: u128 = mag / g;
        let rd: u128 = (sd as u128) / g;
        proof {
            // The unsigned quotients agree with the spec-level quotients.
            assert(rd as int == sdi / gi);
            assert(rn_mag as int == (mag as int) / gi);
            if neg {
                vstd::arithmetic::div_mod::lemma_div_multiples_vanish(
                    -((mag as int) / gi),
                    gi,
                );
                assert(gi * (-((mag as int) / gi)) == -(gi * ((mag as int) / gi)))
                    by (nonlinear_arith);
                assert(sni / gi == -((mag as int) / gi));
            } else {
                assert(sni == mag as int);
            }
        }
        if rd >= 1 && rd <= i64::MAX as u128 {
            if neg {
                // A negative numerator may reach magnitude 2^63 exactly.
                if rn_mag <= 9223372036854775808u128 {
                    let num: i64 = (-(rn_mag as i128)) as i64;
                    let den: i64 = rd as i64;
                    Some(Time { num, den })
                } else {
                    None
                }
            } else {
                if rn_mag <= i64::MAX as u128 {
                    Some(Time { num: rn_mag as i64, den: rd as i64 })
                } else {
                    None
                }
            }
        } else {
            proof {
                // The reduced denominator never drops below one.
                let k = choose|k: int| sdi == #[trigger] (gi * k);
                vstd::arithmetic::div_mod::lemma_div_multiples_vanish(k, gi);
                assert(1 <= k) by (nonlinear_arith)
                    requires
                        sdi == gi * k,
                        1 <= gi,
                        1 <= sdi,
                ;
            }
            None
        }
    }
}

/// `x` is a multiple of `d`.
pub open spec fn divides(d: int, x: int) -> bool {
    exists|k: int| x == #[trigger] (d * k)
}

/// Euclid's greatest common divisor, for `a >= 1` and `b >= 0`.
pub open spec fn gcd(a: int, b: int) -> int
    decreases b,
{
    if b <= 0 {
        a
    } else {
        gcd(b, a % b)
    }
}

/// The greatest common divisor is positive and divides both arguments.
pub proof fn lemma_gcd(a: int, b: int)
    requires
        1 <= a,
        0 <= b,
    ensures
        1 <= gcd(a, b),
        divides(gcd(a, b), a),
        divides(gcd(a, b), b),
    decreases b,
{
    if b == 0 {
        assert(a == a * 1) by (nonlinear_arith);
        assert(0 == a * 0) by (nonlinear_arith);
    } else {
        vstd::arithmetic::div_mod::lemma_fundamental_div_mod(a, b);
        lemma_gcd(b, a % b);
        let g = gcd(b, a % b);
        let k1 = choose|k: int| b == #[trigger] (g * k);
        let k2 = choose|k: int| a % b == #[trigger] (g * k);
        assert(a == g * (k1 * (a / b) + k2)) by (nonlinear_arith)
            requires
                a == b * (a / b) + (a % b),
                b == g * k1,
                a % b == g * k2,
        ;
    }
}

/// When `d` divides `x` exactly, division recovers the cofactor.
pub proof fn lemma_div_exact(d: int, x: int)
    requires
        1 <= d,
        divides(d, x),
    ensures
        d * (x / d) == x,
{
    let k = choose|k: int| x == #[trigger] (d * k);
    vstd::arithmetic::div_mod::lemma_div_multiples_vanish(k, d);
}

/// Whatever `checked_add` returns is well formed and denotes the exact sum.
pub proof fn lemma_checked_add_sound(a: Time, b: Time, c: Time)
    requires
        a.wf(),
        b.wf(),
        Time::spec_checked_add(a, b) == Some(c),
    ensures
        c.wf(),
        c.is_sum_of(a, b),
{
    let sn: int = a.num * b.den + b.num * a.den;
    let sd: int = a.den * b.den;
    assert(1 <= sd) by (nonlinear_arith)
        requires
            1 <= a.den,
            1 <= b.den,
            sd == a.den * b.den,
    ;
    let g: int = gcd(sd, vstd::math::abs(sn) as int);
    lemma_gcd(sd, vstd::math::abs(sn) as int);
    if sn < 0 {
        let k = choose|k: int| vstd::math::abs(sn) as int == #[trigger] (g * k);
        assert(sn == g * (-k)) by (nonlinear_arith)
            requires
                vstd::math::abs(sn) as int == g * k,
                sn == -(vstd::math::abs(sn) as int),
        ;
    }
    assert(divides(g, sn));
    lemma_div_exact(g, sn);
    lemma_div_exact(g, sd);
    assert(c.num == sn / g && c.den == sd / g);
    assert((sn / g) * sd == sn * (sd / g)) by (nonlinear_arith)
        requires
            g * (sn / g) == sn,
            g * (sd / g) == sd,
    ;
}

/// Adding a strictly positive interval strictly increases a time.
pub proof fn lemma_checked_add_increases(a: Time, b: Time, c: Time)
    requires
        a.wf(),
        b.wf(),
        0 < b.num,
        Time::spec_checked_add(a, b) == Some(c),
    ensures
        a.spec_lt(c),
{
    lemma_checked_add_sound(a, b, c);
    assert(a.num * c.den < c.num * a.den) by (nonlinear_arith)
        requires
            c.num * (a.den * b.den) == (a.num * b.den + b.num * a.den) * c.den,
            1 <= a.den,
            1 <= b.den,
            1 <= c.den,
            1 <= b.num,
    ;
}

/// Adding a non-negative interval never decreases a time.
pub proof fn lemma_checked_add_le(a: Time, b: Time, c: Time)
    requires
        a.wf(),
        b.wf(),
        0 <= b.num,
        Time::spec_checked_add(a, b) == Some(c),
    ensures
        a.spec_le(c),
    {
    lemma_checked_add_sound(a, b, c);
    assert(a.num * c.den <= c.num * a.den) by (nonlinear_arith)
        requires
            c.num * (a.den * b.den) == (a.num * b.den + b.num * a.den) * c.den,
            1 <= a.den,
            1 <= b.den,
            1 <= c.den,
            0 <= b.num,
    ;
}

/// `spec_le` is transitive over well-formed times.
pub proof fn lemma_le_trans(a: Time, b: Time, c: Time)
    requires
        a.wf(),
        b.wf(),
        c.wf(),
        a.spec_le(b),
        b.spec_le(c),
    ensures
        a.spec_le(c),
{
    assert(a.num * c.den <= c.num * a.den) by (nonlinear_arith)
        requires
            a.num * b.den <= b.num * a.den,
            b.num * c.den <= c.num * b.den,
            1 <= a.den,
            1 <= b.den,
            1 <= c.den,
    ;
}

/// A non-strict bound composes with a strict bound on the left.
pub proof fn lemma_lt_le_trans(a: Time, b: Time, c: Time)
    requires
        a.wf(),
        b.wf(),
        c.wf(),
        a.spec_lt(b),
        b.spec_le(c),
    ensures
        a.spec_lt(c),
{
    assert(a.num * c.den < c.num * a.den) by (nonlinear_arith)
        requires
            a.num * b.den < b.num * a.den,
            b.num * c.den <= c.num * b.den,
            1 <= a.den,
            1 <= b.den,
            1 <= c.den,
    ;
}

/// Euclid's algorithm, matched against the spec-level [`gcd`].
fn gcd_exec(a: u128, b: u128) -> (g: u128)
    requires
        1 <= a,
    ensures
        g as int == gcd(a as int, b as int),
        1 <= g,
{
    let mut x: u128 = a;
    let mut y: u128 = b;
    while y != 0
        invariant
            1 <= x,
            gcd(x as int, y as int) == gcd(a as int, b as int),
        decreases y,
    {
        let r: u128 = x % y;
        proof {
            assert(gcd(x as int, y as int) == gcd(y as int, (x as int) % (y as int)));
        }
        x = y;
        y = r;
    }
    x
}

/// A numerator times a positive denominator stays far enough from the ends
/// of `i128` range that two such products can still be summed.
proof fn lemma_num_times_den_fits(a: int, b: int)
    requires
        i64::MIN <= a <= i64::MAX,
        0 <= b <= i64::MAX,
    ensures
        -0x3fff_ffff_ffff_ffff_8000_0000_0000_0000 <= a * b
            <= 0x3fff_ffff_ffff_ffff_8000_0000_0000_0000,
{
    assert(-0x3fff_ffff_ffff_ffff_8000_0000_0000_0000 <= a * b
        <= 0x3fff_ffff_ffff_ffff_8000_0000_0000_0000) by (nonlinear_arith)
        requires
            -0x8000_0000_0000_0000 <= a <= 0x7fff_ffff_ffff_ffff,
            0 <= b <= 0x7fff_ffff_ffff_ffff,
    ;
}

/// The product of two values in `i64` range fits comfortably in `i128`.
proof fn lemma_i64_mul_fits_i128(a: int, b: int)
    requires
        i64::MIN <= a <= i64::MAX,
        i64::MIN <= b <= i64::MAX,
    ensures
        -0x4000_0000_0000_0000_0000_0000_0000_0000 <= a * b
            <= 0x4000_0000_0000_0000_0000_0000_0000_0000,
{
    assert(-0x4000_0000_0000_0000_0000_0000_0000_0000 <= a * b
        <= 0x4000_0000_0000_0000_0000_0000_0000_0000) by (nonlinear_arith)
        requires
            -0x8000_0000_0000_0000 <= a <= 0x7fff_ffff_ffff_ffff,
            -0x8000_0000_0000_0000 <= b <= 0x7fff_ffff_ffff_ffff,
    ;
}

} // verus!

