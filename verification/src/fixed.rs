//! Fixed-point scalar arithmetic.
//!
//! All geometry in this crate is carried out on `Fx`, a signed fixed-point
//! number holding millionths in an `i64`. Operations saturate at
//! `i64::MAX` millionths in magnitude instead of overflowing, and division
//! by zero saturates as well, so every operation is total and its result is
//! pinned exactly by a spec-level mirror function.
use vstd::prelude::*;

verus! {

/// Raw representation of 1.0: one million millionths.
pub const FX_UNIT: i64 = 1000000;

/// A fixed-point number: `raw` millionths.
#[derive(Clone, Copy, Debug, PartialEq, Eq, Structural)]
pub struct Fx {
    pub raw: i64,
}

/// Largest representable magnitude (the saturation bound).
pub open spec fn fx_bound() -> int {
    i64::MAX as int
}

/// Saturate a mathematical integer into the symmetric range
/// `[-fx_bound(), fx_bound()]`.
pub open spec fn sat(x: int) -> int {
    if x > fx_bound() {
        fx_bound()
    } else if x < -fx_bound() {
        -fx_bound()
    } else {
        x
    }
}

/// Magnitude of an integer.
pub open spec fn mag(x: int) -> int {
    if x < 0 {
        -x
    } else {
        x
    }
}

/// Division truncated toward zero, by way of magnitudes.
pub open spec fn tdiv(p: int, q: int) -> int
    recommends
        q != 0,
{
    let m = mag(p) / mag(q);
    if (p < 0) == (q < 0) {
        m
    } else {
        -m
    }
}

impl Fx {
    /// The number `r` millionths, clipped into the representable range.
    pub open spec fn spec_of(r: int) -> Fx {
        Fx { raw: sat(r) as i64 }
    }

    pub open spec fn spec_add(self, o: Fx) -> Fx {
        Fx::spec_of(self.raw + o.raw)
    }

    pub open spec fn spec_sub(self, o: Fx) -> Fx {
        Fx::spec_of(self.raw - o.raw)
    }

    pub open spec fn spec_neg(self) -> Fx {
        Fx::spec_of(-self.raw)
    }

    pub open spec fn spec_abs(self) -> Fx {
        Fx::spec_of(mag(self.raw as int))
    }

    pub open spec fn spec_mul(self, o: Fx) -> Fx {
        Fx::spec_of(tdiv(self.raw * o.raw, FX_UNIT as int))
    }

    /// Quotient in fixed point; division by zero saturates to the signed
    /// bound (and `0 / 0` is `0`), mirroring an infinity.
    pub open spec fn spec_div(self, o: Fx) -> Fx {
        if o.raw == 0 {
            if self.raw == 0 {
                Fx { raw: 0 }
            } else if self.raw < 0 {
                Fx { raw: (-fx_bound()) as i64 }
            } else {
                Fx { raw: fx_bound() as i64 }
            }
        } else {
            Fx::spec_of(tdiv(self.raw * (FX_UNIT as int), o.raw as int))
        }
    }

    pub open spec fn spec_min(self, o: Fx) -> Fx {
        if self.raw <= o.raw {
            self
        } else {
            o
        }
    }

    pub open spec fn spec_max(self, o: Fx) -> Fx {
        if self.raw >= o.raw {
            self
        } else {
            o
        }
    }

    pub open spec fn spec_clamp(self, lo: Fx, hi: Fx) -> Fx {
        self.spec_max(lo).spec_min(hi)
    }

    /// Unit value carrying the sign, with `signum(0) == 1` as for a
    /// positive floating-point zero.
    pub open spec fn spec_signum(self) -> Fx {
        if self.raw < 0 {
            Fx { raw: (-FX_UNIT) as i64 }
        } else {
            Fx { raw: FX_UNIT }
        }
    }
}

impl Fx {
    /// Zero.
    pub fn zero() -> (r: Fx)
        ensures
            r.raw == 0,
    {
        Fx { raw: 0 }
    }

    /// One.
    pub fn one() -> (r: Fx)
        ensures
            r.raw == FX_UNIT,
    {
        Fx { raw: FX_UNIT }
    }

    /// The integer `i` as a fixed-point number (saturating).
    pub fn from_int(i: i64) -> (r: Fx)
        ensures
            r == Fx::spec_of(i * FX_UNIT),
    {
        let neg = i < 0;
        let m = mag_u64(i);
        let wide: u128 = (m as u128) * (FX_UNIT as u128);
        let r = sat_from(neg, wide);
        proof {
            lemma_mag_mul(i as int, FX_UNIT as int);
        }
        r
    }

    /// The number `raw` millionths.
    pub fn from_millionths(raw: i64) -> (r: Fx)
        ensures
            r.raw == raw,
    {
        Fx { raw }
    }

    pub fn add(self, o: Fx) -> (r: Fx)
        ensures
            r == self.spec_add(o),
    {
        let s: i128 = (self.raw as i128) + (o.raw as i128);
        clip(s)
    }

    pub fn sub(self, o: Fx) -> (r: Fx)
        ensures
            r == self.spec_sub(o),
    {
        let s: i128 = (self.raw as i128) - (o.raw as i128);
        clip(s)
    }

    pub fn neg(self) -> (r: Fx)
        ensures
            r == self.spec_neg(),
    {
        let s: i128 = -(self.raw as i128);
        clip(s)
    }

    pub fn abs(self) -> (r: Fx)
        ensures
            r == self.spec_abs(),
    {
        if self.raw < 0 {
            self.neg()
        } else {
            self
        }
    }

    pub fn mul(self, o: Fx) -> (r: Fx)
        ensures
            r == self.spec_mul(o),
    {
        let neg = (self.raw < 0) != (o.raw < 0);
        let ma = mag_u64(self.raw);
        let mb = mag_u64(o.raw);
        proof {
            assert((ma as int) * (mb as int) <= 0x8000000000000000
                * 0x8000000000000000) by (nonlinear_arith)
                requires
                    ma <= 0x8000000000000000u64 as int,
                    mb <= 0x8000000000000000u64 as int,
            ;
        }
        let wide: u128 = (ma as u128) * (mb as u128);
        let q: u128 = wide / (FX_UNIT as u128);
        let r = sat_from(neg, q);
        proof {
            lemma_mag_mul(self.raw as int, o.raw as int);
        }
        r
    }

    pub fn div(self, o: Fx) -> (r: Fx)
        ensures
            r == self.spec_div(o),
    {
        if o.raw == 0 {
            if self.raw == 0 {
                Fx { raw: 0 }
            } else if self.raw < 0 {
                Fx { raw: -i64::MAX }
            } else {
                Fx { raw: i64::MAX }
            }
        } else {
            let neg = (self.raw < 0) != (o.raw < 0);
            let ma = mag_u64(self.raw);
            proof {
                assert((ma as int) * (FX_UNIT as int) <= 0x8000000000000000
                    * 1000000) by (nonlinear_arith)
                    requires
                        ma <= 0x8000000000000000u64 as int,
                ;
            }
            let wide: u128 = (ma as u128) * (FX_UNIT as u128);
            let q: u128 = wide / (mag_u64(o.raw) as u128);
            let r = sat_from(neg, q);
            proof {
                lemma_mag_mul(self.raw as int, FX_UNIT as int);
                lemma_tdiv_mag(self.raw * (FX_UNIT as int), o.raw as int);
            }
            r
        }
    }

    pub fn min(self, o: Fx) -> (r: Fx)
        ensures
            r == self.spec_min(o),
    {
        if self.raw <= o.raw {
            self
        } else {
            o
        }
    }

    pub fn max(self, o: Fx) -> (r: Fx)
        ensures
            r == self.spec_max(o),
    {
        if self.raw >= o.raw {
            self
        } else {
            o
        }
    }

    pub fn clamp(self, lo: Fx, hi: Fx) -> (r: Fx)
        ensures
            r == self.spec_clamp(lo, hi),
    {
        self.max(lo).min(hi)
    }

    pub fn signum(self) -> (r: Fx)
        ensures
            r == self.spec_signum(),
    {
        if self.raw < 0 {
            Fx { raw: -FX_UNIT }
        } else {
            Fx { raw: FX_UNIT }
        }
    }
}

/// Magnitude of an `i64`, exact even for `i64::MIN`.
pub(crate) fn mag_u64(x: i64) -> (r: u64)
    ensures
        r == mag(x as int),
{
    if x >= 0 {
        x as u64
    } else {
        (-(x as i128)) as u64
    }
}

/// Clip a wide signed intermediate into the saturation range.
pub(crate) fn clip(s: i128) -> (r: Fx)
    requires
        -0x40000000000000000000000000000000 <= s
            < 0x40000000000000000000000000000000,
    ensures
        r.raw == sat(s as int),
{
    if s > (i64::MAX as i128) {
        Fx { raw: i64::MAX }
    } else if s < -(i64::MAX as i128) {
        Fx { raw: -i64::MAX }
    } else {
        Fx { raw: s as i64 }
    }
}

/// Clip an unsigned magnitude and apply a sign.
pub(crate) fn sat_from(neg: bool, m: u128) -> (r: Fx)
    ensures
        r.raw == (if neg {
            -sat(m as int)
        } else {
            sat(m as int)
        }),
{
    let clipped: i64 = if m > (i64::MAX as u128) {
        i64::MAX
    } else {
        m as i64
    };
    if neg {
        Fx { raw: -clipped }
    } else {
        Fx { raw: clipped }
    }
}

/// The magnitude of a product is the product of the magnitudes.
pub proof fn lemma_mag_mul(a: int, b: int)
    ensures
        mag(a * b) == mag(a) * mag(b),
        (a * b < 0) == ((a < 0) != (b < 0) && a != 0 && b != 0),
{
    assert(mag(a * b) == mag(a) * mag(b) && (a * b < 0) == ((a < 0) != (b < 0)
        && a != 0 && b != 0)) by (nonlinear_arith);
}

/// Truncated division agrees with magnitude division and the sign rule.
proof fn lemma_tdiv_mag(p: int, q: int)
    requires
        q != 0,
    ensures
        tdiv(p, q) == if (p < 0) == (q < 0) {
            mag(p) / mag(q)
        } else {
            -(mag(p) / mag(q))
        },
{
}

/// Floor of the square root of a natural number.
pub open spec fn sqrt_floor(n: nat) -> nat
    decreases n,
{
    if n == 0 {
        0
    } else {
        let r = sqrt_floor((n - 1) as nat);
        if (r + 1) * (r + 1) <= n {
            r + 1
        } else {
            r
        }
    }
}

/// `sqrt_floor` has the defining property of the integer square root.
pub proof fn lemma_sqrt_floor(n: nat)
    ensures
        sqrt_floor(n) * sqrt_floor(n) <= n,
        n < (sqrt_floor(n) + 1) * (sqrt_floor(n) + 1),
    decreases n,
{
    reveal_with_fuel(sqrt_floor, 2);
    if n > 0 {
        lemma_sqrt_floor((n - 1) as nat);
        let r = sqrt_floor((n - 1) as nat);
        if (r + 1) * (r + 1) <= n {
            assert(sqrt_floor(n) == r + 1);
            assert(n - 1 < (r + 1) * (r + 1));
            assert((r + 1) * (r + 1) + 1 <= (r + 2) * (r + 2)) by (nonlinear_arith);
            assert(n < (r + 2) * (r + 2));
            assert((sqrt_floor(n) + 1) * (sqrt_floor(n) + 1) == (r + 2) * (r
                + 2)) by (nonlinear_arith)
                requires
                    sqrt_floor(n) == r + 1,
            ;
            assert(n < (sqrt_floor(n) + 1) * (sqrt_floor(n) + 1));
        } else {
            assert(sqrt_floor(n) == r);
            assert(r * r <= n - 1);
            assert(n < (r + 1) * (r + 1));
            assert((sqrt_floor(n) + 1) * (sqrt_floor(n) + 1) == (r + 1) * (r
                + 1)) by (nonlinear_arith)
                requires
                    sqrt_floor(n) == r,
            ;
            assert(n < (sqrt_floor(n) + 1) * (sqrt_floor(n) + 1));
        }
    } else {
        assert(n == 0);
        assert(sqrt_floor(n) == 0);
        assert((sqrt_floor(n) + 1) * (sqrt_floor(n) + 1) == 1) by (nonlinear_arith)
            requires
                sqrt_floor(n) == 0,
        ;
        assert(n < (sqrt_floor(n) + 1) * (sqrt_floor(n) + 1));
    }
}

/// Any value with the square-root property is `sqrt_floor`.
pub proof fn lemma_sqrt_floor_unique(n: nat, r: nat)
    requires
        r * r <= n,
        n < (r + 1) * (r + 1),
    ensures
        r == sqrt_floor(n),
{
    lemma_sqrt_floor(n);
    let s = sqrt_floor(n);
    assert(r == s) by (nonlinear_arith)
        requires
            r * r <= n,
            n < (r + 1) * (r + 1),
            s * s <= n,
            n < (s + 1) * (s + 1),
    ;
}

/// Integer square root by binary search over the result.
pub fn isqrt(n: u128) -> (r: u64)
    ensures
        r == sqrt_floor(n as nat),
{
    let mut lo: u64 = 0;
    let mut hi: u64 = u64::MAX;
    proof {
        assert((n as int) < ((u64::MAX as int) + 1) * ((u64::MAX as int) + 1))
            by (nonlinear_arith)
            requires
                n <= u128::MAX,
        ;
    }
    while lo < hi
        invariant
            (lo as int) * (lo as int) <= n as int,
            (n as int) < ((hi as int) + 1) * ((hi as int) + 1),
            lo <= hi,
        decreases hi - lo,
    {
        let mid: u64 = lo + ((hi - lo) / 2 + (hi - lo) % 2);
        proof {
            assert((mid as int) * (mid as int) <= (u64::MAX as int) * (u64::MAX
                as int) <= u128::MAX) by (nonlinear_arith)
                requires
                    mid <= u64::MAX as int,
            ;
        }
        let sq: u128 = (mid as u128) * (mid as u128);
        if sq <= n {
            lo = mid;
        } else {
            hi = mid - 1;
        }
    }
    proof {
        lemma_sqrt_floor_unique(n as nat, lo as nat);
    }
    lo
}

/// Raw millionths of one full turn.
pub const FX_TAU: u64 = 6283185;

/// Raw millionths of a half turn.
pub const FX_PI: u64 = 3141593;

/// Raw millionths of a quarter turn.
pub const FX_HALF_PI: u64 = 1570796;

/// Odd polynomial approximating the sine on a folded quarter-turn argument.
pub open spec fn spec_sin_poly(r: Fx) -> Fx {
    let r2 = r.spec_mul(r);
    let r3 = r2.spec_mul(r);
    let r5 = r3.spec_mul(r2);
    let r7 = r5.spec_mul(r2);
    r.spec_sub(r3.spec_div(Fx { raw: 6000000 })).spec_add(
        r5.spec_div(Fx { raw: 120000000 }),
    ).spec_sub(r7.spec_div(Fx { raw: 5040000000 }))
}

/// Sine on a half-turn argument, folded into the first quarter turn.
pub open spec fn spec_sin_fold(q: nat) -> Fx
    recommends
        q < FX_PI,
{
    let qq = if q > FX_HALF_PI { (FX_PI - q) as nat } else { q };
    spec_sin_poly(Fx { raw: qq as i64 })
}

/// Sine of a non-negative raw angle, by range reduction modulo a turn.
pub open spec fn spec_sin_mag(m: nat) -> Fx {
    let r0 = m % (FX_TAU as nat);
    if r0 < FX_PI {
        spec_sin_fold(r0)
    } else {
        spec_sin_fold((r0 - FX_PI) as nat).spec_neg()
    }
}

impl Fx {
    /// Sine of an angle in radians.
    pub open spec fn spec_sin(self) -> Fx {
        if self.raw < 0 {
            spec_sin_mag(mag(self.raw as int) as nat).spec_neg()
        } else {
            spec_sin_mag(self.raw as nat)
        }
    }

    /// Cosine of an angle in radians, as the sine shifted a quarter turn.
    pub open spec fn spec_cos(self) -> Fx {
        spec_sin_mag((mag(self.raw as int) + FX_HALF_PI) as nat)
    }

    pub fn sin(self) -> (r: Fx)
        ensures
            r == self.spec_sin(),
    {
        if self.raw < 0 {
            sin_mag(mag_u64(self.raw)).neg()
        } else {
            sin_mag(self.raw as u64)
        }
    }

    pub fn cos(self) -> (r: Fx)
        ensures
            r == self.spec_cos(),
    {
        sin_mag(mag_u64(self.raw) + FX_HALF_PI)
    }
}

fn sin_poly(r: Fx) -> (s: Fx)
    ensures
        s == spec_sin_poly(r),
{
    let r2 = r.mul(r);
    let r3 = r2.mul(r);
    let r5 = r3.mul(r2);
    let r7 = r5.mul(r2);
    r.sub(r3.div(Fx { raw: 6000000 })).add(r5.div(Fx { raw: 120000000 })).sub(
        r7.div(Fx { raw: 5040000000 }),
    )
}

fn sin_fold(q: u64) -> (s: Fx)
    requires
        q < FX_PI,
    ensures
        s == spec_sin_fold(q as nat),
{
    let qq = if q > FX_HALF_PI {
        FX_PI - q
    } else {
        q
    };
    sin_poly(Fx { raw: qq as i64 })
}

fn sin_mag(m: u64) -> (s: Fx)
    ensures
        s == spec_sin_mag(m as nat),
{
    let r0 = m % FX_TAU;
    if r0 < FX_PI {
        sin_fold(r0)
    } else {
        sin_fold(r0 - FX_PI).neg()
    }
}

} // verus!
