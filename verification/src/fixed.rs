//! A saturating fixed-point scalar.
//!
//! `Fx` stores a real quantity as an `i128` count of units of `1 / SCALE`
//! (a resolution of 10^-12).  Every operation clamps its result into
//! `[-FX_BOUND, FX_BOUND]` and truncates toward zero, so all operations are
//! total and each has an exact integer specification (`fadd`, `fmul`, ...).

use vstd::prelude::*;

verus! {

/// Number of units per 1.0.
pub const SCALE: i128 = 1_000_000_000_000;

/// Largest magnitude a scalar may hold, in units (10^6 in real terms).
pub const FX_BOUND: i128 = 1_000_000_000_000_000_000;

const SCALE_U: u128 = 1_000_000_000_000;

const FX_BOUND_U: u128 = 1_000_000_000_000_000_000;

/// A fixed-point number: `v` units of `1/SCALE`.
#[derive(Clone, Copy, PartialEq, Eq, Structural, Debug)]
pub struct Fx {
    pub v: i128,
}

/// Clamp an unbounded integer into the representable range.
pub open spec fn clamp_i(x: int) -> int {
    if x > FX_BOUND {
        FX_BOUND as int
    } else if x < -FX_BOUND {
        -FX_BOUND
    } else {
        x
    }
}

pub open spec fn abs_i(x: int) -> int {
    if x < 0 {
        -x
    } else {
        x
    }
}

/// Division truncating toward zero, as the executable code performs it.
pub open spec fn tdiv(n: int, d: int) -> int {
    if (n < 0) == (d < 0) {
        abs_i(n) / abs_i(d)
    } else {
        -(abs_i(n) / abs_i(d))
    }
}

/// Saturating addition.
pub open spec fn fadd(a: Fx, b: Fx) -> Fx {
    Fx { v: clamp_i(a.v + b.v) as i128 }
}

/// Saturating subtraction.
pub open spec fn fsub(a: Fx, b: Fx) -> Fx {
    Fx { v: clamp_i(a.v - b.v) as i128 }
}

/// Negation.
pub open spec fn fneg(a: Fx) -> Fx {
    Fx { v: (-a.v) as i128 }
}

/// Absolute value.
pub open spec fn fabs(a: Fx) -> Fx {
    Fx { v: abs_i(a.v as int) as i128 }
}

/// Saturating multiplication: the product of the unit counts, rescaled with
/// truncation toward zero.
pub open spec fn fmul(a: Fx, b: Fx) -> Fx {
    Fx { v: clamp_i(tdiv(a.v * b.v, SCALE as int)) as i128 }
}

/// Saturating division.  A zero divisor saturates to the bound with the
/// sign of the dividend, standing in for the infinities of real arithmetic.
pub open spec fn fdiv(a: Fx, b: Fx) -> Fx {
    if b.v == 0 {
        if a.v > 0 {
            Fx { v: FX_BOUND }
        } else if a.v < 0 {
            Fx { v: (-FX_BOUND) as i128 }
        } else {
            Fx { v: 0 }
        }
    } else {
        Fx { v: clamp_i(tdiv(a.v * SCALE, b.v as int)) as i128 }
    }
}

/// Division of the unit count by a positive machine integer.
pub open spec fn fdiv_int(a: Fx, k: int) -> Fx {
    Fx { v: tdiv(a.v as int, k) as i128 }
}

fn clamp_exec(x: i128) -> (r: i128)
    ensures
        r == clamp_i(x as int),
        -FX_BOUND <= r <= FX_BOUND,
{
    if x > FX_BOUND {
        FX_BOUND
    } else if x < -FX_BOUND {
        -FX_BOUND
    } else {
        x
    }
}

impl Fx {
    /// In range for arithmetic: every constructor and operation keeps this.
    pub open spec fn wf(self) -> bool {
        -FX_BOUND <= self.v <= FX_BOUND
    }

    /// The raw count of `1/SCALE` units.
    pub fn units(self) -> (r: i128)
        ensures
            r == self.v,
    {
        self.v
    }

    /// Build a scalar from a raw unit count, clamping it into range.
    pub fn from_units(n: i128) -> (r: Fx)
        ensures
            r.v == clamp_i(n as int),
            r.wf(),
    {
        Fx { v: clamp_exec(n) }
    }

    /// The whole number `n`.
    pub fn from_int(n: i64) -> (r: Fx)
        ensures
            r.v == clamp_i(n * SCALE),
            r.wf(),
    {
        let wide: i128 = (n as i128) * SCALE;
        Fx { v: clamp_exec(wide) }
    }

    pub fn zero() -> (r: Fx)
        ensures
            r.v == 0,
            r.wf(),
    {
        Fx { v: 0 }
    }

    pub fn plus(self, o: Fx) -> (r: Fx)
        requires
            self.wf(),
            o.wf(),
        ensures
            r == fadd(self, o),
            r.wf(),
    {
        let s: i128 = self.v + o.v;
        Fx { v: clamp_exec(s) }
    }

    pub fn minus(self, o: Fx) -> (r: Fx)
        requires
            self.wf(),
            o.wf(),
        ensures
            r == fsub(self, o),
            r.wf(),
    {
        let s: i128 = self.v - o.v;
        Fx { v: clamp_exec(s) }
    }

    pub fn negate(self) -> (r: Fx)
        requires
            self.wf(),
        ensures
            r == fneg(self),
            r.wf(),
    {
        Fx { v: -self.v }
    }

    pub fn abs_fx(self) -> (r: Fx)
        requires
            self.wf(),
        ensures
            r == fabs(self),
            r.wf(),
    {
        if self.v < 0 {
            Fx { v: -self.v }
        } else {
            Fx { v: self.v }
        }
    }

    pub fn times(self, o: Fx) -> (r: Fx)
        requires
            self.wf(),
            o.wf(),
        ensures
            r == fmul(self, o),
            r.wf(),
    {
        let a = self.v;
        let b = o.v;
        let ma: u128 = if a < 0 {
            (-a) as u128
        } else {
            a as u128
        };
        let mb: u128 = if b < 0 {
            (-b) as u128
        } else {
            b as u128
        };
        proof {
            assert(ma == abs_i(a as int));
            assert(mb == abs_i(b as int));
            assert(ma * mb <= 1000000000000000000 * 1000000000000000000) by (nonlinear_arith)
                requires
                    0 <= ma <= 1000000000000000000,
                    0 <= mb <= 1000000000000000000,
            ;
            if a >= 0 && b >= 0 {
                assert(a * b >= 0 && ma * mb == a * b) by (nonlinear_arith)
                    requires
                        a >= 0,
                        b >= 0,
                        ma == a,
                        mb == b,
                ;
            } else if a < 0 && b >= 0 {
                assert(a * b <= 0 && ma * mb == -(a * b)) by (nonlinear_arith)
                    requires
                        a < 0,
                        b >= 0,
                        ma == -a,
                        mb == b,
                ;
            } else if a >= 0 && b < 0 {
                assert(a * b <= 0 && ma * mb == -(a * b)) by (nonlinear_arith)
                    requires
                        a >= 0,
                        b < 0,
                        ma == a,
                        mb == -b,
                ;
            } else {
                assert(a * b >= 0 && ma * mb == a * b) by (nonlinear_arith)
                    requires
                        a < 0,
                        b < 0,
                        ma == -a,
                        mb == -b,
                ;
            }
        }
        let p: u128 = ma * mb;
        let q: u128 = p / SCALE_U;
        let qc: u128 = if q > FX_BOUND_U {
            FX_BOUND_U
        } else {
            q
        };
        let neg: bool = (a < 0) != (b < 0);
        proof {
            assert(q == abs_i(a * b) / (SCALE as int));
            assert(tdiv(a * b, SCALE as int) == if (a * b < 0) == (SCALE < 0) {
                abs_i(a * b) / abs_i(SCALE as int)
            } else {
                -(abs_i(a * b) / abs_i(SCALE as int))
            });
        }
        if neg {
            Fx { v: -(qc as i128) }
        } else {
            Fx { v: qc as i128 }
        }
    }

    pub fn div_by(self, o: Fx) -> (r: Fx)
        requires
            self.wf(),
            o.wf(),
        ensures
            r == fdiv(self, o),
            r.wf(),
    {
        let a = self.v;
        let b = o.v;
        if b == 0 {
            if a > 0 {
                Fx { v: FX_BOUND }
            } else if a < 0 {
                Fx { v: -FX_BOUND }
            } else {
                Fx { v: 0 }
            }
        } else {
            let ma: u128 = if a < 0 {
                (-a) as u128
            } else {
                a as u128
            };
            let mb: u128 = if b < 0 {
                (-b) as u128
            } else {
                b as u128
            };
            proof {
                assert(ma == abs_i(a as int));
                assert(mb == abs_i(b as int));
            }
            let p: u128 = ma * SCALE_U;
            let q: u128 = p / mb;
            let qc: u128 = if q > FX_BOUND_U {
                FX_BOUND_U
            } else {
                q
            };
            let neg: bool = (a < 0) != (b < 0);
            proof {
                if a >= 0 {
                    assert(ma * SCALE_U == abs_i(a * SCALE)) by (nonlinear_arith)
                        requires
                            a >= 0,
                            ma == a,
                            SCALE_U == SCALE,
                            SCALE > 0,
                    ;
                } else {
                    assert(ma * SCALE_U == abs_i(a * SCALE)) by (nonlinear_arith)
                        requires
                            a < 0,
                            ma == -a,
                            SCALE_U == SCALE,
                            SCALE > 0,
                    ;
                }
                assert((a * SCALE < 0) == (a < 0)) by (nonlinear_arith)
                    requires
                        SCALE > 0,
                ;
            }
            if neg {
                Fx { v: -(qc as i128) }
            } else {
                Fx { v: qc as i128 }
            }
        }
    }

    /// Divide the unit count by a positive machine integer (exact scaling
    /// steps such as series coefficients).
    pub fn div_int(self, k: i128) -> (r: Fx)
        requires
            self.wf(),
            0 < k,
        ensures
            r == fdiv_int(self, k as int),
            r.wf(),
    {
        let a = self.v;
        let ma: u128 = if a < 0 {
            (-a) as u128
        } else {
            a as u128
        };
        let q: u128 = ma / (k as u128);
        proof {
            assert(ma == abs_i(a as int));
            assert(q <= ma);
        }
        if a < 0 {
            Fx { v: -(q as i128) }
        } else {
            Fx { v: q as i128 }
        }
    }
}

/// Largest `r` with `r * r <= n` (zero for negative `n`).
pub open spec fn isqrt_spec(n: int) -> int
    decreases n,
{
    if n <= 0 {
        0
    } else {
        let p = isqrt_spec(n - 1);
        if (p + 1) * (p + 1) <= n {
            p + 1
        } else {
            p
        }
    }
}

pub proof fn lemma_isqrt_bounds(n: int)
    requires
        n >= 0,
    ensures
        0 <= isqrt_spec(n),
        isqrt_spec(n) * isqrt_spec(n) <= n,
        n < (isqrt_spec(n) + 1) * (isqrt_spec(n) + 1),
    decreases n,
{
    if n > 0 {
        lemma_isqrt_bounds(n - 1);
        let p = isqrt_spec(n - 1);
        if (p + 1) * (p + 1) <= n {
            assert((p + 2) * (p + 2) > (p + 1) * (p + 1)) by (nonlinear_arith)
                requires
                    p >= 0,
            ;
        }
    }
}

pub proof fn lemma_isqrt_is(n: int, r: int)
    requires
        n >= 0,
        0 <= r,
        r * r <= n,
        n < (r + 1) * (r + 1),
    ensures
        isqrt_spec(n) == r,
{
    lemma_isqrt_bounds(n);
    let s = isqrt_spec(n);
    if r < s {
        assert((r + 1) * (r + 1) <= s * s) by (nonlinear_arith)
            requires
                0 <= r + 1 <= s,
        ;
    } else if s < r {
        assert((s + 1) * (s + 1) <= r * r) by (nonlinear_arith)
            requires
                0 <= s + 1 <= r,
        ;
    }
}

/// Largest `r` with `r * r * r <= n` (zero for negative `n`).
pub open spec fn icbrt_spec(n: int) -> int
    decreases n,
{
    if n <= 0 {
        0
    } else {
        let p = icbrt_spec(n - 1);
        if (p + 1) * (p + 1) * (p + 1) <= n {
            p + 1
        } else {
            p
        }
    }
}

pub proof fn lemma_icbrt_bounds(n: int)
    requires
        n >= 0,
    ensures
        0 <= icbrt_spec(n),
        icbrt_spec(n) * icbrt_spec(n) * icbrt_spec(n) <= n,
        n < (icbrt_spec(n) + 1) * (icbrt_spec(n) + 1) * (icbrt_spec(n) + 1),
    decreases n,
{
    if n > 0 {
        lemma_icbrt_bounds(n - 1);
        let p = icbrt_spec(n - 1);
        if (p + 1) * (p + 1) * (p + 1) <= n {
            assert((p + 2) * (p + 2) * (p + 2) > (p + 1) * (p + 1) * (p + 1)) by (nonlinear_arith)
                requires
                    p >= 0,
            ;
        }
    }
}

pub proof fn lemma_icbrt_is(n: int, r: int)
    requires
        n >= 0,
        0 <= r,
        r * r * r <= n,
        n < (r + 1) * (r + 1) * (r + 1),
    ensures
        icbrt_spec(n) == r,
{
    lemma_icbrt_bounds(n);
    let s = icbrt_spec(n);
    if r < s {
        assert((r + 1) * (r + 1) * (r + 1) <= s * s * s) by (nonlinear_arith)
            requires
                0 <= r + 1 <= s,
        ;
    } else if s < r {
        assert((s + 1) * (s + 1) * (s + 1) <= r * r * r) by (nonlinear_arith)
            requires
                0 <= s + 1 <= r,
        ;
    }
}

fn isqrt_u(n: u128) -> (r: u128)
    ensures
        r == isqrt_spec(n as int),
{
    let mut lo: u128 = 0;
    let mut hi: u128 = 18446744073709551616;
    proof {
        assert((n as int) < 18446744073709551616 * 18446744073709551616) by (nonlinear_arith)
            requires
                n <= 340282366920938463463374607431768211455,
        ;
    }
    while hi - lo > 1
        invariant
            lo < hi,
            hi <= 18446744073709551616,
            lo * lo <= n,
            (n as int) < hi * hi,
        decreases hi - lo,
    {
        let mid: u128 = lo + (hi - lo) / 2;
        proof {
            assert(mid * mid <= 18446744073709551615 * 18446744073709551615) by (nonlinear_arith)
                requires
                    mid <= 18446744073709551615,
            ;
        }
        let sq: u128 = mid * mid;
        if sq <= n {
            lo = mid;
        } else {
            hi = mid;
        }
    }
    proof {
        lemma_isqrt_is(n as int, lo as int);
    }
    lo
}

fn icbrt_u(n: u128) -> (r: u128)
    requires
        n < 103823000000000000000000000000000000000,
    ensures
        r == icbrt_spec(n as int),
{
    let mut lo: u128 = 0;
    let mut hi: u128 = 4700000000000;
    proof {
        assert((n as int) < 4700000000000 * 4700000000000 * 4700000000000) by (nonlinear_arith)
            requires
                n < 103823000000000000000000000000000000000,
        ;
    }
    while hi - lo > 1
        invariant
            lo < hi,
            hi <= 4700000000000,
            lo * lo * lo <= n,
            (n as int) < hi * hi * hi,
        decreases hi - lo,
    {
        let mid: u128 = lo + (hi - lo) / 2;
        proof {
            assert(mid * mid <= 4700000000000 * 4700000000000) by (nonlinear_arith)
                requires
                    mid <= 4700000000000,
            ;
            assert(mid * mid * mid <= 4700000000000 * 4700000000000 * 4700000000000)
                by (nonlinear_arith)
                requires
                    mid <= 4700000000000,
            ;
        }
        let sq: u128 = mid * mid;
        let cb: u128 = sq * mid;
        if cb <= n {
            lo = mid;
        } else {
            hi = mid;
        }
    }
    proof {
        lemma_icbrt_is(n as int, lo as int);
    }
    lo
}

/// Square root of a non-negative scalar, truncated to the resolution.
pub open spec fn fsqrt(a: Fx) -> Fx {
    Fx { v: isqrt_spec(a.v * SCALE) as i128 }
}

/// Cube root of a non-negative scalar, truncated to the resolution.
pub open spec fn fcbrt(a: Fx) -> Fx {
    Fx { v: icbrt_spec(a.v * SCALE * SCALE) as i128 }
}

impl Fx {
    pub fn sqrt_fx(self) -> (r: Fx)
        requires
            self.wf(),
            self.v >= 0,
        ensures
            r == fsqrt(self),
            r.v >= 0,
            r.wf(),
    {
        let n: u128 = (self.v as u128) * SCALE_U;
        let root = isqrt_u(n);
        proof {
            lemma_isqrt_bounds(n as int);
            assert(root <= 1000000000000000) by (nonlinear_arith)
                requires
                    0 <= root,
                    root * root <= 1000000000000000000000000000000,
            ;
        }
        Fx { v: root as i128 }
    }

    /// Cube root; the argument bound keeps the rescaled radicand inside
    /// the search range of the machine representation.
    pub fn cbrt_fx(self) -> (r: Fx)
        requires
            self.wf(),
            0 <= self.v <= 100000000000000,
        ensures
            r == fcbrt(self),
            r.v >= 0,
            r.wf(),
    {
        let n: u128 = (self.v as u128) * SCALE_U * SCALE_U;
        let root = icbrt_u(n);
        proof {
            lemma_icbrt_bounds(n as int);
            assert(root <= 4700000000000) by (nonlinear_arith)
                requires
                    0 <= root,
                    root * root * root <= 100000000000000000000000000000000000000,
            ;
        }
        Fx { v: root as i128 }
    }
}

/// `x` raised to the `n`-th power by repeated saturating multiplication.
pub open spec fn fpowi(x: Fx, n: nat) -> Fx
    decreases n,
{
    if n == 0 {
        Fx { v: SCALE }
    } else {
        fmul(fpowi(x, (n - 1) as nat), x)
    }
}

/// One term-and-sum step pair of the exponential series: after `i` steps the
/// pair holds `y^i / i!` and the partial sum up to that term.
pub open spec fn fexp_iter(y: Fx, i: nat) -> (Fx, Fx)
    decreases i,
{
    if i == 0 {
        (Fx { v: SCALE }, Fx { v: SCALE })
    } else {
        let (t0, s0) = fexp_iter(y, (i - 1) as nat);
        let t = fdiv_int(fmul(t0, y), i as int);
        (t, fadd(s0, t))
    }
}

/// `k` successive saturating squarings.
pub open spec fn fsq_iter(r: Fx, k: nat) -> Fx
    decreases k,
{
    if k == 0 {
        r
    } else {
        let p = fsq_iter(r, (k - 1) as nat);
        fmul(p, p)
    }
}

/// The exponential: arguments above 14 saturate (the true value exceeds the
/// representable bound), arguments below -30 flush to zero (the true value
/// is below the resolution); otherwise the series through `(x/32)^15 / 15!`
/// squared five times.
pub open spec fn fexp(x: Fx) -> Fx {
    if x.v > 14 * SCALE {
        Fx { v: FX_BOUND }
    } else if x.v < -30 * SCALE {
        Fx { v: 0 }
    } else {
        fsq_iter(fexp_iter(Fx { v: tdiv(x.v as int, 32) as i128 }, 15).1, 5)
    }
}

impl Fx {
    pub fn powi(self, n: u32) -> (r: Fx)
        requires
            self.wf(),
        ensures
            r == fpowi(self, n as nat),
            r.wf(),
    {
        let mut acc = Fx { v: SCALE };
        for i in 0..n
            invariant
                acc == fpowi(self, i as nat),
                acc.wf(),
                self.wf(),
        {
            acc = acc.times(self);
        }
        acc
    }

    pub fn exp_fx(self) -> (r: Fx)
        requires
            self.wf(),
        ensures
            r == fexp(self),
            r.wf(),
    {
        if self.v > 14 * SCALE {
            Fx { v: FX_BOUND }
        } else if self.v < -30 * SCALE {
            Fx { v: 0 }
        } else {
            let y = self.div_int(32);
            let mut term = Fx { v: SCALE };
            let mut s = Fx { v: SCALE };
            for i in 1..16u32
                invariant
                    y.wf(),
                    term.wf(),
                    s.wf(),
                    (term, s) == fexp_iter(y, (i - 1) as nat),
            {
                term = term.times(y).div_int(i as i128);
                s = s.plus(term);
            }
            let mut r = s;
            for k in 0..5u32
                invariant
                    s.wf(),
                    r.wf(),
                    r == fsq_iter(s, k as nat),
            {
                r = r.times(r);
            }
            r
        }
    }
}

pub const HALF_UNITS: i128 = 500_000_000_000;

/// Truncated units of the natural logarithm of two.
pub const LN2_UNITS: i128 = 693_147_180_560;

/// Number of doublings that bring a unit count in `[1, SCALE]` up to at
/// least `SCALE / 2`.
pub open spec fn reduce_count(v: int) -> nat
    decreases (if 1 <= v < HALF_UNITS {
        HALF_UNITS - v
    } else {
        0
    }),
{
    if 1 <= v && v < HALF_UNITS {
        (1 + reduce_count(2 * v)) as nat
    } else {
        0
    }
}

pub open spec fn pow2_i(k: nat) -> int
    decreases k,
{
    if k == 0 {
        1
    } else {
        2 * pow2_i((k - 1) as nat)
    }
}

proof fn lemma_pow2_lb(k: nat)
    ensures
        pow2_i(k) >= k + 1,
    decreases k,
{
    if k > 0 {
        lemma_pow2_lb((k - 1) as nat);
    }
}

/// One step pair of the `atanh` series for the logarithm: after `i` steps
/// the pair holds `u^(2i+1)` and the partial sum of `u^(2j+1) / (2j+1)`.
pub open spec fn fln_iter(u: Fx, i: nat) -> (Fx, Fx)
    decreases i,
{
    if i == 0 {
        (u, u)
    } else {
        let (t0, s0) = fln_iter(u, (i - 1) as nat);
        let t = fmul(t0, fmul(u, u));
        (t, fadd(s0, fdiv_int(t, 2 * (i as int) + 1)))
    }
}

/// Natural logarithm of a scalar in `(0, 1]`: the argument is doubled into
/// `[1/2, 1]`, the series is evaluated there, and the doublings are paid
/// back as multiples of `ln 2`.
pub open spec fn fln(y: Fx) -> Fx {
    let c = reduce_count(y.v as int);
    let w = Fx { v: (y.v * pow2_i(c)) as i128 };
    let u = fdiv(fsub(w, Fx { v: SCALE }), fadd(w, Fx { v: SCALE }));
    let s = fln_iter(u, 12).1;
    fadd(Fx { v: clamp_i(-(c as int) * LN2_UNITS) as i128 }, fmul(Fx { v: (2 * SCALE) as i128 }, s))
}

impl Fx {
    pub fn ln_fx(self) -> (r: Fx)
        requires
            self.wf(),
            1 <= self.v <= SCALE,
        ensures
            r == fln(self),
            r.wf(),
    {
        let mut y = self;
        let mut count: u64 = 0;
        while y.v < HALF_UNITS
            invariant
                1 <= y.v <= SCALE,
                y.v == self.v * pow2_i(count as nat),
                pow2_i(count as nat) <= y.v,
                reduce_count(self.v as int) == count + reduce_count(y.v as int),
            decreases (if y.v < HALF_UNITS {
                HALF_UNITS - y.v
            } else {
                0
            }),
        {
            proof {
                lemma_pow2_lb(count as nat);
                assert(self.v * (2 * pow2_i(count as nat)) == 2 * (self.v * pow2_i(
                    count as nat,
                ))) by (nonlinear_arith);
            }
            y = Fx { v: y.v * 2 };
            count = count + 1;
        }
        proof {
            assert(reduce_count(y.v as int) == 0);
        }
        let one = Fx { v: SCALE };
        let u = y.minus(one).div_by(y.plus(one));
        let u2 = u.times(u);
        let mut t = u;
        let mut s = u;
        for i in 1..13u32
            invariant
                u.wf(),
                u2 == fmul(u, u),
                t.wf(),
                s.wf(),
                (t, s) == fln_iter(u, (i - 1) as nat),
        {
            t = t.times(u2);
            s = s.plus(t.div_int(2 * (i as i128) + 1));
        }
        proof {
            lemma_pow2_lb(count as nat);
        }
        let paid: i128 = (count as i128) * LN2_UNITS;
        let acc = Fx::from_units(-paid);
        acc.plus(Fx { v: 2 * SCALE }.times(s))
    }
}

/// The smaller of two scalars, keeping the first on ties.
pub open spec fn fmin(a: Fx, b: Fx) -> Fx {
    if b.v < a.v {
        b
    } else {
        a
    }
}

/// The larger of two scalars, keeping the first on ties.
pub open spec fn fmax(a: Fx, b: Fx) -> Fx {
    if b.v > a.v {
        b
    } else {
        a
    }
}

/// Left fold of `fmin` over a sequence.
pub open spec fn fold_min_spec(s: Seq<Fx>, acc: Fx) -> Fx
    decreases s.len(),
{
    if s.len() == 0 {
        acc
    } else {
        fold_min_spec(s.skip(1), fmin(acc, s[0]))
    }
}

/// Left fold of `fmax` over a sequence.
pub open spec fn fold_max_spec(s: Seq<Fx>, acc: Fx) -> Fx
    decreases s.len(),
{
    if s.len() == 0 {
        acc
    } else {
        fold_max_spec(s.skip(1), fmax(acc, s[0]))
    }
}

/// Fold a series down to its smallest value, starting from `init`
/// (the axis-scaling helper of the rendering layer).
pub fn fold_min(xs: &Vec<Fx>, init: Fx) -> (r: Fx)
    ensures
        r == fold_min_spec(xs@, init),
{
    let mut acc = init;
    let n = xs.len();
    proof {
        assert(xs@.skip(0) =~= xs@);
    }
    for i in 0..n
        invariant
            n == xs@.len(),
            fold_min_spec(xs@, init) == fold_min_spec(xs@.skip(i as int), acc),
    {
        proof {
            assert(xs@.skip(i as int).skip(1) =~= xs@.skip(i + 1));
            assert(xs@.skip(i as int)[0] == xs@[i as int]);
        }
        if xs[i].v < acc.v {
            acc = xs[i];
        }
    }
    proof {
        assert(xs@.skip(n as int).len() == 0);
    }
    acc
}

/// Fold a series up to its largest value, starting from `init`.
pub fn fold_max(xs: &Vec<Fx>, init: Fx) -> (r: Fx)
    ensures
        r == fold_max_spec(xs@, init),
{
    let mut acc = init;
    let n = xs.len();
    proof {
        assert(xs@.skip(0) =~= xs@);
    }
    for i in 0..n
        invariant
            n == xs@.len(),
            fold_max_spec(xs@, init) == fold_max_spec(xs@.skip(i as int), acc),
    {
        proof {
            assert(xs@.skip(i as int).skip(1) =~= xs@.skip(i + 1));
            assert(xs@.skip(i as int)[0] == xs@[i as int]);
        }
        if xs[i].v > acc.v {
            acc = xs[i];
        }
    }
    proof {
        assert(xs@.skip(n as int).len() == 0);
    }
    acc
}

} // verus!
