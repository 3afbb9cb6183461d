//! Saturating fixed-point arithmetic.
//!
//! A quantity of the simulation (position, velocity, force, distance) is an
//! `Fp`: a signed count of 1/`SCALE` units stored in an `i64`.  Every
//! operation saturates at the `i64` range instead of wrapping, so each
//! operation is total and its result is pinned exactly by the spec
//! functions below.

use vstd::prelude::*;

verus! {

/// Number of fixed-point units in one whole unit: an `Fp` with raw part `r`
/// denotes the real number `r / SCALE`.
pub const SCALE: i64 = 1000000;

/// A saturating fixed-point number: `raw` counts 1/`SCALE` units.
#[derive(Clone, Copy, PartialEq, Eq, Structural, Debug)]
pub struct Fp {
    pub raw: i64,
}

impl View for Fp {
    type V = int;

    open spec fn view(&self) -> int {
        self.raw as int
    }
}

/// Saturate an unbounded integer into the `i64` range.
pub open spec fn clip(x: int) -> int {
    if x > i64::MAX {
        i64::MAX as int
    } else if x < i64::MIN {
        i64::MIN as int
    } else {
        x
    }
}

/// Absolute value.
pub open spec fn abs(x: int) -> int {
    if x < 0 {
        -x
    } else {
        x
    }
}

/// Division truncating toward zero, as machine division does
/// (spec-level `/` on `int` is Euclidean); 0 when the divisor is 0.
pub open spec fn tdiv(a: int, b: int) -> int {
    if b == 0 {
        0
    } else if (a < 0) == (b < 0) {
        abs(a) / abs(b)
    } else {
        -(abs(a) / abs(b))
    }
}

/// Saturating fixed-point sum.
pub open spec fn fp_add(a: int, b: int) -> int {
    clip(a + b)
}

/// Saturating fixed-point difference.
pub open spec fn fp_sub(a: int, b: int) -> int {
    clip(a - b)
}

/// Saturating fixed-point product: `a * b` carries a factor SCALE too many.
pub open spec fn fp_mul(a: int, b: int) -> int {
    clip(tdiv(a * b, SCALE as int))
}

/// Saturating fixed-point quotient: the dividend is pre-scaled so the
/// quotient is again in 1/SCALE units.
pub open spec fn fp_div(a: int, b: int) -> int {
    clip(tdiv(a * (SCALE as int), b))
}

/// Truncating remainder (sign follows the dividend), as machine `%` does.
pub open spec fn tmod(a: int, b: int) -> int {
    a - tdiv(a, b) * b
}

/// `r` is the integer square-root floor of `n`.
pub open spec fn is_sqrt_floor(n: int, r: int) -> bool {
    0 <= r && r * r <= n && n < (r + 1) * (r + 1)
}

/// The integer square-root floor (meaningful for `n >= 0`).
pub open spec fn sqrt_floor(n: int) -> int {
    choose|r: int| is_sqrt_floor(n, r)
}

/// Raw value of the euclidean length of the vector `(a, b)`: the
/// square-root floor of `a * a + b * b`, saturated into the `i64` range.
pub open spec fn dist_raw(a: int, b: int) -> int {
    clip(sqrt_floor(a * a + b * b))
}

/// `((c + dim) mod dim)`: toroidal wrap of a coordinate, with a
/// truncating remainder and a saturated sum.
pub open spec fn wrap_raw(c: int, dim: int) -> int {
    tmod(clip(c + dim), dim)
}

pub proof fn lemma_sqrt_floor_exists(n: int)
    requires
        n >= 0,
    ensures
        is_sqrt_floor(n, sqrt_floor(n)),
    decreases n,
{
    if n == 0 {
        assert(is_sqrt_floor(0, 0));
    } else {
        lemma_sqrt_floor_exists(n - 1);
        let w = sqrt_floor(n - 1);
        if (w + 1) * (w + 1) <= n {
            assert(is_sqrt_floor(n, w + 1)) by (nonlinear_arith)
                requires
                    is_sqrt_floor(n - 1, w),
                    (w + 1) * (w + 1) <= n,
            ;
        } else {
            assert(is_sqrt_floor(n, w));
        }
    }
}

pub proof fn lemma_sqrt_floor_unique(n: int, r: int)
    requires
        is_sqrt_floor(n, r),
    ensures
        r == sqrt_floor(n),
{
    assert(n >= 0) by (nonlinear_arith)
        requires
            is_sqrt_floor(n, r),
    ;
    lemma_sqrt_floor_exists(n);
    assert(r == sqrt_floor(n)) by (nonlinear_arith)
        requires
            is_sqrt_floor(n, r),
            is_sqrt_floor(n, sqrt_floor(n)),
    ;
}

/// Bound and sign of a truncating quotient.
pub proof fn lemma_tdiv_bound(a: int, b: int)
    requires
        b > 0,
    ensures
        abs(tdiv(a, b)) <= abs(a),
        a >= 0 ==> 0 <= tdiv(a, b),
        a < 0 ==> tdiv(a, b) <= 0,
{
    vstd::arithmetic::div_mod::lemma_div_nonincreasing(abs(a), b);
    vstd::arithmetic::div_mod::lemma_div_pos_is_pos(abs(a), b);
}

/// The truncating remainder lies strictly inside `(-b, b)` and is
/// nonnegative for a nonnegative dividend.
pub proof fn lemma_tmod_range(a: int, b: int)
    requires
        b > 0,
    ensures
        -b < tmod(a, b) < b,
        a >= 0 ==> 0 <= tmod(a, b),
{
    if a >= 0 {
        let q = a / b;
        assert(tdiv(a, b) == q);
        vstd::arithmetic::div_mod::lemma_fundamental_div_mod(a, b);
        assert(a == b * q + a % b);
        assert(q * b == b * q) by (nonlinear_arith);
        vstd::arithmetic::div_mod::lemma_mod_division_less_than_divisor(a, b);
        assert(tmod(a, b) == a % b);
    } else {
        let q = (-a) / b;
        assert(tdiv(a, b) == -q);
        vstd::arithmetic::div_mod::lemma_fundamental_div_mod(-a, b);
        assert(-a == b * q + (-a) % b);
        assert((-q) * b == -(b * q)) by (nonlinear_arith);
        vstd::arithmetic::div_mod::lemma_mod_division_less_than_divisor(-a, b);
        assert(tmod(a, b) == -((-a) % b));
    }
}

/// A truncating quotient of an exact multiple recovers the factor.
pub proof fn lemma_tdiv_multiple(x: int, d: int)
    requires
        d > 0,
    ensures
        tdiv(x * d, d) == x,
{
    if x >= 0 {
        assert(x * d >= 0) by (nonlinear_arith)
            requires
                x >= 0,
                d > 0,
        ;
        vstd::arithmetic::div_mod::lemma_div_multiples_vanish(x, d);
        assert(x * d == d * x) by (nonlinear_arith);
    } else {
        assert(x * d < 0) by (nonlinear_arith)
            requires
                x < 0,
                d > 0,
        ;
        assert(-(x * d) == (-x) * d) by (nonlinear_arith);
        vstd::arithmetic::div_mod::lemma_div_multiples_vanish(-x, d);
        assert((-x) * d == d * (-x)) by (nonlinear_arith);
    }
}

/// A truncating quotient of an exactly divisible dividend is the
/// Euclidean one, and multiplying back recovers the dividend.
pub proof fn lemma_tdiv_exact(x: int, d: int)
    requires
        d > 0,
        x % d == 0,
    ensures
        tdiv(x, d) == x / d,
        tdiv(x, d) * d == x,
{
    vstd::arithmetic::div_mod::lemma_fundamental_div_mod(x, d);
    let q = x / d;
    assert(x == d * q);
    assert(d * q == q * d) by (nonlinear_arith);
    lemma_tdiv_multiple(q, d);
}

/// The toroidal wrap lands on `[0, dim)` for every starting coordinate
/// already on the plane and every single-frame displacement smaller in
/// magnitude than one plane dimension.
pub proof fn lemma_wrap_invariant(x: int, v: int, dim: int)
    requires
        0 < dim,
        0 <= x < dim,
        -dim < v < dim,
        2 * dim <= i64::MAX,
    ensures
        0 <= wrap_raw(fp_add(x, v), dim) < dim,
{
    let c = fp_add(x, v);
    assert(c == x + v);
    assert(clip(c + dim) >= 0);
    lemma_tmod_range(clip(c + dim), dim);
}

/// Saturate an `i128` into the `i64` range.
fn clamp_i64(x: i128) -> (r: i64)
    ensures
        r as int == clip(x as int),
{
    if x > i64::MAX as i128 {
        i64::MAX
    } else if x < i64::MIN as i128 {
        i64::MIN
    } else {
        x as i64
    }
}

/// Truncating division on `i128` with a positive divisor, via unsigned
/// division on magnitudes.
pub(crate) fn tdiv_i128(a: i128, b: i128) -> (q: i128)
    requires
        b > 0,
        a > i128::MIN,
    ensures
        q as int == tdiv(a as int, b as int),
{
    if a >= 0 {
        let q = (a as u128) / (b as u128);
        q as i128
    } else {
        let na = -a;
        let q = (na as u128) / (b as u128);
        assert(q <= na as u128);
        -(q as i128)
    }
}

/// Integer square-root floor by binary search on the root.
pub fn isqrt_u128(n: u128) -> (r: u128)
    ensures
        r as int == sqrt_floor(n as int),
        is_sqrt_floor(n as int, r as int),
{
    let mut lo: u128 = 0;
    let mut hi: u128 = 0x10000000000000000;
    proof {
        assert((0x10000000000000000 as int) * (0x10000000000000000 as int) > n as int);
    }
    while hi - lo > 1
        invariant
            lo < hi <= 0x10000000000000000,
            (lo as int) * (lo as int) <= n as int,
            (n as int) < (hi as int) * (hi as int),
        decreases hi - lo,
    {
        let mid: u128 = lo + (hi - lo) / 2;
        proof {
            assert(lo < mid < hi);
            assert((mid as int) * (mid as int) < 0x100000000000000000000000000000000)
                by (nonlinear_arith)
                requires
                    mid < 0x10000000000000000,
            ;
        }
        let sq: u128 = mid * mid;
        if sq <= n {
            lo = mid;
        } else {
            hi = mid;
        }
    }
    proof {
        assert(is_sqrt_floor(n as int, lo as int));
        lemma_sqrt_floor_unique(n as int, lo as int);
    }
    lo
}

/// Magnitude of an `i64` as a `u64` (the magnitude of `i64::MIN` fits).
fn abs_u64(x: i64) -> (r: u64)
    ensures
        r as int == abs(x as int),
{
    if x >= 0 {
        x as u64
    } else {
        (-(x as i128)) as u64
    }
}

/// Euclidean length of the vector `(dx, dy)`, rounded down to whole
/// fixed-point units of the result scale.
pub fn dist(dx: Fp, dy: Fp) -> (r: Fp)
    ensures
        r@ == dist_raw(dx@, dy@),
{
    let ax: u64 = abs_u64(dx.raw);
    let ay: u64 = abs_u64(dy.raw);
    proof {
        assert((ax as int) * (ax as int) == (dx@) * (dx@)
            && (ay as int) * (ay as int) == (dy@) * (dy@)
            && (ax as int) * (ax as int) <= 0x40000000000000000000000000000000
            && (ay as int) * (ay as int) <= 0x40000000000000000000000000000000)
            by (nonlinear_arith)
            requires
                ax as int == abs(dx@),
                ay as int == abs(dy@),
                -0x8000000000000000 <= dx@ <= 0x7fffffffffffffff,
                -0x8000000000000000 <= dy@ <= 0x7fffffffffffffff,
        ;
    }
    let s: u128 = (ax as u128) * (ax as u128) + (ay as u128) * (ay as u128);
    let q = isqrt_u128(s);
    if q > i64::MAX as u128 {
        Fp { raw: i64::MAX }
    } else {
        Fp { raw: q as i64 }
    }
}

/// Wrap a coordinate onto `[0, dim)` by `((c + dim) mod dim)`.  The range
/// is in fact reached whenever the shifted coordinate is not negative,
/// which a single backward excursion of less than one plane dimension
/// never produces.
pub fn wrap_coord(c: Fp, dim: Fp) -> (r: Fp)
    requires
        dim@ > 0,
    ensures
        r@ == wrap_raw(c@, dim@),
        c@ + dim@ >= 0 ==> 0 <= r@ < dim@,
        -dim@ < r@ < dim@,
{
    let sc: i64 = clamp_i64(c.raw as i128 + dim.raw as i128);
    let q: i128 = tdiv_i128(sc as i128, dim.raw as i128);
    proof {
        lemma_tdiv_bound(sc as int, dim@);
        assert(abs(q as int) * (dim.raw as int) <= abs(sc as int) * (dim.raw as int))
            by (nonlinear_arith)
            requires
                abs(q as int) <= abs(sc as int),
                dim.raw as int > 0,
        ;
        assert(abs(sc as int) * (dim.raw as int) < 0x40000000000000000000000000000000)
            by (nonlinear_arith)
            requires
                abs(sc as int) <= 0x8000000000000000,
                0 < dim.raw as int <= 0x7fffffffffffffff,
        ;
        assert(abs(q as int * (dim.raw as int)) == abs(q as int) * (dim.raw as int))
            by (nonlinear_arith)
            requires
                dim.raw as int > 0,
        ;
        lemma_tmod_range(sc as int, dim@);
    }
    let rem: i128 = sc as i128 - q * (dim.raw as i128);
    Fp { raw: rem as i64 }
}

impl Fp {
    /// The fixed-point zero.
    pub fn zero() -> (r: Fp)
        ensures
            r@ == 0,
    {
        Fp { raw: 0 }
    }

    /// The fixed-point number for `n` whole units, saturated.
    pub fn from_int(n: i64) -> (r: Fp)
        ensures
            r@ == clip(n * (SCALE as int)),
    {
        let a: i128 = n as i128;
        proof {
            assert(a * 1000000 <= 0x40000000000000000000000000000000
                && a * 1000000 >= -0x40000000000000000000000000000000) by (nonlinear_arith)
                requires
                    -0x8000000000000000 <= a <= 0x7fffffffffffffff,
            ;
        }
        let p: i128 = a * (SCALE as i128);
        Fp { raw: clamp_i64(p) }
    }

    /// Saturating sum.
    pub fn add(self, o: Fp) -> (r: Fp)
        ensures
            r@ == fp_add(self@, o@),
    {
        let s: i128 = self.raw as i128 + o.raw as i128;
        Fp { raw: clamp_i64(s) }
    }

    /// Saturating difference.
    pub fn sub(self, o: Fp) -> (r: Fp)
        ensures
            r@ == fp_sub(self@, o@),
    {
        let s: i128 = self.raw as i128 - o.raw as i128;
        Fp { raw: clamp_i64(s) }
    }

    /// Saturating negation.
    pub fn neg(self) -> (r: Fp)
        ensures
            r@ == clip(-self@),
    {
        if self.raw == i64::MIN {
            Fp { raw: i64::MAX }
        } else {
            Fp { raw: -self.raw }
        }
    }

    /// Saturating fixed-point product.
    pub fn mul(self, o: Fp) -> (r: Fp)
        ensures
            r@ == fp_mul(self@, o@),
    {
        let a: i128 = self.raw as i128;
        let b: i128 = o.raw as i128;
        proof {
            assert(a * b <= 0x40000000000000000000000000000000
                && a * b >= -0x40000000000000000000000000000000) by (nonlinear_arith)
                requires
                    -0x8000000000000000 <= a <= 0x7fffffffffffffff,
                    -0x8000000000000000 <= b <= 0x7fffffffffffffff,
            ;
        }
        let p: i128 = a * b;
        Fp { raw: clamp_i64(tdiv_i128(p, SCALE as i128)) }
    }

    /// Saturating fixed-point quotient; the divisor must not be zero.
    pub fn div(self, o: Fp) -> (r: Fp)
        requires
            o@ != 0,
        ensures
            r@ == fp_div(self@, o@),
    {
        let a: i128 = self.raw as i128;
        proof {
            assert(a * 1000000 <= 0x40000000000000000000000000000000
                && a * 1000000 >= -0x40000000000000000000000000000000) by (nonlinear_arith)
                requires
                    -0x8000000000000000 <= a <= 0x7fffffffffffffff,
            ;
        }
        let n: i128 = a * (SCALE as i128);
        if o.raw >= 0 {
            Fp { raw: clamp_i64(tdiv_i128(n, o.raw as i128)) }
        } else {
            let d: i128 = -(o.raw as i128);
            let q = tdiv_i128(n, d);
            assert(tdiv(n as int, o.raw as int) == -tdiv(n as int, d as int));
            Fp { raw: clamp_i64(-q) }
        }
    }
}

} // verus!
