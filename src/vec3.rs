//! Fixed-point 3-vectors. One pixel is `SCALE` units; every stored coordinate
//! lies in `[-COORD_MAX, COORD_MAX]`.

use vstd::prelude::*;

verus! {

/// Units per pixel.
pub const SCALE: i64 = 1024;

/// Largest magnitude of a stored coordinate (2^30 units).
pub const COORD_MAX: i64 = 1073741824;

/// Largest magnitude of a difference of two stored coordinates (2^31 units).
pub const DELTA_MAX: i64 = 2147483648;

pub open spec fn clamp_int(v: int, lo: int, hi: int) -> int {
    if v < lo {
        lo
    } else if v > hi {
        hi
    } else {
        v
    }
}

/// A coordinate brought into the representable range.
pub open spec fn sat(v: int) -> int {
    clamp_int(v, -COORD_MAX, COORD_MAX as int)
}

/// Division rounding toward zero, as Rust's `/` does.
pub open spec fn div_trunc(a: int, b: int) -> int {
    if a >= 0 {
        a / b
    } else {
        -((-a) / b)
    }
}

/// The floor of the square root.
pub open spec fn is_sqrt_floor(n: int, r: int) -> bool {
    0 <= r && r * r <= n && n < (r + 1) * (r + 1)
}

pub open spec fn sqrt_floor(n: int) -> int {
    choose|r: int| is_sqrt_floor(n, r)
}

pub proof fn lemma_sqrt_floor_unique(n: int, r: int)
    requires
        is_sqrt_floor(n, r),
    ensures
        sqrt_floor(n) == r,
{
    let s = sqrt_floor(n);
    assert(is_sqrt_floor(n, s));
    if s < r {
        assert((s + 1) * (s + 1) <= r * r) by (nonlinear_arith)
            requires
                0 <= s,
                s + 1 <= r,
        ;
    } else if r < s {
        assert((r + 1) * (r + 1) <= s * s) by (nonlinear_arith)
            requires
                0 <= r,
                r + 1 <= s,
        ;
    }
}

/// Every non-negative integer has a square root rounded down.
pub proof fn lemma_sqrt_floor_exists(n: int)
    requires
        0 <= n,
    ensures
        exists|r: int| is_sqrt_floor(n, r),
        0 <= sqrt_floor(n),
    decreases n,
{
    if n == 0 {
        assert(is_sqrt_floor(0, 0));
    } else {
        lemma_sqrt_floor_exists(n - 1);
        let s = sqrt_floor(n - 1);
        assert(is_sqrt_floor(n - 1, s));
        if n < (s + 1) * (s + 1) {
            assert(is_sqrt_floor(n, s));
        } else {
            assert(n == (s + 1) * (s + 1));
            assert(n < (s + 2) * (s + 2)) by (nonlinear_arith)
                requires
                    n == (s + 1) * (s + 1),
                    s >= 0,
            ;
            assert(is_sqrt_floor(n, s + 1));
        }
    }
}

/// Integer square root, rounded down.
pub fn isqrt(n: u64) -> (r: u64)
    ensures
        is_sqrt_floor(n as int, r as int),
        r as int == sqrt_floor(n as int),
{
    let mut lo: u64 = 0;
    let mut hi: u64 = 4294967296;
    assert(n < hi * hi) by (nonlinear_arith)
        requires
            hi == 4294967296,
            n <= u64::MAX,
    ;
    while lo + 1 < hi
        invariant
            lo < hi <= 4294967296,
            lo * lo <= n,
            n < hi * hi,
        decreases hi - lo,
    {
        let mid: u64 = lo + (hi - lo) / 2;
        assert(mid * mid < 18446744073709551616) by (nonlinear_arith)
            requires
                mid < 4294967296,
        ;
        if mid * mid <= n {
            lo = mid;
        } else {
            hi = mid;
        }
    }
    proof {
        lemma_sqrt_floor_unique(n as int, lo as int);
    }
    lo
}

/// A point or displacement in fixed-point units.
#[derive(Clone, Copy, Debug, PartialEq, Eq, Structural)]
pub struct Vec3 {
    pub x: i64,
    pub y: i64,
    pub z: i64,
}

pub open spec fn vec_of(x: int, y: int, z: int) -> Vec3 {
    Vec3 { x: x as i64, y: y as i64, z: z as i64 }
}

pub open spec fn coord_ok(v: int) -> bool {
    -COORD_MAX <= v <= COORD_MAX
}

pub open spec fn dist_sq(a: Vec3, b: Vec3) -> int {
    (b.x - a.x) * (b.x - a.x) + (b.y - a.y) * (b.y - a.y) + (b.z - a.z) * (b.z - a.z)
}

pub open spec fn clamp_vec(v: Vec3, lo: Vec3, hi: Vec3) -> Vec3 {
    vec_of(
        clamp_int(v.x as int, lo.x as int, hi.x as int),
        clamp_int(v.y as int, lo.y as int, hi.y as int),
        clamp_int(v.z as int, lo.z as int, hi.z as int),
    )
}

fn clamp_i64(v: i64, lo: i64, hi: i64) -> (r: i64)
    requires
        lo <= hi,
    ensures
        r == clamp_int(v as int, lo as int, hi as int),
{
    if v < lo {
        lo
    } else if v > hi {
        hi
    } else {
        v
    }
}

/// Brings an exact intermediate value back into the stored range.
pub fn saturate(v: i128) -> (r: i64)
    ensures
        r == sat(v as int),
{
    if v < -(COORD_MAX as i128) {
        -COORD_MAX
    } else if v > COORD_MAX as i128 {
        COORD_MAX
    } else {
        v as i64
    }
}

/// `a / b` rounded toward zero.
pub fn div_trunc_i128(a: i128, b: i128) -> (r: i128)
    requires
        b > 0,
        a > i128::MIN,
    ensures
        r == div_trunc(a as int, b as int),
        a >= 0 ==> 0 <= r <= a,
        a < 0 ==> a <= r <= 0,
{
    proof {
        if a >= 0 {
            vstd::arithmetic::div_mod::lemma_div_is_ordered_by_denominator(a as int, 1, b as int);
            vstd::arithmetic::div_mod::lemma_div_pos_is_pos(a as int, b as int);
        } else {
            vstd::arithmetic::div_mod::lemma_div_is_ordered_by_denominator(-a, 1, b as int);
            vstd::arithmetic::div_mod::lemma_div_pos_is_pos(-a, b as int);
        }
    }
    if a >= 0 {
        a / b
    } else {
        let q = (-a) / b;
        -q
    }
}

impl Vec3 {
    pub fn new(x: i64, y: i64, z: i64) -> (r: Vec3)
        ensures
            r == (Vec3 { x, y, z }),
    {
        Vec3 { x, y, z }
    }

    pub fn zero() -> (r: Vec3)
        ensures
            r == (Vec3 { x: 0, y: 0, z: 0 }),
    {
        Vec3 { x: 0, y: 0, z: 0 }
    }

    /// Every coordinate lies in the stored range.
    pub open spec fn in_range(self) -> bool {
        coord_ok(self.x as int) && coord_ok(self.y as int) && coord_ok(self.z as int)
    }

    pub open spec fn fits_sum(self, rhs: Vec3) -> bool {
        i64::MIN <= self.x + rhs.x <= i64::MAX && i64::MIN <= self.y + rhs.y <= i64::MAX
            && i64::MIN <= self.z + rhs.z <= i64::MAX
    }

    pub open spec fn fits_diff(self, rhs: Vec3) -> bool {
        i64::MIN <= self.x - rhs.x <= i64::MAX && i64::MIN <= self.y - rhs.y <= i64::MAX
            && i64::MIN <= self.z - rhs.z <= i64::MAX
    }

    pub open spec fn fits_scaled(self, k: i64) -> bool {
        i64::MIN <= self.x * k <= i64::MAX && i64::MIN <= self.y * k <= i64::MAX
            && i64::MIN <= self.z * k <= i64::MAX
    }

    /// Componentwise sum.
    pub fn add(self, rhs: Vec3) -> (r: Vec3)
        requires
            self.fits_sum(rhs),
        ensures
            r == vec_of(self.x + rhs.x, self.y + rhs.y, self.z + rhs.z),
    {
        Vec3 { x: self.x + rhs.x, y: self.y + rhs.y, z: self.z + rhs.z }
    }

    /// Componentwise difference.
    pub fn sub(self, rhs: Vec3) -> (r: Vec3)
        requires
            self.fits_diff(rhs),
        ensures
            r == vec_of(self.x - rhs.x, self.y - rhs.y, self.z - rhs.z),
    {
        Vec3 { x: self.x - rhs.x, y: self.y - rhs.y, z: self.z - rhs.z }
    }

    /// Every coordinate multiplied by `k`.
    pub fn mul(self, k: i64) -> (r: Vec3)
        requires
            self.fits_scaled(k),
        ensures
            r == vec_of(self.x * k, self.y * k, self.z * k),
    {
        Vec3 { x: self.x * k, y: self.y * k, z: self.z * k }
    }

    pub fn add_assign(&mut self, rhs: Vec3)
        requires
            old(self).fits_sum(rhs),
        ensures
            *final(self) == vec_of(old(self).x + rhs.x, old(self).y + rhs.y, old(self).z + rhs.z),
    {
        *self = self.add(rhs);
    }

    pub fn sub_assign(&mut self, rhs: Vec3)
        requires
            old(self).fits_diff(rhs),
        ensures
            *final(self) == vec_of(old(self).x - rhs.x, old(self).y - rhs.y, old(self).z - rhs.z),
    {
        *self = self.sub(rhs);
    }

    /// Euclidean length, rounded down to a whole unit.
    pub fn length(&self) -> (r: u64)
        requires
            -DELTA_MAX <= self.x <= DELTA_MAX,
            -DELTA_MAX <= self.y <= DELTA_MAX,
            -DELTA_MAX <= self.z <= DELTA_MAX,
        ensures
            r as int == sqrt_floor(self.x * self.x + self.y * self.y + self.z * self.z),
    {
        let n = squared_norm(self.x, self.y, self.z);
        isqrt(n)
    }

    /// Each coordinate clamped into `[lo, hi]` on its axis.
    pub fn clamp(self, lo: Vec3, hi: Vec3) -> (r: Vec3)
        requires
            lo.x <= hi.x,
            lo.y <= hi.y,
            lo.z <= hi.z,
        ensures
            r == clamp_vec(self, lo, hi),
    {
        Vec3 {
            x: clamp_i64(self.x, lo.x, hi.x),
            y: clamp_i64(self.y, lo.y, hi.y),
            z: clamp_i64(self.z, lo.z, hi.z),
        }
    }
}

/// `x² + y² + z²` for coordinates no larger than a difference of two stored
/// coordinates.
pub fn squared_norm(x: i64, y: i64, z: i64) -> (r: u64)
    requires
        -DELTA_MAX <= x <= DELTA_MAX,
        -DELTA_MAX <= y <= DELTA_MAX,
        -DELTA_MAX <= z <= DELTA_MAX,
    ensures
        r as int == x * x + y * y + z * z,
{
    assert(0 <= x * x <= DELTA_MAX * DELTA_MAX) by (nonlinear_arith)
        requires
            -DELTA_MAX <= x <= DELTA_MAX,
    ;
    assert(0 <= y * y <= DELTA_MAX * DELTA_MAX) by (nonlinear_arith)
        requires
            -DELTA_MAX <= y <= DELTA_MAX,
    ;
    assert(0 <= z * z <= DELTA_MAX * DELTA_MAX) by (nonlinear_arith)
        requires
            -DELTA_MAX <= z <= DELTA_MAX,
    ;
    let xx = (x as i128 * x as i128) as u64;
    let yy = (y as i128 * y as i128) as u64;
    let zz = (z as i128 * z as i128) as u64;
    xx + yy + zz
}

/// Distance between two points, rounded down to a whole unit.
pub fn distance(a: Vec3, b: Vec3) -> (r: u64)
    requires
        a.in_range(),
        b.in_range(),
    ensures
        r as int == sqrt_floor(dist_sq(a, b)),
{
    let d = b.sub(a);
    d.length()
}

/// Each coordinate clamped into `[min, max]` on its axis.
pub fn vclamp(value: Vec3, min: Vec3, max: Vec3) -> (r: Vec3)
    requires
        min.x <= max.x,
        min.y <= max.y,
        min.z <= max.z,
    ensures
        r == clamp_vec(value, min, max),
{
    value.clamp(min, max)
}

/// Clamping is a no-op on a point already inside the box, and clamping twice
/// gives what clamping once gave.
pub proof fn lemma_clamp_idempotent(v: Vec3, lo: Vec3, hi: Vec3)
    requires
        lo.x <= hi.x,
        lo.y <= hi.y,
        lo.z <= hi.z,
    ensures
        clamp_vec(clamp_vec(v, lo, hi), lo, hi) == clamp_vec(v, lo, hi),
        (lo.x <= v.x <= hi.x && lo.y <= v.y <= hi.y && lo.z <= v.z <= hi.z) ==> clamp_vec(
            v,
            lo,
            hi,
        ) == v,
{
}

} // verus!
