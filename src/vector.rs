use vstd::prelude::*;

verus! {

/// Fixed-point units per world unit: a coordinate `v` stands for `v / SCALE`.
pub const SCALE: i64 = 1000;

/// Bound on the magnitude of every scene coordinate, in fixed-point units.
pub const LIMIT: i64 = 16777216;

/// A point or a direction in fixed-point world coordinates.
#[derive(Clone, Copy, Debug, PartialEq, Eq, Structural)]
pub struct Vec3 {
    pub x: i64,
    pub y: i64,
    pub z: i64,
}

/// Every component of `v` lies within `[-b, b]`.
pub open spec fn bounded(v: Vec3, b: int) -> bool {
    -b <= v.x <= b && -b <= v.y <= b && -b <= v.z <= b
}

pub open spec fn vadd(a: Vec3, b: Vec3) -> Vec3 {
    Vec3 { x: (a.x + b.x) as i64, y: (a.y + b.y) as i64, z: (a.z + b.z) as i64 }
}

pub open spec fn vsub(a: Vec3, b: Vec3) -> Vec3 {
    Vec3 { x: (a.x - b.x) as i64, y: (a.y - b.y) as i64, z: (a.z - b.z) as i64 }
}

pub open spec fn dot_spec(a: Vec3, b: Vec3) -> int {
    a.x * b.x + a.y * b.y + a.z * b.z
}

/// Division rounding toward zero, as the machine divides.
pub open spec fn div_trunc(a: int, b: int) -> int {
    if a >= 0 { a / b } else { -((-a) / b) }
}

/// Largest integer whose square does not exceed `n`.
pub open spec fn is_isqrt(n: int, r: int) -> bool {
    0 <= r && r * r <= n < (r + 1) * (r + 1)
}

/// The integer square root of `n`, for `n >= 0`.
pub open spec fn isqrt_spec(n: int) -> int {
    choose|r: int| is_isqrt(n, r)
}

/// `v` rescaled to length `SCALE`, each component rounded toward zero; the
/// zero vector stays zero.
pub open spec fn normalize_spec(v: Vec3) -> Vec3 {
    normalized(v, isqrt_spec(dot_spec(v, v)))
}

pub open spec fn cross_spec(a: Vec3, b: Vec3) -> Vec3 {
    Vec3 {
        x: (a.y * b.z - a.z * b.y) as i64,
        y: (a.z * b.x - a.x * b.z) as i64,
        z: (a.x * b.y - a.y * b.x) as i64,
    }
}

pub proof fn lemma_isqrt_unique(n: int, r: int)
    requires
        is_isqrt(n, r),
    ensures
        isqrt_spec(n) == r,
{
    let q = isqrt_spec(n);
    assert(is_isqrt(n, q));
    if q < r {
        assert((q + 1) * (q + 1) <= r * r) by (nonlinear_arith)
            requires 0 <= q, q + 1 <= r;
    }
    if r < q {
        assert((r + 1) * (r + 1) <= q * q) by (nonlinear_arith)
            requires 0 <= r, r + 1 <= q;
    }
}

/// `v` rescaled to length `SCALE`, each component rounded toward zero;
/// `len` is the integer square root of `v`'s squared length.
pub open spec fn normalized(v: Vec3, len: int) -> Vec3 {
    if len == 0 {
        Vec3 { x: 0, y: 0, z: 0 }
    } else {
        Vec3 {
            x: div_trunc(v.x * SCALE, len) as i64,
            y: div_trunc(v.y * SCALE, len) as i64,
            z: div_trunc(v.z * SCALE, len) as i64,
        }
    }
}

/// Quotient rounded toward zero; `b` is positive.
pub fn div_toward_zero(a: i64, b: i64) -> (r: i64)
    requires
        b > 0,
        a > i64::MIN,
    ensures
        r == div_trunc(a as int, b as int),
{
    if a >= 0 {
        ((a as u64) / (b as u64)) as i64
    } else {
        let q: u64 = ((-a) as u64) / (b as u64);
        proof {
            assert(q <= (-a) as u64) by {
                vstd::arithmetic::div_mod::lemma_div_is_ordered_by_denominator(
                    (-a) as int, 1, b as int);
            }
        }
        -(q as i64)
    }
}

/// Integer square root by bisection.
pub fn isqrt(n: u64) -> (r: u64)
    requires
        n < 0x4000_0000_0000_0000,
    ensures
        is_isqrt(n as int, r as int),
{
    let mut lo: u64 = 0;
    let mut hi: u64 = 0x8000_0000;
    assert(hi * hi > n) by (nonlinear_arith)
        requires hi == 0x8000_0000, n < 0x4000_0000_0000_0000;
    while lo + 1 < hi
        invariant
            lo < hi <= 0x8000_0000,
            lo * lo <= n,
            n < hi * hi,
        decreases hi - lo,
    {
        let mid: u64 = lo + (hi - lo) / 2;
        assert(mid * mid <= 0x4000_0000_0000_0000) by (nonlinear_arith)
            requires mid < 0x8000_0000;
        if mid * mid <= n {
            lo = mid;
        } else {
            hi = mid;
        }
    }
    lo
}

impl Vec3 {
    pub fn new(x: i64, y: i64, z: i64) -> (v: Vec3)
        ensures
            v == (Vec3 { x, y, z }),
    {
        Vec3 { x, y, z }
    }

    pub fn add(&self, o: &Vec3) -> (v: Vec3)
        requires
            bounded(*self, 0x1000_0000_0000),
            bounded(*o, 0x1000_0000_0000),
        ensures
            v.x == self.x + o.x,
            v.y == self.y + o.y,
            v.z == self.z + o.z,
            v == vadd(*self, *o),
    {
        Vec3 { x: self.x + o.x, y: self.y + o.y, z: self.z + o.z }
    }

    pub fn sub(&self, o: &Vec3) -> (v: Vec3)
        requires
            bounded(*self, 0x1000_0000_0000),
            bounded(*o, 0x1000_0000_0000),
        ensures
            v.x == self.x - o.x,
            v.y == self.y - o.y,
            v.z == self.z - o.z,
            v == vsub(*self, *o),
    {
        Vec3 { x: self.x - o.x, y: self.y - o.y, z: self.z - o.z }
    }

    pub fn dot(&self, o: &Vec3) -> (r: i64)
        requires
            bounded(*self, 0x4000_0000),
            bounded(*o, 0x4000_0000),
        ensures
            r == dot_spec(*self, *o),
    {
        proof {
            lemma_dot_bound(*self, *o, 0x4000_0000);
        }
        self.x * o.x + self.y * o.y + self.z * o.z
    }

    /// Cross product; the result carries the product of the two scales.
    pub fn cross(&self, o: &Vec3) -> (v: Vec3)
        requires
            bounded(*self, 0x4000_0000),
            bounded(*o, 0x4000_0000),
        ensures
            v == cross_spec(*self, *o),
    {
        proof {
            lemma_dot_bound(*self, *o, 0x4000_0000);
            lemma_dot_bound(Vec3 { x: self.y, y: self.z, z: self.x }, Vec3 { x: o.z, y: o.x, z: o.y }, 0x4000_0000);
            lemma_dot_bound(Vec3 { x: self.z, y: self.x, z: self.y }, Vec3 { x: o.y, y: o.z, z: o.x }, 0x4000_0000);
        }
        Vec3 {
            x: self.y * o.z - self.z * o.y,
            y: self.z * o.x - self.x * o.z,
            z: self.x * o.y - self.y * o.x,
        }
    }

    /// This vector scaled to length `SCALE`; the zero vector stays zero.
    pub fn normalize(&self) -> (v: Vec3)
        requires
            bounded(*self, 0x4000_0000),
        ensures
            v == normalize_spec(*self),
            bounded(v, SCALE as int),
    {
        proof {
            lemma_dot_bound(*self, *self, 0x4000_0000);
            let (x, y, z) = (self.x as int, self.y as int, self.z as int);
            assert(x * x >= 0 && y * y >= 0 && z * z >= 0) by (nonlinear_arith);
        }
        let sq: i64 = self.dot(self);
        let len: u64 = isqrt(sq as u64);
        proof {
            assert(len < 0x8000_0000) by (nonlinear_arith)
                requires len * len <= sq, sq < 0x4000_0000_0000_0000;
        }
        if len == 0 {
            proof {
                lemma_isqrt_unique(dot_spec(*self, *self), len as int);
            }
            return Vec3 { x: 0, y: 0, z: 0 };
        }
        let l: i64 = len as i64;
        proof {
            lemma_component_within_length(self.x as int, dot_spec(*self, *self), l as int);
            lemma_component_within_length(self.y as int, dot_spec(*self, *self), l as int);
            lemma_component_within_length(self.z as int, dot_spec(*self, *self), l as int);
        }
        let v = Vec3 {
            x: div_toward_zero(self.x * SCALE, l),
            y: div_toward_zero(self.y * SCALE, l),
            z: div_toward_zero(self.z * SCALE, l),
        };
        proof {
            lemma_scaled_quotient(self.x as int, l as int);
            lemma_scaled_quotient(self.y as int, l as int);
            lemma_scaled_quotient(self.z as int, l as int);
            lemma_isqrt_unique(dot_spec(*self, *self), l as int);
        }
        v
    }
}

pub proof fn lemma_dot_bound(a: Vec3, b: Vec3, m: int)
    requires
        0 <= m <= 0x4000_0000,
        bounded(a, m),
        bounded(b, m),
    ensures
        -(m * m) <= a.x * b.x <= m * m,
        -(m * m) <= a.y * b.y <= m * m,
        -(m * m) <= a.z * b.z <= m * m,
        -3 * (m * m) <= dot_spec(a, b) <= 3 * (m * m),
{
    assert(-(m * m) <= a.x * b.x <= m * m) by (nonlinear_arith)
        requires -m <= a.x <= m, -m <= b.x <= m;
    assert(-(m * m) <= a.y * b.y <= m * m) by (nonlinear_arith)
        requires -m <= a.y <= m, -m <= b.y <= m;
    assert(-(m * m) <= a.z * b.z <= m * m) by (nonlinear_arith)
        requires -m <= a.z <= m, -m <= b.z <= m;
}

proof fn lemma_isqrt_exists(n: int, lo: int, hi: int)
    requires
        0 <= lo < hi,
        lo * lo <= n < hi * hi,
    ensures
        is_isqrt(n, isqrt_spec(n)),
    decreases hi - lo,
{
    if lo + 1 == hi {
        assert(is_isqrt(n, lo));
    } else {
        let mid = lo + (hi - lo) / 2;
        if mid * mid <= n {
            lemma_isqrt_exists(n, mid, hi);
        } else {
            lemma_isqrt_exists(n, lo, mid);
        }
    }
}

/// A normalised vector has every component within `[-SCALE, SCALE]`.
pub proof fn lemma_normalize_bounded(v: Vec3)
    requires
        bounded(v, 0x4000_0000),
    ensures
        bounded(normalize_spec(v), SCALE as int),
{
    let sq = dot_spec(v, v);
    let (x, y, z) = (v.x as int, v.y as int, v.z as int);
    assert(x * x >= 0 && y * y >= 0 && z * z >= 0) by (nonlinear_arith);
    assert(sq < (sq + 1) * (sq + 1)) by (nonlinear_arith) requires sq >= 0;
    lemma_isqrt_exists(sq, 0, sq + 1);
    let len = isqrt_spec(sq);
    if len > 0 {
        lemma_dot_bound(v, v, 0x4000_0000);
        lemma_component_within_length(x, sq, len);
        lemma_component_within_length(y, sq, len);
        lemma_component_within_length(z, sq, len);
        lemma_scaled_quotient(x, len);
        lemma_scaled_quotient(y, len);
        lemma_scaled_quotient(z, len);
    }
}

proof fn lemma_component_within_length(c: int, sq: int, len: int)
    requires
        c * c <= sq,
        is_isqrt(sq, len),
        len > 0,
    ensures
        -len <= c <= len,
{
    if c > len {
        assert(c * c >= (len + 1) * (len + 1)) by (nonlinear_arith)
            requires c >= len + 1, len > 0;
    }
    if c < -len {
        assert(c * c >= (len + 1) * (len + 1)) by (nonlinear_arith)
            requires -c >= len + 1, len > 0;
    }
}

proof fn lemma_scaled_quotient(c: int, len: int)
    requires
        -len <= c <= len,
        len > 0,
    ensures
        -SCALE <= div_trunc(c * SCALE, len) <= SCALE,
{
    if c >= 0 {
        assert(c * SCALE <= len * SCALE) by (nonlinear_arith)
            requires c <= len, len > 0;
        vstd::arithmetic::div_mod::lemma_div_is_ordered(c * SCALE, len * SCALE, len);
        vstd::arithmetic::div_mod::lemma_div_by_multiple(SCALE as int, len);
        assert(c * SCALE >= 0) by (nonlinear_arith) requires c >= 0;
        vstd::arithmetic::div_mod::lemma_div_pos_is_pos(c * SCALE, len);
    } else {
        assert((-c) * SCALE <= len * SCALE) by (nonlinear_arith)
            requires -c <= len, len > 0;
        assert(-(c * SCALE) == (-c) * SCALE) by (nonlinear_arith);
        vstd::arithmetic::div_mod::lemma_div_is_ordered((-c) * SCALE, len * SCALE, len);
        vstd::arithmetic::div_mod::lemma_div_by_multiple(SCALE as int, len);
        assert((-c) * SCALE >= 0) by (nonlinear_arith) requires c < 0;
        vstd::arithmetic::div_mod::lemma_div_pos_is_pos((-c) * SCALE, len);
    }
}

} // verus!
