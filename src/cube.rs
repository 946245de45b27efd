use vstd::prelude::*;
use crate::material::Material;
use crate::ray_intersect::{
    empty_spec, frac_le, frac_lt, ray_ok, Fraction, Intersect, RayIntersect,
};
use crate::vector::{bounded, div_toward_zero, div_trunc, Vec3, LIMIT, SCALE};

verus! {

/// An axis-aligned cube; `size` is its edge length.
#[derive(Clone, Copy, Debug)]
pub struct Cube {
    pub center: Vec3,
    pub size: i64,
    pub material: Material,
}

/// The parameter range during which a ray stays between the two planes of
/// one axis.
#[derive(Clone, Copy, Debug)]
pub enum Slab {
    /// The ray runs parallel to the planes, between them.
    Free,
    /// The ray runs parallel to the planes, outside them.
    Empty,
    /// The ray crosses both planes; `face` is the sign of the outward normal
    /// of the plane it enters through.
    Span { enter: Fraction, exit: Fraction, face: i64 },
}

/// The slab of one axis, for a cube centred at `c` with edge `s`, and a ray
/// with origin `o` and direction `d` on that axis. Planes are compared in
/// doubled coordinates so that half an edge stays exact.
pub open spec fn slab_spec(c: int, s: int, o: int, d: int) -> Slab {
    let lo2 = 2 * c - s;
    let hi2 = 2 * c + s;
    if d == 0 {
        if lo2 <= 2 * o && 2 * o <= hi2 { Slab::Free } else { Slab::Empty }
    } else if d > 0 {
        Slab::Span {
            enter: Fraction { num: (lo2 - 2 * o) as i64, den: (2 * d) as i64 },
            exit: Fraction { num: (hi2 - 2 * o) as i64, den: (2 * d) as i64 },
            face: -1i64,
        }
    } else {
        Slab::Span {
            enter: Fraction { num: (2 * o - hi2) as i64, den: (-2 * d) as i64 },
            exit: Fraction { num: (2 * o - lo2) as i64, den: (-2 * d) as i64 },
            face: 1i64,
        }
    }
}

/// The running intersection of slab ranges: `missed` once a slab is empty,
/// `bounded` once a slab has constrained it, and `normal` the outward normal
/// of the face that gave the latest entry.
#[derive(Clone, Copy, Debug)]
pub struct Interval {
    pub missed: bool,
    pub bounded: bool,
    pub enter: Fraction,
    pub exit: Fraction,
    pub normal: Vec3,
}

pub open spec fn start_interval() -> Interval {
    Interval {
        missed: false,
        bounded: false,
        enter: Fraction { num: 0, den: 1 },
        exit: Fraction { num: 0, den: 1 },
        normal: Vec3 { x: 0, y: 0, z: 0 },
    }
}

/// Unit normal (length `SCALE`) along `axis` with sign `face`.
pub open spec fn axis_normal(axis: int, face: int) -> Vec3 {
    let n = (face * SCALE) as i64;
    if axis == 0 {
        Vec3 { x: n, y: 0, z: 0 }
    } else if axis == 1 {
        Vec3 { x: 0, y: n, z: 0 }
    } else {
        Vec3 { x: 0, y: 0, z: n }
    }
}

/// Narrow `acc` by the slab of `axis`: the latest entry and the earliest exit win.
pub open spec fn meet(acc: Interval, slab: Slab, axis: int) -> Interval {
    match slab {
        Slab::Free => acc,
        Slab::Empty => Interval { missed: true, ..acc },
        Slab::Span { enter, exit, face } => {
            if !acc.bounded {
                Interval { missed: acc.missed, bounded: true, enter, exit, normal: axis_normal(axis, face as int) }
            } else {
                Interval {
                    missed: acc.missed,
                    bounded: true,
                    enter: if frac_lt(acc.enter, enter) { enter } else { acc.enter },
                    exit: if frac_lt(exit, acc.exit) { exit } else { acc.exit },
                    normal: if frac_lt(acc.enter, enter) { axis_normal(axis, face as int) } else { acc.normal },
                }
            }
        },
    }
}

/// The interval of parameters at which the ray is inside the cube.
pub open spec fn cube_interval(cube: Cube, o: Vec3, d: Vec3) -> Interval {
    let c = cube.center;
    let s = cube.size as int;
    let ix = meet(start_interval(), slab_spec(c.x as int, s, o.x as int, d.x as int), 0);
    let iy = meet(ix, slab_spec(c.y as int, s, o.y as int, d.y as int), 1);
    meet(iy, slab_spec(c.z as int, s, o.z as int, d.z as int), 2)
}

/// The ray meets the cube at a parameter that is not negative.
pub open spec fn interval_hits(iv: Interval) -> bool {
    !iv.missed && iv.bounded && frac_le(iv.enter, iv.exit) && iv.exit.num >= 0
}

/// The parameter reported for a hit: the entry, or the exit where the origin
/// is inside the cube.
pub open spec fn hit_param(iv: Interval) -> Fraction {
    if iv.enter.num >= 0 { iv.enter } else { iv.exit }
}

/// `o + t * d`, each component rounded toward zero.
pub open spec fn along(o: Vec3, d: Vec3, t: Fraction) -> Vec3 {
    Vec3 {
        x: (o.x + div_trunc(t.num * d.x, t.den as int)) as i64,
        y: (o.y + div_trunc(t.num * d.y, t.den as int)) as i64,
        z: (o.z + div_trunc(t.num * d.z, t.den as int)) as i64,
    }
}

pub open spec fn cube_intersect_spec(cube: Cube, o: Vec3, d: Vec3) -> Intersect {
    let iv = cube_interval(cube, o, d);
    if interval_hits(iv) {
        let t = hit_param(iv);
        Intersect {
            point: along(o, d, t),
            normal: iv.normal,
            distance: t,
            material: cube.material,
            is_intersecting: true,
        }
    } else {
        empty_spec()
    }
}

fn slab(c: i64, s: i64, o: i64, d: i64) -> (r: Slab)
    requires
        -LIMIT <= c <= LIMIT,
        0 <= s <= LIMIT,
        -2 * LIMIT <= o <= 2 * LIMIT,
        -4 * LIMIT <= d <= 4 * LIMIT,
    ensures
        r == slab_spec(c as int, s as int, o as int, d as int),
{
    let lo2: i64 = 2 * c - s;
    let hi2: i64 = 2 * c + s;
    if d == 0 {
        if lo2 <= 2 * o && 2 * o <= hi2 {
            Slab::Free
        } else {
            Slab::Empty
        }
    } else if d > 0 {
        Slab::Span {
            enter: Fraction { num: lo2 - 2 * o, den: 2 * d },
            exit: Fraction { num: hi2 - 2 * o, den: 2 * d },
            face: -1,
        }
    } else {
        Slab::Span {
            enter: Fraction { num: 2 * o - hi2, den: -2 * d },
            exit: Fraction { num: 2 * o - lo2, den: -2 * d },
            face: 1,
        }
    }
}

/// A slab fraction: numerator and denominator within the bounds the
/// comparisons are proved for.
pub open spec fn small_frac(f: Fraction) -> bool {
    -8 * LIMIT <= f.num <= 8 * LIMIT && 0 < f.den <= 8 * LIMIT
}

pub open spec fn slab_ok(s: Slab) -> bool {
    match s {
        Slab::Span { enter, exit, face } => small_frac(enter) && small_frac(exit) && (face == 1 || face == -1),
        _ => true,
    }
}

pub open spec fn interval_ok(iv: Interval) -> bool {
    small_frac(iv.enter) && small_frac(iv.exit) && bounded(iv.normal, SCALE as int)
}

fn less(a: Fraction, b: Fraction) -> (r: bool)
    requires
        small_frac(a),
        small_frac(b),
    ensures
        r == frac_lt(a, b),
{
    proof {
        lemma_small_product(a.num as int, b.den as int);
        lemma_small_product(b.num as int, a.den as int);
    }
    a.num * b.den < b.num * a.den
}

proof fn lemma_small_product(a: int, b: int)
    requires
        -8 * LIMIT <= a <= 8 * LIMIT,
        -8 * LIMIT <= b <= 8 * LIMIT,
    ensures
        -0x4000_0000_0000_0000 < a * b < 0x4000_0000_0000_0000,
{
    assert(-18014398509481984 <= a * b <= 18014398509481984) by (nonlinear_arith)
        requires -134217728 <= a <= 134217728, -134217728 <= b <= 134217728;
}

fn normal_of(axis: u8, face: i64) -> (n: Vec3)
    requires
        axis <= 2,
        face == 1 || face == -1,
    ensures
        n == axis_normal(axis as int, face as int),
        bounded(n, SCALE as int),
{
    let v: i64 = face * SCALE;
    if axis == 0 {
        Vec3 { x: v, y: 0, z: 0 }
    } else if axis == 1 {
        Vec3 { x: 0, y: v, z: 0 }
    } else {
        Vec3 { x: 0, y: 0, z: v }
    }
}

fn meet_exec(acc: Interval, s: Slab, axis: u8) -> (r: Interval)
    requires
        axis <= 2,
        slab_ok(s),
        acc.bounded ==> interval_ok(acc),
    ensures
        r == meet(acc, s, axis as int),
        r.bounded ==> interval_ok(r),
{
    match s {
        Slab::Free => acc,
        Slab::Empty => Interval { missed: true, ..acc },
        Slab::Span { enter, exit, face } => {
            if !acc.bounded {
                Interval { missed: acc.missed, bounded: true, enter, exit, normal: normal_of(axis, face) }
            } else {
                let later: bool = less(acc.enter, enter);
                let earlier: bool = less(exit, acc.exit);
                Interval {
                    missed: acc.missed,
                    bounded: true,
                    enter: if later { enter } else { acc.enter },
                    exit: if earlier { exit } else { acc.exit },
                    normal: if later { normal_of(axis, face) } else { acc.normal },
                }
            }
        },
    }
}


/// `t` lies in the parameter range of `slab`.
pub open spec fn within(slab: Slab, t: Fraction) -> bool {
    match slab {
        Slab::Free => true,
        Slab::Empty => false,
        Slab::Span { enter, exit, face } => frac_le(enter, t) && frac_le(t, exit),
    }
}

proof fn lemma_frac_trans(a: Fraction, b: Fraction, c: Fraction)
    requires
        a.den > 0,
        b.den > 0,
        c.den > 0,
        frac_le(a, b),
        frac_le(b, c),
    ensures
        frac_le(a, c),
{
    let (an, ad, bn, bd, cn, cd) = (a.num as int, a.den as int, b.num as int, b.den as int, c.num as int, c.den as int);
    assert(an * bd * cd <= bn * ad * cd) by (nonlinear_arith)
        requires an * bd <= bn * ad, cd > 0;
    assert(bn * cd * ad <= cn * bd * ad) by (nonlinear_arith)
        requires bn * cd <= cn * bd, ad > 0;
    assert(an * cd * bd <= cn * ad * bd) by (nonlinear_arith)
        requires an * bd * cd <= bn * ad * cd, bn * cd * ad <= cn * bd * ad;
    assert(an * cd <= cn * ad) by (nonlinear_arith)
        requires an * cd * bd <= cn * ad * bd, bd > 0;
}

/// After a meet, the interval lies inside both the old interval and the slab.
proof fn lemma_meet_narrows(acc: Interval, s: Slab, axis: int)
    requires
        slab_ok(s),
        acc.bounded ==> interval_ok(acc),
    ensures
        ({
            let r = meet(acc, s, axis);
            &&& acc.bounded ==> frac_le(acc.enter, r.enter) && frac_le(r.exit, acc.exit)
            &&& (s matches Slab::Span { enter, exit, face } ==> frac_le(enter, r.enter) && frac_le(r.exit, exit))
            &&& (s matches Slab::Empty ==> r.missed)
            &&& (acc.missed ==> r.missed)
            &&& (acc.bounded ==> r.bounded)
            &&& (s matches Slab::Span { .. } ==> r.bounded)
        }),
{
    match s {
        Slab::Span { enter, exit, face } => {
            assert(frac_le(enter, enter) && frac_le(exit, exit));
        },
        _ => {},
    }
    if acc.bounded {
        assert(frac_le(acc.enter, acc.enter));
        assert(frac_le(acc.exit, acc.exit));
    }
}

/// Within a slab, `o + t * d` (rounded toward zero) stays between the planes,
/// give or take one unit.
proof fn lemma_axis_point(c: int, s: int, o: int, d: int, t: Fraction)
    requires
        -LIMIT <= c <= LIMIT,
        0 <= s <= LIMIT,
        -2 * LIMIT <= o <= 2 * LIMIT,
        -4 * LIMIT <= d <= 4 * LIMIT,
        small_frac(t),
        within(slab_spec(c, s, o, d), t),
    ensures
        -0x4000_0000_0000_0000 < t.num * d < 0x4000_0000_0000_0000,
        -2 * LIMIT + 1 <= o + div_trunc(t.num * d, t.den as int) <= 2 * LIMIT - 1,
{
    let n = t.num as int;
    let den = t.den as int;
    let x = n * d;
    assert(-32 * LIMIT * LIMIT <= x <= 32 * LIMIT * LIMIT) by (nonlinear_arith)
        requires x == n * d, -8 * LIMIT <= n <= 8 * LIMIT, -4 * LIMIT <= d <= 4 * LIMIT;
    let lo2 = 2 * c - s;
    let hi2 = 2 * c + s;
    if d == 0 {
        assert(x == 0) by (nonlinear_arith) requires x == n * d, d == 0;
        assert(0int / den == 0) by (nonlinear_arith) requires den > 0;
    } else {
        let a = lo2 - 2 * o;
        let b = hi2 - 2 * o;
        if d > 0 {
            assert(a * den <= 2 * x <= b * den) by (nonlinear_arith)
                requires x == n * d, a * den <= n * (2 * d), n * (2 * d) <= b * den;
        } else {
            assert(a * den <= 2 * x <= b * den) by (nonlinear_arith)
                requires x == n * d, (-b) * den <= n * (-2 * d), n * (-2 * d) <= (-a) * den;
        }
        let q = div_trunc(x, den);
        if x >= 0 {
            vstd::arithmetic::div_mod::lemma_fundamental_div_mod(x, den);
            assert(q * den <= x < q * den + den);
        } else {
            vstd::arithmetic::div_mod::lemma_fundamental_div_mod(-x, den);
            assert(q * den - den < x <= q * den) by (nonlinear_arith)
                requires q == -((-x) / den), -x == den * ((-x) / den) + (-x) % den,
                    0 <= (-x) % den < den;
        }
        assert(a - 2 < 2 * q <= b + 2) by (nonlinear_arith)
            requires a * den <= 2 * x <= b * den, den > 0,
                q * den - den < x < q * den + den;
    }
}

/// The reported parameter lies in the range of every axis's slab.
proof fn lemma_param_within(cube: Cube, o: Vec3, d: Vec3)
    requires
        cube.well_formed(),
        ray_ok(o, d),
        interval_hits(cube_interval(cube, o, d)),
    ensures
        ({
            let c = cube.center;
            let s = cube.size as int;
            let t = hit_param(cube_interval(cube, o, d));
            &&& small_frac(t)
            &&& t.num >= 0
            &&& within(slab_spec(c.x as int, s, o.x as int, d.x as int), t)
            &&& within(slab_spec(c.y as int, s, o.y as int, d.y as int), t)
            &&& within(slab_spec(c.z as int, s, o.z as int, d.z as int), t)
            &&& interval_ok(cube_interval(cube, o, d))
        }),
{
    let c = cube.center;
    let s = cube.size as int;
    let sx = slab_spec(c.x as int, s, o.x as int, d.x as int);
    let sy = slab_spec(c.y as int, s, o.y as int, d.y as int);
    let sz = slab_spec(c.z as int, s, o.z as int, d.z as int);
    let ix = meet(start_interval(), sx, 0);
    let iy = meet(ix, sy, 1);
    let iv = meet(iy, sz, 2);
    assert(slab_ok(sx) && slab_ok(sy) && slab_ok(sz));
    lemma_meet_narrows(start_interval(), sx, 0);
    lemma_meet_narrows(ix, sy, 1);
    lemma_meet_narrows(iy, sz, 2);
    lemma_meet_keeps_ok(start_interval(), sx, 0);
    lemma_meet_keeps_ok(ix, sy, 1);
    lemma_meet_keeps_ok(iy, sz, 2);
    let t = hit_param(iv);
    assert(frac_le(iv.enter, t) && frac_le(t, iv.exit)) by {
        assert(frac_le(iv.exit, iv.exit));
        assert(frac_le(iv.enter, iv.enter));
    }
    if let Slab::Span { enter, exit, face } = sx {
        if iy.bounded {
            lemma_frac_trans(enter, ix.enter, iy.enter);
            lemma_frac_trans(iy.exit, ix.exit, exit);
        }
        lemma_frac_trans(enter, iy.enter, iv.enter);
        lemma_frac_trans(iv.exit, iy.exit, exit);
        lemma_frac_trans(enter, iv.enter, t);
        lemma_frac_trans(t, iv.exit, exit);
    }
    if let Slab::Span { enter, exit, face } = sy {
        lemma_frac_trans(enter, iy.enter, iv.enter);
        lemma_frac_trans(iv.exit, iy.exit, exit);
        lemma_frac_trans(enter, iv.enter, t);
        lemma_frac_trans(t, iv.exit, exit);
    }
    if let Slab::Span { enter, exit, face } = sz {
        lemma_frac_trans(enter, iv.enter, t);
        lemma_frac_trans(t, iv.exit, exit);
    }
}

proof fn lemma_meet_keeps_ok(acc: Interval, s: Slab, axis: int)
    requires
        0 <= axis <= 2,
        slab_ok(s),
        acc.bounded ==> interval_ok(acc),
    ensures
        meet(acc, s, axis).bounded ==> interval_ok(meet(acc, s, axis)),
{
}

proof fn lemma_hit_point(cube: Cube, o: Vec3, d: Vec3)
    requires
        cube.well_formed(),
        ray_ok(o, d),
        interval_hits(cube_interval(cube, o, d)),
    ensures
        ({
            let t = hit_param(cube_interval(cube, o, d));
            &&& small_frac(t)
            &&& t.num >= 0
            &&& -0x4000_0000_0000_0000 < t.num * d.x < 0x4000_0000_0000_0000
            &&& -0x4000_0000_0000_0000 < t.num * d.y < 0x4000_0000_0000_0000
            &&& -0x4000_0000_0000_0000 < t.num * d.z < 0x4000_0000_0000_0000
            &&& bounded(along(o, d, t), 2 * LIMIT - 1)
            &&& bounded(cube_interval(cube, o, d).normal, SCALE as int)
        }),
{
    let c = cube.center;
    let s = cube.size as int;
    let t = hit_param(cube_interval(cube, o, d));
    lemma_param_within(cube, o, d);
    lemma_axis_point(c.x as int, s, o.x as int, d.x as int, t);
    lemma_axis_point(c.y as int, s, o.y as int, d.y as int, t);
    lemma_axis_point(c.z as int, s, o.z as int, d.z as int, t);
}

/// The vector with `v` on `axis` and zero elsewhere.
pub open spec fn on_axis(axis: int, v: int) -> Vec3 {
    if axis == 0 {
        Vec3 { x: v as i64, y: 0, z: 0 }
    } else if axis == 1 {
        Vec3 { x: 0, y: v as i64, z: 0 }
    } else {
        Vec3 { x: 0, y: 0, z: v as i64 }
    }
}

/// A ray that starts outside a cube, `k` away from its center along one
/// axis on the side `sign`, and heads straight for the center, hits it: the
/// distance is `(k - size / 2) / m` for a direction of length `m`, and the
/// normal is that of the face it enters, pointing back toward the origin.
pub proof fn lemma_axis_ray_hits_near_face(cube: Cube, axis: int, sign: int, k: int, m: int)
    requires
        cube.well_formed(),
        0 <= axis <= 2,
        sign == 1 || sign == -1,
        cube.size < 2 * k,
        k <= LIMIT,
        0 < m <= 4 * LIMIT,
    ensures
        ({
            let o = Vec3 {
                x: (cube.center.x + on_axis(axis, sign * k).x) as i64,
                y: (cube.center.y + on_axis(axis, sign * k).y) as i64,
                z: (cube.center.z + on_axis(axis, sign * k).z) as i64,
            };
            let r = cube_intersect_spec(cube, o, on_axis(axis, -sign * m));
            &&& r.is_intersecting
            &&& r.distance == (Fraction { num: (2 * k - cube.size) as i64, den: (2 * m) as i64 })
            &&& r.normal == axis_normal(axis, sign)
        }),
{
    let s = cube.size as int;
    let c = cube.center;
    assert((2 * k - s) * (2 * m) <= (2 * k + s) * (2 * m)) by (nonlinear_arith)
        requires s >= 0, m > 0;
    let span = if sign == 1 {
        Slab::Span {
            enter: Fraction { num: (2 * k - s) as i64, den: (2 * m) as i64 },
            exit: Fraction { num: (2 * k + s) as i64, den: (2 * m) as i64 },
            face: 1i64,
        }
    } else {
        Slab::Span {
            enter: Fraction { num: (2 * k - s) as i64, den: (2 * m) as i64 },
            exit: Fraction { num: (2 * k + s) as i64, den: (2 * m) as i64 },
            face: -1i64,
        }
    };
    let iv = meet(start_interval(), span, axis);
    assert(sign == 1 ==> sign * k == k && -sign * m == -m) by (nonlinear_arith);
    assert(sign == -1 ==> sign * k == -k && -sign * m == m) by (nonlinear_arith);
    if axis == 0 {
        assert(slab_spec(c.x as int, s, c.x + sign * k, -sign * m) == span);
        assert(slab_spec(c.y as int, s, c.y as int, 0) == Slab::Free);
        assert(slab_spec(c.z as int, s, c.z as int, 0) == Slab::Free);
    } else if axis == 1 {
        assert(slab_spec(c.x as int, s, c.x as int, 0) == Slab::Free);
        assert(slab_spec(c.y as int, s, c.y + sign * k, -sign * m) == span);
        assert(slab_spec(c.z as int, s, c.z as int, 0) == Slab::Free);
    } else {
        assert(slab_spec(c.x as int, s, c.x as int, 0) == Slab::Free);
        assert(slab_spec(c.y as int, s, c.y as int, 0) == Slab::Free);
        assert(slab_spec(c.z as int, s, c.z + sign * k, -sign * m) == span);
    }
}

/// The ray stays on one side of an axis's slab for every parameter that is
/// not negative.
pub open spec fn stays_outside(c: int, s: int, o: int, d: int) -> bool {
    (2 * o < 2 * c - s && d <= 0) || (2 * o > 2 * c + s && d >= 0)
}

proof fn lemma_negative_below(a: Fraction, b: Fraction)
    requires
        a.den > 0,
        b.den > 0,
        frac_le(a, b),
        b.num < 0,
    ensures
        a.num < 0,
{
    assert(a.num < 0) by (nonlinear_arith)
        requires a.den > 0, b.den > 0, a.num * b.den <= b.num * a.den, b.num < 0;
}

/// A ray that stays outside the slab of some axis misses the cube.
pub proof fn lemma_outside_slab_misses(cube: Cube, o: Vec3, d: Vec3)
    requires
        cube.well_formed(),
        ray_ok(o, d),
        stays_outside(cube.center.x as int, cube.size as int, o.x as int, d.x as int)
            || stays_outside(cube.center.y as int, cube.size as int, o.y as int, d.y as int)
            || stays_outside(cube.center.z as int, cube.size as int, o.z as int, d.z as int),
    ensures
        !cube_intersect_spec(cube, o, d).is_intersecting,
{
    let c = cube.center;
    let s = cube.size as int;
    let sx = slab_spec(c.x as int, s, o.x as int, d.x as int);
    let sy = slab_spec(c.y as int, s, o.y as int, d.y as int);
    let sz = slab_spec(c.z as int, s, o.z as int, d.z as int);
    let ix = meet(start_interval(), sx, 0);
    let iy = meet(ix, sy, 1);
    let iv = meet(iy, sz, 2);
    assert(slab_ok(sx) && slab_ok(sy) && slab_ok(sz));
    lemma_meet_narrows(start_interval(), sx, 0);
    lemma_meet_narrows(ix, sy, 1);
    lemma_meet_narrows(iy, sz, 2);
    lemma_meet_keeps_ok(start_interval(), sx, 0);
    lemma_meet_keeps_ok(ix, sy, 1);
    lemma_meet_keeps_ok(iy, sz, 2);
    if !iv.missed && iv.bounded {
        if let Slab::Span { enter, exit, face } = sx {
            if stays_outside(c.x as int, s, o.x as int, d.x as int) {
                if iy.bounded {
                    lemma_frac_trans(iy.exit, ix.exit, exit);
                }
                lemma_frac_trans(iv.exit, iy.exit, exit);
                lemma_negative_below(iv.exit, exit);
            }
        }
        if let Slab::Span { enter, exit, face } = sy {
            if stays_outside(c.y as int, s, o.y as int, d.y as int) {
                lemma_frac_trans(iv.exit, iy.exit, exit);
                lemma_negative_below(iv.exit, exit);
            }
        }
        if let Slab::Span { enter, exit, face } = sz {
            if stays_outside(c.z as int, s, o.z as int, d.z as int) {
                lemma_negative_below(iv.exit, exit);
            }
        }
    }
}

/// An axis along which the ray does not move, with the origin between that
/// axis's planes, constrains nothing: moving the origin anywhere between
/// those planes changes neither whether the cube is hit, nor the distance,
/// nor the normal.
pub proof fn lemma_parallel_axis_is_free(cube: Cube, o: Vec3, d: Vec3, x: i64)
    requires
        d.x == 0,
        2 * cube.center.x - cube.size <= 2 * o.x <= 2 * cube.center.x + cube.size,
        2 * cube.center.x - cube.size <= 2 * x <= 2 * cube.center.x + cube.size,
    ensures
        ({
            let r = cube_intersect_spec(cube, o, d);
            let q = cube_intersect_spec(cube, Vec3 { x, ..o }, d);
            &&& r.is_intersecting == q.is_intersecting
            &&& r.distance == q.distance
            &&& r.normal == q.normal
        }),
{
}

/// The exact point `o + t * d` lies between the two planes of one axis, in
/// doubled coordinates scaled by the denominator of `t`.
pub open spec fn in_slab(c: int, s: int, o: int, d: int, t: Fraction) -> bool {
    (2 * c - s) * t.den <= 2 * o * t.den + 2 * t.num * d <= (2 * c + s) * t.den
}

proof fn lemma_within_is_in_slab(c: int, s: int, o: int, d: int, t: Fraction)
    requires
        t.den > 0,
        within(slab_spec(c, s, o, d), t),
        -LIMIT <= c <= LIMIT,
        0 <= s <= LIMIT,
        -2 * LIMIT <= o <= 2 * LIMIT,
        -4 * LIMIT <= d <= 4 * LIMIT,
    ensures
        in_slab(c, s, o, d, t),
{
    let (n, den) = (t.num as int, t.den as int);
    let (lo2, hi2) = (2 * c - s, 2 * c + s);
    if d == 0 {
        assert(lo2 * den <= 2 * o * den + 2 * n * d <= hi2 * den) by (nonlinear_arith)
            requires d == 0, lo2 <= 2 * o <= hi2, den > 0;
    } else if d > 0 {
        assert(lo2 * den <= 2 * o * den + 2 * n * d <= hi2 * den) by (nonlinear_arith)
            requires (lo2 - 2 * o) * den <= n * (2 * d), n * (2 * d) <= (hi2 - 2 * o) * den;
    } else {
        assert(lo2 * den <= 2 * o * den + 2 * n * d <= hi2 * den) by (nonlinear_arith)
            requires (2 * o - hi2) * den <= n * (-2 * d), n * (-2 * d) <= (2 * o - lo2) * den;
    }
}

/// A reported hit is sound: the exact point of the ray at the reported
/// distance, which is not negative, lies inside the closed cube.
pub proof fn lemma_hit_lies_in_cube(cube: Cube, o: Vec3, d: Vec3)
    requires
        cube.well_formed(),
        ray_ok(o, d),
        cube_intersect_spec(cube, o, d).is_intersecting,
    ensures
        ({
            let t = cube_intersect_spec(cube, o, d).distance;
            let (c, s) = (cube.center, cube.size as int);
            &&& t.num >= 0 && t.den > 0
            &&& in_slab(c.x as int, s, o.x as int, d.x as int, t)
            &&& in_slab(c.y as int, s, o.y as int, d.y as int, t)
            &&& in_slab(c.z as int, s, o.z as int, d.z as int, t)
        }),
{
    let t = hit_param(cube_interval(cube, o, d));
    let (c, s) = (cube.center, cube.size as int);
    lemma_param_within(cube, o, d);
    lemma_within_is_in_slab(c.x as int, s, o.x as int, d.x as int, t);
    lemma_within_is_in_slab(c.y as int, s, o.y as int, d.y as int, t);
    lemma_within_is_in_slab(c.z as int, s, o.z as int, d.z as int, t);
}

proof fn lemma_in_slab_within(c: int, s: int, o: int, d: int, t: Fraction)
    requires
        t.den > 0,
        in_slab(c, s, o, d, t),
        -LIMIT <= c <= LIMIT,
        0 <= s <= LIMIT,
        -2 * LIMIT <= o <= 2 * LIMIT,
        -4 * LIMIT <= d <= 4 * LIMIT,
    ensures
        within(slab_spec(c, s, o, d), t),
{
    let (n, den) = (t.num as int, t.den as int);
    let (lo2, hi2) = (2 * c - s, 2 * c + s);
    if d == 0 {
        assert(lo2 <= 2 * o <= hi2) by (nonlinear_arith)
            requires d == 0, lo2 * den <= 2 * o * den + 2 * n * d <= hi2 * den, den > 0;
    } else if d > 0 {
        assert((lo2 - 2 * o) * den <= n * (2 * d) <= (hi2 - 2 * o) * den) by (nonlinear_arith)
            requires lo2 * den <= 2 * o * den + 2 * n * d <= hi2 * den;
    } else {
        assert((2 * o - hi2) * den <= n * (-2 * d) <= (2 * o - lo2) * den) by (nonlinear_arith)
            requires lo2 * den <= 2 * o * den + 2 * n * d <= hi2 * den;
    }
}

proof fn lemma_meet_keeps_param(acc: Interval, sl: Slab, axis: int, t: Fraction)
    requires
        t.den > 0,
        slab_ok(sl),
        acc.bounded ==> interval_ok(acc),
        !acc.missed,
        acc.bounded ==> frac_le(acc.enter, t) && frac_le(t, acc.exit),
        within(sl, t),
    ensures
        !meet(acc, sl, axis).missed,
        meet(acc, sl, axis).bounded ==> frac_le(meet(acc, sl, axis).enter, t) && frac_le(t, meet(acc, sl, axis).exit),
{
}

/// A ray with a direction that is not zero, whose exact point at some
/// parameter `t` that is not negative lies inside the closed cube, is
/// reported to hit it.
pub proof fn lemma_ray_through_cube_hits(cube: Cube, o: Vec3, d: Vec3, t: Fraction)
    requires
        cube.well_formed(),
        ray_ok(o, d),
        d.x != 0 || d.y != 0 || d.z != 0,
        t.num >= 0,
        t.den > 0,
        in_slab(cube.center.x as int, cube.size as int, o.x as int, d.x as int, t),
        in_slab(cube.center.y as int, cube.size as int, o.y as int, d.y as int, t),
        in_slab(cube.center.z as int, cube.size as int, o.z as int, d.z as int, t),
    ensures
        cube_intersect_spec(cube, o, d).is_intersecting,
{
    let c = cube.center;
    let s = cube.size as int;
    let sx = slab_spec(c.x as int, s, o.x as int, d.x as int);
    let sy = slab_spec(c.y as int, s, o.y as int, d.y as int);
    let sz = slab_spec(c.z as int, s, o.z as int, d.z as int);
    let ix = meet(start_interval(), sx, 0);
    let iy = meet(ix, sy, 1);
    let iv = meet(iy, sz, 2);
    assert(slab_ok(sx) && slab_ok(sy) && slab_ok(sz));
    lemma_in_slab_within(c.x as int, s, o.x as int, d.x as int, t);
    lemma_in_slab_within(c.y as int, s, o.y as int, d.y as int, t);
    lemma_in_slab_within(c.z as int, s, o.z as int, d.z as int, t);
    lemma_meet_keeps_ok(start_interval(), sx, 0);
    lemma_meet_keeps_ok(ix, sy, 1);
    lemma_meet_keeps_ok(iy, sz, 2);
    lemma_meet_keeps_param(start_interval(), sx, 0, t);
    lemma_meet_keeps_param(ix, sy, 1, t);
    lemma_meet_keeps_param(iy, sz, 2, t);
    lemma_meet_narrows(start_interval(), sx, 0);
    lemma_meet_narrows(ix, sy, 1);
    lemma_meet_narrows(iy, sz, 2);
    assert(iv.bounded);
    lemma_frac_trans(iv.enter, t, iv.exit);
    assert(iv.exit.num >= 0) by (nonlinear_arith)
        requires t.num * iv.exit.den <= iv.exit.num * t.den, t.num >= 0, iv.exit.den > 0, t.den > 0;
}

impl Cube {
    pub fn new(center: Vec3, size: i64, material: Material) -> (c: Cube)
        ensures
            c == (Cube { center, size, material }),
    {
        Cube { center, size, material }
    }
}

impl RayIntersect for Cube {
    /// The cube lies within the scene's range and its material is usable.
    open spec fn well_formed(&self) -> bool {
        bounded(self.center, LIMIT as int) && 0 <= self.size <= LIMIT && self.material.well_formed()
    }

    open spec fn intersect_spec(&self, origin: Vec3, direction: Vec3) -> Intersect {
        cube_intersect_spec(*self, origin, direction)
    }

    fn ray_intersect(&self, ray_origin: &Vec3, ray_direction: &Vec3) -> (r: Intersect) {
        let c = self.center;
        let o = *ray_origin;
        let d = *ray_direction;
        let sx = slab(c.x, self.size, o.x, d.x);
        let sy = slab(c.y, self.size, o.y, d.y);
        let sz = slab(c.z, self.size, o.z, d.z);
        let start = Interval {
            missed: false,
            bounded: false,
            enter: Fraction { num: 0, den: 1 },
            exit: Fraction { num: 0, den: 1 },
            normal: Vec3 { x: 0, y: 0, z: 0 },
        };
        let ix = meet_exec(start, sx, 0);
        let iy = meet_exec(ix, sy, 1);
        let iv = meet_exec(iy, sz, 2);
        let hits: bool = !iv.missed && iv.bounded && !less(iv.exit, iv.enter) && iv.exit.num >= 0;
        if !hits {
            return Intersect::empty();
        }
        let t = if iv.enter.num >= 0 { iv.enter } else { iv.exit };
        proof {
            lemma_hit_point(*self, o, d);
        }
        let point = Vec3 {
            x: o.x + div_toward_zero(t.num * d.x, t.den),
            y: o.y + div_toward_zero(t.num * d.y, t.den),
            z: o.z + div_toward_zero(t.num * d.z, t.den),
        };
        Intersect::new(point, iv.normal, t, self.material)
    }
}

} // verus!
