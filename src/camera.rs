use vstd::prelude::*;
use crate::vector::{bounded, cross_spec, div_toward_zero, div_trunc, normalize_spec, vadd, vsub, Vec3, LIMIT, SCALE};

verus! {

/// Distance, in fixed-point units, that one movement step covers.
pub const MOVE_STEP: i64 = 100;

/// Bound on each component of the camera's up vector.
pub const UP_LIMIT: i64 = 262144;

/// A step of the camera along its own axes.
#[derive(Clone, Copy, Debug, PartialEq, Eq, Structural)]
pub enum Movement {
    Forward,
    Backward,
    Left,
    Right,
}

/// A pinhole camera at `eye` looking at `center`, with `up` giving the
/// vertical.
#[derive(Clone, Copy, Debug, PartialEq, Eq, Structural)]
pub struct Camera {
    pub eye: Vec3,
    pub center: Vec3,
    pub up: Vec3,
}

/// The camera's unit forward axis.
pub open spec fn forward_spec(cam: Camera) -> Vec3 {
    normalize_spec(vsub(cam.center, cam.eye))
}

/// `v` divided by `SCALE`, each component rounded toward zero.
pub open spec fn unscale(v: Vec3) -> Vec3 {
    Vec3 {
        x: div_trunc(v.x as int, SCALE as int) as i64,
        y: div_trunc(v.y as int, SCALE as int) as i64,
        z: div_trunc(v.z as int, SCALE as int) as i64,
    }
}

/// The camera's unit right axis: forward crossed with up.
pub open spec fn right_spec(cam: Camera) -> Vec3 {
    normalize_spec(unscale(cross_spec(forward_spec(cam), cam.up)))
}

/// The camera's unit up axis, rebuilt square to forward and right.
pub open spec fn true_up_spec(cam: Camera) -> Vec3 {
    normalize_spec(cross_spec(right_spec(cam), forward_spec(cam)))
}

/// A camera-space direction (x right, y up, z backward) in world space, unit length.
pub open spec fn base_change_spec(cam: Camera, v: Vec3) -> Vec3 {
    let r = right_spec(cam);
    let u = true_up_spec(cam);
    let f = forward_spec(cam);
    normalize_spec(Vec3 {
        x: (v.x * r.x + v.y * u.x - v.z * f.x) as i64,
        y: (v.x * r.y + v.y * u.y - v.z * f.y) as i64,
        z: (v.x * r.z + v.y * u.z - v.z * f.z) as i64,
    })
}

/// One step along a unit axis: `axis * MOVE_STEP`.
pub open spec fn step_along(axis: Vec3) -> Vec3 {
    unscale(Vec3 {
        x: (axis.x * MOVE_STEP) as i64,
        y: (axis.y * MOVE_STEP) as i64,
        z: (axis.z * MOVE_STEP) as i64,
    })
}

/// The camera after one movement: eye and target shift together.
pub open spec fn moved_spec(cam: Camera, m: Movement) -> Camera {
    let delta = match m {
        Movement::Forward | Movement::Backward => step_along(forward_spec(cam)),
        Movement::Left | Movement::Right => step_along(right_spec(cam)),
    };
    match m {
        Movement::Forward | Movement::Right => Camera {
            eye: vadd(cam.eye, delta),
            center: vadd(cam.center, delta),
            up: cam.up,
        },
        Movement::Backward | Movement::Left => Camera {
            eye: vsub(cam.eye, delta),
            center: vsub(cam.center, delta),
            up: cam.up,
        },
    }
}

fn unscale_exec(v: Vec3) -> (r: Vec3)
    requires
        bounded(v, 0x4000_0000_0000),
    ensures
        r == unscale(v),
{
    Vec3 {
        x: div_toward_zero(v.x, SCALE),
        y: div_toward_zero(v.y, SCALE),
        z: div_toward_zero(v.z, SCALE),
    }
}

proof fn lemma_unscale_bounded(v: Vec3, b: int)
    requires
        b >= 0,
        bounded(v, b * SCALE),
    ensures
        bounded(unscale(v), b),
{
    lemma_div_trunc_bound(v.x as int, b);
    lemma_div_trunc_bound(v.y as int, b);
    lemma_div_trunc_bound(v.z as int, b);
}

proof fn lemma_div_trunc_bound(a: int, b: int)
    requires
        b >= 0,
        -b * SCALE <= a <= b * SCALE,
    ensures
        -b <= div_trunc(a, SCALE as int) <= b,
{
    vstd::arithmetic::div_mod::lemma_div_by_multiple(b, SCALE as int);
    assert(b * SCALE == b * (SCALE as int));
    if a >= 0 {
        vstd::arithmetic::div_mod::lemma_div_is_ordered(a, b * SCALE, SCALE as int);
        vstd::arithmetic::div_mod::lemma_div_pos_is_pos(a, SCALE as int);
    } else {
        vstd::arithmetic::div_mod::lemma_div_is_ordered(-a, b * SCALE, SCALE as int);
        vstd::arithmetic::div_mod::lemma_div_pos_is_pos(-a, SCALE as int);
    }
}

/// The opposite movement.
pub open spec fn reverse(m: Movement) -> Movement {
    match m {
        Movement::Forward => Movement::Backward,
        Movement::Backward => Movement::Forward,
        Movement::Left => Movement::Right,
        Movement::Right => Movement::Left,
    }
}

/// A movement followed by the opposite one puts the camera back exactly:
/// eye and target shift together, so the axes, and with them the step, do
/// not change.
pub proof fn lemma_move_reversible(cam: Camera, m: Movement)
    requires
        cam.well_formed(),
        bounded(cam.eye, LIMIT - MOVE_STEP),
        bounded(cam.center, LIMIT - MOVE_STEP),
    ensures
        moved_spec(moved_spec(cam, m), reverse(m)) == cam,
{
    let moved = moved_spec(cam, m);
    crate::vector::lemma_normalize_bounded(vsub(cam.center, cam.eye));
    lemma_right_input_bounded(cam);
    crate::vector::lemma_normalize_bounded(unscale(cross_spec(forward_spec(cam), cam.up)));
    lemma_step_small(forward_spec(cam));
    lemma_step_small(right_spec(cam));
    assert(vsub(moved.center, moved.eye) == vsub(cam.center, cam.eye));
    assert(forward_spec(moved) == forward_spec(cam));
    assert(right_spec(moved) == right_spec(cam));
}

proof fn lemma_right_input_bounded(cam: Camera)
    requires
        cam.well_formed(),
    ensures
        bounded(cross_spec(forward_spec(cam), cam.up), 2 * UP_LIMIT * SCALE),
        bounded(unscale(cross_spec(forward_spec(cam), cam.up)), 0x4000_0000),
{
    let f = forward_spec(cam);
    let u = cam.up;
    crate::vector::lemma_normalize_bounded(vsub(cam.center, cam.eye));
    assert(-SCALE * UP_LIMIT <= f.y * u.z <= SCALE * UP_LIMIT) by (nonlinear_arith)
        requires -SCALE <= f.y <= SCALE, -UP_LIMIT <= u.z <= UP_LIMIT;
    assert(-SCALE * UP_LIMIT <= f.z * u.y <= SCALE * UP_LIMIT) by (nonlinear_arith)
        requires -SCALE <= f.z <= SCALE, -UP_LIMIT <= u.y <= UP_LIMIT;
    assert(-SCALE * UP_LIMIT <= f.z * u.x <= SCALE * UP_LIMIT) by (nonlinear_arith)
        requires -SCALE <= f.z <= SCALE, -UP_LIMIT <= u.x <= UP_LIMIT;
    assert(-SCALE * UP_LIMIT <= f.x * u.z <= SCALE * UP_LIMIT) by (nonlinear_arith)
        requires -SCALE <= f.x <= SCALE, -UP_LIMIT <= u.z <= UP_LIMIT;
    assert(-SCALE * UP_LIMIT <= f.x * u.y <= SCALE * UP_LIMIT) by (nonlinear_arith)
        requires -SCALE <= f.x <= SCALE, -UP_LIMIT <= u.y <= UP_LIMIT;
    assert(-SCALE * UP_LIMIT <= f.y * u.x <= SCALE * UP_LIMIT) by (nonlinear_arith)
        requires -SCALE <= f.y <= SCALE, -UP_LIMIT <= u.x <= UP_LIMIT;
    lemma_unscale_bounded(cross_spec(f, u), 2 * UP_LIMIT);
}

proof fn lemma_step_small(axis: Vec3)
    requires
        bounded(axis, SCALE as int),
    ensures
        bounded(step_along(axis), MOVE_STEP as int),
{
    assert(-SCALE * MOVE_STEP <= axis.x * MOVE_STEP <= SCALE * MOVE_STEP) by (nonlinear_arith)
        requires -SCALE <= axis.x <= SCALE;
    assert(-SCALE * MOVE_STEP <= axis.y * MOVE_STEP <= SCALE * MOVE_STEP) by (nonlinear_arith)
        requires -SCALE <= axis.y <= SCALE;
    assert(-SCALE * MOVE_STEP <= axis.z * MOVE_STEP <= SCALE * MOVE_STEP) by (nonlinear_arith)
        requires -SCALE <= axis.z <= SCALE;
    lemma_unscale_bounded(
        Vec3 {
            x: (axis.x * MOVE_STEP) as i64,
            y: (axis.y * MOVE_STEP) as i64,
            z: (axis.z * MOVE_STEP) as i64,
        },
        MOVE_STEP as int,
    );
}

impl Camera {
    /// Positions within the scene's range, and an up vector short enough for
    /// the basis products.
    pub open spec fn well_formed(&self) -> bool {
        bounded(self.eye, LIMIT as int) && bounded(self.center, LIMIT as int) && bounded(self.up, UP_LIMIT as int)
    }

    pub fn new(eye: Vec3, center: Vec3, up: Vec3) -> (c: Camera)
        ensures
            c == (Camera { eye, center, up }),
    {
        Camera { eye, center, up }
    }

    fn forward(&self) -> (f: Vec3)
        requires
            self.well_formed(),
        ensures
            f == forward_spec(*self),
            bounded(f, SCALE as int),
    {
        self.center.sub(&self.eye).normalize()
    }

    fn right(&self, forward: &Vec3) -> (r: Vec3)
        requires
            self.well_formed(),
            *forward == forward_spec(*self),
            bounded(*forward, SCALE as int),
        ensures
            r == right_spec(*self),
            bounded(r, SCALE as int),
    {
        let c = forward.cross(&self.up);
        proof {
            lemma_right_input_bounded(*self);
        }
        unscale_exec(c).normalize()
    }

    fn true_up(&self, forward: &Vec3, right: &Vec3) -> (u: Vec3)
        requires
            self.well_formed(),
            *forward == forward_spec(*self),
            *right == right_spec(*self),
            bounded(*forward, SCALE as int),
            bounded(*right, SCALE as int),
        ensures
            u == true_up_spec(*self),
            bounded(u, SCALE as int),
    {
        let c = right.cross(forward);
        proof {
            crate::vector::lemma_dot_bound(
                Vec3 { x: right.y, y: right.z, z: right.x }, Vec3 { x: forward.z, y: forward.x, z: forward.y }, SCALE as int);
            crate::vector::lemma_dot_bound(
                Vec3 { x: right.z, y: right.x, z: right.y }, Vec3 { x: forward.y, y: forward.z, z: forward.x }, SCALE as int);
        }
        c.normalize()
    }

    /// The camera-space direction `direction` (x right, y up, z backward)
    /// turned into world space, with unit length.
    pub fn base_change(&self, direction: &Vec3) -> (v: Vec3)
        requires
            self.well_formed(),
            bounded(*direction, SCALE as int),
        ensures
            v == base_change_spec(*self, *direction),
            bounded(v, SCALE as int),
    {
        let f = self.forward();
        let r = self.right(&f);
        let u = self.true_up(&f, &r);
        let d = *direction;
        proof {
            crate::vector::lemma_dot_bound(d, Vec3 { x: r.x, y: u.x, z: f.x }, SCALE as int);
            crate::vector::lemma_dot_bound(d, Vec3 { x: r.y, y: u.y, z: f.y }, SCALE as int);
            crate::vector::lemma_dot_bound(d, Vec3 { x: r.z, y: u.z, z: f.z }, SCALE as int);
        }
        let w = Vec3 {
            x: d.x * r.x + d.y * u.x - d.z * f.x,
            y: d.x * r.y + d.y * u.y - d.z * f.y,
            z: d.x * r.z + d.y * u.z - d.z * f.z,
        };
        w.normalize()
    }

    /// Shift eye and target together one step along the camera's forward
    /// axis (forward, backward) or right axis (right, left).
    pub fn move_camera(&mut self, movement: Movement)
        requires
            old(self).well_formed(),
            bounded(old(self).eye, LIMIT - MOVE_STEP),
            bounded(old(self).center, LIMIT - MOVE_STEP),
        ensures
            *final(self) == moved_spec(*old(self), movement),
            final(self).well_formed(),
    {
        let f = self.forward();
        let axis = match movement {
            Movement::Forward | Movement::Backward => f,
            Movement::Left | Movement::Right => self.right(&f),
        };
        proof {
            lemma_step_small(axis);
            assert(-SCALE * MOVE_STEP <= axis.x * MOVE_STEP <= SCALE * MOVE_STEP) by (nonlinear_arith)
                requires -SCALE <= axis.x <= SCALE;
            assert(-SCALE * MOVE_STEP <= axis.y * MOVE_STEP <= SCALE * MOVE_STEP) by (nonlinear_arith)
                requires -SCALE <= axis.y <= SCALE;
            assert(-SCALE * MOVE_STEP <= axis.z * MOVE_STEP <= SCALE * MOVE_STEP) by (nonlinear_arith)
                requires -SCALE <= axis.z <= SCALE;
        }
        let delta = unscale_exec(Vec3 { x: axis.x * MOVE_STEP, y: axis.y * MOVE_STEP, z: axis.z * MOVE_STEP });
        match movement {
            Movement::Forward | Movement::Right => {
                self.eye = self.eye.add(&delta);
                self.center = self.center.add(&delta);
            },
            Movement::Backward | Movement::Left => {
                self.eye = self.eye.sub(&delta);
                self.center = self.center.sub(&delta);
            },
        }
    }
}

} // verus!
