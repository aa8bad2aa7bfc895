//! Particle store, constraint set, Verlet integrator and relaxation solver.

use vstd::prelude::*;
use crate::vec3::{
    clamp_int, coord_ok, dist_sq, div_trunc, div_trunc_i128, distance, sat, saturate, sqrt_floor,
    vec_of, vclamp, Vec3, COORD_MAX,
};

verus! {

/// Microseconds per second squared: the divisor that turns `force · dt²`
/// (dt in microseconds) into a displacement.
pub const MICROS_SQUARED: i128 = 1000000000000;

/// Longest time step accepted, in microseconds.
pub const MAX_STEP_MICROS: i64 = 1000000;

/// A distance constraint between two particles.
#[derive(Clone, Copy, Debug, PartialEq, Eq, Structural)]
pub struct Constraint {
    pub idx_1: usize,
    pub idx_2: usize,
    pub rest_length: i64,
}

/// Holds one particle at a fixed world point.
#[derive(Clone, Copy, Debug, PartialEq, Eq, Structural)]
pub struct PointConstraint {
    pub idx: usize,
    pub point: Vec3,
}

/// The particle the pointer holds, if any.
#[derive(Clone, Copy, Debug, PartialEq, Eq, Structural)]
pub struct DragConstraint {
    pub active: bool,
    pub idx: usize,
    pub point: Vec3,
}

pub open spec fn all_in_range(s: Seq<Vec3>) -> bool {
    forall|i: int| 0 <= i < s.len() ==> #[trigger] s[i].in_range()
}

pub open spec fn constraint_ok(c: Constraint, n: int) -> bool {
    c.idx_1 < n && c.idx_2 < n && c.idx_1 != c.idx_2 && 0 < c.rest_length <= COORD_MAX
}

pub open spec fn pin_ok(p: PointConstraint, n: int) -> bool {
    p.idx < n && p.point.in_range()
}

pub open spec fn drag_ok(d: DragConstraint, n: int) -> bool {
    d.active ==> (d.idx < n && d.point.in_range())
}

pub open spec fn constraints_ok(cs: Seq<Constraint>, n: int) -> bool {
    forall|k: int| 0 <= k < cs.len() ==> #[trigger] constraint_ok(cs[k], n)
}

pub open spec fn pins_ok(ps: Seq<PointConstraint>, n: int) -> bool {
    forall|k: int| 0 <= k < ps.len() ==> #[trigger] pin_ok(ps[k], n)
}

/// How far the first end of a constraint moves along one axis: half of the
/// axis difference `d`, scaled by `(len - rest) / len`, rounded toward zero.
pub open spec fn correction(d: int, len: int, rest: int) -> int {
    div_trunc(d * (len - rest), 2 * len)
}

/// Positions after one structural constraint is corrected. The length is the
/// Euclidean distance over all three axes, rounded down to a whole unit.
/// Ends whose distance rounds to zero are left as they are.
pub open spec fn corrected(pos: Seq<Vec3>, c: Constraint) -> Seq<Vec3> {
    let a = pos[c.idx_1 as int];
    let b = pos[c.idx_2 as int];
    let len = sqrt_floor(dist_sq(a, b));
    let r = c.rest_length as int;
    if len == 0 {
        pos
    } else {
        let cx = correction(b.x - a.x, len, r);
        let cy = correction(b.y - a.y, len, r);
        let cz = correction(b.z - a.z, len, r);
        pos.update(c.idx_1 as int, vec_of(sat(a.x + cx), sat(a.y + cy), sat(a.z + cz))).update(
            c.idx_2 as int,
            vec_of(sat(b.x - cx), sat(b.y - cy), sat(b.z - cz)),
        )
    }
}

/// The first `k` structural constraints corrected in order.
pub open spec fn structural_pass(pos: Seq<Vec3>, cs: Seq<Constraint>, k: nat) -> Seq<Vec3>
    decreases k,
{
    if k == 0 {
        pos
    } else {
        corrected(structural_pass(pos, cs, (k - 1) as nat), cs[k - 1])
    }
}

/// The first `k` pins enforced in order.
pub open spec fn pin_pass(pos: Seq<Vec3>, pins: Seq<PointConstraint>, k: nat) -> Seq<Vec3>
    decreases k,
{
    if k == 0 {
        pos
    } else {
        pin_pass(pos, pins, (k - 1) as nat).update(pins[k - 1].idx as int, pins[k - 1].point)
    }
}

pub open spec fn drag_pass(pos: Seq<Vec3>, drag: DragConstraint) -> Seq<Vec3> {
    if drag.active {
        pos.update(drag.idx as int, drag.point)
    } else {
        pos
    }
}

/// One relaxation pass: structural constraints, then pins, then the drag.
pub open spec fn relax_once(
    pos: Seq<Vec3>,
    cs: Seq<Constraint>,
    pins: Seq<PointConstraint>,
    drag: DragConstraint,
) -> Seq<Vec3> {
    drag_pass(pin_pass(structural_pass(pos, cs, cs.len()), pins, pins.len()), drag)
}

/// `k` relaxation passes.
pub open spec fn relax_n(
    pos: Seq<Vec3>,
    cs: Seq<Constraint>,
    pins: Seq<PointConstraint>,
    drag: DragConstraint,
    k: nat,
) -> Seq<Vec3>
    decreases k,
{
    if k == 0 {
        pos
    } else {
        relax_once(relax_n(pos, cs, pins, drag, (k - 1) as nat), cs, pins, drag)
    }
}

/// One coordinate after a position-Verlet step of `dt` microseconds.
pub open spec fn verlet_coord(p: int, o: int, f: int, dt: int) -> int {
    sat(p + (p - o) + div_trunc(f * dt * dt, MICROS_SQUARED as int))
}

pub open spec fn verlet(p: Vec3, o: Vec3, f: Vec3, dt: int) -> Vec3 {
    vec_of(
        verlet_coord(p.x as int, o.x as int, f.x as int, dt),
        verlet_coord(p.y as int, o.y as int, f.y as int, dt),
        verlet_coord(p.z as int, o.z as int, f.z as int, dt),
    )
}

/// A position clamped into `[0, width] × [0, height]`; `z` is kept.
pub open spec fn bounds_clamp(v: Vec3, width: int, height: int) -> Vec3 {
    vec_of(clamp_int(v.x as int, 0, width), clamp_int(v.y as int, 0, height), v.z as int)
}

pub open spec fn verlet_all(pos: Seq<Vec3>, old: Seq<Vec3>, f: Seq<Vec3>, dt: int) -> Seq<Vec3> {
    Seq::new(pos.len(), |i: int| verlet(pos[i], old[i], f[i], dt))
}

pub open spec fn clamp_all(pos: Seq<Vec3>, width: int, height: int) -> Seq<Vec3> {
    Seq::new(pos.len(), |i: int| bounds_clamp(pos[i], width, height))
}

proof fn lemma_vec_of_in_range(x: int, y: int, z: int)
    requires
        coord_ok(x),
        coord_ok(y),
        coord_ok(z),
    ensures
        vec_of(x, y, z).in_range(),
        vec_of(x, y, z).x == x,
        vec_of(x, y, z).y == y,
        vec_of(x, y, z).z == z,
{
}

/// Corrects one structural constraint in place.
pub fn apply_constraint(pos: &mut Vec<Vec3>, c: Constraint)
    requires
        all_in_range(old(pos)@),
        constraint_ok(c, old(pos).len() as int),
    ensures
        final(pos)@ == corrected(old(pos)@, c),
        all_in_range(final(pos)@),
        final(pos).len() == old(pos).len(),
{
    let a = pos[c.idx_1];
    let b = pos[c.idx_2];
    assert(a.in_range() && b.in_range()) by {
        assert(pos@[c.idx_1 as int].in_range());
        assert(pos@[c.idx_2 as int].in_range());
    }
    let len = distance(a, b);
    if len == 0 {
        return;
    }
    let len_i = len as i128;
    let e = len_i - c.rest_length as i128;
    let dx = b.x as i128 - a.x as i128;
    let dy = b.y as i128 - a.y as i128;
    let dz = b.z as i128 - a.z as i128;
    assert(-0x10000000000000000 < e < 0x10000000000000000);
    assert(-0x100000000000000000000000000 < dx * e < 0x100000000000000000000000000)
        by (nonlinear_arith)
        requires
            -0x10000000000000000 < e < 0x10000000000000000,
            -0x100000000 <= dx <= 0x100000000,
    ;
    assert(-0x100000000000000000000000000 < dy * e < 0x100000000000000000000000000)
        by (nonlinear_arith)
        requires
            -0x10000000000000000 < e < 0x10000000000000000,
            -0x100000000 <= dy <= 0x100000000,
    ;
    assert(-0x100000000000000000000000000 < dz * e < 0x100000000000000000000000000)
        by (nonlinear_arith)
        requires
            -0x10000000000000000 < e < 0x10000000000000000,
            -0x100000000 <= dz <= 0x100000000,
    ;
    let cx = div_trunc_i128(dx * e, 2 * len_i);
    let cy = div_trunc_i128(dy * e, 2 * len_i);
    let cz = div_trunc_i128(dz * e, 2 * len_i);
    let na = Vec3 {
        x: saturate(a.x as i128 + cx),
        y: saturate(a.y as i128 + cy),
        z: saturate(a.z as i128 + cz),
    };
    let nb = Vec3 {
        x: saturate(b.x as i128 - cx),
        y: saturate(b.y as i128 - cy),
        z: saturate(b.z as i128 - cz),
    };
    proof {
        lemma_vec_of_in_range(sat(a.x + cx), sat(a.y + cy), sat(a.z + cz));
        lemma_vec_of_in_range(sat(b.x - cx), sat(b.y - cy), sat(b.z - cz));
    }
    pos.set(c.idx_1, na);
    pos.set(c.idx_2, nb);
    proof {
        assert(final(pos)@ =~= corrected(old(pos)@, c));
    }
}

/// Enforces every pin in order.
pub fn apply_pins(pos: &mut Vec<Vec3>, pins: &Vec<PointConstraint>)
    requires
        all_in_range(old(pos)@),
        pins_ok(pins@, old(pos).len() as int),
    ensures
        final(pos)@ == pin_pass(old(pos)@, pins@, pins.len() as nat),
        all_in_range(final(pos)@),
        final(pos).len() == old(pos).len(),
{
    let n = pins.len();
    let mut k: usize = 0;
    while k < n
        invariant
            n == pins.len(),
            0 <= k <= n,
            pos.len() == old(pos).len(),
            pins_ok(pins@, old(pos).len() as int),
            pos@ == pin_pass(old(pos)@, pins@, k as nat),
            all_in_range(pos@),
        decreases n - k,
    {
        let pin = pins[k];
        assert(pin_ok(pins@[k as int], old(pos).len() as int));
        pos.set(pin.idx, pin.point);
        k = k + 1;
    }
}

/// Corrects every structural constraint in order.
pub fn apply_structural(pos: &mut Vec<Vec3>, cs: &Vec<Constraint>)
    requires
        all_in_range(old(pos)@),
        constraints_ok(cs@, old(pos).len() as int),
    ensures
        final(pos)@ == structural_pass(old(pos)@, cs@, cs.len() as nat),
        all_in_range(final(pos)@),
        final(pos).len() == old(pos).len(),
{
    let n = cs.len();
    let mut k: usize = 0;
    while k < n
        invariant
            n == cs.len(),
            0 <= k <= n,
            pos.len() == old(pos).len(),
            constraints_ok(cs@, old(pos).len() as int),
            pos@ == structural_pass(old(pos)@, cs@, k as nat),
            all_in_range(pos@),
        decreases n - k,
    {
        assert(constraint_ok(cs@[k as int], old(pos).len() as int));
        apply_constraint(pos, cs[k]);
        k = k + 1;
    }
}

/// A grid of particles with its constraints.
pub struct Cloth {
    pub pos: Vec<Vec3>,
    pub old_pos: Vec<Vec3>,
    pub forces: Vec<Vec3>,
    pub constraints: Vec<Constraint>,
    pub pins: Vec<PointConstraint>,
}

impl Cloth {
    pub open spec fn len(&self) -> int {
        self.pos.len() as int
    }

    /// The parallel arrays agree in length, every coordinate is in range and
    /// every constraint names particles that exist.
    pub open spec fn wf(&self) -> bool {
        &&& self.old_pos.len() == self.pos.len()
        &&& self.forces.len() == self.pos.len()
        &&& all_in_range(self.pos@)
        &&& all_in_range(self.old_pos@)
        &&& all_in_range(self.forces@)
        &&& constraints_ok(self.constraints@, self.len())
        &&& pins_ok(self.pins@, self.len())
    }

    /// Position of particle `i`.
    pub fn position(&self, i: usize) -> (r: Vec3)
        requires
            i < self.len(),
        ensures
            r == self.pos@[i as int],
    {
        self.pos[i]
    }

    pub fn num_particles(&self) -> (r: usize)
        ensures
            r == self.len(),
    {
        self.pos.len()
    }

    /// One relaxation pass: structural constraints in order, then every pin,
    /// then the drag if it is active.
    pub fn relax_once(&mut self, drag: &DragConstraint)
        requires
            old(self).wf(),
            drag_ok(*drag, old(self).len()),
        ensures
            final(self).wf(),
            final(self).pos@ == relax_once(
                old(self).pos@,
                old(self).constraints@,
                old(self).pins@,
                *drag,
            ),
            final(self).old_pos == old(self).old_pos,
            final(self).forces == old(self).forces,
            final(self).constraints == old(self).constraints,
            final(self).pins == old(self).pins,
    {
        apply_structural(&mut self.pos, &self.constraints);
        apply_pins(&mut self.pos, &self.pins);
        if drag.active {
            self.pos.set(drag.idx, drag.point);
        }
        assert(all_in_range(self.pos@));
    }

    /// `iterations` relaxation passes.
    pub fn relax(&mut self, drag: &DragConstraint, iterations: usize)
        requires
            old(self).wf(),
            drag_ok(*drag, old(self).len()),
        ensures
            final(self).wf(),
            final(self).pos@ == relax_n(
                old(self).pos@,
                old(self).constraints@,
                old(self).pins@,
                *drag,
                iterations as nat,
            ),
            final(self).old_pos == old(self).old_pos,
            final(self).forces == old(self).forces,
            final(self).constraints == old(self).constraints,
            final(self).pins == old(self).pins,
    {
        let mut i: usize = 0;
        while i < iterations
            invariant
                0 <= i <= iterations,
                self.wf(),
                self.len() == old(self).len(),
                drag_ok(*drag, old(self).len()),
                self.pos@ == relax_n(
                    old(self).pos@,
                    old(self).constraints@,
                    old(self).pins@,
                    *drag,
                    i as nat,
                ),
                self.old_pos == old(self).old_pos,
                self.forces == old(self).forces,
                self.constraints == old(self).constraints,
                self.pins == old(self).pins,
            decreases iterations - i,
        {
            self.relax_once(drag);
            i = i + 1;
        }
    }

    /// Position-Verlet step of `dt_us` microseconds for every particle: the
    /// new position is `p + (p - previous) + force · dt²`, and the previous
    /// position becomes `p`.
    pub fn integrate(&mut self, dt_us: i64)
        requires
            old(self).wf(),
            0 <= dt_us <= MAX_STEP_MICROS,
        ensures
            final(self).wf(),
            final(self).pos@ == verlet_all(
                old(self).pos@,
                old(self).old_pos@,
                old(self).forces@,
                dt_us as int,
            ),
            final(self).old_pos@ == old(self).pos@,
            final(self).forces == old(self).forces,
            final(self).constraints == old(self).constraints,
            final(self).pins == old(self).pins,
    {
        let n = self.pos.len();
        let dt = dt_us as i128;
        let mut p: usize = 0;
        while p < n
            invariant
                n == self.pos.len(),
                0 <= p <= n,
                dt == dt_us as i128,
                0 <= dt_us <= MAX_STEP_MICROS,
                self.wf(),
                old(self).wf(),
                self.len() == old(self).len(),
                forall|i: int|
                    0 <= i < p ==> self.pos@[i] == verlet(
                        old(self).pos@[i],
                        old(self).old_pos@[i],
                        old(self).forces@[i],
                        dt_us as int,
                    ),
                forall|i: int| p <= i < n ==> self.pos@[i] == old(self).pos@[i],
                forall|i: int| 0 <= i < p ==> self.old_pos@[i] == old(self).pos@[i],
                forall|i: int| p <= i < n ==> self.old_pos@[i] == old(self).old_pos@[i],
                self.forces == old(self).forces,
                self.constraints == old(self).constraints,
                self.pins == old(self).pins,
            decreases n - p,
        {
            let cur = self.pos[p];
            let prev = self.old_pos[p];
            let f = self.forces[p];
            assert(cur.in_range() && prev.in_range() && f.in_range()) by {
                assert(self.pos@[p as int].in_range());
                assert(self.old_pos@[p as int].in_range());
                assert(self.forces@[p as int].in_range());
            }
            let next = Vec3 {
                x: verlet_coord_exec(cur.x, prev.x, f.x, dt),
                y: verlet_coord_exec(cur.y, prev.y, f.y, dt),
                z: verlet_coord_exec(cur.z, prev.z, f.z, dt),
            };
            proof {
                lemma_vec_of_in_range(
                    verlet_coord(cur.x as int, prev.x as int, f.x as int, dt as int),
                    verlet_coord(cur.y as int, prev.y as int, f.y as int, dt as int),
                    verlet_coord(cur.z as int, prev.z as int, f.z as int, dt as int),
                );
            }
            self.pos.set(p, next);
            self.old_pos.set(p, cur);
            p = p + 1;
        }
        proof {
            assert(self.pos@ =~= verlet_all(
                old(self).pos@,
                old(self).old_pos@,
                old(self).forces@,
                dt_us as int,
            ));
            assert(self.old_pos@ =~= old(self).pos@);
        }
    }

    /// Resets every particle's force to `gravity`, the one force generator.
    pub fn accumulate_forces(&mut self, gravity: Vec3)
        requires
            old(self).wf(),
            gravity.in_range(),
        ensures
            final(self).wf(),
            final(self).forces@ == Seq::new(old(self).len() as nat, |i: int| gravity),
            final(self).pos == old(self).pos,
            final(self).old_pos == old(self).old_pos,
            final(self).constraints == old(self).constraints,
            final(self).pins == old(self).pins,
    {
        let n = self.forces.len();
        let mut p: usize = 0;
        while p < n
            invariant
                n == self.forces.len(),
                n == self.pos.len(),
                0 <= p <= n,
                self.wf(),
                gravity.in_range(),
                forall|i: int| 0 <= i < p ==> self.forces@[i] == gravity,
                self.pos == old(self).pos,
                self.old_pos == old(self).old_pos,
                self.constraints == old(self).constraints,
                self.pins == old(self).pins,
            decreases n - p,
        {
            self.forces.set(p, gravity);
            p = p + 1;
        }
        proof {
            assert(self.forces@ =~= Seq::new(old(self).len() as nat, |i: int| gravity));
        }
    }

    /// Clamps every position into `[0, width] × [0, height]`; `z` is kept.
    pub fn clamp_to_bounds(&mut self, width: i64, height: i64)
        requires
            old(self).wf(),
            0 <= width <= COORD_MAX,
            0 <= height <= COORD_MAX,
        ensures
            final(self).wf(),
            final(self).pos@ == clamp_all(old(self).pos@, width as int, height as int),
            final(self).old_pos == old(self).old_pos,
            final(self).forces == old(self).forces,
            final(self).constraints == old(self).constraints,
            final(self).pins == old(self).pins,
    {
        let n = self.pos.len();
        let lo = Vec3 { x: 0, y: 0, z: -COORD_MAX };
        let hi = Vec3 { x: width, y: height, z: COORD_MAX };
        let mut p: usize = 0;
        while p < n
            invariant
                n == self.pos.len(),
                0 <= p <= n,
                self.wf(),
                self.len() == old(self).len(),
                lo.x == 0 && lo.y == 0 && lo.z == -COORD_MAX,
                hi.x == width && hi.y == height && hi.z == COORD_MAX,
                0 <= width <= COORD_MAX,
                0 <= height <= COORD_MAX,
                forall|i: int|
                    0 <= i < p ==> self.pos@[i] == bounds_clamp(
                        old(self).pos@[i],
                        width as int,
                        height as int,
                    ),
                forall|i: int| p <= i < n ==> self.pos@[i] == old(self).pos@[i],
                self.old_pos == old(self).old_pos,
                self.forces == old(self).forces,
                self.constraints == old(self).constraints,
                self.pins == old(self).pins,
            decreases n - p,
        {
            let cur = self.pos[p];
            assert(self.pos@[p as int].in_range());
            let next = vclamp(cur, lo, hi);
            proof {
                lemma_vec_of_in_range(
                    clamp_int(cur.x as int, 0, width as int),
                    clamp_int(cur.y as int, 0, height as int),
                    cur.z as int,
                );
            }
            self.pos.set(p, next);
            p = p + 1;
        }
        proof {
            assert(self.pos@ =~= clamp_all(old(self).pos@, width as int, height as int));
        }
    }

    /// One simulated frame: integrate with the forces of the previous frame,
    /// reset forces to gravity, clamp to the world bounds once, then run
    /// `iterations` relaxation passes.
    pub fn step(
        &mut self,
        drag: &DragConstraint,
        gravity: Vec3,
        dt_us: i64,
        width: i64,
        height: i64,
        iterations: usize,
    )
        requires
            old(self).wf(),
            drag_ok(*drag, old(self).len()),
            gravity.in_range(),
            0 <= dt_us <= MAX_STEP_MICROS,
            0 <= width <= COORD_MAX,
            0 <= height <= COORD_MAX,
        ensures
            final(self).wf(),
            final(self).pos@ == relax_n(
                clamp_all(
                    verlet_all(
                        old(self).pos@,
                        old(self).old_pos@,
                        old(self).forces@,
                        dt_us as int,
                    ),
                    width as int,
                    height as int,
                ),
                old(self).constraints@,
                old(self).pins@,
                *drag,
                iterations as nat,
            ),
            final(self).old_pos@ == old(self).pos@,
            final(self).forces@ == Seq::new(old(self).len() as nat, |i: int| gravity),
            final(self).constraints == old(self).constraints,
            final(self).pins == old(self).pins,
    {
        self.integrate(dt_us);
        self.accumulate_forces(gravity);
        self.clamp_to_bounds(width, height);
        self.relax(drag, iterations);
    }
}

/// One coordinate of a Verlet step, computed exactly and brought into range.
fn verlet_coord_exec(p: i64, o: i64, f: i64, dt: i128) -> (r: i64)
    requires
        coord_ok(p as int),
        coord_ok(o as int),
        coord_ok(f as int),
        0 <= dt <= MAX_STEP_MICROS,
    ensures
        r == verlet_coord(p as int, o as int, f as int, dt as int),
{
    assert(0 <= dt * dt <= 1000000000000) by (nonlinear_arith)
        requires
            0 <= dt <= 1000000,
    ;
    assert(-0x40000000 * 1000000000000 <= f * (dt * dt) <= 0x40000000 * 1000000000000)
        by (nonlinear_arith)
        requires
            0 <= dt * dt <= 1000000000000,
            -0x40000000 <= f <= 0x40000000,
    ;
    let fdd = f as i128 * (dt * dt);
    assert(fdd == f * dt * dt) by (nonlinear_arith)
        requires
            fdd == f * (dt * dt),
    ;
    let acc = div_trunc_i128(fdd, MICROS_SQUARED);
    saturate(p as i128 + (p as i128 - o as i128) + acc)
}

proof fn lemma_structural_pass_len(pos: Seq<Vec3>, cs: Seq<Constraint>, k: nat)
    requires
        constraints_ok(cs, pos.len() as int),
        k <= cs.len(),
    ensures
        structural_pass(pos, cs, k).len() == pos.len(),
    decreases k,
{
    if k > 0 {
        lemma_structural_pass_len(pos, cs, (k - 1) as nat);
        assert(constraint_ok(cs[k - 1], pos.len() as int));
    }
}

proof fn lemma_pin_pass_len(pos: Seq<Vec3>, pins: Seq<PointConstraint>, k: nat)
    requires
        pins_ok(pins, pos.len() as int),
        k <= pins.len(),
    ensures
        pin_pass(pos, pins, k).len() == pos.len(),
    decreases k,
{
    if k > 0 {
        lemma_pin_pass_len(pos, pins, (k - 1) as nat);
        assert(pin_ok(pins[k - 1], pos.len() as int));
    }
}

proof fn lemma_relax_n_len(
    pos: Seq<Vec3>,
    cs: Seq<Constraint>,
    pins: Seq<PointConstraint>,
    drag: DragConstraint,
    k: nat,
)
    requires
        constraints_ok(cs, pos.len() as int),
        pins_ok(pins, pos.len() as int),
        drag_ok(drag, pos.len() as int),
    ensures
        relax_n(pos, cs, pins, drag, k).len() == pos.len(),
    decreases k,
{
    if k > 0 {
        let q = relax_n(pos, cs, pins, drag, (k - 1) as nat);
        lemma_relax_n_len(pos, cs, pins, drag, (k - 1) as nat);
        lemma_structural_pass_len(q, cs, cs.len());
        lemma_pin_pass_len(structural_pass(q, cs, cs.len()), pins, pins.len());
    }
}

proof fn lemma_pin_pass_holds(pos: Seq<Vec3>, pins: Seq<PointConstraint>, k: nat, j: int)
    requires
        pins_ok(pins, pos.len() as int),
        k <= pins.len(),
        0 <= j < k,
        forall|m: int| j < m < k ==> #[trigger] pins[m].idx != pins[j].idx,
    ensures
        pin_pass(pos, pins, k)[pins[j].idx as int] == pins[j].point,
    decreases k,
{
    lemma_pin_pass_len(pos, pins, k);
    assert(pin_ok(pins[j], pos.len() as int));
    assert(pin_ok(pins[k - 1], pos.len() as int));
    if j < k - 1 {
        lemma_pin_pass_len(pos, pins, (k - 1) as nat);
        lemma_pin_pass_holds(pos, pins, (k - 1) as nat, j);
        assert(pins[k - 1].idx != pins[j].idx);
    } else {
        lemma_pin_pass_len(pos, pins, (k - 1) as nat);
    }
}

/// Pin dominance: after one or more relaxation passes, a pinned particle sits
/// exactly on its pin target, whatever the structural constraints did to it,
/// provided no later pin and no active drag claims the same particle.
pub proof fn lemma_pin_dominance(
    pos: Seq<Vec3>,
    cs: Seq<Constraint>,
    pins: Seq<PointConstraint>,
    drag: DragConstraint,
    k: nat,
    j: int,
)
    requires
        constraints_ok(cs, pos.len() as int),
        pins_ok(pins, pos.len() as int),
        drag_ok(drag, pos.len() as int),
        k >= 1,
        0 <= j < pins.len(),
        forall|m: int| j < m < pins.len() ==> #[trigger] pins[m].idx != pins[j].idx,
        !(drag.active && drag.idx == pins[j].idx),
    ensures
        relax_n(pos, cs, pins, drag, k)[pins[j].idx as int] == pins[j].point,
{
    let q = relax_n(pos, cs, pins, drag, (k - 1) as nat);
    lemma_relax_n_len(pos, cs, pins, drag, (k - 1) as nat);
    let sp = structural_pass(q, cs, cs.len());
    lemma_structural_pass_len(q, cs, cs.len());
    lemma_pin_pass_len(sp, pins, pins.len());
    lemma_pin_pass_holds(sp, pins, pins.len(), j);
    let pp = pin_pass(sp, pins, pins.len());
    assert(pin_ok(pins[j], pos.len() as int));
    assert(relax_n(pos, cs, pins, drag, k) == drag_pass(pp, drag));
}

/// Drag dominance: after one or more relaxation passes, an active drag holds
/// its particle exactly on the drag target, even where a pin names the same
/// particle.
pub proof fn lemma_drag_dominance(
    pos: Seq<Vec3>,
    cs: Seq<Constraint>,
    pins: Seq<PointConstraint>,
    drag: DragConstraint,
    k: nat,
)
    requires
        constraints_ok(cs, pos.len() as int),
        pins_ok(pins, pos.len() as int),
        drag_ok(drag, pos.len() as int),
        drag.active,
        k >= 1,
    ensures
        relax_n(pos, cs, pins, drag, k)[drag.idx as int] == drag.point,
{
    let q = relax_n(pos, cs, pins, drag, (k - 1) as nat);
    lemma_relax_n_len(pos, cs, pins, drag, (k - 1) as nat);
    let sp = structural_pass(q, cs, cs.len());
    lemma_structural_pass_len(q, cs, cs.len());
    lemma_pin_pass_len(sp, pins, pins.len());
}

/// The correction of a constraint moves its ends without saturating.
pub open spec fn unsaturated(pos: Seq<Vec3>, c: Constraint) -> bool {
    let a = pos[c.idx_1 as int];
    let b = pos[c.idx_2 as int];
    let len = sqrt_floor(dist_sq(a, b));
    let r = c.rest_length as int;
    len != 0 ==> {
        let cx = correction(b.x - a.x, len, r);
        let cy = correction(b.y - a.y, len, r);
        let cz = correction(b.z - a.z, len, r);
        &&& coord_ok(a.x + cx) && coord_ok(a.y + cy) && coord_ok(a.z + cz)
        &&& coord_ok(b.x - cx) && coord_ok(b.y - cy) && coord_ok(b.z - cz)
    }
}

/// Symmetric correction: correcting one constraint moves its two ends by
/// opposite amounts, so their midpoint (the sum of their positions) is kept.
/// Particles that the constraint does not name do not move.
pub proof fn lemma_correction_keeps_midpoint(pos: Seq<Vec3>, c: Constraint)
    requires
        all_in_range(pos),
        constraint_ok(c, pos.len() as int),
        unsaturated(pos, c),
    ensures
        ({
            let q = corrected(pos, c);
            let a = pos[c.idx_1 as int];
            let b = pos[c.idx_2 as int];
            let a2 = q[c.idx_1 as int];
            let b2 = q[c.idx_2 as int];
            &&& a2.x + b2.x == a.x + b.x
            &&& a2.y + b2.y == a.y + b.y
            &&& a2.z + b2.z == a.z + b.z
        }),
        forall|i: int|
            0 <= i < pos.len() && i != c.idx_1 && i != c.idx_2 ==> #[trigger] corrected(pos, c)[i]
                == pos[i],
{
}

/// A particle at rest (previous position equal to its position) with no
/// force stays where it is after a Verlet step.
pub proof fn lemma_verlet_at_rest(p: Vec3, dt: int)
    requires
        p.in_range(),
        0 <= dt <= MAX_STEP_MICROS,
    ensures
        verlet(p, p, Vec3 { x: 0, y: 0, z: 0 }, dt) == p,
{
    assert(div_trunc(0 * dt * dt, MICROS_SQUARED as int) == 0) by (nonlinear_arith);
}

/// Clamping to the world bounds is a no-op on a position inside them, and
/// clamping twice gives what clamping once gave.
pub proof fn lemma_bounds_clamp_idempotent(v: Vec3, width: int, height: int)
    requires
        0 <= width <= COORD_MAX,
        0 <= height <= COORD_MAX,
    ensures
        bounds_clamp(bounds_clamp(v, width, height), width, height) == bounds_clamp(
            v,
            width,
            height,
        ),
        (0 <= v.x <= width && 0 <= v.y <= height) ==> bounds_clamp(v, width, height) == v,
{
}

proof fn lemma_div_trunc_remainder(q: int, d: int)
    requires
        d > 0,
    ensures
        -d < q - d * div_trunc(q, d) < d,
{
    if q >= 0 {
        vstd::arithmetic::div_mod::lemma_fundamental_div_mod(q, d);
        vstd::arithmetic::div_mod::lemma_mod_pos_bound(q, d);
    } else {
        let m = -q;
        vstd::arithmetic::div_mod::lemma_fundamental_div_mod(m, d);
        vstd::arithmetic::div_mod::lemma_mod_pos_bound(m, d);
        assert(d * div_trunc(q, d) == -(d * (m / d))) by (nonlinear_arith)
            requires
                div_trunc(q, d) == -(m / d),
        ;
    }
}

/// One correction brings a constraint to its rest length: afterwards each
/// axis of the separation of its ends equals the old separation scaled by
/// `rest / len`, up to two units of rounding.
pub proof fn lemma_correction_reaches_rest_length(pos: Seq<Vec3>, c: Constraint)
    requires
        all_in_range(pos),
        constraint_ok(c, pos.len() as int),
        unsaturated(pos, c),
        sqrt_floor(dist_sq(pos[c.idx_1 as int], pos[c.idx_2 as int])) != 0,
    ensures
        ({
            let a = pos[c.idx_1 as int];
            let b = pos[c.idx_2 as int];
            let len = sqrt_floor(dist_sq(a, b));
            let r = c.rest_length as int;
            let q = corrected(pos, c);
            let a2 = q[c.idx_1 as int];
            let b2 = q[c.idx_2 as int];
            &&& -2 * len < (b2.x - a2.x) * len - (b.x - a.x) * r < 2 * len
            &&& -2 * len < (b2.y - a2.y) * len - (b.y - a.y) * r < 2 * len
            &&& -2 * len < (b2.z - a2.z) * len - (b.z - a.z) * r < 2 * len
        }),
{
    let a = pos[c.idx_1 as int];
    let b = pos[c.idx_2 as int];
    let len = sqrt_floor(dist_sq(a, b));
    let r = c.rest_length as int;
    let dx = b.x - a.x;
    let dy = b.y - a.y;
    let dz = b.z - a.z;
    assert(dx * dx + dy * dy + dz * dz >= 0) by (nonlinear_arith);
    crate::vec3::lemma_sqrt_floor_exists(dist_sq(a, b));
    lemma_axis_reaches_rest(b.x - a.x, len, r);
    lemma_axis_reaches_rest(b.y - a.y, len, r);
    lemma_axis_reaches_rest(b.z - a.z, len, r);
}

proof fn lemma_axis_reaches_rest(d: int, len: int, r: int)
    requires
        len > 0,
    ensures
        -2 * len < (d - 2 * correction(d, len, r)) * len - d * r < 2 * len,
{
    let c = correction(d, len, r);
    lemma_div_trunc_remainder(d * (len - r), 2 * len);
    assert((d - 2 * c) * len - d * r == d * (len - r) - (2 * len) * c) by (nonlinear_arith);
}

} // verus!
