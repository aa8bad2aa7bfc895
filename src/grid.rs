//! Initial layout: particles on a regular grid, horizontal and vertical
//! neighbour constraints, and the three pins along the top row.

use vstd::prelude::*;
use crate::cloth::{
    all_in_range, constraint_ok, constraints_ok, pin_ok, pins_ok, Cloth, Constraint,
    PointConstraint,
};
use crate::vec3::{coord_ok, sat, saturate, vec_of, Vec3, COORD_MAX};

verus! {

/// Most particles a grid may hold (2^20).
pub const MAX_PARTICLES: usize = 1048576;

/// Particle `p` of a grid with `cols` columns: column `p % cols` lies
/// `spacing` apart along `x`, row `p / cols` along `y`, plus its jitter.
pub open spec fn grid_point(origin: Vec3, cols: int, spacing: int, p: int, j: Vec3) -> Vec3 {
    vec_of(
        sat(origin.x + (p % cols) * spacing + j.x),
        sat(origin.y + (p / cols) * spacing + j.y),
        sat(origin.z + j.z),
    )
}

/// The `k`-th horizontal edge, row by row.
pub open spec fn horizontal_edge(cols: int, spacing: int, k: int) -> Constraint {
    let r = k / (cols - 1);
    let c = k % (cols - 1);
    Constraint {
        idx_1: (r * cols + c) as usize,
        idx_2: (r * cols + c + 1) as usize,
        rest_length: spacing as i64,
    }
}

/// The `k`-th vertical edge, column by column.
pub open spec fn vertical_edge(rows: int, cols: int, spacing: int, k: int) -> Constraint {
    let c = k / (rows - 1);
    let r = k % (rows - 1);
    Constraint {
        idx_1: (r * cols + c) as usize,
        idx_2: ((r + 1) * cols + c) as usize,
        rest_length: spacing as i64,
    }
}

/// Every horizontal edge, then every vertical edge.
pub open spec fn grid_edges(rows: int, cols: int, spacing: int) -> Seq<Constraint> {
    Seq::new((rows * (cols - 1)) as nat, |k: int| horizontal_edge(cols, spacing, k)) + Seq::new(
        (cols * (rows - 1)) as nat,
        |k: int| vertical_edge(rows, cols, spacing, k),
    )
}

/// Positions of a `rows × cols` grid whose first particle sits at `origin`
/// plus its jitter; `jitter` holds one offset per particle.
pub fn grid_positions(rows: usize, cols: usize, origin: Vec3, spacing: i64, jitter: &Vec<Vec3>) -> (r:
    Vec<Vec3>)
    requires
        1 <= cols,
        rows * cols <= MAX_PARTICLES,
        jitter.len() == rows * cols,
        0 < spacing <= COORD_MAX,
        origin.in_range(),
        all_in_range(jitter@),
    ensures
        r.len() == rows * cols,
        all_in_range(r@),
        forall|p: int|
            0 <= p < r.len() ==> #[trigger] r@[p] == grid_point(
                origin,
                cols as int,
                spacing as int,
                p,
                jitter@[p],
            ),
{
    let n = rows * cols;
    let mut out: Vec<Vec3> = Vec::new();
    let mut p: usize = 0;
    while p < n
        invariant
            n == rows * cols,
            n == jitter.len(),
            1 <= cols,
            n <= MAX_PARTICLES,
            0 < spacing <= COORD_MAX,
            origin.in_range(),
            all_in_range(jitter@),
            0 <= p <= n,
            out.len() == p,
            all_in_range(out@),
            forall|q: int|
                0 <= q < p ==> #[trigger] out@[q] == grid_point(
                    origin,
                    cols as int,
                    spacing as int,
                    q,
                    jitter@[q],
                ),
        decreases n - p,
    {
        let j = jitter[p];
        assert(jitter@[p as int].in_range());
        assert(cols <= 0x100000) by (nonlinear_arith)
            requires
                rows * cols <= 0x100000,
                p < rows * cols,
                cols >= 1,
        ;
        let col = p % cols;
        let row = p / cols;
        assert(col * spacing <= 0x100000 * 0x40000000) by (nonlinear_arith)
            requires
                col < cols,
                cols <= 0x100000,
                0 < spacing <= 0x40000000,
        ;
        assert(row <= p) by (nonlinear_arith)
            requires
                row == p / cols,
                cols >= 1,
        ;
        assert(row * spacing <= 0x100000 * 0x40000000) by (nonlinear_arith)
            requires
                row <= 0x100000,
                0 < spacing <= 0x40000000,
        ;
        let x = saturate(origin.x as i128 + col as i128 * spacing as i128 + j.x as i128);
        let y = saturate(origin.y as i128 + row as i128 * spacing as i128 + j.y as i128);
        let z = saturate(origin.z as i128 + j.z as i128);
        let v = Vec3 { x, y, z };
        assert(coord_ok(x as int) && coord_ok(y as int) && coord_ok(z as int));
        assert(v == grid_point(origin, cols as int, spacing as int, p as int, j));
        out.push(v);
        p = p + 1;
    }
    out
}

proof fn lemma_quotient_bound(k: int, d: int, n: int)
    requires
        0 < d,
        0 <= k < n * d,
    ensures
        0 <= k / d < n,
        0 <= k % d < d,
{
    vstd::arithmetic::div_mod::lemma_fundamental_div_mod(k, d);
    let q = k / d;
    let m = k % d;
    assert(0 <= m < d);
    assert(0 <= q < n) by (nonlinear_arith)
        requires
            k == d * q + m,
            0 <= m < d,
            0 <= k < n * d,
            0 < d,
    ;
}

/// The structural constraints of a `rows × cols` grid: each particle tied to
/// its right neighbour and to the one below, at rest length `spacing`.
pub fn grid_constraints(rows: usize, cols: usize, spacing: i64) -> (r: Vec<Constraint>)
    requires
        1 <= rows,
        1 <= cols,
        rows * cols <= MAX_PARTICLES,
        0 < spacing <= COORD_MAX,
    ensures
        r@ == grid_edges(rows as int, cols as int, spacing as int),
        r.len() == (rows - 1) * cols + (cols - 1) * rows,
        constraints_ok(r@, rows * cols),
{
    let n = rows * cols;
    let mut out: Vec<Constraint> = Vec::new();
    assert(rows * (cols - 1) <= rows * cols) by (nonlinear_arith)
        requires
            1 <= rows,
            1 <= cols,
    ;
    assert(cols * (rows - 1) <= rows * cols) by (nonlinear_arith)
        requires
            1 <= rows,
            1 <= cols,
    ;
    let nh = rows * (cols - 1);
    let mut k: usize = 0;
    while k < nh
        invariant
            n == rows * cols,
            1 <= rows,
            1 <= cols,
            n <= MAX_PARTICLES,
            0 < spacing <= COORD_MAX,
            nh == rows * (cols - 1),
            0 <= k <= nh,
            out@ == Seq::new(k as nat, |i: int| horizontal_edge(cols as int, spacing as int, i)),
            constraints_ok(out@, n as int),
        decreases nh - k,
    {
        let d = cols - 1;
        assert(d > 0) by (nonlinear_arith)
            requires
                d == cols - 1,
                k < rows * d,
                cols >= 1,
        ;
        proof {
            lemma_quotient_bound(k as int, d as int, rows as int);
        }
        let row = k / d;
        let c = k % d;
        assert(row * cols + c + 1 < n) by (nonlinear_arith)
            requires
                0 <= row < rows,
                0 <= c < cols - 1,
                n == rows * cols,
        ;
        let e = Constraint { idx_1: row * cols + c, idx_2: row * cols + c + 1, rest_length: spacing };
        assert(constraint_ok(e, n as int));
        out.push(e);
        proof {
            assert(out@ =~= Seq::new(
                (k + 1) as nat,
                |i: int| horizontal_edge(cols as int, spacing as int, i),
            ));
            assert forall|i: int| 0 <= i < out@.len() implies #[trigger] constraint_ok(
                out@[i],
                n as int,
            ) by {
                if i < k {
                    assert(constraint_ok(out@[i], n as int));
                }
            }
        }
        k = k + 1;
    }
    let hs = Ghost(out@);
    let nv = cols * (rows - 1);
    let mut k: usize = 0;
    while k < nv
        invariant
            n == rows * cols,
            1 <= rows,
            1 <= cols,
            n <= MAX_PARTICLES,
            0 < spacing <= COORD_MAX,
            nv == cols * (rows - 1),
            0 <= k <= nv,
            hs@ == Seq::new(nh as nat, |i: int| horizontal_edge(cols as int, spacing as int, i)),
            out@ == hs@ + Seq::new(
                k as nat,
                |i: int| vertical_edge(rows as int, cols as int, spacing as int, i),
            ),
            constraints_ok(out@, n as int),
        decreases nv - k,
    {
        let d = rows - 1;
        assert(d > 0) by (nonlinear_arith)
            requires
                d == rows - 1,
                k < cols * d,
                rows >= 1,
        ;
        proof {
            lemma_quotient_bound(k as int, d as int, cols as int);
            assert(k < cols * d);
        }
        let c = k / d;
        let row = k % d;
        assert((row + 1) * cols + c < n) by (nonlinear_arith)
            requires
                0 <= row < rows - 1,
                0 <= c < cols,
                n == rows * cols,
        ;
        assert(row * cols + c < (row + 1) * cols + c) by (nonlinear_arith)
            requires
                1 <= cols,
        ;
        let e = Constraint {
            idx_1: row * cols + c,
            idx_2: (row + 1) * cols + c,
            rest_length: spacing,
        };
        assert(constraint_ok(e, n as int));
        out.push(e);
        proof {
            assert(out@ =~= hs@ + Seq::new(
                (k + 1) as nat,
                |i: int| vertical_edge(rows as int, cols as int, spacing as int, i),
            ));
            assert forall|i: int| 0 <= i < out@.len() implies #[trigger] constraint_ok(
                out@[i],
                n as int,
            ) by {
                if i < out@.len() - 1 {
                    assert(constraint_ok(out@[i], n as int));
                }
            }
        }
        k = k + 1;
    }
    proof {
        assert(out@ =~= grid_edges(rows as int, cols as int, spacing as int));
        assert((rows - 1) * cols + (cols - 1) * rows == rows * (cols - 1) + cols * (rows - 1))
            by (nonlinear_arith);
    }
    out
}

/// Pins the first, the middle and the last particle of the top row at
/// their current positions.
pub fn top_row_pins(pos: &Vec<Vec3>, cols: usize) -> (r: Vec<PointConstraint>)
    requires
        1 <= cols <= pos.len(),
        all_in_range(pos@),
    ensures
        r@ == seq![
            PointConstraint { idx: 0, point: pos@[0] },
            PointConstraint { idx: ((cols / 2) as int) as usize, point: pos@[(cols / 2) as int] },
            PointConstraint { idx: (cols as int - 1) as usize, point: pos@[cols as int - 1] },
        ],
        pins_ok(r@, pos.len() as int),
{
    let mut out: Vec<PointConstraint> = Vec::new();
    out.push(PointConstraint { idx: 0, point: pos[0] });
    out.push(PointConstraint { idx: cols / 2, point: pos[cols / 2] });
    out.push(PointConstraint { idx: cols - 1, point: pos[cols - 1] });
    proof {
        assert(pos@[0].in_range());
        assert(pos@[(cols / 2) as int].in_range());
        assert(pos@[cols as int - 1].in_range());
        assert(pin_ok(out@[0], pos.len() as int));
        assert(pin_ok(out@[1], pos.len() as int));
        assert(pin_ok(out@[2], pos.len() as int));
        assert(out@ =~= seq![
            PointConstraint { idx: 0, point: pos@[0] },
            PointConstraint { idx: ((cols / 2) as int) as usize, point: pos@[(cols / 2) as int] },
            PointConstraint { idx: (cols as int - 1) as usize, point: pos@[cols as int - 1] },
        ]);
    }
    out
}

/// Whether every coordinate of every point is in the stored range.
pub fn positions_valid(pos: &Vec<Vec3>) -> (r: bool)
    ensures
        r == all_in_range(pos@),
{
    let n = pos.len();
    let mut i: usize = 0;
    while i < n
        invariant
            n == pos.len(),
            0 <= i <= n,
            forall|j: int| 0 <= j < i ==> #[trigger] pos@[j].in_range(),
        decreases n - i,
    {
        let v = pos[i];
        if !(in_range_exec(v.x) && in_range_exec(v.y) && in_range_exec(v.z)) {
            assert(!pos@[i as int].in_range());
            return false;
        }
        i = i + 1;
    }
    true
}

fn in_range_exec(v: i64) -> (r: bool)
    ensures
        r == coord_ok(v as int),
{
    -COORD_MAX <= v && v <= COORD_MAX
}

/// Whether every constraint names two distinct particles below `n` and has
/// a rest length in `(0, COORD_MAX]`.
pub fn constraints_valid(cs: &Vec<Constraint>, n: usize) -> (r: bool)
    ensures
        r == constraints_ok(cs@, n as int),
{
    let m = cs.len();
    let mut i: usize = 0;
    while i < m
        invariant
            m == cs.len(),
            0 <= i <= m,
            forall|j: int| 0 <= j < i ==> #[trigger] constraint_ok(cs@[j], n as int),
        decreases m - i,
    {
        let c = cs[i];
        if !(c.idx_1 < n && c.idx_2 < n && c.idx_1 != c.idx_2 && 0 < c.rest_length
            && c.rest_length <= COORD_MAX) {
            assert(!constraint_ok(cs@[i as int], n as int));
            return false;
        }
        i = i + 1;
    }
    true
}

/// Whether every pin names a particle below `n` and a point in range.
pub fn pins_valid(pins: &Vec<PointConstraint>, n: usize) -> (r: bool)
    ensures
        r == pins_ok(pins@, n as int),
{
    let m = pins.len();
    let mut i: usize = 0;
    while i < m
        invariant
            m == pins.len(),
            0 <= i <= m,
            forall|j: int| 0 <= j < i ==> #[trigger] pin_ok(pins@[j], n as int),
        decreases m - i,
    {
        let p = pins[i];
        if !(p.idx < n && in_range_exec(p.point.x) && in_range_exec(p.point.y) && in_range_exec(
            p.point.z,
        )) {
            assert(!pin_ok(pins@[i as int], n as int));
            return false;
        }
        i = i + 1;
    }
    true
}

impl Cloth {
    /// A cloth at rest at `positions`, with no force yet. Rejected (`None`)
    /// exactly when a coordinate is out of range or a constraint or pin names
    /// a particle that does not exist.
    pub fn new(positions: Vec<Vec3>, constraints: Vec<Constraint>, pins: Vec<PointConstraint>) -> (r:
        Option<Cloth>)
        ensures
            r is Some <==> (all_in_range(positions@) && constraints_ok(
                constraints@,
                positions.len() as int,
            ) && pins_ok(pins@, positions.len() as int)),
            r matches Some(c) ==> {
                &&& c.wf()
                &&& c.pos@ == positions@
                &&& c.old_pos@ == positions@
                &&& c.forces@ == Seq::new(positions.len() as nat, |i: int| Vec3 { x: 0, y: 0, z: 0 })
                &&& c.constraints@ == constraints@
                &&& c.pins@ == pins@
            },
    {
        let n = positions.len();
        if !positions_valid(&positions) || !constraints_valid(&constraints, n) || !pins_valid(
            &pins,
            n,
        ) {
            return None;
        }
        let mut forces: Vec<Vec3> = Vec::new();
        let mut i: usize = 0;
        while i < n
            invariant
                0 <= i <= n,
                forces@ == Seq::new(i as nat, |j: int| Vec3 { x: 0, y: 0, z: 0 }),
            decreases n - i,
        {
            forces.push(Vec3 { x: 0, y: 0, z: 0 });
            proof {
                assert(forces@ =~= Seq::new((i + 1) as nat, |j: int| Vec3 { x: 0, y: 0, z: 0 }));
            }
            i = i + 1;
        }
        let old_pos = positions.clone();
        proof {
            assert(old_pos@ =~= positions@);
        }
        Some(Cloth { pos: positions, old_pos, forces, constraints, pins })
    }
}

} // verus!
