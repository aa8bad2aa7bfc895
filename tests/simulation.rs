use verlet_cloth::cloth::{apply_constraint, Cloth, Constraint, DragConstraint, PointConstraint};
use verlet_cloth::grid::{grid_constraints, grid_positions, top_row_pins};
use verlet_cloth::interaction::find_grabbed;
use verlet_cloth::jitter::{offset_from_draw, random_jitter};
use verlet_cloth::vec3::{distance, isqrt, vclamp, Vec3, COORD_MAX, SCALE};

const GRAVITY_Y: i64 = 100557;
const DT_US: i64 = 16667;

fn v(x: i64, y: i64) -> Vec3 {
    Vec3::new(x, y, 0)
}

fn px(p: i64) -> i64 {
    p * SCALE
}

#[test]
fn isqrt_rounds_down() {
    assert_eq!(isqrt(0), 0);
    assert_eq!(isqrt(1), 1);
    assert_eq!(isqrt(15), 3);
    assert_eq!(isqrt(16), 4);
    assert_eq!(isqrt(u64::MAX), 4294967295);
}

#[test]
fn vector_arithmetic() {
    let a = Vec3::new(1, 2, 3);
    let b = Vec3::new(10, 20, 30);
    assert_eq!(a.add(b), Vec3::new(11, 22, 33));
    assert_eq!(b.sub(a), Vec3::new(9, 18, 27));
    assert_eq!(a.mul(-2), Vec3::new(-2, -4, -6));
    let mut c = a;
    c.add_assign(b);
    assert_eq!(c, Vec3::new(11, 22, 33));
    c.sub_assign(b);
    assert_eq!(c, a);
    assert_eq!(Vec3::new(300, 400, 0).length(), 500);
    assert_eq!(distance(Vec3::new(1, 1, 1), Vec3::new(3, 4, 7)), 7);
}

#[test]
fn exact_structural_correction() {
    let mut pos = vec![v(0, 0), v(300, 400)];
    apply_constraint(&mut pos, Constraint { idx_1: 0, idx_2: 1, rest_length: 400 });
    assert_eq!(pos[0], v(30, 40));
    assert_eq!(pos[1], v(270, 360));
    assert_eq!(distance(pos[0], pos[1]), 400);
}

#[test]
fn coinciding_particles_are_left_alone() {
    let mut pos = vec![v(50, 50), v(50, 50)];
    apply_constraint(&mut pos, Constraint { idx_1: 0, idx_2: 1, rest_length: 400 });
    assert_eq!(pos, vec![v(50, 50), v(50, 50)]);
}

#[test]
fn rest_length_convergence() {
    let starts = [(v(px(100), px(100)), v(px(160), px(130))), (v(px(10), px(10)), v(px(11), px(10))), (v(7, 3), v(px(300), px(-200)))];
    let rest = px(20);
    for (a, b) in starts {
        let mut pos = vec![a, b];
        for _ in 0..50 {
            apply_constraint(&mut pos, Constraint { idx_1: 0, idx_2: 1, rest_length: rest });
        }
        let d = distance(pos[0], pos[1]) as i64;
        assert!((d - rest).abs() <= 4, "distance {} after 50 passes", d);
    }
}

#[test]
fn symmetric_correction_keeps_midpoint() {
    let a = Vec3::new(px(100), px(120), 17);
    let b = Vec3::new(px(190), px(80), -5);
    let mut pos = vec![a, b];
    apply_constraint(&mut pos, Constraint { idx_1: 0, idx_2: 1, rest_length: px(20) });
    assert_ne!(pos[0], a);
    assert_eq!(pos[0].x + pos[1].x, a.x + b.x);
    assert_eq!(pos[0].y + pos[1].y, a.y + b.y);
    assert_eq!(pos[0].z + pos[1].z, a.z + b.z);
}

#[test]
fn pin_dominance() {
    let pin = v(px(100), px(100));
    let mut cloth = Cloth::new(
        vec![pin, v(px(400), px(300))],
        vec![Constraint { idx_1: 0, idx_2: 1, rest_length: px(20) }],
        vec![PointConstraint { idx: 0, point: pin }],
    )
    .unwrap();
    let idle = DragConstraint::idle();
    for iterations in 1..5 {
        cloth.step(&idle, v(0, GRAVITY_Y), DT_US, px(1000), px(1000), iterations);
        assert_eq!(cloth.position(0), pin);
    }
    assert_ne!(cloth.position(1), v(px(400), px(300)));
}

#[test]
fn drag_wins_over_pin() {
    let pin = v(px(100), px(100));
    let target = v(px(250), px(40));
    let mut cloth = Cloth::new(
        vec![pin, v(px(120), px(100))],
        vec![Constraint { idx_1: 0, idx_2: 1, rest_length: px(20) }],
        vec![PointConstraint { idx: 0, point: pin }],
    )
    .unwrap();
    let drag = DragConstraint { active: true, idx: 0, point: target };
    cloth.relax(&drag, 3);
    assert_eq!(cloth.position(0), target);
    cloth.relax(&DragConstraint::idle(), 1);
    assert_eq!(cloth.position(0), pin);
}

#[test]
fn boundary_clamp_idempotence() {
    let lo = Vec3::new(0, 0, -COORD_MAX);
    let hi = Vec3::new(px(800), px(600), COORD_MAX);
    let inside = Vec3::new(px(10), px(20), 5);
    assert_eq!(vclamp(inside, lo, hi), inside);
    let outside = Vec3::new(-px(10), px(900), -3);
    let once = vclamp(outside, lo, hi);
    assert_eq!(once, Vec3::new(0, px(600), -3));
    assert_eq!(vclamp(once, lo, hi), once);
}

#[test]
fn clamp_to_bounds_keeps_z() {
    let mut cloth = Cloth::new(vec![Vec3::new(-5, px(2000), 77), Vec3::new(3, 4, -9)], vec![], vec![]).unwrap();
    cloth.clamp_to_bounds(px(1000), px(500));
    assert_eq!(cloth.position(0), Vec3::new(0, px(500), 77));
    assert_eq!(cloth.position(1), Vec3::new(3, 4, -9));
}

#[test]
fn verlet_step_at_rest() {
    let p = Vec3::new(px(30), px(40), 9);
    let mut cloth = Cloth::new(vec![p], vec![], vec![]).unwrap();
    cloth.integrate(DT_US);
    assert_eq!(cloth.position(0), p);
    assert_eq!(cloth.old_pos[0], p);
}

#[test]
fn verlet_step_exact() {
    let mut cloth = Cloth::new(vec![v(0, 1000), v(100, 100)], vec![], vec![]).unwrap();
    cloth.accumulate_forces(v(0, GRAVITY_Y));
    cloth.integrate(DT_US);
    assert_eq!(cloth.position(0), v(0, 1027));
    cloth.integrate(DT_US);
    // implicit velocity 27 plus another 27 of acceleration
    assert_eq!(cloth.position(0), v(0, 1081));
    assert_eq!(cloth.old_pos[0], v(0, 1027));
    assert_eq!(cloth.position(1), v(100, 181));
}

#[test]
fn two_by_two_grid_settles() {
    let rows = 2;
    let cols = 2;
    let spacing = px(20);
    let jitter = random_jitter(rows * cols, SCALE, 7);
    let pos = grid_positions(rows, cols, v(px(500), px(300)), spacing, &jitter);
    let cs = grid_constraints(rows, cols, spacing);
    assert_eq!(cs.len(), 4);
    for c in &cs {
        let d = distance(pos[c.idx_1], pos[c.idx_2]) as i64;
        assert!((d - spacing).abs() <= 3 * SCALE, "initial edge length {}", d);
    }
    let mut cloth = Cloth::new(pos, cs, vec![]).unwrap();
    let idle = DragConstraint::idle();
    for _ in 0..2000 {
        cloth.step(&idle, v(0, GRAVITY_Y), DT_US, px(1000), px(1000), 1);
    }
    for i in 0..4 {
        let p = cloth.position(i);
        assert!(p.x >= 0 && p.x <= px(1000) && p.y >= 0 && p.y <= px(1000), "{:?}", p);
    }
    for c in &cloth.constraints {
        let d = distance(cloth.position(c.idx_1), cloth.position(c.idx_2)) as i64;
        assert!(d <= 4 * spacing, "edge stretched to {}", d);
    }
}

#[test]
fn single_pinned_particle_stays() {
    let pin = v(px(50), px(50));
    let mut cloth = Cloth::new(vec![pin], vec![], vec![PointConstraint { idx: 0, point: pin }]).unwrap();
    let idle = DragConstraint::idle();
    for _ in 0..500 {
        cloth.step(&idle, v(0, GRAVITY_Y), DT_US, px(1000), px(1000), 1);
        assert_eq!(cloth.position(0), pin);
    }
}

#[test]
fn grid_layout_and_edges() {
    let jitter = vec![Vec3::zero(); 6];
    let pos = grid_positions(2, 3, v(100, 200), 20, &jitter);
    assert_eq!(pos, vec![v(100, 200), v(120, 200), v(140, 200), v(100, 220), v(120, 220), v(140, 220)]);
    let cs = grid_constraints(2, 3, 20);
    let pairs: Vec<(usize, usize)> = cs.iter().map(|c| (c.idx_1, c.idx_2)).collect();
    assert_eq!(pairs, vec![(0, 1), (1, 2), (3, 4), (4, 5), (0, 3), (1, 4), (2, 5)]);
    assert!(cs.iter().all(|c| c.rest_length == 20));
    assert_eq!(grid_constraints(10, 10, 20).len(), 180);
    assert_eq!(grid_constraints(1, 1, 20).len(), 0);
}

#[test]
fn top_row_pins_fix_start_positions() {
    let jitter = vec![Vec3::new(3, -2, 0); 20];
    let pos = grid_positions(2, 10, v(0, 0), 20, &jitter);
    let pins = top_row_pins(&pos, 10);
    let ids: Vec<usize> = pins.iter().map(|p| p.idx).collect();
    assert_eq!(ids, vec![0, 5, 9]);
    assert_eq!(pins[1].point, v(103, -2));
}

#[test]
fn malformed_configuration_is_rejected() {
    let pos = vec![v(0, 0), v(10, 0)];
    assert!(Cloth::new(pos.clone(), vec![Constraint { idx_1: 0, idx_2: 2, rest_length: 5 }], vec![]).is_none());
    assert!(Cloth::new(pos.clone(), vec![Constraint { idx_1: 1, idx_2: 1, rest_length: 5 }], vec![]).is_none());
    assert!(Cloth::new(pos.clone(), vec![Constraint { idx_1: 0, idx_2: 1, rest_length: 0 }], vec![]).is_none());
    assert!(Cloth::new(pos.clone(), vec![], vec![PointConstraint { idx: 2, point: v(0, 0) }]).is_none());
    assert!(Cloth::new(vec![v(COORD_MAX + 1, 0)], vec![], vec![]).is_none());
    let ok = Cloth::new(pos, vec![Constraint { idx_1: 0, idx_2: 1, rest_length: 5 }], vec![]).unwrap();
    assert_eq!(ok.num_particles(), 2);
    assert_eq!(ok.forces, vec![Vec3::zero(); 2]);
}

#[test]
fn grab_takes_lowest_id_in_reach() {
    let pos = vec![v(0, 0), v(100, 0), v(103, 0)];
    assert_eq!(find_grabbed(&pos, v(102, 0), 6), Some(1));
    assert_eq!(find_grabbed(&pos, v(107, 0), 6), Some(2));
    assert_eq!(find_grabbed(&pos, v(50, 0), 6), None);
    assert_eq!(find_grabbed(&pos, v(0, 0), 0), None);
}

#[test]
fn drag_state_machine() {
    let pos = vec![v(0, 0), v(100, 0)];
    let mut drag = DragConstraint::idle();
    drag.update(&pos, v(300, 300), true, 6);
    assert!(!drag.active);
    drag.update(&pos, v(98, 1), true, 6);
    assert!(drag.active);
    assert_eq!(drag.idx, 1);
    assert_eq!(drag.point, v(98, 1));
    // held particle is sticky while the button stays down
    drag.update(&pos, v(1, 1), true, 6);
    assert_eq!(drag.idx, 1);
    assert_eq!(drag.point, v(1, 1));
    drag.update(&pos, v(1, 1), false, 6);
    assert!(!drag.active);
}

#[test]
fn jitter_range_and_seed() {
    assert_eq!(offset_from_draw(-1024, 1024, 5000), -1024 + 5000 % 2048);
    assert_eq!(offset_from_draw(10, 11, u32::MAX), 10);
    let a = random_jitter(50, 1024, 42);
    let b = random_jitter(50, 1024, 42);
    assert_eq!(a, b);
    assert_eq!(a.len(), 50);
    assert!(a.iter().all(|j| j.x >= -1024 && j.x < 1024 && j.y >= -1024 && j.y < 1024 && j.z == 0));
    assert!(a.iter().any(|j| j.x != a[0].x));
}
