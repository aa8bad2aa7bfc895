//! Random jitter for the initial layout, drawn from macroquad's generator.

use vstd::prelude::*;
use crate::cloth::all_in_range;
use crate::vec3::{Vec3, COORD_MAX};

verus! {

/// Relies on `macroquad::rand::srand`: reseeds the generator that
/// `macroquad::rand::rand` draws from.
#[verifier::external_body]
fn seed_generator(seed: u64) {
    macroquad::rand::srand(seed)
}

/// Relies on `macroquad::rand::rand`: the next pseudo-random `u32`. Nothing is
/// promised of its value.
#[verifier::external_body]
fn next_u32() -> (r: u32) {
    macroquad::rand::rand()
}

/// Maps a drawn value into `[min, max)`.
pub fn offset_from_draw(min: i64, max: i64, draw: u32) -> (r: i64)
    requires
        min < max,
        max - min <= 0x100000000,
    ensures
        r == min + (draw as int) % (max - min),
        min <= r < max,
{
    let span = (max - min) as u64;
    let off = (draw as u64) % span;
    min + off as i64
}

/// A value drawn from `[min, max)`.
pub fn random_range(min: i64, max: i64) -> (r: i64)
    requires
        min < max,
        max - min <= 0x100000000,
    ensures
        min <= r < max,
{
    let draw = next_u32();
    offset_from_draw(min, max, draw)
}

/// `n` offsets whose `x` and `y` are drawn from `[-span, span)` after the
/// generator is seeded with `seed`; `z` is zero.
pub fn random_jitter(n: usize, span: i64, seed: u64) -> (r: Vec<Vec3>)
    requires
        0 < span <= COORD_MAX,
    ensures
        r.len() == n,
        all_in_range(r@),
        forall|i: int|
            0 <= i < n ==> -span <= (#[trigger] r@[i]).x < span && -span <= r@[i].y < span
                && r@[i].z == 0,
{
    seed_generator(seed);
    let mut out: Vec<Vec3> = Vec::new();
    let mut i: usize = 0;
    while i < n
        invariant
            0 < span <= COORD_MAX,
            0 <= i <= n,
            out.len() == i,
            all_in_range(out@),
            forall|k: int|
                0 <= k < i ==> -span <= (#[trigger] out@[k]).x < span && -span <= out@[k].y < span
                    && out@[k].z == 0,
        decreases n - i,
    {
        let x = random_range(-span, span);
        let y = random_range(-span, span);
        out.push(Vec3 { x, y, z: 0 });
        i = i + 1;
    }
    out
}

} // verus!
