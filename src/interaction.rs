//! The pointer-driven drag: which particle the pointer holds and where.

use vstd::prelude::*;
use crate::cloth::{all_in_range, DragConstraint};
use crate::vec3::{dist_sq, distance, sqrt_floor, Vec3};

verus! {

/// The pointer is close enough to grab a particle at `p`.
pub open spec fn grabs(pointer: Vec3, p: Vec3, threshold: int) -> bool {
    sqrt_floor(dist_sq(pointer, p)) < threshold
}

/// The lowest particle id within reach of the pointer, if any.
pub fn find_grabbed(pos: &Vec<Vec3>, pointer: Vec3, threshold: i64) -> (r: Option<usize>)
    requires
        all_in_range(pos@),
        pointer.in_range(),
    ensures
        r matches Some(i) ==> i < pos.len() && grabs(pointer, pos@[i as int], threshold as int)
            && forall|j: int| 0 <= j < i ==> !grabs(pointer, #[trigger] pos@[j], threshold as int),
        r is None ==> forall|j: int|
            0 <= j < pos.len() ==> !grabs(pointer, #[trigger] pos@[j], threshold as int),
{
    let n = pos.len();
    let mut p: usize = 0;
    while p < n
        invariant
            n == pos.len(),
            0 <= p <= n,
            all_in_range(pos@),
            pointer.in_range(),
            forall|j: int| 0 <= j < p ==> !grabs(pointer, #[trigger] pos@[j], threshold as int),
        decreases n - p,
    {
        assert(pos@[p as int].in_range());
        let d = distance(pointer, pos[p]);
        if threshold > 0 && d < threshold as u64 {
            return Some(p);
        }
        p = p + 1;
    }
    None
}

impl DragConstraint {
    pub fn idle() -> (r: DragConstraint)
        ensures
            !r.active,
            r.point == (Vec3 { x: 0, y: 0, z: 0 }),
            r.idx == 0,
    {
        DragConstraint { active: false, idx: 0, point: Vec3 { x: 0, y: 0, z: 0 } }
    }

    /// One frame of pointer input. Released: the drag ends. Pressed while
    /// idle: the lowest particle within reach is taken and held at the
    /// pointer. Pressed while holding: the same particle follows the pointer.
    pub fn update(&mut self, pos: &Vec<Vec3>, pointer: Vec3, button_down: bool, threshold: i64)
        requires
            all_in_range(pos@),
            pointer.in_range(),
        ensures
            !button_down ==> *final(self) == (DragConstraint { active: false, ..*old(self) }),
            button_down && old(self).active ==> *final(self) == (DragConstraint {
                point: pointer,
                ..*old(self)
            }),
            button_down && !old(self).active ==> {
                ||| (*final(self) == *old(self) && forall|j: int|
                    0 <= j < pos.len() ==> !grabs(pointer, #[trigger] pos@[j], threshold as int))
                ||| (final(self).active && final(self).point == pointer && final(self).idx
                    < pos.len() && grabs(pointer, pos@[final(self).idx as int], threshold as int)
                    && forall|j: int|
                    0 <= j < final(self).idx ==> !grabs(
                        pointer,
                        #[trigger] pos@[j],
                        threshold as int,
                    ))
            },
    {
        if button_down {
            if !self.active {
                match find_grabbed(pos, pointer, threshold) {
                    Some(i) => {
                        self.active = true;
                        self.idx = i;
                        self.point = pointer;
                    },
                    None => {},
                }
            } else {
                self.point = pointer;
            }
        } else {
            self.active = false;
        }
    }
}

} // verus!
