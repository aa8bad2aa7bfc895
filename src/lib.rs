//! A particle-based cloth simulator in fixed-point arithmetic: Verlet
//! integration, distance constraints relaxed Gauss-Seidel style, pins and an
//! interactive drag point.

use vstd::prelude::*;

pub mod cloth;
pub mod grid;
pub mod interaction;
pub mod jitter;
pub mod vec3;
