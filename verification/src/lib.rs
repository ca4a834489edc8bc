//! Domain-neutral perception primitives: checked image buffers, integer image
//! operations, binary morphology and the scalar runtime's integer-level policy.

use vstd::prelude::*;

pub mod diagnostics;
pub mod error;
pub mod robust;
pub mod text;
pub mod types;
pub mod buffer;
pub mod boundary;
pub mod geometry;
pub mod image;

pub mod document;
pub mod readiness;
pub mod runtime;
pub mod detection;
pub mod benchmarks;
pub mod quality;
pub mod temporal;
