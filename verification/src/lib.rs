//! Verified core of an animated "stream starting soon" display: a typewriter
//! text animation engine, an OBJ mesh importer with vertex deduplication, and
//! the pure decision logic around them. Windowing, GPU calls and other I/O
//! live outside this crate.

use vstd::prelude::*;

pub mod ease;
pub mod obj_parser;
pub mod schedule;
pub mod cursor;
pub mod texture;
pub mod animation;

verus! {

/// Error payload carried by GPU-resource failures; the renderer layer fills
/// it with the driver's diagnostic text.
pub struct GlError(pub String);

} // verus!
