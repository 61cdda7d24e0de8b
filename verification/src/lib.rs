//! A turn-based grid simulation: mobile entities move one cell per tick along
//! a cardinal heading, fixed deflector cells redirect them, and colliding
//! entities are resolved deterministically. The player entity dies on contact
//! with an automatic entity; automatic entities remove each other in pairs.

use vstd::prelude::*;

pub mod app;
pub mod codec;
pub mod engine;
pub mod laws;
pub mod model;

verus! {

} // verus!
