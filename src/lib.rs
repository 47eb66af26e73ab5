use vstd::prelude::*;

/// Simulation settings of a level and of its shape groups.
pub mod config;
/// One layer pass: planning the shapes before the simulation, writing the
/// resting poses and trigger objects after it.
pub mod layer;
/// Level objects: typed attribute keys and values.
pub mod object;
/// Speed zones and the time it takes to scroll across them.
pub mod speed;
/// The text form of level objects: reading, writing, and reading back.
pub mod text;
/// Turning a sampled body path into move and rotate triggers.
pub mod timeline;

verus! {

} // verus!
