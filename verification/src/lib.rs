//! Navigation meshes for Bevy, built on Polyanya: the decisions, index
//! buffers and bookkeeping of the navigation mesh life cycle, with their
//! contracts proved by Verus.
use vstd::prelude::*;

pub mod asset_loaders;
pub mod flags;
pub mod obstacles;
pub mod prelude;
pub mod sorted;
pub mod stitching;
pub mod topology;
pub mod updater;

verus! {

/// Plugin that adds support for navigation mesh assets: their type and their
/// loader. Keeping them up to date is the updater's work.
#[derive(Debug, Clone, Copy)]
pub struct VleueNavigatorPlugin;

} // verus!
