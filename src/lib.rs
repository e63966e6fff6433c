//! The core of a desktop widget host: a registry of widget configurations,
//! the native surface kept for each, the mapping of display flags onto the
//! platform's stacking and input-routing primitives, and the edge-triggered
//! switch that lets pointer input through background widgets.
use vstd::prelude::*;

pub mod adapter;
pub mod commands;
pub mod config;
pub mod error;
pub mod geometry;
pub mod lifecycle;
pub mod packages;
pub mod passthrough;
pub mod registry;
pub mod stats;

verus! {

} // verus!
