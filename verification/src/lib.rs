//! Timeline resolution and node-based compositing for demoscene-style
//! audiovisual sequences.
//!
//! The library decides; a host performs. [`edit`] resolves a query time into
//! the node to show, [`compositing`] turns a node tree into an ordered list of
//! draw commands over a pool of reusable off-screen targets, [`blending`]
//! says what a blend stores, and [`model`] re-indexes imported geometry.
//! Times, colours and scales are integers in fixed units, so that every rule
//! is stated and proved exactly.

pub mod blending;
pub mod color;
pub mod compositing;
pub mod edit;
pub mod model;
pub mod resource;
