//! Dependency-graph construction and reporting for native binary artifacts.
//!
//! The crate models each discovered artifact as a [`node::BinNode`], resolves
//! the dependencies that artifacts declare against the set of scanned
//! artifacts, and assembles the result into a [`graph::BinGraph`] together
//! with degree statistics and a GraphViz rendering.

pub mod cli;
pub mod errors;
pub mod graph;
pub mod laws;
pub mod node;
pub mod parse;
pub mod numfmt;
