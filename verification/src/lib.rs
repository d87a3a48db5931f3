//! CrowdFlow engine core: the combinatorial half of venue compilation.
//!
//! Geometry in this engine is measured in floating point, but a surprising
//! amount of the engine never looks at a coordinate: which side of a line a
//! point lies on is a three-valued answer, a triangle mesh is a table of
//! vertex and neighbour indices, and deciding which triangles are floor is a
//! shortest-path question over that table. This crate holds that part, with
//! its behaviour stated in contracts and proved.
//!
//! - [`predicates`] — orientation answers and their algebra
//! - [`polygon`] — ring classifications and convexity from turn directions
//! - [`triangulation`] — triangle records and mesh topology maintenance
//! - [`cavity`] — re-filling the hole a new vertex opens in the mesh
//! - [`constraint`] — constraint-edge bookkeeping for the constrained mesh
//! - [`region`] — walkable/solid classification by wall-crossing depth
//! - [`navmesh`] — portals between walkable triangles
//! - [`validate`] — validation findings and reports
//! - [`venue`], [`scenario`], [`ids`] — the document vocabulary
//! - [`compliance`] — rule subjects, comparisons and outcomes
//! - [`text`] — counts and indices written in decimal

pub mod cavity;
pub mod compliance;
pub mod constraint;
pub mod ids;
pub mod navmesh;
pub mod polygon;
pub mod predicates;
pub mod region;
pub mod scenario;
pub mod text;
pub mod triangulation;
pub mod validate;
pub mod venue;
