//! Approximates a target raster image with a fixed stack of translucent
//! triangles by greedy hill climbing.
//!
//! The crate is built leaf first:
//!
//! - [`color`]: colours, the blending rule and the per-pixel error metric;
//! - [`geometry`]: points, triangles, the fill rule and the rasterizer;
//! - [`tiling`]: the laws of the fill rule, its boundary, gaps and overlaps;
//! - [`pixels`]: the pixel store, kept in an `image` buffer;
//! - [`canvas`]: the canvas and the ways of painting on it;
//! - [`layers`]: the shape list with its per-shape snapshots and pixel lists,
//!   which make a re-render start from the changed shape;
//! - [`error_cache`]: the per-pixel error matrix and the objective;
//! - [`mutation`]: random shapes and random proposals;
//! - [`optimizer`]: the driver that proposes, renders, scores and decides.

pub mod color;
pub mod pixels;
pub mod geometry;
mod algebra;
pub mod tiling;
pub mod canvas;
pub mod layers;
pub mod error_cache;
pub mod mutation;
pub mod optimizer;
