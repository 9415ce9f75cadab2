//! Procedural wallpapers: a frame cut into cells by a periodic or Delaunay tiling, each
//! cell colored by the first of a stack of stochastic paint regions that holds it.
//!
//! The geometry is exact fixed point: positions count hundredths of a pixel and angles
//! whole degrees, with sines and cosines from a table in millionths.

pub mod trig;
pub mod pos;
pub mod chance;
pub mod color;
pub mod frame;
pub mod shape;
pub mod lattice;
pub mod tesselate;
pub mod scene;
pub mod delaunay;
pub mod cfg;
pub mod record;
