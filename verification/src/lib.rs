//! A geodesic hex-sphere world-map core: icosahedron subdivision with
//! midpoint deduplication, dual-tile derivation (pentagons and hexagons),
//! and a deterministic biome / resource classifier.
//!
//! All geometry is carried in fixed-point integer coordinates so that the
//! whole pipeline is deterministic and free of floating point; a rendering
//! host converts the coordinates to floats at its edge.

pub mod geometry;
pub mod mesh;
pub mod tiles;
