//! Half-edge mesh topology built from a triangle soup.
//!
//! Given a list of vertex positions and a list of triangles referencing those
//! positions, the builder produces a fully linked half-edge structure:
//! per-face loops of three half-edges, undirected edges shared by at most two
//! faces, twin links between oppositely directed half-edges, and one outgoing
//! half-edge per referenced vertex. Malformed input is rejected with a
//! dedicated error and no partial mesh is exposed: an undirected edge
//! claimed by more than two faces is refused outright, whatever else is
//! wrong with the input; an out-of-range or degenerate triangle and a
//! duplicated directed edge are refused in input order.

pub mod builder;
pub mod laws;
pub mod model;
pub mod topology;
