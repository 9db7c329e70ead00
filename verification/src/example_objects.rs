//! Example objects: a builder for their vertices, and their meshes.

pub mod example_vertices;
pub mod tetrahedron;
pub mod triangle;

pub use example_vertices::ExampleVertices;
