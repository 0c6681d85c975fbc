//! Preparation of vector glyph outlines for GPU-resident text rendering.
//!
//! The crate flattens cubic Bezier curves into quadratic segments within a
//! scale-relative error bound, quantizes the resulting curve data into
//! row-aligned packing buffers, caches per-glyph results, and lays out text
//! into positioned glyph quads forming a draw mesh.
//!
//! All geometry is carried in exact integer arithmetic: outline coordinates
//! are font units, and layout positions are exact rationals represented as
//! integer numerators over the font's `units_per_em` denominator.

pub mod buffer;
pub mod cache;
pub mod flatten;
pub mod font;
pub mod format;
pub mod geom;
pub mod layout;
pub mod mesh;
pub mod num;
pub mod path;
