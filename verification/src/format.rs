//! Descriptions of the data the GPU layer receives.
//!
//! The library produces plain arrays: mesh vertices and indices, and
//! row-aligned packed buffers meant for upload as textures. These types
//! describe that data's shape — vertex attribute layouts, uniform kinds,
//! and texel formats — so a rendering layer can bind it without knowing the
//! library's internals.

use vstd::prelude::*;

verus! {

/// The kind of one named uniform of a draw call.
pub enum UniformType {
    Float,
    Float2,
    Float3,
    Float4,
    Float4x4,
    Texture,
}

/// The element type of one vertex attribute.
pub enum AttribType {
    Float,
    Uint,
}

/// One vertex attribute: shader location, element type, number of
/// components, and byte offset inside the vertex.
pub struct VertexAttrib {
    pub location: usize,
    pub type_: AttribType,
    pub dimension: usize,
    pub offset: isize,
}

/// Vertex types that can describe their own attribute layout.
pub trait VertexFormat {
    fn attribs() -> Vec<VertexAttrib>;
}

/// Texel formats of the packed glyph data: the contour-range buffer uploads
/// as two unsigned 16-bit integers per texel, the point buffer as two
/// 16-bit unsigned fractions.
pub enum TextureFormat {
    Rg16Ui,
    Rg16Unorm,
    Rgb16Unorm,
}

} // verus!
