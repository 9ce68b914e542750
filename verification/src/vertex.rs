//! Vectors of reals and the vertex made of them.

use crate::scalar::{is_real_literal, Scalar};
use vstd::prelude::*;

verus! {

/// A vector of two reals: a texture coordinate.
#[derive(Debug, PartialEq, Eq)]
pub struct Vec2 {
    pub x: Scalar,
    pub y: Scalar,
}

/// A vector of three reals: a position or a normal.
#[derive(Debug, PartialEq, Eq)]
pub struct Vec3 {
    pub x: Scalar,
    pub y: Scalar,
    pub z: Scalar,
}

/// One corner of a triangle with everything the GPU needs of it.
#[derive(Debug, PartialEq, Eq)]
pub struct Vertex {
    /// Position of the corner.
    pub vertices: Vec3,
    /// Texture coordinate of the corner.
    pub uv_coords: Vec2,
    /// Normal at the corner.
    pub normals: Vec3,
}

/// What a [`Vec2`] holds: the literals of its components.
pub struct Vec2View {
    pub x: Seq<u8>,
    pub y: Seq<u8>,
}

/// What a [`Vec3`] holds: the literals of its components.
pub struct Vec3View {
    pub x: Seq<u8>,
    pub y: Seq<u8>,
    pub z: Seq<u8>,
}

/// What a [`Vertex`] holds.
pub struct VertexView {
    pub vertices: Vec3View,
    pub uv_coords: Vec2View,
    pub normals: Vec3View,
}

impl Vec2View {
    /// True when both components are literals of the grammar of reals.
    pub open spec fn well_formed(self) -> bool {
        is_real_literal(self.x) && is_real_literal(self.y)
    }
}

impl Vec3View {
    /// True when all components are literals of the grammar of reals.
    pub open spec fn well_formed(self) -> bool {
        is_real_literal(self.x) && is_real_literal(self.y) && is_real_literal(self.z)
    }
}

impl View for Vec2 {
    type V = Vec2View;

    open spec fn view(&self) -> Vec2View {
        Vec2View { x: self.x@, y: self.y@ }
    }
}

impl DeepView for Vec2 {
    type V = Vec2View;

    open spec fn deep_view(&self) -> Vec2View {
        self@
    }
}

impl View for Vec3 {
    type V = Vec3View;

    open spec fn view(&self) -> Vec3View {
        Vec3View { x: self.x@, y: self.y@, z: self.z@ }
    }
}

impl DeepView for Vec3 {
    type V = Vec3View;

    open spec fn deep_view(&self) -> Vec3View {
        self@
    }
}

impl View for Vertex {
    type V = VertexView;

    open spec fn view(&self) -> VertexView {
        VertexView { vertices: self.vertices@, uv_coords: self.uv_coords@, normals: self.normals@ }
    }
}

impl DeepView for Vertex {
    type V = VertexView;

    open spec fn deep_view(&self) -> VertexView {
        self@
    }
}

impl Vec2 {
    /// The vector of the given components.
    pub fn new(x: Scalar, y: Scalar) -> (vector: Vec2)
        ensures
            vector@ == (Vec2View { x: x@, y: y@ }),
    {
        Vec2 { x, y }
    }

    /// Takes two tokens as the components of a vector. Returns `None` exactly
    /// when one of them is no literal of the grammar of reals.
    pub fn parse(x: &[u8], y: &[u8]) -> (vector: Option<Vec2>)
        ensures
            match vector {
                Some(value) => value@ == (Vec2View { x: x@, y: y@ }) && value@.well_formed(),
                None => !(Vec2View { x: x@, y: y@ }).well_formed(),
            },
    {
        let x = match Scalar::parse(x) {
            Some(x) => x,
            None => {
                return None;
            },
        };
        let y = match Scalar::parse(y) {
            Some(y) => y,
            None => {
                return None;
            },
        };
        Some(Vec2 { x, y })
    }
}

impl Vec3 {
    /// The vector of the given components.
    pub fn new(x: Scalar, y: Scalar, z: Scalar) -> (vector: Vec3)
        ensures
            vector@ == (Vec3View { x: x@, y: y@, z: z@ }),
    {
        Vec3 { x, y, z }
    }

    /// Takes three tokens as the components of a vector. Returns `None`
    /// exactly when one of them is no literal of the grammar of reals.
    pub fn parse(x: &[u8], y: &[u8], z: &[u8]) -> (vector: Option<Vec3>)
        ensures
            match vector {
                Some(value) => value@ == (Vec3View { x: x@, y: y@, z: z@ })
                    && value@.well_formed(),
                None => !(Vec3View { x: x@, y: y@, z: z@ }).well_formed(),
            },
    {
        let x = match Scalar::parse(x) {
            Some(x) => x,
            None => {
                return None;
            },
        };
        let y = match Scalar::parse(y) {
            Some(y) => y,
            None => {
                return None;
            },
        };
        let z = match Scalar::parse(z) {
            Some(z) => z,
            None => {
                return None;
            },
        };
        Some(Vec3 { x, y, z })
    }
}

impl Clone for Vec2 {
    fn clone(&self) -> (copy: Self)
        ensures
            copy@ == self@,
    {
        Vec2 { x: self.x.clone(), y: self.y.clone() }
    }
}

impl Clone for Vec3 {
    fn clone(&self) -> (copy: Self)
        ensures
            copy@ == self@,
    {
        Vec3 { x: self.x.clone(), y: self.y.clone(), z: self.z.clone() }
    }
}

impl Vertex {
    /// The vertex with the given position, texture coordinate and normal.
    pub fn new(verts: Vec3, uvs: Vec2, norms: Vec3) -> (vertex: Vertex)
        ensures
            vertex.vertices == verts,
            vertex.uv_coords == uvs,
            vertex.normals == norms,
    {
        Vertex { vertices: verts, uv_coords: uvs, normals: norms }
    }
}

impl Clone for Vertex {
    fn clone(&self) -> (copy: Self)
        ensures
            copy@ == self@,
    {
        Vertex {
            vertices: self.vertices.clone(),
            uv_coords: self.uv_coords.clone(),
            normals: self.normals.clone(),
        }
    }
}

} // verus!
