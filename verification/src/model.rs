//! Meshes and the models built of them.

use crate::assembler::{assemble, description, AssemblyError};
use crate::mesh_text::{
    first_malformed, gather, keyword_of, lemma_first_malformed, parse, parse_text, record_of, Keyword,
    ParseError, ParseErrorView, RecordView,
};
use crate::text::{split_lines, tokens};
use crate::texture::Texture;
use crate::vertex::{Vertex, VertexView};
use vstd::prelude::*;

verus! {

/// Bytes that the position of one vertex takes in a GPU buffer: three 32-bit
/// numbers.
pub const POSITION_BYTES: usize = 12;

/// Bytes that the texture coordinate of one vertex takes in a GPU buffer: two
/// 32-bit numbers.
pub const UV_BYTES: usize = 8;

/// Bytes that the normal of one vertex takes in a GPU buffer: three 32-bit
/// numbers.
pub const NORMAL_BYTES: usize = 12;

/// The texture that a model is drawn with until another is set.
pub const DEFAULT_TEXTURE_ID: u32 = 1;

/// A triangle mesh: three vertices for every triangle, in drawing order.
#[derive(Debug, PartialEq, Eq)]
pub struct Mesh {
    pub vertices: Vec<Vertex>,
}

impl View for Mesh {
    type V = Seq<VertexView>;

    open spec fn view(&self) -> Seq<VertexView> {
        self.vertices.deep_view()
    }
}

/// Why a mesh could not be had from a text.
#[derive(Debug, PartialEq, Eq)]
pub enum MeshError {
    /// The text is no mesh description.
    Parse(ParseError),
    /// The description refers to what it does not declare.
    Assembly(AssemblyError),
}

/// What a [`MeshError`] holds.
pub enum MeshErrorView {
    Parse(ParseErrorView),
    Assembly(AssemblyError),
}

impl View for MeshError {
    type V = MeshErrorView;

    open spec fn view(&self) -> MeshErrorView {
        match self {
            MeshError::Parse(error) => MeshErrorView::Parse(error@),
            MeshError::Assembly(error) => MeshErrorView::Assembly(*error),
        }
    }
}

/// What loading a mesh from a text gives: the text is read as a description,
/// and the description is assembled.
pub open spec fn mesh_of(text: Seq<u8>) -> Result<Seq<VertexView>, MeshErrorView> {
    match parse_text(text) {
        Err(error) => Err(MeshErrorView::Parse(error)),
        Ok(data) => match data.assembled() {
            Err(error) => Err(MeshErrorView::Assembly(error)),
            Ok(vertices) => Ok(vertices),
        },
    }
}

/// True when a line begins with the keyword of a face.
pub open spec fn is_face_line(line: Seq<u8>) -> bool {
    tokens(line).len() > 0 && keyword_of(tokens(line)[0]) == Keyword::Face
}

/// The test for the lines that begin with the keyword of a face.
pub open spec fn face_lines() -> spec_fn(Seq<u8>) -> bool {
    |line: Seq<u8>| is_face_line(line)
}

/// Number of lines of a text that begin with the keyword of a face.
pub open spec fn face_line_count(text: Seq<u8>) -> nat {
    split_lines(text).filter(face_lines()).len()
}

/// Lines of which none is malformed declare as many faces as there are lines
/// that begin with the keyword of a face.
proof fn lemma_faces_gathered(lines: Seq<Seq<u8>>)
    requires
        forall|j: int| 0 <= j < lines.len() ==> record_of(#[trigger] lines[j]) is Some,
    ensures
        gather(lines).faces.len() == lines.filter(face_lines()).len(),
    decreases lines.len(),
{
    reveal(Seq::filter);
    if lines.len() > 0 {
        let before = lines.drop_last();
        assert forall|j: int| 0 <= j < before.len() implies record_of(#[trigger] before[j])
            is Some by {
            assert(before[j] == lines[j]);
        }
        lemma_faces_gathered(before);
        assert(record_of(lines.last()) is Some);
        assert(is_face_line(lines.last()) <==> record_of(lines.last()) matches Some(
            RecordView::Face(_),
        ));
    }
}

/// A mesh that was loaded from a text has exactly three vertices for every
/// line of the text that begins with the keyword of a face.
pub proof fn lemma_vertex_count(text: Seq<u8>)
    requires
        mesh_of(text) is Ok,
    ensures
        mesh_of(text) matches Ok(vertices) && vertices.len() == 3 * face_line_count(text),
{
    let lines = split_lines(text);
    assert(first_malformed(lines) is None);
    lemma_first_malformed(lines);
    lemma_faces_gathered(lines);
}

/// Byte lengths of the three GPU buffers of a mesh.
#[derive(Clone, Copy, Debug, PartialEq, Eq, Structural)]
pub struct BufferSizes {
    pub positions: usize,
    pub uvs: usize,
    pub normals: usize,
}

impl Mesh {
    /// Loads the mesh that the text of a mesh description describes.
    ///
    /// Fails with the error of the parser where the text has a malformed
    /// line, and with the error of the assembler where a face names an entry
    /// that was not declared.
    pub fn new(data: &[u8]) -> (result: Result<Mesh, MeshError>)
        ensures
            match result {
                Ok(mesh) => mesh_of(data@) == Ok::<Seq<VertexView>, MeshErrorView>(mesh@),
                Err(error) => mesh_of(data@) == Err::<Seq<VertexView>, MeshErrorView>(error@),
            },
    {
        let parsed = match parse(data) {
            Ok(parsed) => parsed,
            Err(error) => {
                return Err(MeshError::Parse(error));
            },
        };
        let positions = parsed.positions.as_slice();
        let uvs = parsed.uvs.as_slice();
        let normals = parsed.normals.as_slice();
        let faces = parsed.faces.as_slice();
        proof {
            let pools = description(positions, uvs, normals, faces);
            assert(pools.positions == parsed@.positions);
            assert(pools.uvs == parsed@.uvs);
            assert(pools.normals == parsed@.normals);
            assert(pools == parsed@);
        }
        match assemble(positions, uvs, normals, faces) {
            Ok(mesh) => Ok(mesh),
            Err(error) => Err(MeshError::Assembly(error)),
        }
    }

    /// Byte lengths of the buffers that hold the positions, the texture
    /// coordinates and the normals of the mesh on the GPU. Returns `None`
    /// exactly when one of them is more than a signed size can hold.
    pub fn buffer_sizes(&self) -> (sizes: Option<BufferSizes>)
        ensures
            match sizes {
                Some(found) => {
                    &&& found.positions == POSITION_BYTES * self@.len()
                    &&& found.uvs == UV_BYTES * self@.len()
                    &&& found.normals == NORMAL_BYTES * self@.len()
                    &&& POSITION_BYTES * self@.len() <= isize::MAX
                },
                None => POSITION_BYTES * self@.len() > isize::MAX,
            },
    {
        let count: usize = self.vertices.len();
        if count > (isize::MAX as usize) / POSITION_BYTES {
            None
        } else {
            Some(
                BufferSizes {
                    positions: POSITION_BYTES * count,
                    uvs: UV_BYTES * count,
                    normals: NORMAL_BYTES * count,
                },
            )
        }
    }
}

/// A mesh on the GPU together with the texture it is drawn with.
#[derive(Debug, PartialEq, Eq)]
pub struct Model {
    pub mesh: Mesh,
    pub vao: u32,
    pub vertex_buffer: u32,
    pub uv_buffer: u32,
    pub normal_buffer: u32,
    pub texture_id: u32,
}

/// A model in the making.
#[derive(Debug, PartialEq, Eq)]
pub struct ModelBuilder {
    pub mesh: Mesh,
    pub vao: u32,
    pub vertex_buffer: u32,
    pub uv_buffer: u32,
    pub normal_buffer: u32,
    pub texture_id: u32,
}

impl ModelBuilder {
    /// Starts a model from a mesh and the GPU objects that hold it: the
    /// vertex array and the buffers of positions, texture coordinates and
    /// normals. The model is drawn with [`DEFAULT_TEXTURE_ID`] until a
    /// texture is set.
    pub fn new(mesh: Mesh, vao: u32, vertex_buffer: u32, uv_buffer: u32, normal_buffer: u32) -> (builder:
        ModelBuilder)
        ensures
            builder == (ModelBuilder {
                mesh,
                vao,
                vertex_buffer,
                uv_buffer,
                normal_buffer,
                texture_id: DEFAULT_TEXTURE_ID,
            }),
    {
        ModelBuilder {
            mesh,
            vao,
            vertex_buffer,
            uv_buffer,
            normal_buffer,
            texture_id: DEFAULT_TEXTURE_ID,
        }
    }

    /// Sets the texture that the model is drawn with. Nothing else changes.
    pub fn set_texture(self, texture: Texture) -> (builder: ModelBuilder)
        ensures
            builder == (ModelBuilder { texture_id: texture.texture_id, ..self }),
    {
        let mut builder = self;
        builder.texture_id = texture.texture_id;
        builder
    }

    /// The model that was built.
    pub fn finalize(self) -> (model: Model)
        ensures
            model == (Model {
                mesh: self.mesh,
                vao: self.vao,
                vertex_buffer: self.vertex_buffer,
                uv_buffer: self.uv_buffer,
                normal_buffer: self.normal_buffer,
                texture_id: self.texture_id,
            }),
    {
        Model {
            mesh: self.mesh,
            vao: self.vao,
            vertex_buffer: self.vertex_buffer,
            uv_buffer: self.uv_buffer,
            normal_buffer: self.normal_buffer,
            texture_id: self.texture_id,
        }
    }
}

} // verus!
