//! Assembly of a mesh from the pools and faces of a description.
//!
//! Every corner of every face names a position, a texture coordinate and a
//! normal by a number that counts from 1. Assembly looks each of them up and
//! lays the corners out as one vertex each, face after face.

use crate::mesh_text::{Face, FaceIndexTriple, MeshDataView};
use crate::model::Mesh;
use crate::vertex::{Vec2, Vec3, Vertex, VertexView};
use vstd::prelude::*;

verus! {

/// The pools that a corner refers to.
#[derive(Clone, Copy, Debug, PartialEq, Eq, Structural)]
pub enum Pool {
    Position,
    Uv,
    Normal,
}

/// Why a mesh could not be assembled.
#[derive(Clone, Copy, Debug, PartialEq, Eq, Structural)]
pub enum AssemblyError {
    /// A corner names an entry that its pool does not have.
    IndexOutOfRange {
        /// The pool that was asked.
        pool: Pool,
        /// The number that the corner gave, counted from 1.
        index: u64,
    },
}

/// True when a pool of `len` entries has an entry of number `index`, counted
/// from 1.
pub open spec fn in_pool(index: u64, len: nat) -> bool {
    1 <= index <= len
}

/// The corners of the faces, face after face: corner `3 * f + k` is corner
/// `k` of face `f`.
pub open spec fn corners(faces: Seq<Face>) -> Seq<FaceIndexTriple> {
    Seq::new(3 * faces.len(), |i: int| faces[i / 3].corner(i % 3))
}

impl MeshDataView {
    /// The first thing wrong with a corner, if anything: its position, its
    /// texture coordinate and its normal are looked at in this order.
    pub open spec fn fault(self, corner: FaceIndexTriple) -> Option<AssemblyError> {
        if !in_pool(corner.position, self.positions.len()) {
            Some(AssemblyError::IndexOutOfRange { pool: Pool::Position, index: corner.position })
        } else if !in_pool(corner.uv, self.uvs.len()) {
            Some(AssemblyError::IndexOutOfRange { pool: Pool::Uv, index: corner.uv })
        } else if !in_pool(corner.normal, self.normals.len()) {
            Some(AssemblyError::IndexOutOfRange { pool: Pool::Normal, index: corner.normal })
        } else {
            None
        }
    }

    /// The vertex that a corner stands for.
    pub open spec fn resolve(self, corner: FaceIndexTriple) -> VertexView {
        VertexView {
            vertices: self.positions[corner.position - 1],
            uv_coords: self.uvs[corner.uv - 1],
            normals: self.normals[corner.normal - 1],
        }
    }

    /// True when corner `i` of all corners is the first with a fault.
    pub open spec fn is_first_fault(self, i: int) -> bool {
        let all = corners(self.faces);
        &&& 0 <= i < all.len()
        &&& self.fault(all[i]) is Some
        &&& forall|j: int| 0 <= j < i ==> self.fault(#[trigger] all[j]) is None
    }

    /// Index of the first corner with a fault, if there is one.
    pub open spec fn first_fault(self) -> Option<int> {
        if exists|i: int| self.is_first_fault(i) {
            Some(choose|i: int| self.is_first_fault(i))
        } else {
            None
        }
    }

    /// What assembly gives: one vertex for every corner, in the order of the
    /// corners, or the fault of the first corner that has one.
    pub open spec fn assembled(self) -> Result<Seq<VertexView>, AssemblyError> {
        let all = corners(self.faces);
        match self.first_fault() {
            Some(i) => Err(self.fault(all[i]).unwrap()),
            None => Ok(Seq::new(all.len(), |i: int| self.resolve(all[i]))),
        }
    }

    /// A first corner with a fault is the only one.
    pub proof fn lemma_first_fault_is(self, i: int)
        requires
            self.is_first_fault(i),
        ensures
            self.first_fault() == Some(i),
    {
        let all = corners(self.faces);
        let k = choose|k: int| self.is_first_fault(k);
        if k < i {
            assert(self.fault(all[k]) is None);
        }
        if i < k {
            assert(self.fault(all[i]) is None);
        }
    }

    /// Before or at a corner with a fault stands a first such corner.
    pub proof fn lemma_fault_has_first(self, j: int)
        requires
            0 <= j < corners(self.faces).len(),
            self.fault(corners(self.faces)[j]) is Some,
        ensures
            exists|i: int| self.is_first_fault(i),
        decreases j,
    {
        let all = corners(self.faces);
        if exists|k: int| 0 <= k < j && self.fault(#[trigger] all[k]) is Some {
            let k = choose|k: int| 0 <= k < j && self.fault(#[trigger] all[k]) is Some;
            self.lemma_fault_has_first(k);
        } else {
            assert(self.is_first_fault(j));
        }
    }
}

/// A face that gives, for one of the pools, the number 0 or a number above
/// the size of the pool makes assembly fail with
/// [`AssemblyError::IndexOutOfRange`].
pub proof fn lemma_dangling_index_fails(data: MeshDataView, f: int, k: int)
    requires
        0 <= f < data.faces.len(),
        0 <= k < 3,
        ({
            let corner = data.faces[f].corner(k);
            ||| !in_pool(corner.position, data.positions.len())
            ||| !in_pool(corner.uv, data.uvs.len())
            ||| !in_pool(corner.normal, data.normals.len())
        }),
    ensures
        data.assembled() matches Err(AssemblyError::IndexOutOfRange { .. }),
{
    let all = corners(data.faces);
    assert(all[3 * f + k] == data.faces[f].corner(k));
    data.lemma_fault_has_first(3 * f + k);
}

/// Assembly succeeds exactly when every corner of every face names, in each
/// pool, an entry that the pool has; it then gives three vertices for every
/// face, corner `k` of face `f` at index `3 * f + k`.
pub proof fn lemma_assembled_in_face_order(data: MeshDataView)
    ensures
        data.assembled() is Ok <==> forall|f: int, k: int|
            0 <= f < data.faces.len() && 0 <= k < 3 ==> data.fault(
                #[trigger] data.faces[f].corner(k),
            ) is None,
        data.assembled() matches Ok(vertices) ==> {
            &&& vertices.len() == 3 * data.faces.len()
            &&& forall|f: int, k: int|
                0 <= f < data.faces.len() && 0 <= k < 3 ==> #[trigger] vertices[3 * f + k]
                    == data.resolve(data.faces[f].corner(k))
        },
{
    let all = corners(data.faces);
    if data.assembled() is Ok {
        assert forall|f: int, k: int| 0 <= f < data.faces.len() && 0 <= k < 3 implies data.fault(
            #[trigger] data.faces[f].corner(k),
        ) is None by {
            if data.fault(data.faces[f].corner(k)) is Some {
                assert(all[3 * f + k] == data.faces[f].corner(k));
                data.lemma_fault_has_first(3 * f + k);
            }
        }
        let vertices = data.assembled().unwrap();
        assert forall|f: int, k: int| 0 <= f < data.faces.len() && 0 <= k < 3 implies #[trigger] vertices[3
            * f + k] == data.resolve(data.faces[f].corner(k)) by {
            assert(all[3 * f + k] == data.faces[f].corner(k));
        }
    } else {
        let i = data.first_fault().unwrap();
        assert(data.is_first_fault(i));
        assert(all[i] == data.faces[i / 3].corner(i % 3));
    }
}

/// The description that the four given parts make up.
pub open spec fn description(
    positions: &[Vec3],
    uvs: &[Vec2],
    normals: &[Vec3],
    faces: &[Face],
) -> MeshDataView {
    MeshDataView {
        positions: positions.deep_view(),
        uvs: uvs.deep_view(),
        normals: normals.deep_view(),
        faces: faces@,
    }
}

/// The description that holds the three given pools and no face.
pub open spec fn pools(positions: &[Vec3], uvs: &[Vec2], normals: &[Vec3]) -> MeshDataView {
    MeshDataView {
        positions: positions.deep_view(),
        uvs: uvs.deep_view(),
        normals: normals.deep_view(),
        faces: Seq::empty(),
    }
}

/// Looks up what one corner names.
fn resolve_corner(positions: &[Vec3], uvs: &[Vec2], normals: &[Vec3], corner: FaceIndexTriple) -> (vertex:
    Result<Vertex, AssemblyError>)
    ensures
        match vertex {
            Ok(found) => {
                &&& pools(positions, uvs, normals).fault(corner) is None
                &&& found@ == pools(positions, uvs, normals).resolve(corner)
            },
            Err(error) => pools(positions, uvs, normals).fault(corner) == Some(error),
        },
{
    if corner.position < 1 || corner.position > positions.len() as u64 {
        return Err(AssemblyError::IndexOutOfRange { pool: Pool::Position, index: corner.position });
    }
    if corner.uv < 1 || corner.uv > uvs.len() as u64 {
        return Err(AssemblyError::IndexOutOfRange { pool: Pool::Uv, index: corner.uv });
    }
    if corner.normal < 1 || corner.normal > normals.len() as u64 {
        return Err(AssemblyError::IndexOutOfRange { pool: Pool::Normal, index: corner.normal });
    }
    let position = positions[(corner.position - 1) as usize].clone();
    let uv = uvs[(corner.uv - 1) as usize].clone();
    let normal = normals[(corner.normal - 1) as usize].clone();
    Ok(Vertex::new(position, uv, normal))
}

/// Assembles the mesh that the faces describe over the three pools.
///
/// The mesh has one vertex for every corner of every face, in the order of
/// the faces and, within a face, of its corners. No two corners share a
/// vertex, whether or not they name the same entries.
///
/// Fails with [`AssemblyError::IndexOutOfRange`] exactly when some corner
/// gives, for one of the pools, the number 0 or a number above the size of
/// the pool. The error is that of the first such corner, and within it of
/// the first such pool in the order position, texture coordinate, normal.
pub fn assemble(positions: &[Vec3], uvs: &[Vec2], normals: &[Vec3], faces: &[Face]) -> (result:
    Result<Mesh, AssemblyError>)
    ensures
        match result {
            Ok(mesh) => description(positions, uvs, normals, faces).assembled() == Ok::<
                Seq<VertexView>,
                AssemblyError,
            >(mesh@),
            Err(error) => description(positions, uvs, normals, faces).assembled() == Err::<
                Seq<VertexView>,
                AssemblyError,
            >(error),
        },
{
    let ghost data = description(positions, uvs, normals, faces);
    let ghost all = corners(faces@);
    let mut vertices: Vec<Vertex> = Vec::new();
    let mut f: usize = 0;
    while f < faces.len()
        invariant
            f <= faces@.len(),
            data == description(positions, uvs, normals, faces),
            all == corners(faces@),
            vertices@.len() == 3 * f,
            forall|i: int| 0 <= i < 3 * f ==> data.fault(#[trigger] all[i]) is None,
            forall|i: int| 0 <= i < 3 * f ==> (#[trigger] vertices@[i])@ == data.resolve(all[i]),
        decreases faces@.len() - f,
    {
        let face = faces[f];
        proof {
            assert(all[3 * f] == face.first);
            assert(all[3 * f + 1] == face.second);
            assert(all[3 * f + 2] == face.third);
            assert forall|c: FaceIndexTriple|
                #![trigger data.fault(c)]
                data.fault(c) == pools(positions, uvs, normals).fault(c) && data.resolve(c)
                    == pools(positions, uvs, normals).resolve(c) by {}
        }
        let first = match resolve_corner(positions, uvs, normals, face.first) {
            Ok(vertex) => vertex,
            Err(error) => {
                proof {
                    assert(data.is_first_fault(3 * f));
                    data.lemma_first_fault_is(3 * f);
                }
                return Err(error);
            },
        };
        let second = match resolve_corner(positions, uvs, normals, face.second) {
            Ok(vertex) => vertex,
            Err(error) => {
                proof {
                    assert(data.is_first_fault(3 * f + 1));
                    data.lemma_first_fault_is(3 * f + 1);
                }
                return Err(error);
            },
        };
        let third = match resolve_corner(positions, uvs, normals, face.third) {
            Ok(vertex) => vertex,
            Err(error) => {
                proof {
                    assert(data.is_first_fault(3 * f + 2));
                    data.lemma_first_fault_is(3 * f + 2);
                }
                return Err(error);
            },
        };
        vertices.push(first);
        vertices.push(second);
        vertices.push(third);
        f = f + 1;
    }
    let mesh = Mesh { vertices };
    proof {
        assert(data.first_fault() is None) by {
            if exists|i: int| data.is_first_fault(i) {
                let i = choose|i: int| data.is_first_fault(i);
                assert(data.fault(all[i]) is None);
            }
        }
        assert(mesh@ == Seq::new(all.len(), |i: int| data.resolve(all[i])));
    }
    Ok(mesh)
}

} // verus!
