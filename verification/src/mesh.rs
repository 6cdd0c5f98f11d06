//! Mesh construction: merged faces, their vertices, and the triangle
//! indices of a chunk's mesh.

use vstd::prelude::*;
pub use crate::merge::merge_faces;
use crate::math::IVec3;
use crate::chunk::BUFFER_SIZE;
use crate::voxel::VoxelFace;
use crate::voxel::VoxelVertex;
use crate::voxel::Side;
use crate::voxel::SIDE_COUNT;
use crate::voxel::dir_of;
use crate::voxel::get_side_normal;

verus! {

/// The corners of the unit cube.
pub const VERTICES: [[i32; 3]; 8] = [
    [0, 0, 0],
    [1, 0, 0],
    [1, 1, 0],
    [0, 1, 0],
    [0, 0, 1],
    [1, 0, 1],
    [1, 1, 1],
    [0, 1, 1],
];

/// For every side, by side index, the four corners of the unit cube that
/// bound the face on that side, counter-clockwise when seen from outside.
pub const VERTICES_INDICES: [[usize; 4]; SIDE_COUNT] = [
    [5, 1, 2, 6],
    [0, 4, 7, 3],
    [7, 6, 2, 3],
    [0, 1, 5, 4],
    [4, 5, 6, 7],
    [1, 0, 3, 2],
];

/// Corner `i` of the face of the unit cube on `side`.
pub open spec fn corner_of(side: Side, i: int) -> IVec3 {
    let v = VERTICES[VERTICES_INDICES[side.index_spec()][i] as int];
    IVec3 { x: v[0], y: v[1], z: v[2] }
}

/// Corner `i` of the face of the unit cube on `side`.
pub fn corner(side: Side, i: usize) -> (c: IVec3)
    requires
        i < 4,
    ensures
        c == corner_of(side, i as int),
        0 <= c.x <= 1,
        0 <= c.y <= 1,
        0 <= c.z <= 1,
{
    let v = VERTICES[VERTICES_INDICES[side.index()][i]];
    IVec3 { x: v[0], y: v[1], z: v[2] }
}

/// The largest number of faces that the mesh of one chunk can have.
pub const MAX_FACES: usize = SIDE_COUNT * BUFFER_SIZE;

/// Vertex `i` of `face`: the corner voxel moved to the matching corner of the
/// unit cube, with the outward normal of the face's side.
pub open spec fn vertex_of(face: VoxelFace, i: int) -> VoxelVertex {
    VoxelVertex {
        position: IVec3 {
            x: (face.vertices[i].x + corner_of(face.side, i).x) as i32,
            y: (face.vertices[i].y + corner_of(face.side, i).y) as i32,
            z: (face.vertices[i].z + corner_of(face.side, i).z) as i32,
        },
        normal: dir_of(face.side),
    }
}

/// The vertices of a list of faces: four for each face, in the order of the
/// faces and of their corners.
pub open spec fn vertices_of(faces: Seq<VoxelFace>) -> Seq<VoxelVertex> {
    Seq::new(4 * faces.len(), |i: int| vertex_of(faces[i / 4], i % 4))
}

/// No vertex of `face` has a component at the top of the component range, so
/// that every corner offset can be added.
pub open spec fn face_fits(face: VoxelFace) -> bool {
    forall|i: int|
        0 <= i < 4 ==> (#[trigger] face.vertices[i]).x < i32::MAX && face.vertices[i].y < i32::MAX
            && face.vertices[i].z < i32::MAX
}

/// Expands every face into its four vertices.
pub fn compute_vertices(faces: &Vec<VoxelFace>) -> (vertices: Vec<VoxelVertex>)
    requires
        4 * faces@.len() <= usize::MAX,
        forall|k: int| 0 <= k < faces@.len() ==> face_fits(#[trigger] faces@[k]),
    ensures
        vertices@ == vertices_of(faces@),
{
    let mut vertices: Vec<VoxelVertex> = Vec::new();
    let mut k: usize = 0;
    while k < faces.len()
        invariant
            k <= faces@.len(),
            4 * faces@.len() <= usize::MAX,
            forall|k: int| 0 <= k < faces@.len() ==> face_fits(#[trigger] faces@[k]),
            vertices@ == vertices_of(faces@.take(k as int)),
        decreases faces@.len() - k,
    {
        let face = &faces[k];
        let normal = get_side_normal(face.side);
        let ghost before = vertices@;
        let mut i: usize = 0;
        while i < 4
            invariant
                i <= 4,
                k < faces@.len(),
                *face == faces@[k as int],
                face_fits(*face),
                normal == dir_of(face.side),
                vertices@.len() == before.len() + i,
                forall|j: int| 0 <= j < before.len() ==> vertices@[j] == before[j],
                forall|j: int| 0 <= j < i ==> vertices@[before.len() + j] == vertex_of(*face, j),
            decreases 4 - i,
        {
            let c = corner(face.side, i);
            let v = face.vertices[i];
            assert(v == face.vertices[i as int]);
            vertices.push(VoxelVertex { position: v.plus(c), normal });
            i += 1;
        }
        proof {
            let done = faces@.take(k as int);
            let next = faces@.take(k + 1);
            assert(before.len() == 4 * k);
            assert forall|j: int| 0 <= j < vertices@.len() implies vertices@[j] == vertices_of(
                next,
            )[j] by {
                if j < before.len() {
                    assert(before[j] == vertex_of(done[j / 4], j % 4));
                    assert(next[j / 4] == done[j / 4]);
                } else {
                    assert(j / 4 == k && j % 4 == j - before.len());
                    assert(vertices@[before.len() + (j - before.len())] == vertex_of(
                        *face,
                        j - before.len(),
                    ));
                    assert(next[j / 4] == *face);
                }
            }
            assert(vertices@ =~= vertices_of(next));
        }
        k += 1;
    }
    assert(faces@.take(k as int) =~= faces@);
    vertices
}

/// The corners of a quad, in the order in which its two triangles list them.
pub open spec fn quad_corner(j: int) -> int {
    if j == 0 {
        0
    } else if j == 1 {
        1
    } else if j == 2 {
        2
    } else if j == 3 {
        2
    } else if j == 4 {
        3
    } else {
        0
    }
}

/// The triangle list of a mesh with `vertex_count` vertices, four to a quad:
/// every quad becomes the two triangles `(0, 1, 2)` and `(2, 3, 0)` of its
/// own vertices. Vertices beyond the last whole quad are not indexed.
pub open spec fn indices_of(vertex_count: int) -> Seq<u32> {
    Seq::new(
        ((vertex_count / 4) * 6) as nat,
        |i: int| (4 * (i / 6) + quad_corner(i % 6)) as u32,
    )
}

/// The triangle list of a mesh with `vertex_count` vertices.
pub fn compute_indices(vertex_count: usize) -> (indices: Vec<u32>)
    requires
        vertex_count <= u32::MAX,
    ensures
        indices@ == indices_of(vertex_count as int),
{
    let quads = vertex_count / 4;
    let mut indices: Vec<u32> = Vec::new();
    let mut q: usize = 0;
    while q < quads
        invariant
            q <= quads,
            quads == vertex_count / 4,
            vertex_count <= u32::MAX,
            indices@.len() == 6 * q,
            forall|i: int|
                0 <= i < indices@.len() ==> indices@[i] == 4 * (i / 6) + quad_corner(i % 6),
        decreases quads - q,
    {
        let base: u32 = (4 * q) as u32;
        indices.push(base);
        indices.push(base + 1);
        indices.push(base + 2);
        indices.push(base + 2);
        indices.push(base + 3);
        indices.push(base);
        q += 1;
    }
    assert(indices@ =~= indices_of(vertex_count as int));
    indices
}

/// The vertex and index buffers of a chunk's mesh, ready for rendering.
/// Indices come in threes, one triangle each.
#[derive(Debug)]
pub struct ChunkMesh {
    pub positions: Vec<IVec3>,
    pub normals: Vec<IVec3>,
    pub indices: Vec<u32>,
}

/// The contents of a [`ChunkMesh`].
pub struct MeshView {
    pub positions: Seq<IVec3>,
    pub normals: Seq<IVec3>,
    pub indices: Seq<u32>,
}

impl View for ChunkMesh {
    type V = MeshView;

    open spec fn view(&self) -> MeshView {
        MeshView {
            positions: self.positions@,
            normals: self.normals@,
            indices: self.indices@,
        }
    }
}

/// The mesh of a list of vertices: their positions and normals in order, and
/// the triangle list of their quads.
pub open spec fn mesh_of(vertices: Seq<VoxelVertex>) -> MeshView {
    MeshView {
        positions: Seq::new(vertices.len(), |i: int| vertices[i].position),
        normals: Seq::new(vertices.len(), |i: int| vertices[i].normal),
        indices: indices_of(vertices.len() as int),
    }
}

/// Builds the vertex and index buffers of a mesh from its vertices.
pub fn generate_mesh(vertices: &Vec<VoxelVertex>) -> (mesh: ChunkMesh)
    requires
        vertices@.len() <= u32::MAX,
    ensures
        mesh@ == mesh_of(vertices@),
{
    let mut positions: Vec<IVec3> = Vec::new();
    let mut normals: Vec<IVec3> = Vec::new();
    let mut i: usize = 0;
    while i < vertices.len()
        invariant
            i <= vertices@.len(),
            positions@.len() == i,
            normals@.len() == i,
            forall|j: int| 0 <= j < i ==> positions@[j] == vertices@[j].position,
            forall|j: int| 0 <= j < i ==> normals@[j] == vertices@[j].normal,
        decreases vertices@.len() - i,
    {
        positions.push(vertices[i].position);
        normals.push(vertices[i].normal);
        i += 1;
    }
    let indices = compute_indices(vertices.len());
    let mesh = ChunkMesh { positions, normals, indices };
    proof {
        assert(mesh@.positions =~= mesh_of(vertices@).positions);
        assert(mesh@.normals =~= mesh_of(vertices@).normals);
    }
    mesh
}

} // verus!
