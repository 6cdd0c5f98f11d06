use voxel_world::chunk::{to_xyz, Chunk, BUFFER_SIZE};
use voxel_world::math::IVec3;
use voxel_world::mesh::{
    compute_indices, compute_vertices, corner, generate_mesh, merge_faces, VERTICES,
    VERTICES_INDICES,
};
use voxel_world::rendering::faces_occlusion;
use voxel_world::voxel::{
    get_side_dir, get_side_normal, FacesOcclusion, Side, VoxelFace, VoxelVertex, SIDES, SIDE_COUNT,
};

fn lo_hi(face: &VoxelFace) -> (IVec3, IVec3) {
    let xs: Vec<i32> = face.vertices.iter().map(|v| v.x).collect();
    let ys: Vec<i32> = face.vertices.iter().map(|v| v.y).collect();
    let zs: Vec<i32> = face.vertices.iter().map(|v| v.z).collect();
    (
        IVec3::new(
            *xs.iter().min().unwrap(),
            *ys.iter().min().unwrap(),
            *zs.iter().min().unwrap(),
        ),
        IVec3::new(
            *xs.iter().max().unwrap(),
            *ys.iter().max().unwrap(),
            *zs.iter().max().unwrap(),
        ),
    )
}

fn covers(face: &VoxelFace, p: IVec3) -> bool {
    let (lo, hi) = lo_hi(face);
    lo.x <= p.x && p.x <= hi.x && lo.y <= p.y && p.y <= hi.y && lo.z <= p.z && p.z <= hi.z
}

/// Checks that `faces` cover every visible face once and nothing else.
fn assert_exact_cover(faces: &[VoxelFace], occlusion: &[FacesOcclusion], chunk: &Chunk) {
    for side in SIDES {
        let mut count = vec![0usize; BUFFER_SIZE];
        for face in faces.iter().filter(|f| f.side == side) {
            let (lo, hi) = lo_hi(face);
            for x in lo.x..=hi.x {
                for y in lo.y..=hi.y {
                    for z in lo.z..=hi.z {
                        let p = IVec3::new(x, y, z);
                        let index = voxel_world::chunk::to_index(p);
                        count[index] += 1;
                        assert_eq!(chunk.get_voxel_kind(p), face.kind);
                    }
                }
            }
        }
        for index in 0..BUFFER_SIZE {
            let visible = !occlusion[index][side.index()];
            assert_eq!(
                count[index],
                if visible { 1 } else { 0 },
                "side {:?}, voxel {:?}",
                side,
                to_xyz(index)
            );
        }
    }
}

#[test]
fn a_single_voxel_gives_one_quad_per_side() {
    let mut chunk = Chunk::default();
    let p = IVec3::new(3, 4, 5);
    chunk.set_voxel_kind(p, 9);
    let occlusion = faces_occlusion(&chunk);
    let faces = merge_faces(&occlusion, &chunk);
    assert_eq!(faces.len(), 6);
    for (i, face) in faces.iter().enumerate() {
        assert_eq!(face.side, SIDES[i]);
        assert_eq!(face.kind, 9);
        assert_eq!(face.vertices, [p; 4]);
    }
    assert_exact_cover(&faces, &occlusion, &chunk);
}

#[test]
fn an_empty_chunk_gives_no_quad() {
    let chunk = Chunk::default();
    let occlusion = faces_occlusion(&chunk);
    assert!(merge_faces(&occlusion, &chunk).is_empty());
}

#[test]
fn a_full_chunk_gives_one_quad_per_side() {
    let mut chunk = Chunk::default();
    for index in 0..BUFFER_SIZE {
        chunk.set_voxel_kind(to_xyz(index), 1);
    }
    let occlusion = faces_occlusion(&chunk);
    let faces = merge_faces(&occlusion, &chunk);
    assert_eq!(faces.len(), 6);
    assert_exact_cover(&faces, &occlusion, &chunk);
    let right = faces.iter().find(|f| f.side == Side::Right).unwrap();
    assert_eq!(
        lo_hi(right),
        (IVec3::new(15, 0, 0), IVec3::new(15, 15, 15))
    );
    let down = faces.iter().find(|f| f.side == Side::Down).unwrap();
    assert_eq!(lo_hi(down), (IVec3::new(0, 0, 0), IVec3::new(15, 0, 15)));
}

#[test]
fn a_row_of_voxels_merges_along_the_row() {
    let mut chunk = Chunk::default();
    for x in 2..=6 {
        chunk.set_voxel_kind(IVec3::new(x, 1, 1), 1);
    }
    let occlusion = faces_occlusion(&chunk);
    let faces = merge_faces(&occlusion, &chunk);
    // One quad each for the four long sides and for the two ends.
    assert_eq!(faces.len(), 6);
    assert_exact_cover(&faces, &occlusion, &chunk);
    let up = faces.iter().find(|f| f.side == Side::Up).unwrap();
    assert_eq!(lo_hi(up), (IVec3::new(2, 1, 1), IVec3::new(6, 1, 1)));
    // Front faces have the corners of the unit face 4, 5, 6, 7: low x first.
    let front = faces.iter().find(|f| f.side == Side::Front).unwrap();
    assert_eq!(
        front.vertices,
        [
            IVec3::new(2, 1, 1),
            IVec3::new(6, 1, 1),
            IVec3::new(6, 1, 1),
            IVec3::new(2, 1, 1),
        ]
    );
    // Back faces have them the other way about.
    let back = faces.iter().find(|f| f.side == Side::Back).unwrap();
    assert_eq!(
        back.vertices,
        [
            IVec3::new(6, 1, 1),
            IVec3::new(2, 1, 1),
            IVec3::new(2, 1, 1),
            IVec3::new(6, 1, 1),
        ]
    );
}

#[test]
fn faces_of_different_kinds_are_not_merged() {
    let mut chunk = Chunk::default();
    chunk.set_voxel_kind(IVec3::new(2, 2, 2), 1);
    chunk.set_voxel_kind(IVec3::new(3, 2, 2), 2);
    let occlusion = faces_occlusion(&chunk);
    let faces = merge_faces(&occlusion, &chunk);
    // Each voxel shows five faces, none of which can be merged.
    assert_eq!(faces.len(), 10);
    assert_exact_cover(&faces, &occlusion, &chunk);
    assert_eq!(faces.iter().filter(|f| f.kind == 1).count(), 5);
    assert_eq!(faces.iter().filter(|f| f.kind == 2).count(), 5);
}

#[test]
fn an_l_shape_is_covered_by_rectangles_without_overlap() {
    let mut chunk = Chunk::default();
    for x in 0..4 {
        chunk.set_voxel_kind(IVec3::new(x, 0, 0), 1);
    }
    for z in 1..4 {
        chunk.set_voxel_kind(IVec3::new(0, 0, z), 1);
    }
    let occlusion = faces_occlusion(&chunk);
    let faces = merge_faces(&occlusion, &chunk);
    assert_exact_cover(&faces, &occlusion, &chunk);
    let up: Vec<&VoxelFace> = faces.iter().filter(|f| f.side == Side::Up).collect();
    assert_eq!(up.len(), 2);
    assert!(covers(up[0], IVec3::new(3, 0, 0)));
    assert!(covers(up[1], IVec3::new(0, 0, 3)));
}

#[test]
fn merging_covers_a_scattered_chunk_exactly() {
    let mut chunk = Chunk::default();
    let mut state: u32 = 12345;
    for index in 0..BUFFER_SIZE {
        state = state.wrapping_mul(1664525).wrapping_add(1013904223);
        let kind = match (state >> 24) % 4 {
            0 => 0,
            1 | 2 => 1,
            _ => 2,
        };
        chunk.set_voxel_kind(to_xyz(index), kind);
    }
    let occlusion = faces_occlusion(&chunk);
    let faces = merge_faces(&occlusion, &chunk);
    assert_exact_cover(&faces, &occlusion, &chunk);
    assert!(faces.len() <= SIDE_COUNT * BUFFER_SIZE);
}

#[test]
fn merging_follows_the_occlusion_buffer_it_is_given() {
    let mut chunk = Chunk::default();
    chunk.set_voxel_kind(IVec3::new(1, 1, 1), 1);
    let mut occlusion = vec![[true; SIDE_COUNT]; BUFFER_SIZE];
    occlusion[voxel_world::chunk::to_index(IVec3::new(1, 1, 1))][Side::Up.index()] = false;
    let faces = merge_faces(&occlusion, &chunk);
    assert_eq!(faces.len(), 1);
    assert_eq!(faces[0].side, Side::Up);
    assert_eq!(faces[0].vertices, [IVec3::new(1, 1, 1); 4]);
}

#[test]
fn corners_follow_the_tables() {
    for side in SIDES {
        for i in 0..4 {
            let v = VERTICES[VERTICES_INDICES[side.index()][i]];
            assert_eq!(corner(side, i), IVec3::new(v[0], v[1], v[2]));
        }
    }
    assert_eq!(corner(Side::Right, 0), IVec3::new(1, 0, 1));
    assert_eq!(corner(Side::Back, 3), IVec3::new(1, 1, 0));
}

#[test]
fn every_corner_of_a_side_lies_on_that_side_of_the_cube() {
    for side in SIDES {
        let dir = get_side_dir(side);
        for i in 0..4 {
            let c = corner(side, i);
            let along = c.x * dir.x + c.y * dir.y + c.z * dir.z;
            let expected = if dir.x + dir.y + dir.z > 0 { 1 } else { 0 };
            assert_eq!(along, expected, "side {:?}, corner {}", side, i);
        }
    }
}

#[test]
fn side_directions_and_indices() {
    assert_eq!(get_side_dir(Side::Right), IVec3::new(1, 0, 0));
    assert_eq!(get_side_dir(Side::Left), IVec3::new(-1, 0, 0));
    assert_eq!(get_side_dir(Side::Up), IVec3::new(0, 1, 0));
    assert_eq!(get_side_dir(Side::Down), IVec3::new(0, -1, 0));
    assert_eq!(get_side_dir(Side::Front), IVec3::new(0, 0, 1));
    assert_eq!(get_side_dir(Side::Back), IVec3::new(0, 0, -1));
    for (i, side) in SIDES.iter().enumerate() {
        assert_eq!(side.index(), i);
        assert_eq!(Side::from_index(i), *side);
        assert_eq!(get_side_normal(*side), get_side_dir(*side));
    }
}

#[test]
fn vertices_are_corner_voxels_moved_to_the_corners_of_the_quad() {
    let face = VoxelFace {
        vertices: [
            IVec3::new(2, 1, 1),
            IVec3::new(6, 1, 1),
            IVec3::new(6, 3, 1),
            IVec3::new(2, 3, 1),
        ],
        side: Side::Front,
        kind: 1,
    };
    let vertices = compute_vertices(&vec![face]);
    let normal = IVec3::new(0, 0, 1);
    assert_eq!(
        vertices,
        vec![
            VoxelVertex { position: IVec3::new(2, 1, 2), normal },
            VoxelVertex { position: IVec3::new(7, 1, 2), normal },
            VoxelVertex { position: IVec3::new(7, 4, 2), normal },
            VoxelVertex { position: IVec3::new(2, 4, 2), normal },
        ]
    );
    assert!(compute_vertices(&vec![]).is_empty());
}

#[test]
fn vertices_come_four_to_a_face_in_the_order_of_the_faces() {
    let a = VoxelFace {
        vertices: [IVec3::new(0, 0, 0); 4],
        side: Side::Left,
        kind: 1,
    };
    let b = VoxelFace {
        vertices: [IVec3::new(5, 5, 5); 4],
        side: Side::Up,
        kind: 2,
    };
    let vertices = compute_vertices(&vec![a, b]);
    assert_eq!(vertices.len(), 8);
    assert!(vertices[..4].iter().all(|v| v.normal == IVec3::new(-1, 0, 0)));
    assert!(vertices[4..].iter().all(|v| v.normal == IVec3::new(0, 1, 0)));
    assert_eq!(vertices[1].position, IVec3::new(0, 0, 1));
    assert_eq!(vertices[4].position, IVec3::new(5, 6, 6));
}

#[test]
fn indices_are_two_triangles_per_quad() {
    assert!(compute_indices(0).is_empty());
    assert!(compute_indices(3).is_empty());
    assert_eq!(compute_indices(4), vec![0, 1, 2, 2, 3, 0]);
    assert_eq!(
        compute_indices(8),
        vec![0, 1, 2, 2, 3, 0, 4, 5, 6, 6, 7, 4]
    );
    assert_eq!(compute_indices(7), vec![0, 1, 2, 2, 3, 0]);
}

#[test]
fn mesh_holds_positions_normals_and_indices() {
    let normal = IVec3::new(0, 1, 0);
    let vertices = vec![
        VoxelVertex { position: IVec3::new(0, 1, 1), normal },
        VoxelVertex { position: IVec3::new(1, 1, 1), normal },
        VoxelVertex { position: IVec3::new(1, 1, 0), normal },
        VoxelVertex { position: IVec3::new(0, 1, 0), normal },
    ];
    let mesh = generate_mesh(&vertices);
    assert_eq!(
        mesh.positions,
        vec![
            IVec3::new(0, 1, 1),
            IVec3::new(1, 1, 1),
            IVec3::new(1, 1, 0),
            IVec3::new(0, 1, 0),
        ]
    );
    assert_eq!(mesh.normals, vec![normal; 4]);
    assert_eq!(mesh.indices, vec![0, 1, 2, 2, 3, 0]);
}

#[test]
fn triangles_of_every_side_face_outwards() {
    let mut chunk = Chunk::default();
    chunk.set_voxel_kind(IVec3::new(4, 4, 4), 1);
    let occlusion = faces_occlusion(&chunk);
    let faces = merge_faces(&occlusion, &chunk);
    let vertices = compute_vertices(&faces);
    let mesh = generate_mesh(&vertices);
    for triangle in mesh.indices.chunks(3) {
        let a = mesh.positions[triangle[0] as usize];
        let b = mesh.positions[triangle[1] as usize];
        let c = mesh.positions[triangle[2] as usize];
        let u = (b.x - a.x, b.y - a.y, b.z - a.z);
        let v = (c.x - a.x, c.y - a.y, c.z - a.z);
        let cross = IVec3::new(
            u.1 * v.2 - u.2 * v.1,
            u.2 * v.0 - u.0 * v.2,
            u.0 * v.1 - u.1 * v.0,
        );
        assert_eq!(cross, mesh.normals[triangle[0] as usize]);
    }
}
