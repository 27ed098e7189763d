use std::collections::HashMap;

use aquaforge::blocks::BlockType;
use aquaforge::chunk::Chunk;
use aquaforge::coords::{IVec3, UVec3};
use aquaforge::mesher::{ChunkMesh, face_normal};

fn l_shape() -> Chunk {
    let mut c = Chunk::empty();
    c.set(5, 5, 5, BlockType::Stone);
    c.set(6, 5, 5, BlockType::Stone);
    c.set(5, 6, 5, BlockType::Stone);
    c
}

/// Each quad expands to four vertices and two triangles over them, split
/// along the diagonal with the weaker AO contrast.
fn check_buffers(mesh: &ChunkMesh) {
    assert_eq!(mesh.vertices.len(), 4 * mesh.quads.len());
    assert_eq!(mesh.indices.len(), 6 * mesh.quads.len());
    for (k, q) in mesh.quads.iter().enumerate() {
        let b = 4 * k as u32;
        let ao = q.cell.ao;
        let expected = if (ao[0] as u32 + ao[2] as u32) < (ao[1] as u32 + ao[3] as u32) {
            [b, b + 1, b + 3, b + 1, b + 2, b + 3]
        } else {
            [b, b + 1, b + 2, b, b + 2, b + 3]
        };
        assert_eq!(&mesh.indices[6 * k..6 * k + 6], &expected);
        for i in 0..4 {
            let v = mesh.vertices[4 * k + i];
            assert_eq!(v.ao, ao[i]);
            assert_eq!(v.block, q.cell.block);
            assert_eq!(v.face, q.face);
        }
    }
}

#[test]
fn single_block_quads_sit_on_its_faces() {
    let mut c = Chunk::empty();
    c.set(5, 5, 5, BlockType::Sand);
    let mesh = c.build_mesh();
    check_buffers(&mesh);
    assert_eq!(mesh.quads.len(), 6);
    for (f, q) in mesh.quads.iter().enumerate() {
        assert_eq!(q.face, f);
        assert_eq!((q.u1 - q.u0, q.v1 - q.v0), (1, 1));
        assert_eq!(q.cell.ao, [3, 3, 3, 3]);
        let n = face_normal(f);
        // Every corner lies on the face plane of the block.
        for i in 0..4 {
            let p = mesh.vertices[4 * f + i].position;
            let plane = |coord: u32, axis: i32| if axis > 0 { coord == 6 } else { coord == 5 };
            if n.x != 0 {
                assert!(plane(p.x, n.x));
            } else if n.y != 0 {
                assert!(plane(p.y, n.y));
            } else {
                assert!(plane(p.z, n.z));
            }
        }
    }
    assert_eq!(mesh.vertices[0].position, UVec3::new(6, 5, 6));
}

#[test]
fn face_normals_point_outward() {
    let normals: Vec<IVec3> = (0..6).map(face_normal).collect();
    assert_eq!(
        normals,
        vec![
            IVec3::new(1, 0, 0),
            IVec3::new(-1, 0, 0),
            IVec3::new(0, 1, 0),
            IVec3::new(0, -1, 0),
            IVec3::new(0, 0, 1),
            IVec3::new(0, 0, -1),
        ]
    );
}

#[test]
fn every_visible_face_is_drawn_exactly_once() {
    let c = l_shape();
    let mesh = c.build_mesh();
    check_buffers(&mesh);
    // Count how many quads cover each (face, slice, u, v) cell.
    let mut cover: HashMap<(usize, usize, usize, usize), usize> = HashMap::new();
    for q in &mesh.quads {
        for u in q.u0..q.u1 {
            for v in q.v0..q.v1 {
                *cover.entry((q.face, q.slice, u, v)).or_insert(0) += 1;
            }
        }
    }
    let mut visible = 0;
    for f in 0..6 {
        for s in 0..16 {
            for u in 0..16 {
                for v in 0..16 {
                    let m = c.face_mask_cell(f, s, u, v);
                    let n = cover.get(&(f, s, u, v)).copied().unwrap_or(0);
                    if m.is_some() {
                        visible += 1;
                        assert_eq!(n, 1);
                    } else {
                        assert_eq!(n, 0);
                    }
                }
            }
        }
    }
    // Three cubes share two faces pairwise: 18 - 4 visible faces.
    assert_eq!(visible, 14);
}

#[test]
fn corner_ao_darkens_next_to_a_neighbour() {
    let c = l_shape();
    // The +Y face of (6, 5, 5) has the block at (5, 6, 5) beside its low-x edge.
    let m = c.face_mask_cell(2, 5, 6, 5).unwrap();
    assert_eq!(m.block, BlockType::Stone);
    assert_eq!(m.ao, [2, 3, 3, 2]);
    // The +Y face of (5, 5, 5) is covered by the block above.
    assert!(c.face_mask_cell(2, 5, 5, 5).is_none());
}

#[test]
fn quads_come_in_face_and_slice_order() {
    let mesh = l_shape().build_mesh();
    for w in mesh.quads.windows(2) {
        assert!(16 * w[0].face + w[0].slice <= 16 * w[1].face + w[1].slice);
    }
}
