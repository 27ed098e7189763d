use aquaforge::blocks::BlockType;
use aquaforge::chunk::{CHUNK_SIZE, Chunk};
use aquaforge::coords::IVec3;
use aquaforge::mesher::ChunkMesh;
use aquaforge::noise::hash2_bits;

fn fill(block: BlockType) -> Chunk {
    let mut c = Chunk::empty();
    for x in 0..CHUNK_SIZE {
        for y in 0..CHUNK_SIZE {
            for z in 0..CHUNK_SIZE {
                c.set(x, y, z, block);
            }
        }
    }
    c
}

fn vertex_count(mesh: &ChunkMesh) -> usize {
    mesh.vertices.len()
}

fn index_count(mesh: &ChunkMesh) -> usize {
    mesh.indices.len()
}

// World generation noise, as the application computes it.
fn smoothstep(t: f32) -> f32 {
    let t = t.clamp(0.0, 1.0);
    t * t * (3.0 - 2.0 * t)
}

fn bilerp(a: f32, b: f32, c: f32, d: f32, tx: f32, ty: f32) -> f32 {
    let ab = a + (b - a) * tx;
    let cd = c + (d - c) * tx;
    ab + (cd - ab) * ty
}

fn hash2(x: i32, y: i32, seed: u32) -> f32 {
    hash2_bits(x, y, seed) as f32 / 0x0100_0000 as f32
}

fn value_2d(x: f32, y: f32, seed: u32) -> f32 {
    let xi = x.floor() as i32;
    let yi = y.floor() as i32;
    let xf = x - xi as f32;
    let yf = y - yi as f32;
    let a = hash2(xi, yi, seed);
    let b = hash2(xi + 1, yi, seed);
    let c = hash2(xi, yi + 1, seed);
    let d = hash2(xi + 1, yi + 1, seed);
    bilerp(a, b, c, d, smoothstep(xf), smoothstep(yf))
}

fn fbm_2d(x: f32, y: f32, seed: u32, octaves: u32) -> f32 {
    let mut amp = 1.0_f32;
    let mut freq = 1.0_f32;
    let mut sum = 0.0_f32;
    let mut norm = 0.0_f32;
    for o in 0..octaves {
        let n = value_2d(x * freq, y * freq, seed.wrapping_add(o)) * 2.0 - 1.0;
        sum += n * amp;
        norm += amp;
        amp *= 0.5;
        freq *= 2.0;
    }
    if norm == 0.0 { 0.0 } else { sum / norm }
}

fn generate(chunk_pos: IVec3, seed: u32) -> Chunk {
    let mut seabed = Vec::new();
    let mut coral = Vec::new();
    for z in 0..CHUNK_SIZE as i32 {
        for x in 0..CHUNK_SIZE as i32 {
            let wx = chunk_pos.x * CHUNK_SIZE as i32 + x;
            let wz = chunk_pos.z * CHUNK_SIZE as i32 + z;
            let big = fbm_2d(wx as f32 * 0.035, wz as f32 * 0.035, seed, 4) * 10.0;
            let detail = fbm_2d(wx as f32 * 0.11, wz as f32 * 0.11, seed ^ 0x9E37, 2) * 2.0;
            seabed.push((6.0 + big + detail).round() as i32);
            coral.push(value_2d(wx as f32 * 0.31, wz as f32 * 0.31, seed ^ 0xC0FFEE) > 0.86);
        }
    }
    Chunk::generate(chunk_pos, &seabed, &coral)
}

/// An empty chunk has no geometry.
#[test]
fn empty_chunk_has_no_geometry() {
    let mesh = Chunk::empty().build_mesh();
    assert_eq!(vertex_count(&mesh), 0);
    assert_eq!(index_count(&mesh), 0);
}

/// A fully-solid chunk only draws its 6 outer shell faces, one quad each.
#[test]
fn solid_chunk_emits_single_quad_per_face() {
    let mesh = fill(BlockType::Stone).build_mesh();
    assert_eq!(vertex_count(&mesh), 24);
    assert_eq!(index_count(&mesh), 36);
}

/// A solid chunk split half Stone / half Sand along x emits one quad per
/// shell half.
#[test]
fn split_chunk_emits_two_block_types() {
    let mut c = Chunk::empty();
    for x in 0..CHUNK_SIZE {
        for y in 0..CHUNK_SIZE {
            for z in 0..CHUNK_SIZE {
                let b = if x < CHUNK_SIZE / 2 {
                    BlockType::Stone
                } else {
                    BlockType::Sand
                };
                c.set(x, y, z, b);
            }
        }
    }
    let mesh = c.build_mesh();
    assert_eq!(vertex_count(&mesh), 40);
    assert_eq!(index_count(&mesh), 60);
}

/// A single lone block meshes to exactly 6 quads.
#[test]
fn single_block_emits_six_faces() {
    let mut c = Chunk::empty();
    c.set(5, 5, 5, BlockType::Stone);
    let mesh = c.build_mesh();
    assert_eq!(vertex_count(&mesh), 24);
    assert_eq!(index_count(&mesh), 36);
}

/// An L-shape of blocks must not merge cells whose AO corners differ.
#[test]
fn ao_variation_prevents_incorrect_merge() {
    let mut c = Chunk::empty();
    c.set(5, 5, 5, BlockType::Stone);
    c.set(6, 5, 5, BlockType::Stone);
    c.set(5, 6, 5, BlockType::Stone);
    let mesh = c.build_mesh();
    let quads = vertex_count(&mesh) / 4;
    assert!(
        (8..=18).contains(&quads),
        "expected 8..=18 quads for a 3-block L-shape, got {}",
        quads
    );
}

/// The generated seabed meshes to far fewer faces than one quad per face.
#[test]
fn generated_chunk_is_well_below_naive_face_count() {
    let chunk = generate(IVec3::new(0, 0, 0), 0xAFE1_0E6A);
    let mesh = chunk.build_mesh();
    let quads = vertex_count(&mesh) / 4;
    assert!(
        quads < 1024,
        "greedy mesher emitted {} quads, which is not greedy enough",
        quads
    );
}
