use matrixagon::block::{Block, BlockRegistry, DefaultTextures, TextureID};
use matrixagon::chunk::{Chunk, ChunkError, ChunkID};
use matrixagon::mesh::{cube_mesh_data, flora_mesh_data, Vertex};
use matrixagon::mesher::{MeshKind, Mesher};
use matrixagon::units::{ChunkUnit, LocalBU, Position, CHUNK_BLOCKS};

fn registry() -> BlockRegistry {
    BlockRegistry::new(&DefaultTextures {
        grass_side: TextureID(1),
        grass_top: TextureID(2),
        dirt: TextureID(3),
        sand: TextureID(4),
        stone: TextureID(5),
        grass_flora: TextureID(6),
        flower: TextureID(7),
    })
}

fn pos(x: i64, y: i64, z: i64) -> Position<ChunkUnit> {
    Position::new(ChunkUnit(x), ChunkUnit(y), ChunkUnit(z))
}

fn filled(id: u32, p: Position<ChunkUnit>, b: Block) -> Chunk {
    Chunk::new(ChunkID(id), p, vec![b; CHUNK_BLOCKS]).ok().unwrap()
}

#[test]
fn opacity_mask_of_uniform_chunks() {
    let reg = registry();
    let stone = filled(1, pos(0, 0, 0), reg.block("stone"));
    assert_eq!(stone.layers(), u32::MAX);
    let air = filled(2, pos(0, 0, 0), reg.block("air"));
    assert_eq!(air.layers(), 0);
}

#[test]
fn opacity_mask_marks_only_full_layers() {
    let reg = registry();
    let mut blocks = vec![reg.block("stone"); CHUNK_BLOCKS];
    // one transparent block in layer 5
    blocks[7 * 1024 + 5 * 32 + 9] = reg.block("grass");
    let c = Chunk::new(ChunkID(1), pos(0, 0, 0), blocks).ok().unwrap();
    assert_eq!(c.layers(), u32::MAX & !(1 << 5));
}

#[test]
fn making_a_block_transparent_clears_its_layer_bit() {
    let reg = registry();
    let mut c = filled(1, pos(0, 0, 0), reg.block("stone"));
    c.update(Position::new(LocalBU(3), LocalBU(17), LocalBU(30)), reg.block("air"));
    assert_eq!(c.layers(), u32::MAX & !(1 << 17));
    assert!(c.local(3, 17, 30).state.transparent);
    c.update(Position::new(LocalBU(3), LocalBU(17), LocalBU(30)), reg.block("dirt"));
    assert_eq!(c.layers(), u32::MAX);
}

#[test]
fn chunk_constructor_checks_length_and_position() {
    let reg = registry();
    let short = Chunk::new(ChunkID(1), pos(0, 0, 0), vec![reg.block("air"); 10]);
    assert_eq!(short.err(), Some(ChunkError::Invalid));
    let far = Chunk::new(ChunkID(1), pos(i64::MAX, 0, 0), vec![reg.block("air"); CHUNK_BLOCKS]);
    assert_eq!(far.err(), Some(ChunkError::Invalid));
}

#[test]
fn lone_solid_chunk_shows_no_faces() {
    let reg = registry();
    let a = filled(1, pos(0, 0, 0), reg.block("stone"));
    let all = vec![filled(1, pos(0, 0, 0), reg.block("stone"))];
    let (v, i) = cube_mesh_data(&a, &all);
    assert_eq!(v.len(), 0);
    assert_eq!(i.len(), 0);
}

#[test]
fn boundary_seam_appears_once_the_neighbor_loads() {
    let reg = registry();
    let a = filled(1, pos(0, 0, 0), reg.block("stone"));
    let before = vec![filled(1, pos(0, 0, 0), reg.block("stone"))];
    let (v0, i0) = cube_mesh_data(&a, &before);
    assert_eq!((v0.len(), i0.len()), (0, 0));
    let after = vec![
        filled(1, pos(0, 0, 0), reg.block("stone")),
        filled(2, pos(1, 0, 0), reg.block("air")),
    ];
    let (v1, i1) = cube_mesh_data(&a, &after);
    // one right face per block of the x = 31 slab: +4 vertices, +6 indices each
    assert_eq!(v1.len(), 32 * 32 * 4);
    assert_eq!(i1.len(), 32 * 32 * 6);
    assert!(v1.iter().all(|v| v.x == 31 && v.dx == 10));
    assert_eq!(&i1[..12], &[0, 1, 2, 0, 2, 3, 4, 5, 6, 4, 6, 7]);
    // first face: block (31, 0, 0), right face, corner 3 first, tag 12, texture 5
    assert_eq!(v1[0], Vertex { x: 31, y: 0, z: 0, dx: 10, dy: 0, dz: 0, txtr: 3 | (12 << 2) | (5 << 16) });
}

#[test]
fn opaque_neighbor_hides_the_border_face() {
    let reg = registry();
    let a = filled(1, pos(0, 0, 0), reg.block("stone"));
    let all = vec![
        filled(1, pos(0, 0, 0), reg.block("stone")),
        filled(2, pos(1, 0, 0), reg.block("dirt")),
        filled(3, pos(0, 1, 0), reg.block("air")),
    ];
    let (v, _) = cube_mesh_data(&a, &all);
    // only the top faces toward the air chunk above
    assert_eq!(v.len(), 32 * 32 * 4);
    assert!(v.iter().all(|v| v.y == 31 && v.dy == 10));
    assert_eq!(v[0].txtr >> 16, 5);
    assert_eq!((v[0].txtr >> 2) & 15, 15);
}

#[test]
fn single_exposed_block_gets_one_face_per_open_side() {
    let reg = registry();
    let mut blocks = vec![reg.block("air"); CHUNK_BLOCKS];
    blocks[10 * 1024 + 10 * 32 + 10] = reg.block("grass_block");
    let c = Chunk::new(ChunkID(1), pos(0, 0, 0), blocks).ok().unwrap();
    let all = vec![Chunk::new(ChunkID(1), pos(0, 0, 0), vec![reg.block("air"); CHUNK_BLOCKS]).ok().unwrap()];
    let (v, i) = cube_mesh_data(&c, &all);
    assert_eq!(v.len(), 24);
    assert_eq!(i.len(), 36);
    assert_eq!(*i.iter().max().unwrap(), 23);
    // face order: left, bottom, front, right, top, back; top uses the grass_top texture
    assert_eq!(v[16].txtr >> 16, 2);
    assert_eq!(v[4].txtr >> 16, 3);
    assert_eq!(v[0].txtr >> 16, 1);
}

#[test]
fn flora_blocks_always_get_two_crossed_quads() {
    let reg = registry();
    let mut blocks = vec![reg.block("stone"); CHUNK_BLOCKS];
    blocks[1 * 1024 + 2 * 32 + 3] = reg.block("flower");
    let c = Chunk::new(ChunkID(1), pos(0, 2, 0), blocks).ok().unwrap();
    let (v, i) = flora_mesh_data(&c);
    assert_eq!(v.len(), 8);
    assert_eq!(i, vec![0, 1, 2, 0, 2, 3, 4, 5, 6, 4, 6, 7]);
    assert_eq!(v[0], Vertex { x: 1, y: 66, z: 3, dx: 11, dy: -1, dz: 0, txtr: 1 | (7 << 16) });
    assert_eq!(v[7], Vertex { x: 1, y: 66, z: 3, dx: 11, dy: -1, dz: 11, txtr: 3 | (7 << 16) });
}

#[test]
fn aggregated_buffer_rebases_indices() {
    let reg = registry();
    let mut blocks = vec![reg.block("air"); CHUNK_BLOCKS];
    blocks[0] = reg.block("grass");
    let chunks = vec![
        Chunk::new(ChunkID(1), pos(0, 0, 0), blocks.clone()).ok().unwrap(),
        Chunk::new(ChunkID(2), pos(5, 0, 0), blocks).ok().unwrap(),
    ];
    let mut m = Mesher::new(MeshKind::FloraX);
    m.add_chunk(ChunkID(1));
    m.add_chunk(ChunkID(2));
    assert_eq!(m.entry(0), (ChunkID(1), true));
    m.load_chunks(&chunks);
    assert_eq!(m.entry(1), (ChunkID(2), false));
    assert!(m.render(false));
    assert_eq!(m.vertices().len(), 16);
    assert_eq!(m.indices().len(), 24);
    assert_eq!(&m.indices()[12..18], &[8, 9, 10, 8, 10, 11]);
    let max = *m.indices().iter().max().unwrap() as usize;
    assert!(max < m.vertices().len());
    assert_eq!(m.indices().len() % 3, 0);
    m.remv_chunk(ChunkID(1));
    assert_eq!(m.len(), 1);
    assert!(m.render(false));
    assert_eq!(m.vertices().len(), 8);
    assert_eq!(m.vertices()[0].x, 160);
}

#[test]
fn cube_mesher_remeshes_neighbors_of_new_chunks() {
    let reg = registry();
    let chunks1 = vec![filled(1, pos(0, 0, 0), reg.block("stone"))];
    let mut m = Mesher::new(MeshKind::Cube);
    m.add_chunk(ChunkID(1));
    m.load_chunks(&chunks1);
    assert!(m.render(false));
    assert_eq!(m.vertices().len(), 0);
    let chunks2 = vec![filled(1, pos(0, 0, 0), reg.block("stone")), filled(2, pos(0, 0, 1), reg.block("air"))];
    m.add_chunk(ChunkID(2));
    m.load_chunks(&chunks2);
    assert!(m.render(false));
    assert_eq!(m.vertices().len(), 32 * 32 * 4);
    assert_eq!(m.indices().len(), 32 * 32 * 6);
}

#[test]
fn enclosed_chunk_shows_only_faces_toward_transparent_blocks() {
    let reg = registry();
    let mut blocks = vec![reg.block("stone"); CHUNK_BLOCKS];
    blocks[16 * 1024 + 16 * 32 + 16] = reg.block("air");
    let c = Chunk::new(ChunkID(1), pos(0, 0, 0), blocks.clone()).ok().unwrap();
    let mut all = vec![Chunk::new(ChunkID(1), pos(0, 0, 0), blocks).ok().unwrap()];
    let around = [(1, 0, 0), (-1, 0, 0), (0, 1, 0), (0, -1, 0), (0, 0, 1), (0, 0, -1)];
    for (n, (x, y, z)) in around.iter().enumerate() {
        all.push(filled(n as u32 + 2, pos(*x, *y, *z), reg.block("stone")));
    }
    let (v, i) = cube_mesh_data(&c, &all);
    // the six blocks around the air pocket each show exactly the face toward it
    assert_eq!(v.len(), 6 * 4);
    assert_eq!(i.len(), 6 * 6);
    let solid = filled(9, pos(0, 0, 0), reg.block("stone"));
    all.remove(0);
    let (v2, _) = cube_mesh_data(&solid, &all);
    assert_eq!(v2.len(), 0);
}
