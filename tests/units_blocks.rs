use matrixagon::block::{Block, BlockID, BlockRegistry, BlockState, DefaultTextures, Matter, MeshType, TextureID};
use matrixagon::units::{
    BlockFace, BlockUnit, ChunkUnit, Dimension, Line, LocalBU, LocalBUIntermediate, Position, SectorUnit,
};

fn textures() -> DefaultTextures {
    DefaultTextures {
        grass_side: TextureID(1),
        grass_top: TextureID(2),
        dirt: TextureID(3),
        sand: TextureID(4),
        stone: TextureID(5),
        grass_flora: TextureID(6),
        flower: TextureID(7),
    }
}

#[test]
fn block_to_chunk_round_trip_keeps_chunk_floor() {
    for n in [-1000i64, -33, -32, -31, -1, 0, 1, 31, 32, 37, 1000] {
        let back = BlockUnit(n).into_chunk().into_block();
        assert!(back.0 <= n && n < back.0 + 32);
        assert_eq!(back.0, n.div_euclid(32) * 32);
    }
    assert_eq!(BlockUnit(37).into_chunk(), ChunkUnit(1));
    assert_eq!(BlockUnit(37).into_chunk().into_block(), BlockUnit(32));
    assert_eq!(BlockUnit(-1).into_chunk(), ChunkUnit(-1));
    assert_eq!(BlockUnit(-1).into_chunk().into_block(), BlockUnit(-32));
    assert_eq!(BlockUnit(i64::MIN).into_chunk(), ChunkUnit(-288230376151711744));
    assert_eq!(BlockUnit(i64::MAX).into_chunk(), ChunkUnit(288230376151711743));
}

#[test]
fn sector_conversions() {
    assert_eq!(BlockUnit(1023).into_sector(), SectorUnit(1));
    assert_eq!(BlockUnit(-1).into_sector(), SectorUnit(-1));
    assert_eq!(ChunkUnit(31).into_sector(), SectorUnit(1));
    assert_eq!(SectorUnit(2).into_chunk(), ChunkUnit(32));
    assert_eq!(SectorUnit(-2).into_block(), BlockUnit(-1024));
}

#[test]
fn unit_arithmetic() {
    assert_eq!(BlockUnit(5).plus(BlockUnit(7)), BlockUnit(12));
    assert_eq!(ChunkUnit(5).minus(ChunkUnit(7)), ChunkUnit(-2));
    assert_eq!(SectorUnit(3).times(SectorUnit(-4)), SectorUnit(-12));
    assert_eq!(BlockUnit(-7).div_euclid(BlockUnit(2)), BlockUnit(-4));
    assert_eq!(BlockUnit(4).incr(), BlockUnit(5));
    assert_eq!(ChunkUnit(4).decr(), ChunkUnit(3));
    assert_eq!(SectorUnit(4).neg(), SectorUnit(-4));
    assert_eq!(BlockUnit(9).inner(), 9);
    assert_eq!(ChunkUnit(-9).into_inner(), -9);
}

#[test]
fn local_block_units() {
    assert_eq!(BlockUnit(5).into_local_bu(), LocalBUIntermediate::Inside(LocalBU(5)));
    assert_eq!(BlockUnit(33).into_local_bu(), LocalBUIntermediate::UBound(LocalBU(1)));
    assert_eq!(BlockUnit(-1).into_local_bu(), LocalBUIntermediate::UBound(LocalBU(31)));
    let p = Position::new(LocalBU(1), LocalBU(2), LocalBU(3));
    assert_eq!(p.into_vec_pos(), 1024 + 64 + 3);
    let q = Position::new(LocalBU(33), LocalBU(34), LocalBU(35));
    assert_eq!(q.into_vec_pos(), 1024 + 64 + 3);
}

#[test]
fn dimension_and_line() {
    let mut d = Dimension::new(600u32, 800u32);
    assert_eq!((d.height, d.width), (600, 800));
    d.resize(10, 20);
    assert_eq!((d.height, d.width), (10, 20));
    let l = Line::new(Position::new(0i64, 1, 2), Position::new(3i64, 4, 5));
    assert_eq!(l.b.z, 5);
}

#[test]
fn mesh_type_builders() {
    let t = TextureID(9);
    assert_eq!(
        MeshType::cube_all(t),
        MeshType::Cube { top: t, bottom: t, left: t, right: t, front: t, back: t }
    );
    let s = TextureID(1);
    assert_eq!(
        MeshType::cube_except_one(t, s, BlockFace::Top),
        MeshType::Cube { top: s, bottom: t, left: t, right: t, front: t, back: t }
    );
    assert_eq!(
        MeshType::cube_individual(TextureID(1), TextureID(2), TextureID(3), TextureID(4), TextureID(5), TextureID(6)),
        MeshType::Cube {
            top: TextureID(1),
            bottom: TextureID(2),
            left: TextureID(3),
            right: TextureID(4),
            front: TextureID(5),
            back: TextureID(6)
        }
    );
}

#[test]
fn null_block_and_new_block() {
    let n = Block::null();
    assert_eq!(n.id, BlockID(0));
    assert_eq!(n.mesh, MeshType::Null);
    assert!(!n.state.transparent);
    let b = Block::new(BlockID(3), "x", MeshType::Air, BlockState::default());
    assert_eq!(b.id, BlockID(3));
    assert_eq!(b.name, "x");
    assert_eq!(BlockState::default().matter, Matter::Solid);
}

#[test]
fn standard_registry_numbers_kinds_from_one() {
    let reg = BlockRegistry::new(&textures());
    assert_eq!(reg.len(), 7);
    assert_eq!(reg.block_id("air"), Some(BlockID(1)));
    assert_eq!(reg.block_id("stone"), Some(BlockID(4)));
    assert_eq!(reg.block_id("flower"), Some(BlockID(7)));
    assert_eq!(reg.block_id("lava"), None);
    assert!(reg.get_block("lava").is_none());
    let grass = reg.block("grass");
    assert!(grass.state.transparent);
    assert_eq!(grass.mesh, MeshType::FloraX { positive: TextureID(6), negative: TextureID(6) });
    let gb = reg.get_block("grass_block").unwrap();
    assert_eq!(
        gb.mesh,
        MeshType::Cube {
            top: TextureID(2),
            bottom: TextureID(3),
            left: TextureID(1),
            right: TextureID(1),
            front: TextureID(1),
            back: TextureID(1)
        }
    );
    assert_eq!(reg.by_id(BlockID(5)).unwrap().name, "sand");
    assert!(reg.by_id(BlockID(0)).is_none());
    assert!(reg.by_id(BlockID(8)).is_none());
}

#[test]
fn registry_appends_and_finds_first_of_a_name() {
    let mut reg = BlockRegistry::empty();
    reg.add_block("a", MeshType::Air, BlockState::default());
    reg.add_block("b", MeshType::Air, BlockState::default());
    reg.add_block("a", MeshType::Null, BlockState::default());
    assert_eq!(reg.block_id("a"), Some(BlockID(1)));
    assert_eq!(reg.block_id("b"), Some(BlockID(2)));
    assert_eq!(reg.by_id(BlockID(3)).unwrap().mesh, MeshType::Null);
}

#[test]
fn null_block_is_named_null() {
    assert_eq!(Block::null().name, "null");
}
