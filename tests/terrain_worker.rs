use matrixagon::block::{BlockRegistry, DefaultTextures, TextureID};
use matrixagon::chunk::{ChunkError, ChunkID};
use matrixagon::event::{ChunkEvents, EventQueue};
use matrixagon::terrain::{gradient_index, perlin_permutation, permutation, Terrain, TerrainPalette};
use matrixagon::units::{ChunkUnit, Dimension, Position};
use matrixagon::mesh::cube_mesh_data;
use matrixagon::mesher::MeshKind;
use matrixagon::worker::{drain_action, DrainAction, CameraState, ChunkUpdateState, ChunkWorker, WorldStateUpd};

fn registry() -> BlockRegistry {
    BlockRegistry::new(&DefaultTextures {
        grass_side: TextureID(1),
        grass_top: TextureID(2),
        dirt: TextureID(3),
        sand: TextureID(4),
        stone: TextureID(5),
        grass_flora: TextureID(6),
        flower: TextureID(7),
    })
}

fn palette() -> TerrainPalette {
    TerrainPalette::from_registry(&registry()).unwrap()
}

fn pos(x: i64, y: i64, z: i64) -> Position<ChunkUnit> {
    Position::new(ChunkUnit(x), ChunkUnit(y), ChunkUnit(z))
}

fn names(blocks: &[matrixagon::block::Block]) -> Vec<&'static str> {
    blocks.iter().map(|b| b.name).collect()
}

#[test]
fn terrain_refuses_the_null_block_in_its_palette() {
    let mut p = palette();
    p.dirt = matrixagon::block::Block::null();
    assert!(Terrain::new(1, p).is_none());
    assert!(Terrain::new(1, palette()).is_some());
}

#[test]
fn palette_needs_every_terrain_kind() {
    assert!(TerrainPalette::from_registry(&BlockRegistry::empty()).is_none());
    let p = palette();
    assert_eq!(p.stone.name, "stone");
    assert_eq!(p.grass_block.name, "grass_block");
}

#[test]
fn generation_is_deterministic_for_a_seed() {
    let hm = vec![10u32; 1024];
    let t1 = Terrain::new(24, palette()).unwrap();
    let t2 = Terrain::new(24, palette()).unwrap();
    let a = t1.generate_chunk(pos(3, 2, -4), &hm);
    let b = t2.generate_chunk(pos(3, 2, -4), &hm);
    assert_eq!(names(&a), names(&b));
    assert_eq!(a.len(), 32768);
}

#[test]
fn surface_decoration_uses_the_generator() {
    let hm = vec![10u32; 1024];
    let t = Terrain::new(7, palette()).unwrap();
    // chunk y = 2 covers heights 64..96: the surface is 64, the rest air
    let a = t.generate_chunk(pos(0, 2, 0), &hm);
    let surface: Vec<&str> = (0..1024).map(|c| a[(c / 32) * 1024 + (c % 32)].name).collect();
    assert!(surface.iter().all(|n| *n == "grass" || *n == "flower" || *n == "air"));
    assert!(surface.iter().any(|n| *n == "grass"));
    assert!(surface.iter().any(|n| *n == "air"));
    for x in 0..32 {
        for y in 1..32 {
            for z in 0..32 {
                assert_eq!(a[x * 1024 + y * 32 + z].name, "air");
            }
        }
    }
    // a repeated call gives the identical chunk, also after calls for other positions
    let _other = t.generate_chunk(pos(5, 2, 1), &hm);
    let b = t.generate_chunk(pos(0, 2, 0), &hm);
    assert_eq!(names(&a), names(&b));
    let ids: Vec<u32> = a.iter().map(|b| b.id.0).collect();
    assert!(ids.iter().all(|&i| i >= 1));
}

#[test]
fn column_bands_run_from_air_to_stone() {
    let hm = vec![10u32; 1024];
    let t = Terrain::new(1, palette()).unwrap();
    let low = t.generate_chunk(pos(0, 1, 0), &hm);
    // heights 32..64 in a column whose surface is 64
    let col: Vec<&str> = (0..32).rev().map(|y| low[5 * 1024 + y * 32 + 9].name).collect();
    assert_eq!(col[0], "grass_block"); // 63
    assert_eq!(&col[1..3], &["dirt", "dirt"]); // 62, 61
    assert!(col[3..].iter().all(|n| *n == "stone"));
    let deep = t.generate_chunk(pos(0, 0, 0), &hm);
    assert!(deep.iter().all(|b| b.name == "stone"));
}

#[test]
fn low_columns_turn_to_sand() {
    let hm = vec![5u32; 1024];
    let t = Terrain::new(1, palette()).unwrap();
    let c = t.generate_chunk(pos(0, 1, 0), &hm);
    // surface 59: 58 top soil, 57 and 56 subsoil, all sand below ground level
    let col: Vec<&str> = (54..60).rev().map(|y| c[(y - 32) * 32].name).collect();
    assert!(col[0] == "grass" || col[0] == "flower" || col[0] == "air");
    assert_eq!(&col[1..4], &["sand", "sand", "sand"]);
    assert_eq!(&col[4..], &["stone", "stone"]);
    assert_eq!(c[(60 - 32) * 32].name, "air");
}

#[test]
fn permutation_shuffles_one_to_n() {
    let p = perlin_permutation(24);
    assert_eq!(p.len(), 256);
    let mut sorted = p.clone();
    sorted.sort();
    assert_eq!(sorted, (1..=256).collect::<Vec<u32>>());
    assert_ne!(p, (1..=256).collect::<Vec<u32>>());
    assert_eq!(perlin_permutation(24), p);
    assert_ne!(perlin_permutation(25), p);
    assert_eq!(permutation((5, 7), 1), vec![1]);
    assert_eq!(permutation((5, 7), 0), Vec::<u32>::new());
}

#[test]
fn gradient_index_follows_the_table() {
    let p: Vec<u32> = (0..256).map(|i| ((i * 7 + 3) % 256) as u32).collect();
    let x = 300u32;
    let y = 5u32;
    let expect = (p[((p[(x & 255) as usize] + (y & 255)) & 255) as usize] % 8) as usize;
    assert_eq!(gradient_index(&p, x, y), expect);
    assert!(gradient_index(&p, 0, 0) < 8);
}

#[test]
fn event_queue_drains_last_in_first_out_then_final() {
    let mut q: EventQueue<ChunkEvents> = EventQueue::new();
    q.add_event(ChunkEvents::LoadChunk(pos(1, 0, 0)));
    q.merge_events(vec![ChunkEvents::OffloadChunk(ChunkID(4)), ChunkEvents::ReloadChunks]);
    assert_eq!(q.event_count(), 3);
    assert_eq!(
        q.run_event(),
        vec![
            ChunkEvents::ReloadChunks,
            ChunkEvents::OffloadChunk(ChunkID(4)),
            ChunkEvents::LoadChunk(pos(1, 0, 0)),
            ChunkEvents::EventFinal
        ]
    );
    q.flush_events();
    assert_eq!(q.run_event(), vec![ChunkEvents::EventFinal]);
}

fn cam(cx: i64, cy: i64, cz: i64) -> CameraState {
    CameraState { x: cx * 32000 + 500, y: cy * 32000 + 500, z: cz * 32000 + 500, yaw: 0, pitch: 0 }
}

#[test]
fn radius_sweep_covers_the_cube_once() {
    let w = ChunkWorker::new(Terrain::new(24, palette()).unwrap());
    let q = w.plan(&cam(0, 5, 0), 1);
    assert_eq!(q.event_count(), 27);
    let q = w.plan(&cam(0, 5, 0), 2);
    assert_eq!(q.event_count(), 125);
    // at the world floor the y = -1 layer is left out
    let q = w.plan(&cam(3, 0, -2), 1);
    assert_eq!(q.event_count(), 18);
    let order = q.run_event();
    assert_eq!(order.len(), 19);
    assert_eq!(order[0], ChunkEvents::LoadChunk(pos(4, 1, -1)));
    assert_eq!(order[18], ChunkEvents::EventFinal);
}

#[test]
fn viewer_chunk_floors_each_axis() {
    let c = ChunkWorker::viewer_chunk(&CameraState { x: -1, y: 32000, z: 31999, yaw: 0, pitch: 0 });
    assert_eq!(c, pos(-1, 1, 0));
}

#[test]
fn loads_reject_duplicates_and_offloads_remove() {
    let hm = vec![10u32; 1024];
    let mut w = ChunkWorker::new(Terrain::new(24, palette()).unwrap());
    assert_eq!(w.load_chunk(pos(0, 0, 0), &hm), Ok(ChunkID(1)));
    assert_eq!(w.load_chunk(pos(0, 0, 0), &hm), Err(ChunkError::DuplicateChunkPos));
    assert_eq!(w.load_chunk(pos(0, 1, 0), &vec![1u32; 3]), Err(ChunkError::Invalid));
    assert_eq!(w.load_chunk(pos(0, 1, 0), &hm), Ok(ChunkID(2)));
    assert_eq!(w.chunks().len(), 2);
    assert_eq!(w.cube().len(), 2);
    assert_eq!(w.flora().len(), 2);
    assert!(w.offload_chunk(ChunkID(1)));
    assert!(!w.offload_chunk(ChunkID(1)));
    assert_eq!(w.chunks().len(), 1);
    assert_eq!(w.chunks()[0].id(), ChunkID(2));
    assert_eq!(w.cube().len(), 1);
    assert_eq!(w.load_chunk(pos(0, 0, 0), &hm), Ok(ChunkID(3)));
    let st = w.status(2, 1);
    assert_eq!(st.total_chunks_loaded, 2);
    assert_eq!(st.chunks, vec![(ChunkID(2), pos(0, 1, 0)), (ChunkID(3), pos(0, 0, 0))]);
}

#[test]
fn a_tick_loads_meshes_and_publishes() {
    let hm = vec![10u32; 1024];
    let mut w = ChunkWorker::new(Terrain::new(24, palette()).unwrap());
    let order = w.plan(&cam(0, 1, 0), 1).run_event();
    for e in order.iter() {
        w.apply_event(*e, &hm);
    }
    assert_eq!(w.chunks().len(), 27);
    let (a, b) = w.render();
    assert!(a && b);
    assert!(w.cube().vertices().len() > 0);
    assert!(w.flora().vertices().len() > 0);
    let cube_idx = w.cube().indices();
    assert!(cube_idx.iter().all(|&i| (i as usize) < w.cube().vertices().len()));
    assert_eq!(cube_idx.len() % 3, 0);
    // a second plan from the same place asks for nothing
    assert_eq!(w.plan(&cam(0, 1, 0), 1).event_count(), 0);
    // moving far away offloads all 27 and loads a fresh cube
    let q = w.plan(&cam(10, 1, 0), 1);
    let offl = q.run_event().iter().filter(|e| matches!(e, ChunkEvents::OffloadChunk(_))).count();
    assert_eq!(offl, 27);
    assert_eq!(q.event_count(), 54);
}

#[test]
fn urgency_of_a_new_snapshot() {
    let s = WorldStateUpd { cam: cam(0, 0, 0), dimensions: Dimension::new(600, 800), rerender: false };
    assert_eq!(s.update(&s), ChunkUpdateState::Consistent);
    let moved = WorldStateUpd { cam: cam(1, 0, 0), ..s };
    assert_eq!(s.update(&moved), ChunkUpdateState::Update);
    let flag = WorldStateUpd { rerender: true, ..s };
    assert_eq!(s.update(&flag), ChunkUpdateState::Update);
    let resized = WorldStateUpd { dimensions: Dimension::new(601, 800), cam: cam(2, 0, 0), ..s };
    assert_eq!(s.update(&resized), ChunkUpdateState::Immediate);
}

#[test]
fn mesh_jobs_run_outside_and_store_back() {
    let hm = vec![10u32; 1024];
    let mut w = ChunkWorker::new(Terrain::new(24, palette()).unwrap());
    w.load_chunk(pos(0, 1, 0), &hm).unwrap();
    w.load_chunk(pos(0, 2, 0), &hm).unwrap();
    let jobs = w.mesh_jobs(MeshKind::Cube);
    assert_eq!(jobs, vec![(0, 0), (1, 1)]);
    let (v, i) = cube_mesh_data(&w.chunks()[0], w.chunks());
    assert!(v.len() > 0);
    assert!(!w.store_mesh(MeshKind::Cube, 0, v.clone(), vec![0, 1, 2]));
    assert!(!w.store_mesh(MeshKind::Cube, 7, v.clone(), i.clone()));
    assert!(w.store_mesh(MeshKind::Cube, 0, v, i));
    assert_eq!(w.cube().entry(0), (ChunkID(1), false));
    assert_eq!(w.mesh_jobs(MeshKind::Cube).len(), 2);
    assert_eq!(w.mesh_jobs(MeshKind::FloraX).len(), 2);
}

#[test]
fn reload_events_mark_entries_dirty() {
    let hm = vec![10u32; 1024];
    let mut w = ChunkWorker::new(Terrain::new(24, palette()).unwrap());
    w.load_chunk(pos(0, 1, 0), &hm).unwrap();
    w.load_chunk(pos(4, 1, 0), &hm).unwrap();
    w.apply_event(ChunkEvents::EventFinal, &hm);
    assert_eq!(w.cube().entry(0), (ChunkID(1), false));
    assert_eq!(w.cube().entry(1), (ChunkID(2), false));
    w.apply_event(ChunkEvents::ReloadChunk(ChunkID(2)), &hm);
    assert_eq!(w.cube().entry(0), (ChunkID(1), false));
    assert_eq!(w.cube().entry(1), (ChunkID(2), true));
    assert_eq!(w.flora().entry(1), (ChunkID(2), true));
    w.apply_event(ChunkEvents::ReloadChunks, &hm);
    assert_eq!(w.cube().entry(0), (ChunkID(1), true));
    assert_eq!(w.mesh_jobs(MeshKind::Cube).len(), 2);
}

#[test]
fn a_full_tick_loads_the_sweep_cube_once() {
    let w0 = ChunkWorker::new(Terrain::new(24, palette()).unwrap());
    let c = cam(2, 0, -1);
    let wanted: Vec<Position<ChunkUnit>> = w0
        .plan(&c, 1)
        .run_event()
        .iter()
        .filter_map(|e| match e {
            ChunkEvents::LoadChunk(p) => Some(*p),
            _ => None,
        })
        .collect();
    let maps: Vec<(Position<ChunkUnit>, Vec<u32>)> = wanted.iter().map(|p| (*p, vec![10u32; 1024])).collect();
    let mut w = w0;
    let state = WorldStateUpd { cam: c, dimensions: Dimension::new(600, 800), rerender: false };
    let st = w.update(&state, 1, &maps);
    // y = -1 lies below the world floor: 2 layers of 3 x 3
    assert_eq!(st.chunks_loaded, 18);
    assert_eq!(st.chunks.len(), 18);
    let mut seen: Vec<(i64, i64, i64)> = st.chunks.iter().map(|c| (c.1.x.0, c.1.y.0, c.1.z.0)).collect();
    seen.sort();
    seen.dedup();
    assert_eq!(seen.len(), 18);
    assert!(seen.iter().all(|p| (1..=3).contains(&p.0) && (0..=1).contains(&p.1) && (-2..=0).contains(&p.2)));
    // the same tick again finds nothing to do
    let st2 = w.update(&state, 1, &maps);
    assert_eq!(st2.chunks_loaded, 0);
    assert_eq!(st2.chunks.len(), 18);
    // a load without a heightmap is refused
    let far = WorldStateUpd { cam: cam(50, 3, 0), ..state };
    let st3 = w.update(&far, 0, &Vec::new());
    assert_eq!(st3.chunks_loaded, 0);
    assert_eq!(st3.chunks_offloaded, 18);
    assert_eq!(st3.chunks.len(), 0);
}

#[test]
fn drain_decision_follows_urgency() {
    assert_eq!(drain_action(ChunkUpdateState::Immediate), DrainAction::Preempt);
    assert_eq!(drain_action(ChunkUpdateState::Update), DrainAction::Defer);
    assert_eq!(drain_action(ChunkUpdateState::Consistent), DrainAction::Ignore);
}
