//! The chunk worker: owns the live chunks and both meshers, decides what to load and
//! unload around the viewer, and applies chunk events.
use vstd::prelude::*;
use crate::chunk::{Chunk, ChunkError, ChunkID};
use crate::event::{ChunkEvents, EventQueue};
use crate::mesh::{Vertex, all_wf, find_chunk_at, scan_from};
use crate::mesher::{
    MeshEntry, MeshKind, Mesher, MesherView, entry_ids, entry_scan_from, id_scan_from, lemma_entry_scan,
    mesh_of, wanted, without_entry,
};
use crate::terrain::{Terrain, TerrainView, seeded_state, terrain_upto};
use crate::units::{
    ChunkUnit, Dimension, Position, CHUNK_BLOCKS, CHUNK_MAX, CHUNK_MIN, chunk_coord_ok,
};

verus! {

/// How a new world-state snapshot is to be scheduled.
#[derive(Clone, Copy, Debug, PartialEq, Eq, Structural)]
pub enum ChunkUpdateState {
    /// Close enough to the last one: no work.
    Consistent,
    /// Changed: recompute normally.
    Update,
    /// Must preempt queued work (the viewport changed).
    Immediate,
}

/// The viewer, in thousandths of a block for its position and thousandths of a
/// radian for its orientation.
#[derive(Clone, Copy, Debug, PartialEq, Eq, Structural)]
pub struct CameraState {
    pub x: i64,
    pub y: i64,
    pub z: i64,
    pub yaw: i64,
    pub pitch: i64,
}

/// The world-state snapshot that the render thread hands to the worker.
#[derive(Clone, Copy, Debug, PartialEq, Eq, Structural)]
pub struct WorldStateUpd {
    pub cam: CameraState,
    pub dimensions: Dimension<u32>,
    pub rerender: bool,
}

impl WorldStateUpd {
    /// How `state` is to be scheduled after `self`: a new viewport size is immediate,
    /// a moved camera or a new rerender flag is an update, anything else is consistent.
    pub fn update(&self, state: &WorldStateUpd) -> (r: ChunkUpdateState)
        ensures
            self.dimensions != state.dimensions ==> r == ChunkUpdateState::Immediate,
            self.dimensions == state.dimensions && (self.cam != state.cam || self.rerender != state.rerender)
                ==> r == ChunkUpdateState::Update,
            self.dimensions == state.dimensions && self.cam == state.cam && self.rerender == state.rerender
                ==> r == ChunkUpdateState::Consistent,
    {
        if self.dimensions != state.dimensions {
            ChunkUpdateState::Immediate
        } else if self.cam != state.cam || self.rerender != state.rerender {
            ChunkUpdateState::Update
        } else {
            ChunkUpdateState::Consistent
        }
    }
}

/// What the worker does with a snapshot that arrives while it drains its event queue.
#[derive(Clone, Copy, Debug, PartialEq, Eq, Structural)]
pub enum DrainAction {
    /// Abort the rest of the queue, skip meshing, publish, and process the new snapshot next.
    Preempt,
    /// Finish this tick, then process the new snapshot.
    Defer,
    /// Nothing changed enough: drop the snapshot.
    Ignore,
}

/// The drain decision for an incoming snapshot of the given urgency: only an
/// `Immediate` one preempts queued work.
pub fn drain_action(incoming: ChunkUpdateState) -> (r: DrainAction)
    ensures
        r == DrainAction::Preempt <==> incoming == ChunkUpdateState::Immediate,
        r == DrainAction::Defer <==> incoming == ChunkUpdateState::Update,
        r == DrainAction::Ignore <==> incoming == ChunkUpdateState::Consistent,
{
    match incoming {
        ChunkUpdateState::Immediate => DrainAction::Preempt,
        ChunkUpdateState::Update => DrainAction::Defer,
        ChunkUpdateState::Consistent => DrainAction::Ignore,
    }
}

/// A summary of the live chunks after a tick.
#[derive(Clone, Debug)]
pub struct ChunkStatusInfo {
    pub chunks: Vec<(ChunkID, Position<ChunkUnit>)>,
    pub total_chunks_loaded: u32,
    pub chunks_loaded: u32,
    pub chunks_offloaded: u32,
    pub chunks_updated: u32,
}

/// Whether `p` lies in the cube of radius `r` around `c`.
pub open spec fn in_cube(c: Position<ChunkUnit>, r: int, p: Position<ChunkUnit>) -> bool {
    &&& c.x.0 - r <= p.x.0 <= c.x.0 + r
    &&& c.y.0 - r <= p.y.0 <= c.y.0 + r
    &&& c.z.0 - r <= p.z.0 <= c.z.0 + r
}

/// Whether a live chunk stands at `p`.
pub open spec fn occupied(s: Seq<Chunk>, p: Position<ChunkUnit>) -> bool {
    exists|i: int| 0 <= i < s.len() && (#[trigger] s[i])@.position == p
}

/// Whether the sweep around `c` asks for a chunk at `p`: inside the cube, not below
/// the world floor, on the chunk grid, and not yet loaded.
pub open spec fn wants_load(s: Seq<Chunk>, c: Position<ChunkUnit>, r: int, p: Position<ChunkUnit>) -> bool {
    &&& in_cube(c, r, p)
    &&& p.y.0 >= 0
    &&& chunk_coord_ok(p.x.0 as int)
    &&& chunk_coord_ok(p.y.0 as int)
    &&& chunk_coord_ok(p.z.0 as int)
    &&& !occupied(s, p)
}

/// No live chunk, and the whole cube around `c` lies on the chunk grid at or above the
/// world floor: every position of the sweep wants a chunk.
pub open spec fn sweep_unobstructed(s: Seq<Chunk>, c: Position<ChunkUnit>, r: int) -> bool {
    &&& s.len() == 0
    &&& c.y.0 - r >= 0
    &&& CHUNK_MIN <= c.x.0 - r && c.x.0 + r <= CHUNK_MAX
    &&& CHUNK_MIN <= c.y.0 - r && c.y.0 + r <= CHUNK_MAX
    &&& CHUNK_MIN <= c.z.0 - r && c.z.0 + r <= CHUNK_MAX
}

/// The position a `LoadChunk` event names.
pub open spec fn load_pos(e: ChunkEvents) -> Position<ChunkUnit> {
    match e {
        ChunkEvents::LoadChunk(p) => p,
        _ => Position { x: ChunkUnit(0), y: ChunkUnit(0), z: ChunkUnit(0) },
    }
}

/// The chunk an `OffloadChunk` event names.
pub open spec fn offload_id(e: ChunkEvents) -> ChunkID {
    match e {
        ChunkEvents::OffloadChunk(id) => id,
        _ => ChunkID(0),
    }
}

/// `p` comes before `q` in the sweep around `c`: x offset first, then y, then z.
pub open spec fn sweep_before(c: Position<ChunkUnit>, p: Position<ChunkUnit>, q: Position<ChunkUnit>) -> bool {
    offset_before(p, c, q.x.0 - c.x.0, q.y.0 - c.y.0, q.z.0 - c.z.0)
}

/// The lowest y offset of a sweep of radius `r` around height `cy` that lies at or above the floor.
pub open spec fn first_row(cy: int, r: int) -> int {
    if -cy > -r {
        -cy
    } else {
        -r
    }
}

/// How many of the y offsets `first_row .. dy` there are.
pub open spec fn rows_before(cy: int, r: int, dy: int) -> int {
    if dy - first_row(cy, r) > 0 {
        dy - first_row(cy, r)
    } else {
        0
    }
}

/// How many y offsets of a sweep of radius `r` around height `cy` lie at or above the
/// floor: `#{dy in -r..=r | cy + dy >= 0}`.
pub open spec fn floor_rows(cy: int, r: int) -> int {
    rows_before(cy, r, r + 1)
}

/// No live chunk, and the whole cube around `c` lies on the chunk grid: every position
/// of the sweep at or above the world floor wants a chunk.
pub open spec fn sweep_open(s: Seq<Chunk>, c: Position<ChunkUnit>, r: int) -> bool {
    &&& s.len() == 0
    &&& CHUNK_MIN <= c.x.0 - r && c.x.0 + r <= CHUNK_MAX
    &&& CHUNK_MIN <= c.y.0 - r && c.y.0 + r <= CHUNK_MAX
    &&& CHUNK_MIN <= c.z.0 - r && c.z.0 + r <= CHUNK_MAX
}

/// Lexicographic order of sweep offsets.
pub open spec fn offset_before(p: Position<ChunkUnit>, c: Position<ChunkUnit>, dx: int, dy: int, dz: int) -> bool {
    ||| p.x.0 - c.x.0 < dx
    ||| (p.x.0 - c.x.0 == dx && p.y.0 - c.y.0 < dy)
    ||| (p.x.0 - c.x.0 == dx && p.y.0 - c.y.0 == dy && p.z.0 - c.z.0 < dz)
}

/// The chunk that holds a camera position given in thousandths of a block.
pub open spec fn camera_chunk(v: int) -> int {
    v / 32000
}

pub ghost struct WorkerView {
    pub chunks: Seq<Chunk>,
    pub cube: MesherView,
    pub flora: MesherView,
    pub terrain: TerrainView,
    pub cid_counter: u32,
    pub reload: bool,
}

/// The worker's state: the live chunks, the two meshers and the terrain generator.
pub struct ChunkWorker {
    chunks: Vec<Chunk>,
    cube: Mesher,
    flora: Mesher,
    terrain: Terrain,
    cid_counter: u32,
    reload: bool,
}

impl View for ChunkWorker {
    type V = WorkerView;

    closed spec fn view(&self) -> WorkerView {
        WorkerView {
            chunks: self.chunks@,
            cube: self.cube@,
            flora: self.flora@,
            terrain: self.terrain@,
            cid_counter: self.cid_counter,
            reload: self.reload,
        }
    }
}

/// No two chunks of `s` share a position.
pub open spec fn positions_distinct(s: Seq<Chunk>) -> bool {
    forall|i: int, j: int| 0 <= i < s.len() && 0 <= j < s.len() && i != j ==> (#[trigger] s[i])@.position != (#[trigger] s[j])@.position
}

/// No two chunks of `s` share an identifier, and every identifier lies in `1..=counter`.
pub open spec fn ids_fresh(s: Seq<Chunk>, counter: u32) -> bool {
    &&& forall|i: int, j: int| 0 <= i < s.len() && 0 <= j < s.len() && i != j ==> (#[trigger] s[i])@.id != (#[trigger] s[j])@.id
    &&& forall|i: int| 0 <= i < s.len() ==> 1 <= (#[trigger] s[i])@.id.0 <= counter
}

/// The identifiers of the chunks, in storage order.
pub open spec fn chunk_ids(s: Seq<Chunk>) -> Seq<ChunkID> {
    s.map_values(|c: Chunk| c@.id)
}

/// The mesher tracks exactly the chunks of `s`, each once.
pub open spec fn tracks(m: MesherView, s: Seq<Chunk>) -> bool {
    &&& entry_ids(m.entries).no_duplicates()
    &&& m.entries.len() == s.len()
    &&& forall|x: ChunkID| #[trigger] entry_ids(m.entries).contains(x) <==> chunk_ids(s).contains(x)
}

/// No block of any chunk of `s` is the null block.
pub open spec fn no_null(s: Seq<Chunk>) -> bool {
    forall|i: int, j: int| 0 <= i < s.len() && 0 <= j < s[i]@.blocks.len() ==> (#[trigger] s[i]@.blocks[j]).id.0 >= 1
}

/// Removing element `k` by moving the last one into its place keeps the others, each once.
pub proof fn lemma_swap_remove<A>(s: Seq<A>, k: int)
    requires
        0 <= k < s.len(),
        s.no_duplicates(),
    ensures
        s.update(k, s.last()).drop_last().len() == s.len() - 1,
        s.update(k, s.last()).drop_last().no_duplicates(),
        forall|x: A| #[trigger] s.update(k, s.last()).drop_last().contains(x) <==> (s.contains(x) && x != s[k]),
{
    let t = s.update(k, s.last()).drop_last();
    let n = s.len();
    assert forall|j: int| 0 <= j < t.len() implies #[trigger] t[j] == (if j == k { s[n - 1] } else { s[j] }) by {}
    assert forall|a: int, b: int| 0 <= a < t.len() && 0 <= b < t.len() && a != b implies t[a] != t[b] by {
        let a0 = if a == k { n - 1 } else { a };
        let b0 = if b == k { n - 1 } else { b };
        assert(t[a] == s[a0] && t[b] == s[b0]);
    }
    assert forall|x: A| #[trigger] t.contains(x) <==> (s.contains(x) && x != s[k]) by {
        if t.contains(x) {
            let j = choose|j: int| 0 <= j < t.len() && t[j] == x;
            let j0 = if j == k { n - 1 } else { j };
            assert(s[j0] == x);
            assert(j0 != k);
        }
        if s.contains(x) && x != s[k] {
            let m = choose|m: int| 0 <= m < n && s[m] == x;
            if m == n - 1 {
                assert(t[k] == x);
            } else {
                assert(t[m] == x);
            }
        }
    }
}

/// `id_scan_from` finds a chunk exactly when one carries `id`, and the one it finds does.
pub proof fn lemma_ids_scan(s: Seq<Chunk>, id: ChunkID, i: int)
    requires
        0 <= i <= s.len(),
    ensures
        i <= id_scan_from(s, id, i) <= s.len(),
        id_scan_from(s, id, i) < s.len() ==> s[id_scan_from(s, id, i)]@.id == id,
        id_scan_from(s, id, i) < s.len() <==> exists|j: int| i <= j < s.len() && (#[trigger] s[j])@.id == id,
    decreases s.len() - i,
{
    if i < s.len() {
        lemma_ids_scan(s, id, i + 1);
    }
}

proof fn lemma_chunk_ids_contains(s: Seq<Chunk>, id: ChunkID)
    ensures
        chunk_ids(s).contains(id) <==> exists|j: int| 0 <= j < s.len() && (#[trigger] s[j])@.id == id,
{
    if exists|j: int| 0 <= j < s.len() && (#[trigger] s[j])@.id == id {
        let j = choose|j: int| 0 <= j < s.len() && (#[trigger] s[j])@.id == id;
        assert(chunk_ids(s)[j] == id);
    }
}

proof fn lemma_entry_ids_contains(es: Seq<MeshEntry>, id: ChunkID)
    ensures
        entry_ids(es).contains(id) <==> entry_scan_from(es, id, 0) < es.len(),
{
    lemma_entry_scan(es, id, 0);
    if entry_ids(es).contains(id) {
        let j = choose|j: int| 0 <= j < entry_ids(es).len() && entry_ids(es)[j] == id;
        assert(es[j].id == id);
    }
    if entry_scan_from(es, id, 0) < es.len() {
        assert(entry_ids(es)[entry_scan_from(es, id, 0)] == id);
    }
}

proof fn lemma_chunk_ids_distinct(s: Seq<Chunk>)
    requires
        forall|i: int, j: int| 0 <= i < s.len() && 0 <= j < s.len() && i != j ==> (#[trigger] s[i])@.id != (#[trigger] s[j])@.id,
    ensures
        chunk_ids(s).no_duplicates(),
{
    assert forall|a: int, b: int| 0 <= a < chunk_ids(s).len() && 0 <= b < chunk_ids(s).len() && a != b implies chunk_ids(s)[a] != chunk_ids(s)[b] by {
        assert(s[a]@.id != s[b]@.id);
    }
}

/// With distinct identifiers, the scan for chunk `i`'s identifier finds chunk `i`.
pub proof fn lemma_scan_own_id(s: Seq<Chunk>, i: int)
    requires
        0 <= i < s.len(),
        forall|a: int, b: int| 0 <= a < s.len() && 0 <= b < s.len() && a != b ==> (#[trigger] s[a])@.id != (#[trigger] s[b])@.id,
    ensures
        id_scan_from(s, s[i]@.id, 0) == i,
{
    lemma_ids_scan(s, s[i]@.id, 0);
    let k = id_scan_from(s, s[i]@.id, 0);
    assert(k < s.len());
    assert(s[k]@.id == s[i]@.id);
}

/// A mesher whose entries keep their identifiers, index by index, still tracks `s`.
pub proof fn lemma_tracks_same_ids(a: MesherView, b: MesherView, s: Seq<Chunk>)
    requires
        tracks(a, s),
        b.entries.len() == a.entries.len(),
        forall|i: int| 0 <= i < a.entries.len() ==> (#[trigger] b.entries[i]).id == a.entries[i].id,
    ensures
        tracks(b, s),
{
    assert(entry_ids(b.entries) =~= entry_ids(a.entries));
}

impl WorkerView {
    /// The mesher of the given kind.
    pub open spec fn mesher(self, kind: MeshKind) -> MesherView {
        if kind == MeshKind::Cube {
            self.cube
        } else {
            self.flora
        }
    }

    pub open spec fn wf(self) -> bool {
        &&& all_wf(self.chunks)
        &&& positions_distinct(self.chunks)
        &&& ids_fresh(self.chunks, self.cid_counter)
        &&& self.cube.wf()
        &&& self.cube.kind == MeshKind::Cube
        &&& self.flora.wf()
        &&& self.flora.kind == MeshKind::FloraX
        &&& tracks(self.cube, self.chunks)
        &&& tracks(self.flora, self.chunks)
        &&& no_null(self.chunks)
    }
}

/// `after` is `before` with every wanted entry whose chunk is live regenerated.
pub open spec fn meshed(before: MesherView, after: MesherView, s: Seq<Chunk>) -> bool {
    &&& after.entries.len() == before.entries.len()
    &&& forall|i: int| 0 <= i < after.entries.len() ==> {
        let e = #[trigger] after.entries[i];
        let o = before.entries[i];
        let k = id_scan_from(s, o.id, 0);
        &&& e.id == o.id
        &&& e.cull == o.cull
        &&& if wanted(before.kind, before.entries, s, i) && k < s.len() {
            !e.dirty && e.vertices@ == mesh_of(before.kind, s[k], s)
        } else {
            e.dirty == o.dirty && e.vertices@ == o.vertices@ && e.indices@ == o.indices@
        }
    }
}

/// `scan_from` finds a chunk exactly when one stands at that position.
pub proof fn lemma_scan_finds(s: Seq<Chunk>, x: int, y: int, z: int, i: int)
    requires
        0 <= i <= s.len(),
    ensures
        scan_from(s, x, y, z, i) <= s.len(),
        scan_from(s, x, y, z, i) < s.len() <==> exists|j: int|
            i <= j < s.len() && (#[trigger] s[j])@.position.x.0 == x && s[j]@.position.y.0 == y
                && s[j]@.position.z.0 == z,
    decreases s.len() - i,
{
    if i < s.len() {
        lemma_scan_finds(s, x, y, z, i + 1);
    }
}

proof fn lemma_push_contains<A>(s: Seq<A>, a: A)
    ensures
        forall|q: A| #[trigger] s.push(a).contains(q) <==> (s.contains(q) || q == a),
        !s.contains(a) && s.no_duplicates() ==> s.push(a).no_duplicates(),
{
    assert forall|q: A| #[trigger] s.push(a).contains(q) <==> (s.contains(q) || q == a) by {
        if s.push(a).contains(q) {
            let k = choose|k: int| 0 <= k < s.push(a).len() && s.push(a)[k] == q;
            if k < s.len() {
                assert(s[k] == q);
            }
        }
        if s.contains(q) {
            let k = choose|k: int| 0 <= k < s.len() && s[k] == q;
            assert(s.push(a)[k] == q);
        }
        if q == a {
            assert(s.push(a)[s.len() as int] == q);
        }
    }
}

/// Two live chunks of a well-formed worker never share a position.
pub proof fn lemma_positions_unique(w: WorkerView, i: int, j: int)
    requires
        w.wf(),
        0 <= i < w.chunks.len(),
        0 <= j < w.chunks.len(),
        i != j,
    ensures
        w.chunks[i]@.position != w.chunks[j]@.position,
{
}

/// The chunk of a camera coordinate in thousandths of a block: the floor of `v / 32000`.
fn floor_chunk(v: i64) -> (r: i64)
    ensures
        r == v as int / 32000,
{
    match v.checked_div_euclid(32000) {
        Some(q) => q,
        None => 0,
    }
}

impl ChunkWorker {
    /// A worker with no chunks.
    pub fn new(terrain: Terrain) -> (r: Self)
        ensures
            r@.wf(),
            r@.chunks.len() == 0,
            r@.cube.entries.len() == 0,
            r@.flora.entries.len() == 0,
            r@.terrain == terrain@,
            r@.cid_counter == 0,
    {
        ChunkWorker {
            chunks: Vec::new(),
            cube: Mesher::new(MeshKind::Cube),
            flora: Mesher::new(MeshKind::FloraX),
            terrain,
            cid_counter: 0,
            reload: false,
        }
    }

    pub fn chunks(&self) -> (r: &Vec<Chunk>)
        ensures
            r@ == self@.chunks,
    {
        &self.chunks
    }

    pub fn cube(&self) -> (r: &Mesher)
        ensures
            r@ == self@.cube,
    {
        &self.cube
    }

    pub fn flora(&self) -> (r: &Mesher)
        ensures
            r@ == self@.flora,
    {
        &self.flora
    }

    /// The viewer's chunk coordinate: each axis of the camera position floored to a chunk.
    pub fn viewer_chunk(cam: &CameraState) -> (r: Position<ChunkUnit>)
        ensures
            r.x.0 == camera_chunk(cam.x as int),
            r.y.0 == camera_chunk(cam.y as int),
            r.z.0 == camera_chunk(cam.z as int),
            chunk_coord_ok(r.x.0 as int),
            chunk_coord_ok(r.y.0 as int),
            chunk_coord_ok(r.z.0 as int),
    {
        Position::new(ChunkUnit(floor_chunk(cam.x)), ChunkUnit(floor_chunk(cam.y)), ChunkUnit(floor_chunk(cam.z)))
    }

    /// Whether a live chunk stands at `p`.
    pub fn is_occupied(&self, p: Position<ChunkUnit>) -> (r: bool)
        ensures
            r == occupied(self@.chunks, p),
    {
        let k = find_chunk_at(&self.chunks, p.x.0, p.y.0, p.z.0);
        proof {
            lemma_scan_finds(self.chunks@, p.x.0 as int, p.y.0 as int, p.z.0 as int, 0);
            if k < self.chunks@.len() {
                let j = choose|j: int| 0 <= j < self.chunks@.len() && (#[trigger] self.chunks@[j])@.position.x.0 == p.x.0
                    && self.chunks@[j]@.position.y.0 == p.y.0 && self.chunks@[j]@.position.z.0 == p.z.0;
                assert(self.chunks@[j]@.position == p);
            } else {
                assert forall|j: int| 0 <= j < self.chunks@.len() implies (#[trigger] self.chunks@[j])@.position != p by {
                    if self.chunks@[j]@.position == p {
                        assert(self.chunks@[j]@.position.x.0 == p.x.0 && self.chunks@[j]@.position.y.0 == p.y.0 && self.chunks@[j]@.position.z.0 == p.z.0);
                    }
                }
            }
        }
        k < self.chunks.len()
    }

    /// Positions of the radius sweep around `center` that want a chunk, in sweep order
    /// (x, then y, then z offsets from `-radius` to `radius`), each once.
    pub fn sweep_loads(&self, center: Position<ChunkUnit>, radius: u32) -> (r: Vec<Position<ChunkUnit>>)
        ensures
            r@.no_duplicates(),
            forall|p: Position<ChunkUnit>| r@.contains(p) <==> wants_load(self@.chunks, center, radius as int, p),
            sweep_unobstructed(self@.chunks, center, radius as int) ==> r@.len() == (2 * radius + 1) * (2 * radius + 1) * (2 * radius + 1),
            sweep_open(self@.chunks, center, radius as int) ==> r@.len() == (2 * radius + 1) * ((2 * radius + 1)
                * floor_rows(center.y.0 as int, radius as int)),
            r@.len() <= (2 * radius + 1) * (2 * radius + 1) * (2 * radius + 1),
            forall|a: int, b: int| 0 <= a < b < r@.len() ==> sweep_before(center, #[trigger] r@[a], #[trigger] r@[b]),
    {
        let c = center;
        let rr = radius as i128;
        let ghost w: int = 2 * radius + 1;
        let ghost full = sweep_unobstructed(self@.chunks, center, radius as int);
        let ghost open = sweep_open(self@.chunks, center, radius as int);
        let ghost lo = first_row(c.y.0 as int, radius as int);
        let ghost rows = floor_rows(c.y.0 as int, radius as int);
        let mut out: Vec<Position<ChunkUnit>> = Vec::new();
        let mut dx: i128 = -rr;
        proof {
            assert(((dx + rr) * w) * w == 0) by (nonlinear_arith)
                requires
                    dx + rr == 0,
            ;
            assert((dx + rr) * (w * rows) == 0) by (nonlinear_arith)
                requires
                    dx + rr == 0,
            ;
        }
        while dx <= rr
            invariant
                rr == radius,
                -rr <= dx <= rr + 1,
                out@.no_duplicates(),
                forall|p: Position<ChunkUnit>| out@.contains(p) <==> (wants_load(self@.chunks, c, rr as int, p)
                    && offset_before(p, c, dx as int, -rr, -rr)),
                w == 2 * rr + 1,
                full == sweep_unobstructed(self@.chunks, center, radius as int),
                c == center,
                full ==> out@.len() == ((dx + rr) * w) * w,
                open == sweep_open(self@.chunks, center, radius as int),
                lo == first_row(c.y.0 as int, radius as int),
                rows == floor_rows(c.y.0 as int, radius as int),
                open ==> out@.len() == (dx + rr) * (w * rows),
                out@.len() <= ((dx + rr) * w) * w,
                forall|a: int, b: int| 0 <= a < b < out@.len() ==> sweep_before(c, #[trigger] out@[a], #[trigger] out@[b]),
            decreases rr + 1 - dx,
        {
            let mut dy: i128 = -rr;
            while dy <= rr
                invariant
                    rr == radius,
                    -rr <= dx <= rr,
                    -rr <= dy <= rr + 1,
                    out@.no_duplicates(),
                    forall|p: Position<ChunkUnit>| out@.contains(p) <==> (wants_load(self@.chunks, c, rr as int, p)
                        && offset_before(p, c, dx as int, dy as int, -rr)),
                    w == 2 * rr + 1,
                    full == sweep_unobstructed(self@.chunks, center, radius as int),
                    c == center,
                    full ==> out@.len() == ((dx + rr) * w + (dy + rr)) * w,
                    open == sweep_open(self@.chunks, center, radius as int),
                    lo == first_row(c.y.0 as int, radius as int),
                    rows == floor_rows(c.y.0 as int, radius as int),
                    open ==> out@.len() == (dx + rr) * (w * rows) + w * rows_before(c.y.0 as int, rr as int, dy as int),
                    out@.len() <= ((dx + rr) * w + (dy + rr)) * w,
                    forall|a: int, b: int| 0 <= a < b < out@.len() ==> sweep_before(c, #[trigger] out@[a], #[trigger] out@[b]),
                decreases rr + 1 - dy,
            {
                let mut dz: i128 = -rr;
                while dz <= rr
                    invariant
                        rr == radius,
                        -rr <= dx <= rr,
                        -rr <= dy <= rr,
                        -rr <= dz <= rr + 1,
                        out@.no_duplicates(),
                        forall|p: Position<ChunkUnit>| out@.contains(p) <==> (wants_load(self@.chunks, c, rr as int, p)
                            && offset_before(p, c, dx as int, dy as int, dz as int)),
                        w == 2 * rr + 1,
                        full == sweep_unobstructed(self@.chunks, center, radius as int),
                        c == center,
                        full ==> out@.len() == ((dx + rr) * w + (dy + rr)) * w + (dz + rr),
                        open == sweep_open(self@.chunks, center, radius as int),
                        lo == first_row(c.y.0 as int, radius as int),
                        rows == floor_rows(c.y.0 as int, radius as int),
                        open ==> out@.len() == (dx + rr) * (w * rows) + w * rows_before(c.y.0 as int, rr as int, dy as int)
                            + (if dy >= lo { dz + rr } else { 0 }),
                        out@.len() <= ((dx + rr) * w + (dy + rr)) * w + (dz + rr),
                        forall|a: int, b: int| 0 <= a < b < out@.len() ==> sweep_before(c, #[trigger] out@[a], #[trigger] out@[b]),
                    decreases rr + 1 - dz,
                {
                    let x = c.x.0 as i128 + dx;
                    let y = c.y.0 as i128 + dy;
                    let z = c.z.0 as i128 + dz;
                    let ghost before = out@;
                    let in_range = y >= 0 && CHUNK_MIN as i128 <= x && x <= CHUNK_MAX as i128 && CHUNK_MIN as i128
                        <= y && y <= CHUNK_MAX as i128 && CHUNK_MIN as i128 <= z && z <= CHUNK_MAX as i128;
                    let mut pushed = false;
                    let ghost cand = Position {
                        x: ChunkUnit(#[verifier::truncate] (x as i64)),
                        y: ChunkUnit(#[verifier::truncate] (y as i64)),
                        z: ChunkUnit(#[verifier::truncate] (z as i64)),
                    };
                    if in_range {
                        let p = Position::new(ChunkUnit(x as i64), ChunkUnit(y as i64), ChunkUnit(z as i64));
                        proof {
                            assert(p == cand);
                        }
                        if !self.is_occupied(p) {
                            out.push(p);
                            pushed = true;
                        }
                    }
                    proof {
                        assert(pushed ==> out@ == before.push(cand));
                        assert(!pushed ==> out@ == before);
                        assert(pushed ==> !occupied(self@.chunks, cand) && in_range);
                        lemma_push_contains(before, cand);
                        assert(pushed ==> !before.contains(cand));
                        if pushed {
                            assert forall|a: int, b: int| 0 <= a < b < out@.len() implies sweep_before(c, #[trigger] out@[a], #[trigger] out@[b]) by {
                                if b == before.len() {
                                    assert(before.contains(out@[a]));
                                    assert(out@[b] == cand);
                                } else {
                                    assert(out@[a] == before[a] && out@[b] == before[b]);
                                }
                            }
                        }
                        if full {
                            assert(in_range);
                            assert(!occupied(self@.chunks, cand));
                            assert(pushed);
                        }
                        if open {
                            if dy >= lo {
                                assert(in_range);
                                assert(!occupied(self@.chunks, cand));
                                assert(pushed);
                            } else {
                                assert(!in_range);
                                assert(!pushed);
                            }
                        }
                        assert(out@.no_duplicates());
                        assert forall|q: Position<ChunkUnit>| out@.contains(q) <==> (wants_load(self@.chunks, c, rr as int, q)
                            && offset_before(q, c, dx as int, dy as int, dz + 1)) by {
                            if q.x.0 - c.x.0 == dx && q.y.0 - c.y.0 == dy && q.z.0 - c.z.0 == dz {
                                if wants_load(self@.chunks, c, rr as int, q) {
                                    assert(q == cand);
                                    assert(in_range);
                                    assert(pushed);
                                }
                                if out@.contains(q) {
                                    assert(!before.contains(q));
                                    assert(pushed);
                                    assert(q == cand);
                                }
                            }
                        }
                    }
                    dz = dz + 1;
                }
                proof {
                    assert(((dx + rr) * w + (dy + rr)) * w + (rr + 1 + rr) == ((dx + rr) * w + (dy + 1 + rr)) * w) by (nonlinear_arith)
                        requires
                            w == 2 * rr + 1,
                    ;
                    let rb = rows_before(c.y.0 as int, rr as int, dy as int);
                    if dy >= lo {
                        assert(rows_before(c.y.0 as int, rr as int, dy + 1) == rb + 1);
                        assert(w * rb + (rr + 1 + rr) == w * (rb + 1)) by (nonlinear_arith)
                            requires
                                w == 2 * rr + 1,
                        ;
                    } else {
                        assert(rows_before(c.y.0 as int, rr as int, dy + 1) == rb);
                    }
                }
                dy = dy + 1;
            }
            proof {
                assert(((dx + rr) * w + (rr + 1 + rr)) * w == ((dx + 1 + rr) * w) * w) by (nonlinear_arith)
                    requires
                        w == 2 * rr + 1,
                ;
                assert(rows_before(c.y.0 as int, rr as int, rr + 1) == rows);
                assert((dx + rr) * (w * rows) + w * rows == (dx + 1 + rr) * (w * rows)) by (nonlinear_arith);
            }
            dx = dx + 1;
        }
        out
    }

    /// Identifiers of the live chunks that lie outside the radius cube around `center`
    /// on some axis, in storage order.
    pub fn sweep_offloads(&self, center: Position<ChunkUnit>, radius: u32) -> (r: Vec<ChunkID>)
        requires
            self@.wf(),
        ensures
            r@.no_duplicates(),
            forall|id: ChunkID| r@.contains(id) <==> exists|i: int|
                0 <= i < self@.chunks.len() && (#[trigger] self@.chunks[i])@.id == id && !in_cube(
                    center,
                    radius as int,
                    self@.chunks[i]@.position,
                ),
            forall|a: int, b: int| 0 <= a < b < r@.len() ==> id_scan_from(self@.chunks, #[trigger] r@[a], 0) < id_scan_from(
                self@.chunks,
                #[trigger] r@[b],
                0,
            ),
    {
        let mut out: Vec<ChunkID> = Vec::new();
        let rr = radius as i128;
        let mut i: usize = 0;
        while i < self.chunks.len()
            invariant
                self@.wf(),
                rr == radius,
                0 <= i <= self.chunks@.len(),
                out@.no_duplicates(),
                forall|id: ChunkID| out@.contains(id) <==> exists|k: int|
                    0 <= k < i && (#[trigger] self@.chunks[k])@.id == id && !in_cube(center, radius as int, self@.chunks[k]@.position),
                forall|a: int, b: int| 0 <= a < b < out@.len() ==> id_scan_from(self@.chunks, #[trigger] out@[a], 0) < id_scan_from(
                    self@.chunks,
                    #[trigger] out@[b],
                    0,
                ),
                forall|a: int| 0 <= a < out@.len() ==> id_scan_from(self@.chunks, #[trigger] out@[a], 0) < i,
            decreases self.chunks@.len() - i,
        {
            let p = self.chunks[i].position();
            let cx = center.x.0 as i128;
            let cy = center.y.0 as i128;
            let cz = center.z.0 as i128;
            let inside = cx - rr <= p.x.0 as i128 && p.x.0 as i128 <= cx + rr && cy - rr <= p.y.0 as i128
                && p.y.0 as i128 <= cy + rr && cz - rr <= p.z.0 as i128 && p.z.0 as i128 <= cz + rr;
            let ghost before = out@;
            let ghost idi = self@.chunks[i as int]@.id;
            let mut pushed = false;
            if !inside {
                out.push(self.chunks[i].id());
                pushed = true;
            }
            proof {
                lemma_scan_own_id(self@.chunks, i as int);
                assert forall|a: int| 0 <= a < before.len() implies id_scan_from(self@.chunks, #[trigger] before[a], 0) < i by {
                    assert(out@.len() >= before.len());
                }
                if pushed {
                    assert forall|a: int, b: int| 0 <= a < b < out@.len() implies id_scan_from(self@.chunks, #[trigger] out@[a], 0) < id_scan_from(
                        self@.chunks,
                        #[trigger] out@[b],
                        0,
                    ) by {
                        assert(out@[a] == before[a]);
                        if b < before.len() {
                            assert(out@[b] == before[b]);
                        }
                    }
                    assert forall|a: int| 0 <= a < out@.len() implies id_scan_from(self@.chunks, #[trigger] out@[a], 0) < i + 1 by {
                        if a < before.len() {
                            assert(out@[a] == before[a]);
                        }
                    }
                }
                lemma_push_contains(before, idi);
                assert(pushed ==> out@ == before.push(idi));
                assert(!pushed ==> out@ == before);
                assert(pushed <==> !in_cube(center, radius as int, self@.chunks[i as int]@.position));
                if before.contains(idi) {
                    let k = choose|k: int| 0 <= k < i && (#[trigger] self@.chunks[k])@.id == idi && !in_cube(center, radius as int, self@.chunks[k]@.position);
                    assert(self@.chunks[k]@.id != self@.chunks[i as int]@.id);
                }
                assert forall|q: ChunkID| out@.contains(q) <==> exists|k: int|
                    0 <= k < i + 1 && (#[trigger] self@.chunks[k])@.id == q && !in_cube(center, radius as int, self@.chunks[k]@.position) by {
                    if exists|k: int| 0 <= k < i + 1 && (#[trigger] self@.chunks[k])@.id == q && !in_cube(center, radius as int, self@.chunks[k]@.position) {
                        let k = choose|k: int| 0 <= k < i + 1 && (#[trigger] self@.chunks[k])@.id == q && !in_cube(center, radius as int, self@.chunks[k]@.position);
                        if k < i {
                            assert(before.contains(q));
                        } else {
                            assert(q == idi);
                        }
                    }
                    if out@.contains(q) {
                        if before.contains(q) {
                            let k = choose|k: int| 0 <= k < i && (#[trigger] self@.chunks[k])@.id == q && !in_cube(center, radius as int, self@.chunks[k]@.position);
                            assert(0 <= k < i + 1);
                        } else {
                            assert(q == idi);
                            assert(self@.chunks[i as int]@.id == q);
                        }
                    }
                }
            }
            i = i + 1;
        }
        out
    }

    /// The events of one tick: a `LoadChunk` for each position the sweep around the
    /// viewer wants, then an `OffloadChunk` for each live chunk out of range.
    pub fn plan(&self, cam: &CameraState, radius: u32) -> (r: EventQueue<ChunkEvents>)
        requires
            self@.wf(),
        ensures
            ({
                let c = Position {
                    x: ChunkUnit(camera_chunk(cam.x as int) as i64),
                    y: ChunkUnit(camera_chunk(cam.y as int) as i64),
                    z: ChunkUnit(camera_chunk(cam.z as int) as i64),
                };
                &&& forall|p: Position<ChunkUnit>| r@.contains(ChunkEvents::LoadChunk(p)) <==> wants_load(self@.chunks, c, radius as int, p)
                &&& forall|id: ChunkID| r@.contains(ChunkEvents::OffloadChunk(id)) <==> exists|i: int|
                    0 <= i < self@.chunks.len() && (#[trigger] self@.chunks[i])@.id == id && !in_cube(c, radius as int, self@.chunks[i]@.position)
                &&& r@.no_duplicates()
                &&& forall|k: int| 0 <= k < r@.len() ==> (#[trigger] r@[k]) is LoadChunk || r@[k] is OffloadChunk
                &&& self@.chunks.len() == 0 ==> r@.len() <= (2 * radius + 1) * (2 * radius + 1) * (2 * radius + 1)
                    && forall|k: int| 0 <= k < r@.len() ==> (#[trigger] r@[k]) is LoadChunk
                &&& sweep_unobstructed(self@.chunks, c, radius as int) ==> r@.len() == (2 * radius + 1) * (2 * radius
                    + 1) * (2 * radius + 1)
                &&& sweep_open(self@.chunks, c, radius as int) ==> r@.len() == (2 * radius + 1) * ((2 * radius + 1)
                    * floor_rows(c.y.0 as int, radius as int))
                &&& forall|a: int, b: int|
                    0 <= a < b < r@.len() && (#[trigger] r@[a]) is OffloadChunk ==> (#[trigger] r@[b]) is OffloadChunk
                &&& forall|a: int, b: int| 0 <= a < b < r@.len() ==> ((#[trigger] r@[a]) is LoadChunk
                    && (#[trigger] r@[b]) is LoadChunk ==> sweep_before(c, load_pos(r@[a]), load_pos(r@[b])))
                &&& forall|a: int, b: int| 0 <= a < b < r@.len() ==> ((#[trigger] r@[a]) is OffloadChunk
                    && (#[trigger] r@[b]) is OffloadChunk ==> id_scan_from(self@.chunks, offload_id(r@[a]), 0)
                    < id_scan_from(self@.chunks, offload_id(r@[b]), 0))
            }),
    {
        let c = Self::viewer_chunk(cam);
        let ghost cs = Position {
            x: ChunkUnit(camera_chunk(cam.x as int) as i64),
            y: ChunkUnit(camera_chunk(cam.y as int) as i64),
            z: ChunkUnit(camera_chunk(cam.z as int) as i64),
        };
        proof {
            assert(c == cs);
        }
        let loads = self.sweep_loads(c, radius);
        let offs = self.sweep_offloads(c, radius);
        let mut q: EventQueue<ChunkEvents> = EventQueue::new();
        let mut i: usize = 0;
        while i < loads.len()
            invariant
                0 <= i <= loads@.len(),
                q@ == loads@.subrange(0, i as int).map_values(|p: Position<ChunkUnit>| ChunkEvents::LoadChunk(p)),
            decreases loads@.len() - i,
        {
            q.add_event(ChunkEvents::LoadChunk(loads[i]));
            proof {
                assert(loads@.subrange(0, i + 1).map_values(|p: Position<ChunkUnit>| ChunkEvents::LoadChunk(p)) =~= loads@.subrange(0, i as int).map_values(|p: Position<ChunkUnit>| ChunkEvents::LoadChunk(p)).push(ChunkEvents::LoadChunk(loads@[i as int])));
            }
            i = i + 1;
        }
        let ghost lq = q@;
        let mut j: usize = 0;
        while j < offs.len()
            invariant
                0 <= j <= offs@.len(),
                lq.len() == loads@.len(),
                q@ == lq + offs@.subrange(0, j as int).map_values(|id: ChunkID| ChunkEvents::OffloadChunk(id)),
            decreases offs@.len() - j,
        {
            q.add_event(ChunkEvents::OffloadChunk(offs[j]));
            proof {
                assert(offs@.subrange(0, j + 1).map_values(|id: ChunkID| ChunkEvents::OffloadChunk(id)) =~= offs@.subrange(0, j as int).map_values(|id: ChunkID| ChunkEvents::OffloadChunk(id)).push(ChunkEvents::OffloadChunk(offs@[j as int])));
            }
            j = j + 1;
        }
        proof {
            let ls = loads@.map_values(|p: Position<ChunkUnit>| ChunkEvents::LoadChunk(p));
            let os = offs@.map_values(|id: ChunkID| ChunkEvents::OffloadChunk(id));
            assert(loads@.subrange(0, loads@.len() as int) =~= loads@);
            assert(offs@.subrange(0, offs@.len() as int) =~= offs@);
            assert(q@ =~= ls + os);
            if self@.chunks.len() == 0 {
                if offs@.len() > 0 {
                    assert(offs@.contains(offs@[0]));
                }
                assert(offs@.len() == 0);
                assert forall|k: int| 0 <= k < q@.len() implies (#[trigger] q@[k]) is LoadChunk by {
                    assert(q@[k] == ls[k]);
                }
            }
            assert forall|p: Position<ChunkUnit>| q@.contains(ChunkEvents::LoadChunk(p)) <==> loads@.contains(p) by {
                if q@.contains(ChunkEvents::LoadChunk(p)) {
                    let k = choose|k: int| 0 <= k < q@.len() && q@[k] == ChunkEvents::LoadChunk(p);
                    if k < ls.len() {
                        assert(loads@[k] == p);
                    } else {
                        assert(q@[k] == os[k - ls.len()]);
                    }
                }
                if loads@.contains(p) {
                    let k = choose|k: int| 0 <= k < loads@.len() && loads@[k] == p;
                    assert(q@[k] == ChunkEvents::LoadChunk(p));
                }
            }
            assert forall|p: Position<ChunkUnit>| q@.contains(ChunkEvents::LoadChunk(p)) <==> wants_load(self@.chunks, cs, radius as int, p) by {
                assert(q@.contains(ChunkEvents::LoadChunk(p)) <==> loads@.contains(p));
            }
            assert forall|id: ChunkID| q@.contains(ChunkEvents::OffloadChunk(id)) <==> offs@.contains(id) by {
                if q@.contains(ChunkEvents::OffloadChunk(id)) {
                    let k = choose|k: int| 0 <= k < q@.len() && q@[k] == ChunkEvents::OffloadChunk(id);
                    if k < ls.len() {
                        assert(q@[k] == ls[k]);
                    } else {
                        assert(offs@[k - ls.len()] == id);
                    }
                }
                if offs@.contains(id) {
                    let k = choose|k: int| 0 <= k < offs@.len() && offs@[k] == id;
                    assert(q@[ls.len() + k] == ChunkEvents::OffloadChunk(id));
                }
            }
            assert forall|id: ChunkID| q@.contains(ChunkEvents::OffloadChunk(id)) <==> exists|i: int|
                0 <= i < self@.chunks.len() && (#[trigger] self@.chunks[i])@.id == id && !in_cube(cs, radius as int, self@.chunks[i]@.position) by {
                assert(q@.contains(ChunkEvents::OffloadChunk(id)) <==> offs@.contains(id));
            }
            assert forall|a: int, b: int| 0 <= a < q@.len() && 0 <= b < q@.len() && a != b implies q@[a] != q@[b] by {
                if a < ls.len() && b < ls.len() {
                    assert(loads@[a] != loads@[b]);
                } else if a >= ls.len() && b >= ls.len() {
                    assert(offs@[a - ls.len()] != offs@[b - ls.len()]);
                }
            }
            assert forall|a: int, b: int| 0 <= a < b < q@.len() && (#[trigger] q@[a]) is OffloadChunk implies (#[trigger] q@[b]) is OffloadChunk by {
                if b < ls.len() {
                    assert(q@[a] == ls[a]);
                } else {
                    assert(q@[b] == os[b - ls.len()]);
                }
            }
            assert forall|a: int, b: int| 0 <= a < b < q@.len() && (#[trigger] q@[a]) is LoadChunk
                && (#[trigger] q@[b]) is LoadChunk implies sweep_before(cs, load_pos(q@[a]), load_pos(q@[b])) by {
                if b < ls.len() {
                    assert(q@[a] == ls[a] && q@[b] == ls[b]);
                    assert(ls[a] == ChunkEvents::LoadChunk(loads@[a]));
                    assert(ls[b] == ChunkEvents::LoadChunk(loads@[b]));
                    assert(sweep_before(c, loads@[a], loads@[b]));
                } else {
                    assert(q@[b] == os[b - ls.len()]);
                }
            }
            assert forall|a: int, b: int| 0 <= a < b < q@.len() && (#[trigger] q@[a]) is OffloadChunk
                && (#[trigger] q@[b]) is OffloadChunk implies id_scan_from(self@.chunks, offload_id(q@[a]), 0)
                < id_scan_from(self@.chunks, offload_id(q@[b]), 0) by {
                if a >= ls.len() {
                    assert(q@[a] == os[a - ls.len()] && q@[b] == os[b - ls.len()]);
                    assert(os[a - ls.len()] == ChunkEvents::OffloadChunk(offs@[a - ls.len()]));
                    assert(os[b - ls.len()] == ChunkEvents::OffloadChunk(offs@[b - ls.len()]));
                    assert(id_scan_from(self@.chunks, offs@[a - ls.len()], 0) < id_scan_from(self@.chunks, offs@[b - ls.len()], 0));
                } else {
                    assert(q@[a] == ls[a]);
                }
            }
            assert forall|k: int| 0 <= k < q@.len() implies (#[trigger] q@[k]) is LoadChunk || q@[k] is OffloadChunk by {
                if k < ls.len() {
                    assert(q@[k] == ls[k]);
                } else {
                    assert(q@[k] == os[k - ls.len()]);
                }
            }
        }
        q
    }
}

impl ChunkWorker {
    /// Creates the chunk at `pos` from the terrain and the heightmap of its columns and
    /// registers it with both meshers. Fails, changing nothing, with `DuplicateChunkPos`
    /// when a live chunk stands there, `DuplicateID` when the identifiers are used up,
    /// and `Invalid` when the heightmap is not 32 x 32 or the position is off the grid.
    pub fn load_chunk(&mut self, pos: Position<ChunkUnit>, heightmap: &Vec<u32>) -> (r: Result<ChunkID, ChunkError>)
        requires
            old(self)@.wf(),
        ensures
            final(self)@.wf(),
            occupied(old(self)@.chunks, pos) <==> r == Err::<ChunkID, ChunkError>(ChunkError::DuplicateChunkPos),
            !occupied(old(self)@.chunks, pos) && old(self)@.cid_counter == u32::MAX <==> r == Err::<ChunkID, ChunkError>(ChunkError::DuplicateID),
            !occupied(old(self)@.chunks, pos) && old(self)@.cid_counter < u32::MAX && !(heightmap@.len() == 1024
                && chunk_coord_ok(pos.x.0 as int) && chunk_coord_ok(pos.y.0 as int) && chunk_coord_ok(pos.z.0 as int))
                <==> r == Err::<ChunkID, ChunkError>(ChunkError::Invalid),
            r is Err ==> final(self)@ == old(self)@,
            r is Ok <==> (!occupied(old(self)@.chunks, pos) && old(self)@.cid_counter < u32::MAX && heightmap@.len()
                == 1024 && chunk_coord_ok(pos.x.0 as int) && chunk_coord_ok(pos.y.0 as int) && chunk_coord_ok(
                pos.z.0 as int,
            )),
            r matches Ok(id) ==> {
                &&& id.0 == old(self)@.cid_counter + 1
                &&& final(self)@.cid_counter == id.0
                &&& final(self)@.chunks.len() == old(self)@.chunks.len() + 1
                &&& final(self)@.chunks.drop_last() == old(self)@.chunks
                &&& final(self)@.chunks.last()@.id == id
                &&& final(self)@.chunks.last()@.position == pos
                &&& final(self)@.chunks.last()@.blocks == terrain_upto(
                    old(self)@.terrain.palette,
                    pos,
                    heightmap@,
                    seeded_state(old(self)@.terrain.seed),
                    CHUNK_BLOCKS as int,
                ).0
                &&& final(self)@.terrain == old(self)@.terrain
                &&& final(self)@.cube.entries.drop_last() == old(self)@.cube.entries
                &&& final(self)@.flora.entries.drop_last() == old(self)@.flora.entries
                &&& final(self)@.cube.entries.last().id == id
                &&& final(self)@.cube.entries.last().dirty
                &&& final(self)@.flora.entries.last().id == id
                &&& final(self)@.flora.entries.last().dirty
            },
    {
        if self.is_occupied(pos) {
            return Err(ChunkError::DuplicateChunkPos);
        }
        if self.cid_counter == u32::MAX {
            return Err(ChunkError::DuplicateID);
        }
        if heightmap.len() != 1024 || pos.x.0 < CHUNK_MIN || pos.x.0 > CHUNK_MAX || pos.y.0 < CHUNK_MIN
            || pos.y.0 > CHUNK_MAX || pos.z.0 < CHUNK_MIN || pos.z.0 > CHUNK_MAX {
            return Err(ChunkError::Invalid);
        }
        let id = ChunkID(self.cid_counter + 1);
        let blocks = self.terrain.generate_chunk(pos, heightmap);
        let chunk = match Chunk::new(id, pos, blocks) {
            Ok(c) => c,
            Err(e) => {
                return Err(e);
            },
        };
        let ghost before = self.chunks@;
        let ghost cube0 = self.cube@;
        let ghost flora0 = self.flora@;
        self.cid_counter = self.cid_counter + 1;
        self.chunks.push(chunk);
        self.cube.add_chunk(id);
        self.flora.add_chunk(id);
        self.reload = true;
        proof {
            assert(self.chunks@.drop_last() =~= before);
            assert(self.cube@.entries.drop_last() =~= cube0.entries);
            assert(self.flora@.entries.drop_last() =~= flora0.entries);
            assert(!chunk_ids(before).contains(id)) by {
                if chunk_ids(before).contains(id) {
                    let k = choose|k: int| 0 <= k < chunk_ids(before).len() && chunk_ids(before)[k] == id;
                    assert(before[k]@.id.0 <= old(self).cid_counter);
                }
            }
            assert(chunk_ids(self.chunks@) =~= chunk_ids(before).push(id));
            assert(entry_ids(self.cube@.entries) =~= entry_ids(cube0.entries).push(id));
            assert(entry_ids(self.flora@.entries) =~= entry_ids(flora0.entries).push(id));
            lemma_push_contains(chunk_ids(before), id);
            lemma_push_contains(entry_ids(cube0.entries), id);
            lemma_push_contains(entry_ids(flora0.entries), id);
            assert forall|i: int, j: int| 0 <= i < self.chunks@.len() && 0 <= j < self.chunks@[i]@.blocks.len() implies (
            #[trigger] self.chunks@[i]@.blocks[j]).id.0 >= 1 by {
                if i < before.len() {
                    assert(self.chunks@[i] == before[i]);
                }
            }
            assert forall|i: int| 0 <= i < self.chunks@.len() implies (#[trigger] self.chunks@[i])@.wf() by {
                if i < before.len() {
                    assert(self.chunks@[i] == before[i]);
                }
            }
            assert forall|i: int, j: int|
                0 <= i < self.chunks@.len() && 0 <= j < self.chunks@.len() && i != j implies (#[trigger] self.chunks@[i])@.position
                    != (#[trigger] self.chunks@[j])@.position && self.chunks@[i]@.id != self.chunks@[j]@.id by {
                if i < before.len() && j < before.len() {
                    assert(self.chunks@[i] == before[i] && self.chunks@[j] == before[j]);
                } else if i < before.len() {
                    assert(self.chunks@[i] == before[i]);
                    assert(before[i]@.position != pos);
                } else {
                    assert(self.chunks@[j] == before[j]);
                    assert(before[j]@.position != pos);
                }
            }
            assert forall|i: int| 0 <= i < self.chunks@.len() implies 1 <= (#[trigger] self.chunks@[i])@.id.0
                <= self.cid_counter by {
                if i < before.len() {
                    assert(self.chunks@[i] == before[i]);
                }
            }
        }
        Ok(id)
    }

    /// Deregisters the chunk `id` from both meshers and drops it (the last chunk takes
    /// its place). Returns whether such a chunk was live.
    pub fn offload_chunk(&mut self, id: ChunkID) -> (r: bool)
        requires
            old(self)@.wf(),
        ensures
            final(self)@.wf(),
            r == exists|i: int| 0 <= i < old(self)@.chunks.len() && (#[trigger] old(self)@.chunks[i])@.id == id,
            final(self)@.cid_counter == old(self)@.cid_counter,
            final(self)@.terrain == old(self)@.terrain,
            forall|i: int| 0 <= i < final(self)@.chunks.len() ==> (#[trigger] final(self)@.chunks[i])@.id != id,
            !r ==> final(self)@.chunks == old(self)@.chunks,
            r ==> final(self)@.chunks.len() == old(self)@.chunks.len() - 1,
            forall|c: Chunk| final(self)@.chunks.contains(c) <==> (old(self)@.chunks.contains(c) && c@.id != id),
            r ==> final(self)@.chunks == old(self)@.chunks.update(
                id_scan_from(old(self)@.chunks, id, 0),
                old(self)@.chunks.last(),
            ).drop_last(),
            final(self)@.cube.entries == without_entry(old(self)@.cube.entries, id),
            final(self)@.flora.entries == without_entry(old(self)@.flora.entries, id),
            !chunk_ids(final(self)@.chunks).contains(id),
            !entry_ids(final(self)@.cube.entries).contains(id),
            !entry_ids(final(self)@.flora.entries).contains(id),
    {
        proof {
            lemma_ids_scan(old(self)@.chunks, id, 0);
            lemma_entry_scan(old(self)@.cube.entries, id, 0);
            lemma_entry_scan(old(self)@.flora.entries, id, 0);
            lemma_entry_ids_contains(old(self)@.cube.entries, id);
            lemma_entry_ids_contains(old(self)@.flora.entries, id);
            lemma_chunk_ids_contains(old(self)@.chunks, id);
        }
        self.cube.remv_chunk(id);
        self.flora.remv_chunk(id);
        let ghost before = self.chunks@;
        let mut i: usize = 0;
        while i < self.chunks.len()
            invariant
                self.chunks@ == before,
                before == old(self)@.chunks,
                self.cid_counter == old(self)@.cid_counter,
                self.terrain@ == old(self)@.terrain,
                self.cube@.wf() && self.cube@.kind == MeshKind::Cube,
                self.flora@.wf() && self.flora@.kind == MeshKind::FloraX,
                old(self)@.wf(),
                0 <= i <= before.len(),
                forall|k: int| 0 <= k < i ==> (#[trigger] before[k])@.id != id,
                id_scan_from(before, id, 0) == id_scan_from(before, id, i as int),
                self.cube@.entries == without_entry(old(self)@.cube.entries, id),
                self.flora@.entries == without_entry(old(self)@.flora.entries, id),
                chunk_ids(before).contains(id) <==> exists|j: int| 0 <= j < before.len() && (#[trigger] before[j])@.id == id,
                entry_ids(old(self)@.cube.entries).contains(id) <==> entry_scan_from(old(self)@.cube.entries, id, 0) < old(self)@.cube.entries.len(),
                entry_ids(old(self)@.flora.entries).contains(id) <==> entry_scan_from(old(self)@.flora.entries, id, 0) < old(self)@.flora.entries.len(),
            decreases before.len() - i,
        {
            if self.chunks[i].id() == id {
                let _gone = self.chunks.swap_remove(i);
                proof {
                    let n = before.len();
                    assert forall|k: int| 0 <= k < self.chunks@.len() implies (#[trigger] self.chunks@[k]) == (if k == i { before[n - 1] } else { before[k] }) by {}
                    assert forall|k: int| 0 <= k < self.chunks@.len() implies (#[trigger] self.chunks@[k])@.wf() by {
                        if k == i { assert(self.chunks@[k] == before[n - 1]); } else { assert(self.chunks@[k] == before[k]); }
                    }
                    assert forall|a: int, b: int|
                        0 <= a < self.chunks@.len() && 0 <= b < self.chunks@.len() && a != b implies (#[trigger] self.chunks@[a])@.position
                            != (#[trigger] self.chunks@[b])@.position && self.chunks@[a]@.id != self.chunks@[b]@.id by {
                        let a0 = if a == i { n - 1 } else { a };
                        let b0 = if b == i { n - 1 } else { b };
                        assert(self.chunks@[a] == before[a0] && self.chunks@[b] == before[b0]);
                        assert(a0 != b0);
                    }
                    assert forall|k: int| 0 <= k < self.chunks@.len() implies 1 <= (#[trigger] self.chunks@[k])@.id.0
                        <= self.cid_counter by {
                        if k == i { assert(self.chunks@[k] == before[n - 1]); } else { assert(self.chunks@[k] == before[k]); }
                    }
                    assert forall|k: int| 0 <= k < self.chunks@.len() implies (#[trigger] self.chunks@[k])@.id != id by {
                        if k == i { assert(self.chunks@[k] == before[n - 1]); assert(n - 1 != i); } else { assert(self.chunks@[k] == before[k]); }
                    }
                    assert forall|c: Chunk| self.chunks@.contains(c) <==> (before.contains(c) && c@.id != id) by {
                        if self.chunks@.contains(c) {
                            let k = choose|k: int| 0 <= k < self.chunks@.len() && self.chunks@[k] == c;
                            if k == i { assert(before[n - 1] == c); } else { assert(before[k] == c); }
                        }
                        if before.contains(c) && c@.id != id {
                            let k = choose|k: int| 0 <= k < before.len() && before[k] == c;
                            assert(k != i);
                            if k == n - 1 { assert(self.chunks@[i as int] == c); } else { assert(self.chunks@[k] == c); }
                        }
                    }
                    assert(self.chunks@ =~= before.update(i as int, before.last()).drop_last());
                    assert(before[i as int]@.id == id);
                    assert(chunk_ids(before).contains(id));
                    let ce = old(self)@.cube.entries;
                    let fe = old(self)@.flora.entries;
                    let kc = entry_scan_from(ce, id, 0);
                    let kf = entry_scan_from(fe, id, 0);
                    lemma_entry_scan(ce, id, 0);
                    lemma_entry_scan(fe, id, 0);
                    assert(entry_ids(ce).contains(id));
                    assert(entry_ids(fe).contains(id));
                    assert(kc < ce.len() && kf < fe.len());
                    assert(self.cube@.entries == ce.update(kc, ce.last()).drop_last());
                    assert(self.flora@.entries == fe.update(kf, fe.last()).drop_last());
                    assert(entry_ids(ce).len() == ce.len() && entry_ids(fe).len() == fe.len());
                    assert(entry_ids(ce).last() == ce.last().id);
                    assert(entry_ids(fe).last() == fe.last().id);
                    assert(chunk_ids(self.chunks@) =~= chunk_ids(before).update(i as int, chunk_ids(before).last()).drop_last());
                    crate::mesher::lemma_entry_ids_swap_remove(ce, kc);
                    crate::mesher::lemma_entry_ids_swap_remove(fe, kf);
                    lemma_chunk_ids_distinct(before);
                    lemma_swap_remove(chunk_ids(before), i as int);
                    lemma_swap_remove(entry_ids(ce), kc);
                    lemma_swap_remove(entry_ids(fe), kf);
                    assert(chunk_ids(before)[i as int] == id);
                    assert(entry_ids(ce)[kc] == id);
                    assert(entry_ids(fe)[kf] == id);
                    assert forall|a: int, j: int| 0 <= a < self.chunks@.len() && 0 <= j < self.chunks@[a]@.blocks.len() implies (
                    #[trigger] self.chunks@[a]@.blocks[j]).id.0 >= 1 by {
                        if a == i { assert(self.chunks@[a] == before[n - 1]); } else { assert(self.chunks@[a] == before[a]); }
                    }
                }
                self.reload = true;
                return true;
            }
            i = i + 1;
        }
        proof {
            assert forall|c: Chunk| self.chunks@.contains(c) <==> (before.contains(c) && c@.id != id) by {
                if before.contains(c) {
                    let k = choose|k: int| 0 <= k < before.len() && before[k] == c;
                    assert(before[k]@.id != id);
                }
            }
            assert(!chunk_ids(before).contains(id));
            assert(self.cube@.entries == old(self)@.cube.entries);
            assert(self.flora@.entries == old(self)@.flora.entries);
        }
        false
    }

    /// Regenerates, in both meshers, every entry that needs it against the live chunks
    /// (see `Mesher::load_chunks`).
    pub fn mesh_pass(&mut self)
        requires
            old(self)@.wf(),
        ensures
            final(self)@.wf(),
            final(self)@.chunks == old(self)@.chunks,
            final(self)@.cid_counter == old(self)@.cid_counter,
            final(self)@.terrain == old(self)@.terrain,
            meshed(old(self)@.cube, final(self)@.cube, old(self)@.chunks),
            meshed(old(self)@.flora, final(self)@.flora, old(self)@.chunks),
    {
        let ghost c0 = self.cube@;
        let ghost f0 = self.flora@;
        self.cube.load_chunks(&self.chunks);
        self.flora.load_chunks(&self.chunks);
        self.reload = true;
        proof {
            lemma_tracks_same_ids(c0, self.cube@, self.chunks@);
            lemma_tracks_same_ids(f0, self.flora@, self.chunks@);
        }
    }

    /// Applies one event: `LoadChunk` and `OffloadChunk` as their methods do (a refused
    /// load changes nothing), `ReloadChunks` marks every entry dirty, `ReloadChunk` marks
    /// the entries of one chunk dirty, and `EventFinal` runs the meshing pass. The heightmap
    /// is read by `LoadChunk` alone. Returns whether the event changed the live chunks.
    pub fn apply_event(&mut self, e: ChunkEvents, heightmap: &Vec<u32>) -> (r: bool)
        requires
            old(self)@.wf(),
        ensures
            final(self)@.wf(),
            !(e is LoadChunk) && !(e is OffloadChunk) ==> final(self)@.chunks == old(self)@.chunks,
            !r ==> final(self)@.chunks == old(self)@.chunks,
            e matches ChunkEvents::LoadChunk(pos) ==> {
                &&& r <==> (!occupied(old(self)@.chunks, pos) && old(self)@.cid_counter < u32::MAX
                    && heightmap@.len() == 1024 && chunk_coord_ok(pos.x.0 as int) && chunk_coord_ok(pos.y.0 as int)
                    && chunk_coord_ok(pos.z.0 as int))
                &&& r ==> final(self)@.chunks.drop_last() == old(self)@.chunks && final(self)@.chunks.last()@.position == pos
            },
            e matches ChunkEvents::OffloadChunk(id) ==> {
                &&& r == exists|i: int| 0 <= i < old(self)@.chunks.len() && (#[trigger] old(self)@.chunks[i])@.id == id
                &&& forall|i: int| 0 <= i < final(self)@.chunks.len() ==> (#[trigger] final(self)@.chunks[i])@.id != id
            },
            e is ReloadChunks ==> (forall|i: int| 0 <= i < final(self)@.cube.entries.len() ==> (#[trigger] final(self)@.cube.entries[i]).dirty)
                && (forall|i: int| 0 <= i < final(self)@.flora.entries.len() ==> (#[trigger] final(self)@.flora.entries[i]).dirty),
            e is EventFinal ==> meshed(old(self)@.cube, final(self)@.cube, old(self)@.chunks) && meshed(
                old(self)@.flora,
                final(self)@.flora,
                old(self)@.chunks,
            ),
    {
        match e {
            ChunkEvents::LoadChunk(pos) => {
                let res = self.load_chunk(pos, heightmap);
                res.is_ok()
            },
            ChunkEvents::OffloadChunk(id) => {
                let found = self.offload_chunk(id);
                found
            },
            ChunkEvents::ReloadChunks => {
                let ghost c0 = self.cube@;
                let ghost f0 = self.flora@;
                self.cube.reload_all();
                self.flora.reload_all();
                self.reload = true;
                proof {
                    lemma_tracks_same_ids(c0, self.cube@, self.chunks@);
                    lemma_tracks_same_ids(f0, self.flora@, self.chunks@);
                }
                false
            },
            ChunkEvents::ReloadChunk(id) => {
                let ghost c0 = self.cube@;
                let ghost f0 = self.flora@;
                self.cube.mark_dirty(id);
                self.flora.mark_dirty(id);
                self.reload = true;
                proof {
                    lemma_tracks_same_ids(c0, self.cube@, self.chunks@);
                    lemma_tracks_same_ids(f0, self.flora@, self.chunks@);
                }
                false
            },
            ChunkEvents::EventFinal => {
                self.mesh_pass();
                false
            },
        }
    }

    /// Brings both draw buffers up to date; each flag says whether that buffer fits `u32` indices.
    pub fn render(&mut self) -> (r: (bool, bool))
        requires
            old(self)@.wf(),
        ensures
            final(self)@.wf(),
            final(self)@.chunks == old(self)@.chunks,
            final(self)@.cid_counter == old(self)@.cid_counter,
            final(self)@.terrain == old(self)@.terrain,
            final(self)@.cube.entries == old(self)@.cube.entries,
            final(self)@.flora.entries == old(self)@.flora.entries,
            r.0 == (crate::mesher::agg_vertices(old(self)@.cube.entries).len() <= crate::mesher::MAX_DRAW_VERTICES),
            r.1 == (crate::mesher::agg_vertices(old(self)@.flora.entries).len() <= crate::mesher::MAX_DRAW_VERTICES),
            r.0 ==> final(self)@.cube.vertices == crate::mesher::agg_vertices(old(self)@.cube.entries),
            r.1 ==> final(self)@.flora.vertices == crate::mesher::agg_vertices(old(self)@.flora.entries),
    {
        let reload = self.reload;
        let a = self.cube.render(reload);
        let b = self.flora.render(reload);
        self.reload = false;
        (a, b)
    }

    /// Identifier and position of every live chunk, with the counts of this tick.
    pub fn status(&self, loaded: u32, offloaded: u32) -> (r: ChunkStatusInfo)
        ensures
            r.chunks@.len() == self@.chunks.len(),
            forall|i: int| 0 <= i < r.chunks@.len() ==> #[trigger] r.chunks@[i] == (self@.chunks[i]@.id, self@.chunks[i]@.position),
            r.total_chunks_loaded as int == if self@.chunks.len() <= u32::MAX { self@.chunks.len() as int } else { u32::MAX as int },
            r.chunks_loaded == loaded,
            r.chunks_offloaded == offloaded,
            r.chunks_updated == 0,
    {
        let mut v: Vec<(ChunkID, Position<ChunkUnit>)> = Vec::new();
        let mut i: usize = 0;
        while i < self.chunks.len()
            invariant
                0 <= i <= self.chunks@.len(),
                v@.len() == i,
                forall|k: int| 0 <= k < i ==> #[trigger] v@[k] == (self@.chunks[k]@.id, self@.chunks[k]@.position),
            decreases self.chunks@.len() - i,
        {
            v.push((self.chunks[i].id(), self.chunks[i].position()));
            i = i + 1;
        }
        let n = self.chunks.len();
        let total: u32 = if n <= u32::MAX as usize { n as u32 } else { u32::MAX };
        ChunkStatusInfo { chunks: v, total_chunks_loaded: total, chunks_loaded: loaded, chunks_offloaded: offloaded, chunks_updated: 0 }
    }
}

impl ChunkWorker {
    /// The regeneration work of one mesher, for running it outside the worker: for each
    /// entry to regenerate whose chunk is live, the entry's index and the chunk's index.
    pub fn mesh_jobs(&self, kind: MeshKind) -> (r: Vec<(usize, usize)>)
        requires
            self@.wf(),
        ensures
            ({
                let m = self@.mesher(kind);
                &&& forall|j: int| 0 <= j < r@.len() ==> {
                    let (e, k) = #[trigger] r@[j];
                    &&& e < m.entries.len()
                    &&& k < self@.chunks.len()
                    &&& wanted(m.kind, m.entries, self@.chunks, e as int)
                    &&& k == id_scan_from(self@.chunks, m.entries[e as int].id, 0)
                }
                &&& forall|e: int| 0 <= e < m.entries.len() && wanted(m.kind, m.entries, self@.chunks, e)
                    && id_scan_from(self@.chunks, m.entries[e].id, 0) < self@.chunks.len() ==> exists|j: int|
                    0 <= j < r@.len() && (#[trigger] r@[j]).0 == e
            }),
    {
        let m = if kind == MeshKind::Cube { &self.cube } else { &self.flora };
        let want = m.wanted_flags(&self.chunks);
        let mut out: Vec<(usize, usize)> = Vec::new();
        let mut e: usize = 0;
        while e < want.len()
            invariant
                m@ == self@.mesher(kind),
                want@.len() == m@.entries.len(),
                forall|t: int| 0 <= t < want@.len() ==> #[trigger] want@[t] == wanted(m@.kind, m@.entries, self@.chunks, t),
                0 <= e <= want@.len(),
                forall|j: int| 0 <= j < out@.len() ==> {
                    let (a, k) = #[trigger] out@[j];
                    &&& a < e
                    &&& k < self@.chunks.len()
                    &&& wanted(m@.kind, m@.entries, self@.chunks, a as int)
                    &&& k == id_scan_from(self@.chunks, m@.entries[a as int].id, 0)
                },
                forall|a: int| 0 <= a < e && wanted(m@.kind, m@.entries, self@.chunks, a)
                    && id_scan_from(self@.chunks, m@.entries[a].id, 0) < self@.chunks.len() ==> exists|j: int|
                    0 <= j < out@.len() && (#[trigger] out@[j]).0 == a,
            decreases want@.len() - e,
        {
            if want[e] {
                let (id, _) = m.entry(e);
                let k = crate::mesher::find_chunk_by_id(&self.chunks, id);
                if k < self.chunks.len() {
                    let ghost old_out = out@;
                    out.push((e, k));
                    proof {
                        assert(out@[out@.len() - 1].0 == e);
                        assert forall|a: int| 0 <= a < e + 1 && wanted(m@.kind, m@.entries, self@.chunks, a)
                            && id_scan_from(self@.chunks, m@.entries[a].id, 0) < self@.chunks.len() implies exists|j: int|
                            0 <= j < out@.len() && (#[trigger] out@[j]).0 == a by {
                            if a < e {
                                let j = choose|j: int| 0 <= j < old_out.len() && (#[trigger] old_out[j]).0 == a;
                                assert(out@[j] == old_out[j]);
                            } else {
                                assert(out@[out@.len() - 1].0 == a);
                            }
                        }
                    }
                }
            }
            e = e + 1;
        }
        out
    }

    /// Stores buffers generated outside the worker into entry `entry` of one mesher and
    /// clears its dirty flag. Refused, changing nothing, when the entry does not exist or
    /// the buffers are not whole quads indexed from each quad's first vertex.
    pub fn store_mesh(&mut self, kind: MeshKind, entry: usize, vertices: Vec<Vertex>, indices: Vec<u32>) -> (r: bool)
        requires
            old(self)@.wf(),
        ensures
            final(self)@.wf(),
            final(self)@.chunks == old(self)@.chunks,
            final(self)@.cid_counter == old(self)@.cid_counter,
            final(self)@.terrain == old(self)@.terrain,
            r == (entry < old(self)@.mesher(kind).entries.len()
                && crate::mesher::quads_wf(vertices@, indices@) && vertices@.len() <= crate::mesh::CHUNK_MESH_VERTICES),
            !r ==> final(self)@ == old(self)@,
            r ==> {
                let m = final(self)@.mesher(kind);
                let o = old(self)@.mesher(kind);
                &&& m.entries.len() == o.entries.len()
                &&& !m.entries[entry as int].dirty
                &&& m.entries[entry as int].id == o.entries[entry as int].id
                &&& m.entries[entry as int].vertices@ == vertices@
                &&& m.entries[entry as int].indices@ == indices@
                &&& forall|j: int| 0 <= j < o.entries.len() && j != entry ==> #[trigger] m.entries[j] == o.entries[j]
            },
            r && kind == MeshKind::Cube ==> final(self)@.flora == old(self)@.flora,
            r && kind != MeshKind::Cube ==> final(self)@.cube == old(self)@.cube,
    {
        let n = if kind == MeshKind::Cube { self.cube.len() } else { self.flora.len() };
        if entry >= n || !crate::mesher::check_quads(&vertices, &indices) {
            return false;
        }
        let ghost c0 = self.cube@;
        let ghost f0 = self.flora@;
        if kind == MeshKind::Cube {
            self.cube.store_mesh(entry, vertices, indices);
        } else {
            self.flora.store_mesh(entry, vertices, indices);
        }
        proof {
            assert forall|i: int| 0 <= i < c0.entries.len() implies (#[trigger] self.cube@.entries[i]).id == c0.entries[i].id by {
                if i != entry { assert(self.cube@.entries[i] == c0.entries[i] || kind != MeshKind::Cube); }
            }
            assert forall|i: int| 0 <= i < f0.entries.len() implies (#[trigger] self.flora@.entries[i]).id == f0.entries[i].id by {
                if i != entry { assert(self.flora@.entries[i] == f0.entries[i] || kind == MeshKind::Cube); }
            }
            lemma_tracks_same_ids(c0, self.cube@, self.chunks@);
            lemma_tracks_same_ids(f0, self.flora@, self.chunks@);
        }
        self.reload = true;
        true
    }
}

/// `maps` holds a 32 x 32 heightmap for every position that the sweep of radius `r`
/// around `c` wants, and every entry for such a position has that size.
pub open spec fn covers(maps: Seq<(Position<ChunkUnit>, Vec<u32>)>, s: Seq<Chunk>, c: Position<ChunkUnit>, r: int) -> bool {
    forall|p: Position<ChunkUnit>| #[trigger] wants_load(s, c, r, p) ==> {
        &&& exists|i: int| 0 <= i < maps.len() && (#[trigger] maps[i]).0 == p
        &&& forall|i: int| 0 <= i < maps.len() && (#[trigger] maps[i]).0 == p ==> maps[i].1@.len() == 1024
    }
}

/// The viewer's chunk coordinate for a camera state.
pub open spec fn center_of(cam: CameraState) -> Position<ChunkUnit> {
    Position {
        x: ChunkUnit(camera_chunk(cam.x as int) as i64),
        y: ChunkUnit(camera_chunk(cam.y as int) as i64),
        z: ChunkUnit(camera_chunk(cam.z as int) as i64),
    }
}

/// Index of the first entry of `maps` for position `p`, or `maps.len()`.
fn map_for(maps: &Vec<(Position<ChunkUnit>, Vec<u32>)>, p: Position<ChunkUnit>) -> (r: usize)
    ensures
        r <= maps@.len(),
        r < maps@.len() ==> maps@[r as int].0 == p,
        r == maps@.len() ==> forall|i: int| 0 <= i < maps@.len() ==> (#[trigger] maps@[i]).0 != p,
{
    let mut i: usize = 0;
    while i < maps.len()
        invariant
            0 <= i <= maps@.len(),
            forall|j: int| 0 <= j < i ==> (#[trigger] maps@[j]).0 != p,
        decreases maps@.len() - i,
    {
        if maps[i].0 == p {
            return i;
        }
        i = i + 1;
    }
    i
}

impl ChunkWorker {
    /// One tick for the viewer in `state`: plans the radius sweep, drains the events last
    /// in first out (a load reads the heightmap that `maps` holds for its position; a
    /// load without one is refused), runs the meshing pass, refreshes both draw buffers
    /// and returns the status of the live chunks with this tick's counts.
    /// No two live chunks ever share a position. Starting from no chunks, with a
    /// heightmap for every wanted position and identifiers to spare, the live chunks
    /// afterwards stand exactly on the positions of the sweep cube at or above `y = 0`,
    /// each once: `(2R+1)^2` times the number of rows at or above the floor, which is
    /// `(2R+1)^3` when the whole cube is at or above it.
    pub fn update(&mut self, state: &WorldStateUpd, radius: u32, maps: &Vec<(Position<ChunkUnit>, Vec<u32>)>) -> (r:
        ChunkStatusInfo)
        requires
            old(self)@.wf(),
        ensures
            final(self)@.wf(),
            positions_distinct(final(self)@.chunks),
            r.chunks@.len() == final(self)@.chunks.len(),
            forall|i: int| 0 <= i < r.chunks@.len() ==> #[trigger] r.chunks@[i] == (final(self)@.chunks[i]@.id, final(self)@.chunks[i]@.position),
            ({
                let c = center_of(state.cam);
                let n = (2 * radius + 1) * (2 * radius + 1) * (2 * radius + 1);
                old(self)@.chunks.len() == 0 && covers(maps@, old(self)@.chunks, c, radius as int)
                    && old(self)@.cid_counter + n <= u32::MAX ==> {
                    &&& forall|p: Position<ChunkUnit>| occupied(final(self)@.chunks, p) <==> wants_load(old(self)@.chunks, c, radius as int, p)
                    &&& r.chunks_loaded == final(self)@.chunks.len()
                    &&& r.chunks_offloaded == 0
                    &&& final(self)@.chunks.len() <= n
                    &&& sweep_unobstructed(old(self)@.chunks, c, radius as int) ==> final(self)@.chunks.len() == n
                    &&& sweep_open(old(self)@.chunks, c, radius as int) ==> final(self)@.chunks.len() == (2 * radius + 1)
                        * ((2 * radius + 1) * floor_rows(c.y.0 as int, radius as int))
                }
            }),
    {
        let queue = self.plan(&state.cam, radius);
        let order = queue.run_event();
        let ghost q = queue@;
        let ghost c = center_of(state.cam);
        let ghost nn: int = (2 * radius + 1) * (2 * radius + 1) * (2 * radius + 1);
        let ghost fresh = old(self)@.chunks.len() == 0 && covers(maps@, old(self)@.chunks, c, radius as int)
            && old(self)@.cid_counter + nn <= u32::MAX;
        let n = order.len() - 1;
        let mut loaded: u32 = 0;
        let mut offloaded: u32 = 0;
        let empty: Vec<u32> = Vec::new();
        let mut k: usize = 0;
        while k < n
            invariant
                self@.wf(),
                n == q.len(),
                order@ == q.reverse().push(ChunkEvents::EventFinal),
                0 <= k <= n,
                q.no_duplicates(),
                forall|p: Position<ChunkUnit>| q.contains(ChunkEvents::LoadChunk(p)) <==> wants_load(old(self)@.chunks, c, radius as int, p),
                fresh ==> old(self)@.chunks.len() == 0 && covers(maps@, old(self)@.chunks, c, radius as int) && old(self)@.cid_counter + nn <= u32::MAX,
                fresh ==> q.len() <= nn && forall|m: int| 0 <= m < q.len() ==> (#[trigger] q[m]) is LoadChunk,
                fresh ==> self@.chunks.len() == k && self@.cid_counter == old(self)@.cid_counter + k && loaded == k && offloaded == 0,
                fresh ==> forall|p: Position<ChunkUnit>| occupied(self@.chunks, p) <==> exists|m: int|
                    n - k <= m < n && #[trigger] q[m] == ChunkEvents::LoadChunk(p),
            decreases n - k,
        {
            let e = order[k];
            proof {
                assert(order@[k as int] == q[n - 1 - k]);
            }
            match e {
                ChunkEvents::LoadChunk(pos) => {
                    let idx = map_for(maps, pos);
                    let hm = if idx < maps.len() { &maps[idx].1 } else { &empty };
                    let ghost before = self@.chunks;
                    proof {
                        if fresh {
                            assert(q.contains(ChunkEvents::LoadChunk(pos)));
                            assert(wants_load(old(self)@.chunks, c, radius as int, pos));
                            assert(hm@.len() == 1024);
                            if occupied(before, pos) {
                                let m = choose|m: int| n - k <= m < n && #[trigger] q[m] == ChunkEvents::LoadChunk(pos);
                                assert(q[m] == q[n - 1 - k]);
                            }
                        }
                    }
                    let res = self.load_chunk(pos, hm);
                    if res.is_ok() {
                        if loaded < u32::MAX {
                            loaded = loaded + 1;
                        }
                    }
                    proof {
                        if fresh {
                            assert(res.is_ok());
                            assert forall|p: Position<ChunkUnit>| occupied(self@.chunks, p) <==> exists|m: int|
                                n - (k + 1) <= m < n && #[trigger] q[m] == ChunkEvents::LoadChunk(p) by {
                                if occupied(self@.chunks, p) {
                                    let j = choose|j: int| 0 <= j < self@.chunks.len() && (#[trigger] self@.chunks[j])@.position == p;
                                    if j < before.len() {
                                        assert(self@.chunks[j] == self@.chunks.drop_last()[j]);
                                        assert(occupied(before, p));
                                    } else {
                                        assert(q[n - 1 - k] == ChunkEvents::LoadChunk(p));
                                    }
                                }
                                if exists|m: int| n - (k + 1) <= m < n && #[trigger] q[m] == ChunkEvents::LoadChunk(p) {
                                    let m = choose|m: int| n - (k + 1) <= m < n && #[trigger] q[m] == ChunkEvents::LoadChunk(p);
                                    if m == n - 1 - k {
                                        assert(self@.chunks[self@.chunks.len() - 1]@.position == p);
                                    } else {
                                        assert(occupied(before, p));
                                        let j = choose|j: int| 0 <= j < before.len() && (#[trigger] before[j])@.position == p;
                                        assert(self@.chunks[j] == before[j]);
                                    }
                                }
                            }
                        }
                    }
                },
                ChunkEvents::OffloadChunk(id) => {
                    proof {
                        if fresh {
                            assert(q[n - 1 - k] is LoadChunk);
                        }
                    }
                    if self.offload_chunk(id) {
                        if offloaded < u32::MAX {
                            offloaded = offloaded + 1;
                        }
                    }
                },
                _ => {
                    proof {
                        if fresh {
                            assert(q[n - 1 - k] is LoadChunk);
                        }
                    }
                    self.apply_event(e, &empty);
                },
            }
            k = k + 1;
        }
        proof {
            if fresh {
                assert forall|p: Position<ChunkUnit>| occupied(self@.chunks, p) <==> wants_load(old(self)@.chunks, c, radius as int, p) by {
                    if occupied(self@.chunks, p) {
                        let m = choose|m: int| 0 <= m < n && #[trigger] q[m] == ChunkEvents::LoadChunk(p);
                        assert(q.contains(ChunkEvents::LoadChunk(p)));
                    }
                    if wants_load(old(self)@.chunks, c, radius as int, p) {
                        assert(q.contains(ChunkEvents::LoadChunk(p)));
                        let m = choose|m: int| 0 <= m < q.len() && q[m] == ChunkEvents::LoadChunk(p);
                        assert(n - n <= m < n && q[m] == ChunkEvents::LoadChunk(p));
                    }
                }
            }
        }
        self.mesh_pass();
        let _ = self.render();
        self.status(loaded, offloaded)
    }
}

} // verus!
