//! Per-chunk mesh entries of one mesher and the aggregated draw buffer built from them.
use vstd::prelude::*;
use crate::chunk::{Chunk, ChunkID};
use crate::mesh::{
    Vertex, all_wf, cube_mesh_data, cube_mesh_upto, dir, flora_mesh_data, flora_mesh_upto,
    lemma_quad_indices_bound, lemma_quad_indices_len, quad_indices, CHUNK_MESH_VERTICES,
};
use crate::units::{ChunkUnit, Position};

verus! {

/// Which visual archetype a mesher draws.
#[derive(Clone, Copy, Debug, PartialEq, Eq, Structural)]
pub enum MeshKind {
    Cube,
    FloraX,
}

/// One tracked chunk of a mesher and its last generated buffers.
pub struct MeshEntry {
    pub id: ChunkID,
    /// Never meshed, or a neighbor changed: must be (re)generated.
    pub dirty: bool,
    /// Left out of the aggregated draw buffer.
    pub cull: bool,
    pub vertices: Vec<Vertex>,
    pub indices: Vec<u32>,
}

/// Buffers made of whole quads, each indexed `0 1 2 0 2 3` from its first vertex.
pub open spec fn quads_wf(v: Seq<Vertex>, i: Seq<u32>) -> bool {
    v.len() % 4 == 0 && i == quad_indices((v.len() / 4) as nat)
}

/// Vertices of the non-culled entries, concatenated in table order.
pub open spec fn agg_vertices(es: Seq<MeshEntry>) -> Seq<Vertex>
    decreases es.len(),
{
    if es.len() == 0 {
        Seq::empty()
    } else {
        agg_vertices(es.drop_last()) + if es.last().cull {
            Seq::empty()
        } else {
            es.last().vertices@
        }
    }
}

/// Largest aggregated vertex count that `u32` indices can address.
pub const MAX_DRAW_VERTICES: usize = 4294967292;

/// Index in `s` of the first chunk with identifier `id` (from `i` on), or `s.len()`.
pub open spec fn id_scan_from(s: Seq<Chunk>, id: ChunkID, i: int) -> int
    decreases s.len() - i,
{
    if i >= s.len() || i < 0 {
        s.len() as int
    } else if s[i]@.id == id {
        i
    } else {
        id_scan_from(s, id, i + 1)
    }
}

/// Whether `b` is one of the six face neighbors of `a`.
pub open spec fn adjacent(a: Position<ChunkUnit>, b: Position<ChunkUnit>) -> bool {
    exists|d: int|
        0 <= d < 6 && b.x.0 == a.x.0 + dir(d).0 && b.y.0 == a.y.0 + dir(d).1 && b.z.0 == a.z.0
            + dir(d).2
}

/// Whether entry `i` must be regenerated: it is dirty, or (for cubes, whose faces depend
/// on neighbors) the chunk of some dirty entry lies next to its chunk.
pub open spec fn wanted(kind: MeshKind, es: Seq<MeshEntry>, s: Seq<Chunk>, i: int) -> bool {
    ||| es[i].dirty
    ||| (kind == MeshKind::Cube && exists|j: int|
        #![trigger es[j]]
        0 <= j < es.len() && es[j].dirty && id_scan_from(s, es[j].id, 0) < s.len() && id_scan_from(
            s,
            es[i].id,
            0,
        ) < s.len() && adjacent(
            s[id_scan_from(s, es[i].id, 0)]@.position,
            s[id_scan_from(s, es[j].id, 0)]@.position,
        ))
}

/// The buffers that mesher `kind` generates for chunk `c` among the loaded chunks `s`.
pub open spec fn mesh_of(kind: MeshKind, c: Chunk, s: Seq<Chunk>) -> Seq<Vertex> {
    if kind == MeshKind::Cube {
        cube_mesh_upto(c@, s, 32768)
    } else {
        flora_mesh_upto(c@, 32768)
    }
}

/// A mesher: its tracked chunks and the cached aggregated draw buffer.
pub struct Mesher {
    kind: MeshKind,
    entries: Vec<MeshEntry>,
    vertices: Vec<Vertex>,
    indices: Vec<u32>,
    stale: bool,
}

/// What a mesher holds, as mathematical values.
pub ghost struct MesherView {
    pub kind: MeshKind,
    pub entries: Seq<MeshEntry>,
    pub vertices: Seq<Vertex>,
    pub indices: Seq<u32>,
    pub stale: bool,
}

impl View for Mesher {
    type V = MesherView;

    closed spec fn view(&self) -> MesherView {
        MesherView {
            kind: self.kind,
            entries: self.entries@,
            vertices: self.vertices@,
            indices: self.indices@,
            stale: self.stale,
        }
    }
}

impl MesherView {
    /// Every entry holds whole quads; the draw buffer holds whole quads; a buffer that
    /// is not stale is the aggregate of the entries.
    pub open spec fn wf(self) -> bool {
        &&& forall|i: int|
            0 <= i < self.entries.len() ==> quads_wf(
                (#[trigger] self.entries[i]).vertices@,
                self.entries[i].indices@,
            )
        &&& forall|i: int| 0 <= i < self.entries.len() ==> (#[trigger] self.entries[i]).vertices@.len() <= CHUNK_MESH_VERTICES
        &&& quads_wf(self.vertices, self.indices)
        &&& self.vertices.len() <= MAX_DRAW_VERTICES
        &&& !self.stale ==> self.vertices == agg_vertices(self.entries)
    }
}

/// Rebasing the indices of `b` quads by the `4 a` vertices before them continues the
/// pattern of `a` quads.
proof fn lemma_quad_indices_append(a: nat, b: nat)
    requires
        4 * (a + b) <= u32::MAX + 1,
    ensures
        quad_indices(a) + quad_indices(b).map_values(|k: u32| (k + 4 * a) as u32) == quad_indices(a + b),
    decreases b,
{
    if b == 0 {
        assert(quad_indices(a) + quad_indices(0).map_values(|k: u32| (k + 4 * a) as u32) =~= quad_indices(a));
    } else {
        lemma_quad_indices_append(a, (b - 1) as nat);
        let f = |k: u32| (k + 4 * a) as u32;
        let o = 4 * (b - 1);
        let tail = seq![o as u32, (o + 1) as u32, (o + 2) as u32, o as u32, (o + 2) as u32, (o + 3) as u32];
        assert(quad_indices(b) == quad_indices((b - 1) as nat) + tail);
        assert(quad_indices(b).map_values(f) =~= quad_indices((b - 1) as nat).map_values(f) + tail.map_values(f));
        assert(quad_indices(a + b) == quad_indices((a + b - 1) as nat) + seq![
            (4 * (a + b - 1)) as u32,
            (4 * (a + b - 1) + 1) as u32,
            (4 * (a + b - 1) + 2) as u32,
            (4 * (a + b - 1)) as u32,
            (4 * (a + b - 1) + 2) as u32,
            (4 * (a + b - 1) + 3) as u32,
        ]);
        assert(tail.map_values(f) =~= seq![
            (4 * (a + b - 1)) as u32,
            (4 * (a + b - 1) + 1) as u32,
            (4 * (a + b - 1) + 2) as u32,
            (4 * (a + b - 1)) as u32,
            (4 * (a + b - 1) + 2) as u32,
            (4 * (a + b - 1) + 3) as u32,
        ]);
        assert(quad_indices(a) + quad_indices(b).map_values(f) =~= (quad_indices(a) + quad_indices(
            (b - 1) as nat,
        ).map_values(f)) + tail.map_values(f));
    }
}

/// The aggregated buffer is consistent: every index names an aggregated vertex and
/// the indices form whole triangles.
pub proof fn lemma_draw_buffer_consistent(m: MesherView)
    requires
        m.wf(),
    ensures
        forall|i: int| 0 <= i < m.indices.len() ==> (#[trigger] m.indices[i]) < m.vertices.len(),
        m.indices.len() % 3 == 0,
{
    lemma_quad_indices_bound((m.vertices.len() / 4) as nat);
}

/// The first `q` quads of a longer quad list are the list of `q` quads.
proof fn lemma_quad_indices_prefix(q: nat, n: nat)
    requires
        q <= n,
    ensures
        quad_indices(n).subrange(0, 6 * q as int) == quad_indices(q),
    decreases n,
{
    lemma_quad_indices_len(n);
    lemma_quad_indices_len(q);
    if q < n {
        lemma_quad_indices_prefix(q, (n - 1) as nat);
        lemma_quad_indices_len((n - 1) as nat);
        assert(quad_indices(n).subrange(0, 6 * q as int) =~= quad_indices((n - 1) as nat).subrange(0, 6 * q as int));
    } else {
        assert(quad_indices(n).subrange(0, 6 * q as int) =~= quad_indices(n));
    }
}

/// Whether `v` and `i` hold whole quads, indexed `0 1 2 0 2 3` from each quad's
/// first vertex, and no more than one chunk can produce.
pub fn check_quads(v: &Vec<Vertex>, i: &Vec<u32>) -> (r: bool)
    ensures
        r == (quads_wf(v@, i@) && v@.len() <= CHUNK_MESH_VERTICES),
{
    let n = v.len();
    if n % 4 != 0 || n > CHUNK_MESH_VERTICES {
        return false;
    }
    let quads = n / 4;
    proof {
        lemma_quad_indices_len(quads as nat);
    }
    if i.len() != 6 * quads {
        return false;
    }
    let mut q: usize = 0;
    while q < quads
        invariant
            quads == v@.len() / 4,
            v@.len() % 4 == 0,
            v@.len() <= CHUNK_MESH_VERTICES,
            i@.len() == 6 * quads,
            q <= quads,
            i@.subrange(0, 6 * q as int) == quad_indices(q as nat),
        decreases quads - q,
    {
        let o = (4 * q) as u32;
        let b = 6 * q;
        let ok = i[b] == o && i[b + 1] == o + 1 && i[b + 2] == o + 2 && i[b + 3] == o && i[b + 4] == o + 2
            && i[b + 5] == o + 3;
        proof {
            lemma_quad_indices_len(q as nat);
            lemma_quad_indices_len((q + 1) as nat);
        }
        if !ok {
            proof {
                lemma_quad_indices_prefix((q + 1) as nat, quads as nat);
                if i@ == quad_indices(quads as nat) {
                    assert(i@.subrange(0, 6 * (q + 1)) == quad_indices((q + 1) as nat));
                    assert(i@.subrange(0, 6 * (q + 1))[6 * q as int] == i@[6 * q as int]);
                    assert(i@.subrange(0, 6 * (q + 1))[6 * q + 1] == i@[6 * q + 1]);
                    assert(i@.subrange(0, 6 * (q + 1))[6 * q + 2] == i@[6 * q + 2]);
                    assert(i@.subrange(0, 6 * (q + 1))[6 * q + 3] == i@[6 * q + 3]);
                    assert(i@.subrange(0, 6 * (q + 1))[6 * q + 4] == i@[6 * q + 4]);
                    assert(i@.subrange(0, 6 * (q + 1))[6 * q + 5] == i@[6 * q + 5]);
                }
            }
            return false;
        }
        proof {
            assert(i@.subrange(0, 6 * (q + 1)) =~= i@.subrange(0, 6 * q as int) + seq![
                o,
                (o + 1) as u32,
                (o + 2) as u32,
                o,
                (o + 2) as u32,
                (o + 3) as u32,
            ]);
        }
        q = q + 1;
    }
    proof {
        assert(i@.subrange(0, 6 * quads as int) =~= i@);
    }
    true
}

/// Index of the first entry with identifier `id`, or `es.len()`.
pub open spec fn entry_scan_from(es: Seq<MeshEntry>, id: ChunkID, i: int) -> int
    decreases es.len() - i,
{
    if i >= es.len() || i < 0 {
        es.len() as int
    } else if es[i].id == id {
        i
    } else {
        entry_scan_from(es, id, i + 1)
    }
}

/// `es` with the first entry of chunk `id` removed, the last entry taking its place.
pub open spec fn without_entry(es: Seq<MeshEntry>, id: ChunkID) -> Seq<MeshEntry> {
    let k = entry_scan_from(es, id, 0);
    if k < es.len() {
        es.update(k, es.last()).drop_last()
    } else {
        es
    }
}

/// The chunk identifiers of the entries, in table order.
pub open spec fn entry_ids(es: Seq<MeshEntry>) -> Seq<ChunkID> {
    es.map_values(|e: MeshEntry| e.id)
}

/// Removing entry `k` by moving the last one into its place does the same to the identifiers.
pub proof fn lemma_entry_ids_swap_remove(es: Seq<MeshEntry>, k: int)
    requires
        0 <= k < es.len(),
    ensures
        entry_ids(es.update(k, es.last()).drop_last()) == entry_ids(es).update(k, entry_ids(es).last()).drop_last(),
{
    let a = entry_ids(es.update(k, es.last()).drop_last());
    let b = entry_ids(es).update(k, entry_ids(es).last()).drop_last();
    assert(a.len() == b.len());
    assert forall|j: int| 0 <= j < a.len() implies a[j] == b[j] by {
        if j == k {
            assert(a[j] == es.last().id);
        } else {
            assert(a[j] == es[j].id);
        }
    }
    assert(a =~= b);
}

/// `entry_scan_from` finds an entry exactly when one carries `id`, and the one it finds does.
pub proof fn lemma_entry_scan(es: Seq<MeshEntry>, id: ChunkID, i: int)
    requires
        0 <= i <= es.len(),
    ensures
        i <= entry_scan_from(es, id, i) <= es.len(),
        entry_scan_from(es, id, i) < es.len() ==> es[entry_scan_from(es, id, i)].id == id,
        entry_scan_from(es, id, i) < es.len() <==> exists|j: int| i <= j < es.len() && (#[trigger] es[j]).id == id,
    decreases es.len() - i,
{
    if i < es.len() {
        lemma_entry_scan(es, id, i + 1);
    }
}

/// Index in `chunks` of the first chunk with identifier `id`, or `chunks.len()`.
pub fn find_chunk_by_id(chunks: &Vec<Chunk>, id: ChunkID) -> (r: usize)
    ensures
        r == id_scan_from(chunks@, id, 0),
{
    let mut i: usize = 0;
    while i < chunks.len()
        invariant
            0 <= i <= chunks@.len(),
            id_scan_from(chunks@, id, 0) == id_scan_from(chunks@, id, i as int),
        decreases chunks@.len() - i,
    {
        if chunks[i].id() == id {
            return i;
        }
        i = i + 1;
    }
    i
}

fn is_adjacent(a: Position<ChunkUnit>, b: Position<ChunkUnit>) -> (r: bool)
    ensures
        r == adjacent(a, b),
{
    let dx = b.x.0 as i128 - a.x.0 as i128;
    let dy = b.y.0 as i128 - a.y.0 as i128;
    let dz = b.z.0 as i128 - a.z.0 as i128;
    let r = (dx == -1 && dy == 0 && dz == 0) || (dx == 0 && dy == -1 && dz == 0) || (dx == 0 && dy == 0
        && dz == -1) || (dx == 1 && dy == 0 && dz == 0) || (dx == 0 && dy == 1 && dz == 0) || (dx == 0
        && dy == 0 && dz == 1);
    proof {
        if r {
            let d = if dx == -1 { 0int } else if dy == -1 { 1int } else if dz == -1 { 2int } else if dx == 1 { 3int } else if dy == 1 { 4int } else { 5int };
            assert(0 <= d < 6 && b.x.0 == a.x.0 + dir(d).0 && b.y.0 == a.y.0 + dir(d).1 && b.z.0 == a.z.0 + dir(d).2);
        }
    }
    r
}

impl Mesher {
    pub fn new(kind: MeshKind) -> (r: Self)
        ensures
            r@.wf(),
            r@.kind == kind,
            r@.entries.len() == 0,
            r@.vertices.len() == 0,
    {
        let r = Mesher { kind, entries: Vec::new(), vertices: Vec::new(), indices: Vec::new(), stale: false };
        proof {
            assert(r.entries@ =~= Seq::<MeshEntry>::empty());
            assert(agg_vertices(r.entries@) =~= Seq::<Vertex>::empty());
        }
        r
    }

    pub fn kind(&self) -> (r: MeshKind)
        ensures
            r == self@.kind,
    {
        self.kind
    }

    /// The aggregated vertex buffer as last built.
    pub fn vertices(&self) -> (r: &Vec<Vertex>)
        ensures
            r@ == self@.vertices,
    {
        &self.vertices
    }

    /// The aggregated index buffer as last built.
    pub fn indices(&self) -> (r: &Vec<u32>)
        ensures
            r@ == self@.indices,
    {
        &self.indices
    }

    /// Number of tracked chunks.
    pub fn len(&self) -> (r: usize)
        ensures
            r == self@.entries.len(),
    {
        self.entries.len()
    }

    /// Identifier and dirty flag of entry `i`.
    pub fn entry(&self, i: usize) -> (r: (ChunkID, bool))
        requires
            i < self@.entries.len(),
        ensures
            r.0 == self@.entries[i as int].id,
            r.1 == self@.entries[i as int].dirty,
    {
        (self.entries[i].id, self.entries[i].dirty)
    }

    /// Starts tracking a chunk: a dirty, visible entry with empty buffers.
    pub fn add_chunk(&mut self, id: ChunkID)
        requires
            old(self)@.wf(),
        ensures
            final(self)@.wf(),
            final(self)@.kind == old(self)@.kind,
            final(self)@.stale,
            final(self)@.entries.len() == old(self)@.entries.len() + 1,
            forall|i: int| 0 <= i < old(self)@.entries.len() ==> #[trigger] final(self)@.entries[i] == old(self)@.entries[i],
            final(self)@.entries.last().id == id,
            final(self)@.entries.last().dirty,
            !final(self)@.entries.last().cull,
            final(self)@.entries.last().vertices@.len() == 0,
    {
        let e = MeshEntry { id, dirty: true, cull: false, vertices: Vec::new(), indices: Vec::new() };
        proof {
            assert(e.indices@ =~= quad_indices(0));
        }
        self.entries.push(e);
        self.stale = true;
        proof {
            assert forall|i: int| 0 <= i < self.entries@.len() implies quads_wf(
                (#[trigger] self.entries@[i]).vertices@,
                self.entries@[i].indices@,
            ) by {
                if i < old(self).entries@.len() {
                    assert(self.entries@[i] == old(self).entries@[i]);
                }
            }
            assert forall|i: int| 0 <= i < self.entries@.len() implies (#[trigger] self.entries@[i]).vertices@.len() <= CHUNK_MESH_VERTICES by {
                if i < old(self).entries@.len() {
                    assert(self.entries@[i] == old(self).entries@[i]);
                }
            }
        }
    }

    /// Stops tracking a chunk: removes its first entry, moving the last entry into its place.
    pub fn remv_chunk(&mut self, id: ChunkID)
        requires
            old(self)@.wf(),
        ensures
            final(self)@.wf(),
            final(self)@.kind == old(self)@.kind,
            final(self)@.entries == without_entry(old(self)@.entries, id),
            entry_scan_from(old(self)@.entries, id, 0) < old(self)@.entries.len() ==> final(self)@.stale,
            entry_scan_from(old(self)@.entries, id, 0) >= old(self)@.entries.len() ==> final(self)@ == old(self)@,
    {
        let mut i: usize = 0;
        while i < self.entries.len()
            invariant
                self.entries@ == old(self).entries@,
                self@ == old(self)@,
                self@.wf(),
                0 <= i <= self.entries@.len(),
                entry_scan_from(self.entries@, id, 0) == entry_scan_from(self.entries@, id, i as int),
            decreases self.entries@.len() - i,
        {
            if self.entries[i].id == id {
                let ghost before = self.entries@;
                let _removed = self.entries.swap_remove(i);
                self.stale = true;
                proof {
                    assert forall|j: int| 0 <= j < self.entries@.len() implies quads_wf(
                        (#[trigger] self.entries@[j]).vertices@,
                        self.entries@[j].indices@,
                    ) by {
                        if j == i {
                            assert(self.entries@[j] == before.last());
                        } else {
                            assert(self.entries@[j] == before[j]);
                        }
                    }
                    assert forall|j: int| 0 <= j < self.entries@.len() implies (#[trigger] self.entries@[j]).vertices@.len() <= CHUNK_MESH_VERTICES by {
                        if j == i {
                            assert(self.entries@[j] == before.last());
                        } else {
                            assert(self.entries@[j] == before[j]);
                        }
                    }
                    assert(self.entries@ =~= before.update(i as int, before.last()).drop_last());
                }
                return;
            }
            i = i + 1;
        }
    }

    /// Marks the first entry of chunk `id` dirty, if there is one.
    pub fn mark_dirty(&mut self, id: ChunkID)
        requires
            old(self)@.wf(),
        ensures
            final(self)@.wf(),
            final(self)@.kind == old(self)@.kind,
            final(self)@.entries.len() == old(self)@.entries.len(),
            ({
                let k = entry_scan_from(old(self)@.entries, id, 0);
                forall|i: int| 0 <= i < final(self)@.entries.len() ==> {
                    let e = #[trigger] final(self)@.entries[i];
                    let o = old(self)@.entries[i];
                    &&& e.dirty == (o.dirty || i == k)
                    &&& e.id == o.id && e.cull == o.cull && e.vertices@ == o.vertices@ && e.indices@ == o.indices@
                }
            }),
    {
        let mut i: usize = 0;
        while i < self.entries.len()
            invariant
                self@ == old(self)@,
                self@.wf(),
                0 <= i <= self.entries@.len(),
                entry_scan_from(self.entries@, id, 0) == entry_scan_from(self.entries@, id, i as int),
            decreases self.entries@.len() - i,
        {
            if self.entries[i].id == id {
                let mut e = self.entries.remove(i);
                e.dirty = true;
                self.entries.insert(i, e);
                self.stale = true;
                proof {
                    assert forall|j: int| 0 <= j < self.entries@.len() && j != i implies #[trigger] self.entries@[j] == old(self).entries@[j] by {}
                    assert forall|j: int| 0 <= j < self.entries@.len() implies quads_wf(
                        (#[trigger] self.entries@[j]).vertices@,
                        self.entries@[j].indices@,
                    ) && self.entries@[j].vertices@.len() <= CHUNK_MESH_VERTICES by {
                        assert(old(self)@.entries[j] == old(self).entries@[j]);
                    }
                }
                return;
            }
            i = i + 1;
        }
    }

    /// Marks every entry dirty, so that all are regenerated on the next pass.
    pub fn reload_all(&mut self)
        requires
            old(self)@.wf(),
        ensures
            final(self)@.wf(),
            final(self)@.kind == old(self)@.kind,
            final(self)@.stale,
            final(self)@.entries.len() == old(self)@.entries.len(),
            forall|i: int| 0 <= i < final(self)@.entries.len() ==> {
                let e = #[trigger] final(self)@.entries[i];
                let o = old(self)@.entries[i];
                e.dirty && e.id == o.id && e.cull == o.cull && e.vertices@ == o.vertices@ && e.indices@ == o.indices@
            },
    {
        let mut i: usize = 0;
        while i < self.entries.len()
            invariant
                old(self)@.wf(),
                self.kind == old(self).kind,
                self.entries@.len() == old(self).entries@.len(),
                self.vertices@ == old(self).vertices@,
                self.indices@ == old(self).indices@,
                0 <= i <= self.entries@.len(),
                forall|j: int| 0 <= j < self.entries@.len() ==> {
                    let e = #[trigger] self.entries@[j];
                    let o = old(self).entries@[j];
                    (j < i ==> e.dirty) && (j >= i ==> e.dirty == o.dirty) && e.id == o.id && e.cull == o.cull
                        && e.vertices@ == o.vertices@ && e.indices@ == o.indices@
                },
            decreases self.entries@.len() - i,
        {
            let mut e = self.entries.remove(i);
            e.dirty = true;
            self.entries.insert(i, e);
            i = i + 1;
        }
        self.stale = true;
    }

    /// For each entry, whether it is to be regenerated against the loaded `chunks`.
    pub fn wanted_flags(&self, chunks: &Vec<Chunk>) -> (r: Vec<bool>)
        ensures
            r@.len() == self@.entries.len(),
            forall|i: int| 0 <= i < r@.len() ==> #[trigger] r@[i] == wanted(self@.kind, self@.entries, chunks@, i),
    {
        let n = self.entries.len();
        let mut pos: Vec<usize> = Vec::new();
        let mut k: usize = 0;
        while k < n
            invariant
                n == self.entries@.len(),
                k <= n,
                pos@.len() == k,
                forall|j: int| 0 <= j < k ==> #[trigger] pos@[j] == id_scan_from(chunks@, self.entries@[j].id, 0),
            decreases n - k,
        {
            pos.push(find_chunk_by_id(chunks, self.entries[k].id));
            k = k + 1;
        }
        let mut r: Vec<bool> = Vec::new();
        let mut i: usize = 0;
        while i < n
            invariant
                n == self.entries@.len(),
                pos@.len() == n,
                forall|j: int| 0 <= j < n ==> #[trigger] pos@[j] == id_scan_from(chunks@, self.entries@[j].id, 0),
                i <= n,
                r@.len() == i,
                forall|j: int| 0 <= j < i ==> #[trigger] r@[j] == wanted(self.kind, self.entries@, chunks@, j),
            decreases n - i,
        {
            let mut w = self.entries[i].dirty;
            if !w && self.kind == MeshKind::Cube && pos[i] < chunks.len() {
                let pi = chunks[pos[i]].position();
                let mut j: usize = 0;
                while j < n
                    invariant
                        n == self.entries@.len(),
                        pos@.len() == n,
                        forall|t: int| 0 <= t < n ==> #[trigger] pos@[t] == id_scan_from(chunks@, self.entries@[t].id, 0),
                        i < n,
                        pos@[i as int] < chunks@.len(),
                        pi == chunks@[pos@[i as int] as int]@.position,
                        !self.entries@[i as int].dirty,
                        self.kind == MeshKind::Cube,
                        j <= n,
                        w == exists|t: int|
                            #![trigger self.entries@[t]]
                            0 <= t < j && self.entries@[t].dirty && id_scan_from(chunks@, self.entries@[t].id, 0) < chunks@.len()
                                && id_scan_from(chunks@, self.entries@[i as int].id, 0) < chunks@.len() && adjacent(
                                chunks@[id_scan_from(chunks@, self.entries@[i as int].id, 0)]@.position,
                                chunks@[id_scan_from(chunks@, self.entries@[t].id, 0)]@.position,
                            ),
                    decreases n - j,
                {
                    if !w && self.entries[j].dirty && pos[j] < chunks.len() {
                        let pj = chunks[pos[j]].position();
                        if is_adjacent(pi, pj) {
                            w = true;
                        }
                    }
                    proof {
                        if !w {
                            assert forall|t: int| 0 <= t < j + 1 && #[trigger] self.entries@[t].dirty implies !(id_scan_from(chunks@, self.entries@[t].id, 0) < chunks@.len()
                                && id_scan_from(chunks@, self.entries@[i as int].id, 0) < chunks@.len() && adjacent(
                                chunks@[id_scan_from(chunks@, self.entries@[i as int].id, 0)]@.position,
                                chunks@[id_scan_from(chunks@, self.entries@[t].id, 0)]@.position,
                            )) by {
                                assert(pos@[t] == id_scan_from(chunks@, self.entries@[t].id, 0));
                            }
                        } else {
                            if !(exists|t: int|
                                #![trigger self.entries@[t]]
                                0 <= t < j && self.entries@[t].dirty && id_scan_from(chunks@, self.entries@[t].id, 0) < chunks@.len()
                                    && id_scan_from(chunks@, self.entries@[i as int].id, 0) < chunks@.len() && adjacent(
                                    chunks@[id_scan_from(chunks@, self.entries@[i as int].id, 0)]@.position,
                                    chunks@[id_scan_from(chunks@, self.entries@[t].id, 0)]@.position,
                                )) {
                                assert(pos@[j as int] == id_scan_from(chunks@, self.entries@[j as int].id, 0));
                                assert(self.entries@[j as int].dirty);
                            }
                        }
                    }
                    j = j + 1;
                }
            } else {
                proof {
                    if !w && self.kind == MeshKind::Cube {
                        assert(pos@[i as int] == id_scan_from(chunks@, self.entries@[i as int].id, 0));
                    }
                }
            }
            r.push(w);
            i = i + 1;
        }
        r
    }

    /// Replaces the buffers of entry `i` with freshly generated ones and clears its dirty flag.
    pub fn store_mesh(&mut self, i: usize, vertices: Vec<Vertex>, indices: Vec<u32>)
        requires
            old(self)@.wf(),
            i < old(self)@.entries.len(),
            quads_wf(vertices@, indices@),
            vertices@.len() <= CHUNK_MESH_VERTICES,
        ensures
            final(self)@.wf(),
            final(self)@.kind == old(self)@.kind,
            final(self)@.stale,
            final(self)@.entries.len() == old(self)@.entries.len(),
            forall|j: int| 0 <= j < old(self)@.entries.len() && j != i ==> #[trigger] final(self)@.entries[j] == old(self)@.entries[j],
            final(self)@.entries[i as int].id == old(self)@.entries[i as int].id,
            final(self)@.entries[i as int].cull == old(self)@.entries[i as int].cull,
            !final(self)@.entries[i as int].dirty,
            final(self)@.entries[i as int].vertices@ == vertices@,
            final(self)@.entries[i as int].indices@ == indices@,
    {
        let old_e = self.entries.remove(i);
        let e = MeshEntry { id: old_e.id, dirty: false, cull: old_e.cull, vertices, indices };
        self.entries.insert(i, e);
        self.stale = true;
        proof {
            assert forall|j: int| 0 <= j < self.entries@.len() implies quads_wf(
                (#[trigger] self.entries@[j]).vertices@,
                self.entries@[j].indices@,
            ) by {
                if j != i {
                    assert(self.entries@[j] == old(self).entries@[j]);
                }
            }
            assert forall|j: int| 0 <= j < self.entries@.len() implies (#[trigger] self.entries@[j]).vertices@.len() <= CHUNK_MESH_VERTICES by {
                if j != i {
                    assert(self.entries@[j] == old(self).entries@[j]);
                }
            }
        }
    }

    /// Regenerates every wanted entry whose chunk is among the loaded `chunks`:
    /// its buffers become the mesh of that chunk and it is no longer dirty.
    /// The others keep their buffers and flags.
    pub fn load_chunks(&mut self, chunks: &Vec<Chunk>)
        requires
            old(self)@.wf(),
            all_wf(chunks@),
        ensures
            final(self)@.wf(),
            final(self)@.kind == old(self)@.kind,
            final(self)@.entries.len() == old(self)@.entries.len(),
            forall|i: int| 0 <= i < final(self)@.entries.len() ==> {
                let e = #[trigger] final(self)@.entries[i];
                let o = old(self)@.entries[i];
                let k = id_scan_from(chunks@, o.id, 0);
                &&& e.id == o.id
                &&& e.cull == o.cull
                &&& if wanted(old(self)@.kind, old(self)@.entries, chunks@, i) && k < chunks@.len() {
                    !e.dirty && e.vertices@ == mesh_of(old(self)@.kind, chunks@[k], chunks@)
                } else {
                    e.dirty == o.dirty && e.vertices@ == o.vertices@ && e.indices@ == o.indices@
                }
            },
    {
        let want = self.wanted_flags(chunks);
        let ghost start = self@;
        let n = self.entries.len();
        let mut i: usize = 0;
        while i < n
            invariant
                self@.wf(),
                start.wf(),
                self.kind == start.kind,
                n == start.entries.len(),
                self.entries@.len() == n,
                all_wf(chunks@),
                want@.len() == n,
                forall|j: int| 0 <= j < n ==> #[trigger] want@[j] == wanted(start.kind, start.entries, chunks@, j),
                i <= n,
                forall|j: int| i <= j < n ==> #[trigger] self.entries@[j] == start.entries[j],
                forall|j: int| 0 <= j < i ==> {
                    let e = #[trigger] self.entries@[j];
                    let o = start.entries[j];
                    let k = id_scan_from(chunks@, o.id, 0);
                    &&& e.id == o.id
                    &&& e.cull == o.cull
                    &&& if wanted(start.kind, start.entries, chunks@, j) && k < chunks@.len() {
                        !e.dirty && e.vertices@ == mesh_of(start.kind, chunks@[k], chunks@)
                    } else {
                        e.dirty == o.dirty && e.vertices@ == o.vertices@ && e.indices@ == o.indices@
                    }
                },
            decreases n - i,
        {
            if want[i] {
                let k = find_chunk_by_id(chunks, self.entries[i].id);
                if k < chunks.len() {
                    proof {
                        assert(chunks@[k as int]@.wf());
                    }
                    let (v, x) = if self.kind == MeshKind::Cube {
                        cube_mesh_data(&chunks[k], chunks)
                    } else {
                        flora_mesh_data(&chunks[k])
                    };
                    let ghost prev = self.entries@;
                    self.store_mesh(i, v, x);
                    proof {
                        assert forall|j: int| i < j < n implies #[trigger] self.entries@[j] == start.entries[j] by {
                            assert(self.entries@[j] == prev[j]);
                        }
                        assert forall|j: int| 0 <= j < i implies #[trigger] self.entries@[j] == prev[j] by {}
                    }
                }
            }
            i = i + 1;
        }
        self.stale = true;
    }

    /// Total vertex count of the non-culled entries, or `None` once it passes `limit`.
    fn count_vertices(&self, limit: usize) -> (r: Option<usize>)
        ensures
            r matches Some(t) ==> t == agg_vertices(self.entries@).len() && t <= limit,
            r is None ==> agg_vertices(self.entries@).len() > limit,
    {
        let mut total: usize = 0;
        let mut i: usize = 0;
        while i < self.entries.len()
            invariant
                0 <= i <= self.entries@.len(),
                total <= limit,
                total == agg_vertices(self.entries@.subrange(0, i as int)).len(),
            decreases self.entries@.len() - i,
        {
            proof {
                assert(self.entries@.subrange(0, i + 1).drop_last() =~= self.entries@.subrange(0, i as int));
            }
            if !self.entries[i].cull {
                let l = self.entries[i].vertices.len();
                if l > limit - total {
                    proof {
                        lemma_agg_prefix_len(self.entries@, i + 1);
                    }
                    return None;
                }
                total = total + l;
            }
            i = i + 1;
        }
        proof {
            assert(self.entries@.subrange(0, i as int) =~= self.entries@);
        }
        Some(total)
    }

    /// Brings the draw buffer up to date: when it is stale, empty, or `reload` is set,
    /// it is rebuilt by concatenating the non-culled entries and rebasing each entry's
    /// indices by the vertices before it. Returns false, leaving the buffer empty, when
    /// the aggregate has more vertices than `u32` indices can address.
    pub fn render(&mut self, reload: bool) -> (r: bool)
        requires
            old(self)@.wf(),
        ensures
            final(self)@.wf(),
            final(self)@.kind == old(self)@.kind,
            final(self)@.entries == old(self)@.entries,
            r == (agg_vertices(old(self)@.entries).len() <= MAX_DRAW_VERTICES),
            r ==> final(self)@.vertices == agg_vertices(old(self)@.entries) && !final(self)@.stale,
            !r ==> final(self)@.vertices.len() == 0 && final(self)@.stale,
            !old(self)@.stale && !reload && old(self)@.vertices.len() > 0 ==> final(self)@.vertices == old(self)@.vertices,
    {
        let fits = self.count_vertices(MAX_DRAW_VERTICES);
        match fits {
            None => {
                self.vertices = Vec::new();
                self.indices = Vec::new();
                self.stale = true;
                proof {
                    assert(self.indices@ =~= quad_indices(0));
                    assert(self.vertices@.len() == 0);
                    assert(quads_wf(self.vertices@, self.indices@));
                    assert(self@.entries == old(self)@.entries);
                    assert forall|i: int| 0 <= i < self@.entries.len() implies quads_wf(
                        (#[trigger] self@.entries[i]).vertices@,
                        self@.entries[i].indices@,
                    ) && self@.entries[i].vertices@.len() <= CHUNK_MESH_VERTICES by {
                        assert(old(self)@.entries[i] == self@.entries[i]);
                    }
                }
                false
            },
            Some(_) => {
                if self.stale || reload || self.vertices.len() == 0 || self.indices.len() == 0 {
                    self.rebuild();
                }
                true
            },
        }
    }

    fn rebuild(&mut self)
        requires
            old(self)@.wf(),
            agg_vertices(old(self)@.entries).len() <= MAX_DRAW_VERTICES,
        ensures
            final(self)@.wf(),
            final(self)@.kind == old(self)@.kind,
            final(self)@.entries == old(self)@.entries,
            final(self)@.vertices == agg_vertices(old(self)@.entries),
            !final(self)@.stale,
    {
        let mut verts: Vec<Vertex> = Vec::new();
        let mut idx: Vec<u32> = Vec::new();
        let mut i: usize = 0;
        proof {
            assert(self.entries@.subrange(0, 0) =~= Seq::<MeshEntry>::empty());
            assert(agg_vertices(Seq::<MeshEntry>::empty()) =~= Seq::<Vertex>::empty());
            assert(idx@ =~= quad_indices(0));
        }
        while i < self.entries.len()
            invariant
                self@ == old(self)@,
                self@.wf(),
                agg_vertices(self.entries@).len() <= MAX_DRAW_VERTICES,
                0 <= i <= self.entries@.len(),
                verts@ == agg_vertices(self.entries@.subrange(0, i as int)),
                quads_wf(verts@, idx@),
            decreases self.entries@.len() - i,
        {
            proof {
                assert(self.entries@.subrange(0, i + 1).drop_last() =~= self.entries@.subrange(0, i as int));
                lemma_agg_prefix_len(self.entries@, i + 1);
                assert(quads_wf(self.entries@[i as int].vertices@, self.entries@[i as int].indices@));
            }
            if !self.entries[i].cull {
                let base = verts.len();
                let ghost a = (verts@.len() / 4) as nat;
                let ghost b = (self.entries@[i as int].vertices@.len() / 4) as nat;
                let e = &self.entries[i];
                let mut k: usize = 0;
                while k < e.vertices.len()
                    invariant
                        0 <= k <= e.vertices@.len(),
                        verts@ == agg_vertices(self.entries@.subrange(0, i as int)) + e.vertices@.subrange(0, k as int),
                    decreases e.vertices@.len() - k,
                {
                    verts.push(e.vertices[k]);
                    proof {
                        assert(e.vertices@.subrange(0, k + 1) =~= e.vertices@.subrange(0, k as int).push(e.vertices@[k as int]));
                    }
                    k = k + 1;
                }
                proof {
                    assert(e.vertices@.subrange(0, e.vertices@.len() as int) =~= e.vertices@);
                    assert(4 * (a + b) <= u32::MAX + 1);
                    lemma_quad_indices_bound(b);
                }
                let off = base as u32;
                let ghost idx0 = idx@;
                let mut k: usize = 0;
                while k < e.indices.len()
                    invariant
                        0 <= k <= e.indices@.len(),
                        e.indices@ == quad_indices(b),
                        off == 4 * a,
                        4 * (a + b) <= u32::MAX + 1,
                        forall|t: int| 0 <= t < e.indices@.len() ==> (#[trigger] e.indices@[t]) < 4 * b,
                        idx@ == idx0 + e.indices@.subrange(0, k as int).map_values(|v: u32| (v + 4 * a) as u32),
                    decreases e.indices@.len() - k,
                {
                    idx.push(e.indices[k] + off);
                    proof {
                        assert(e.indices@.subrange(0, k + 1).map_values(|v: u32| (v + 4 * a) as u32) =~= e.indices@.subrange(0, k as int).map_values(|v: u32| (v + 4 * a) as u32).push((e.indices@[k as int] + 4 * a) as u32));
                    }
                    k = k + 1;
                }
                proof {
                    assert(e.indices@.subrange(0, e.indices@.len() as int) =~= e.indices@);
                    lemma_quad_indices_append(a, b);
                    assert((verts@.len() / 4) as nat == a + b);
                }
            } else {
                proof {
                    assert(verts@ =~= agg_vertices(self.entries@.subrange(0, i as int)) + Seq::<Vertex>::empty());
                }
            }
            i = i + 1;
        }
        proof {
            assert(self.entries@.subrange(0, i as int) =~= self.entries@);
        }
        self.vertices = verts;
        self.indices = idx;
        self.stale = false;
    }
}

/// The aggregate of a prefix is no longer than the whole aggregate.
proof fn lemma_agg_prefix_len(es: Seq<MeshEntry>, n: int)
    requires
        0 <= n <= es.len(),
    ensures
        agg_vertices(es.subrange(0, n)).len() <= agg_vertices(es).len(),
    decreases es.len() - n,
{
    if n < es.len() {
        lemma_agg_prefix_len(es, n + 1);
        assert(es.subrange(0, n + 1).drop_last() =~= es.subrange(0, n));
    } else {
        assert(es.subrange(0, n) =~= es);
    }
}

} // verus!
