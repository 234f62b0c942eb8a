//! Face-culling mesh generation for cube blocks and crossed-quad flora blocks.
use vstd::prelude::*;
use crate::block::{Block, MeshType, TextureID};
use crate::chunk::{Chunk, ChunkView, bit_set, block_at, layer_opaque};
use crate::units::{ChunkUnit, Position, flat_index};

verus! {

/// A mesh vertex: the global coordinate of the block it belongs to, its offset from
/// that block's corner in tenths of a block, and the packed texture word
/// (uv corner in bits 0-1, face tag from bit 2, texture index from bit 16).
#[derive(Clone, Copy, Debug, PartialEq, Eq, Structural)]
pub struct Vertex {
    pub x: i64,
    pub y: i64,
    pub z: i64,
    pub dx: i8,
    pub dy: i8,
    pub dz: i8,
    pub txtr: u32,
}

/// Most vertices a single chunk can produce: six quads for each block.
pub const CHUNK_MESH_VERTICES: usize = 786432;

/// Unit step of face direction `d`: left, bottom, front, right, top, back.
pub open spec fn dir(d: int) -> (int, int, int) {
    if d == 0 {
        (-1, 0, 0)
    } else if d == 1 {
        (0, -1, 0)
    } else if d == 2 {
        (0, 0, -1)
    } else if d == 3 {
        (1, 0, 0)
    } else if d == 4 {
        (0, 1, 0)
    } else {
        (0, 0, 1)
    }
}

/// The packed texture word.
pub open spec fn pack(corner: int, tag: int, tex: TextureID) -> u32 {
    (corner + 4 * tag + 65536 * tex.0) as u32
}

/// Corner `k` of cube face `d`: offset in tenths of a block and uv corner.
pub open spec fn cube_corner(d: int, k: int) -> (i8, i8, i8, u32) {
    if d == 0 {
        if k == 0 { (0, 0, 10, 1) } else if k == 1 { (0, 10, 10, 0) } else if k == 2 { (0, 10, 0, 2) } else { (0, 0, 0, 3) }
    } else if d == 1 {
        if k == 0 { (0, 0, 0, 0) } else if k == 1 { (10, 0, 0, 2) } else if k == 2 { (10, 0, 10, 3) } else { (0, 0, 10, 1) }
    } else if d == 2 {
        if k == 0 { (0, 10, 0, 0) } else if k == 1 { (10, 10, 0, 2) } else if k == 2 { (10, 0, 0, 3) } else { (0, 0, 0, 1) }
    } else if d == 3 {
        if k == 0 { (10, 0, 0, 3) } else if k == 1 { (10, 10, 0, 2) } else if k == 2 { (10, 10, 10, 0) } else { (10, 0, 10, 1) }
    } else if d == 4 {
        if k == 0 { (0, 10, 10, 0) } else if k == 1 { (10, 10, 10, 1) } else if k == 2 { (10, 10, 0, 3) } else { (0, 10, 0, 2) }
    } else {
        if k == 0 { (0, 0, 10, 3) } else if k == 1 { (10, 0, 10, 1) } else if k == 2 { (10, 10, 10, 0) } else { (0, 10, 10, 2) }
    }
}

/// Face tag of cube face `d`.
pub open spec fn cube_tag(d: int) -> int {
    if d == 1 {
        8
    } else if d == 4 {
        15
    } else {
        12
    }
}

/// Texture of face `d` of a cube mesh.
pub open spec fn cube_texture(m: MeshType, d: int) -> TextureID {
    match m {
        MeshType::Cube { top, bottom, left, right, front, back } => {
            if d == 0 {
                left
            } else if d == 1 {
                bottom
            } else if d == 2 {
                front
            } else if d == 3 {
                right
            } else if d == 4 {
                top
            } else {
                back
            }
        },
        _ => TextureID(0),
    }
}

/// Corner `k` of the flora cross: quad 0 (positive) holds k in 0..4, quad 1 (negative) 4..8.
pub open spec fn flora_corner(k: int) -> (i8, i8, i8, u32) {
    if k == 0 { (11, -1i8, 0, 1) } else if k == 1 { (11, 11, 0, 0) } else if k == 2 { (0, 11, 11, 2) } else if k == 3 { (0, -1i8, 11, 3) } else if k == 4 { (0, -1i8, 0, 1) } else if k == 5 { (0, 11, 0, 0) } else if k == 6 { (11, 11, 11, 2) } else { (11, -1i8, 11, 3) }
}

pub open spec fn make_vertex(g: (i64, i64, i64), c: (i8, i8, i8, u32), txtr: u32) -> Vertex {
    Vertex { x: g.0, y: g.1, z: g.2, dx: c.0, dy: c.1, dz: c.2, txtr }
}

/// The four vertices of face `d` of the cube at global block `g`.
pub open spec fn cube_quad(d: int, g: (i64, i64, i64), tex: TextureID) -> Seq<Vertex> {
    seq![
        make_vertex(g, cube_corner(d, 0), pack(cube_corner(d, 0).3 as int, cube_tag(d), tex)),
        make_vertex(g, cube_corner(d, 1), pack(cube_corner(d, 1).3 as int, cube_tag(d), tex)),
        make_vertex(g, cube_corner(d, 2), pack(cube_corner(d, 2).3 as int, cube_tag(d), tex)),
        make_vertex(g, cube_corner(d, 3), pack(cube_corner(d, 3).3 as int, cube_tag(d), tex)),
    ]
}

/// The eight vertices of the flora cross at global block `g`.
pub open spec fn flora_quads(g: (i64, i64, i64), pos: TextureID, neg: TextureID) -> Seq<Vertex> {
    Seq::new(8, |k: int| make_vertex(g, flora_corner(k), pack(flora_corner(k).3 as int, 0, if k < 4 { pos } else { neg })))
}

/// The triangle list of `q` quads laid out one after another: `0 1 2 0 2 3`, then the
/// same pattern shifted by 4 for each following quad.
pub open spec fn quad_indices(q: nat) -> Seq<u32>
    decreases q,
{
    if q == 0 {
        Seq::empty()
    } else {
        let o = 4 * (q - 1);
        quad_indices((q - 1) as nat) + seq![o as u32, (o + 1) as u32, (o + 2) as u32, o as u32, (o + 2) as u32, (o + 3) as u32]
    }
}

/// Global coordinate of local block `(x, y, z)` of a chunk at `p`.
pub open spec fn global_of(p: Position<ChunkUnit>, x: int, y: int, z: int) -> (i64, i64, i64) {
    ((p.x.0 * 32 + x) as i64, (p.y.0 * 32 + y) as i64, (p.z.0 * 32 + z) as i64)
}

/// Index of the first chunk of `s` (from `i` on) at chunk position `(x, y, z)`, or `s.len()`.
pub open spec fn scan_from(s: Seq<Chunk>, x: int, y: int, z: int, i: int) -> int
    decreases s.len() - i,
{
    if i >= s.len() || i < 0 {
        s.len() as int
    } else if s[i]@.position.x.0 == x && s[i]@.position.y.0 == y && s[i]@.position.z.0 == z {
        i
    } else {
        scan_from(s, x, y, z, i + 1)
    }
}

/// The loaded chunk next to position `p` in direction `d`, if any.
pub open spec fn neighbor(s: Seq<Chunk>, p: Position<ChunkUnit>, d: int) -> Option<ChunkView> {
    let k = scan_from(s, p.x.0 + dir(d).0, p.y.0 + dir(d).1, p.z.0 + dir(d).2, 0);
    if k < s.len() {
        Some(s[k]@)
    } else {
        None
    }
}

pub open spec fn inside(v: int) -> bool {
    0 <= v < 32
}

/// A coordinate one step outside the chunk, brought back into the neighbor chunk.
pub open spec fn wrap(v: int) -> int {
    if v < 0 {
        v + 32
    } else if v >= 32 {
        v - 32
    } else {
        v
    }
}

/// Whether the block next to local block `(x, y, z)` in direction `d` is transparent:
/// looked up in the chunk, or in the neighbor chunk across the border; a missing
/// neighbor counts as occluding.
pub open spec fn adj_transparent(c: ChunkView, s: Seq<Chunk>, x: int, y: int, z: int, d: int) -> bool {
    let ax = x + dir(d).0;
    let ay = y + dir(d).1;
    let az = z + dir(d).2;
    if inside(ax) && inside(ay) && inside(az) {
        block_at(c.blocks, ax, ay, az).state.transparent
    } else {
        match neighbor(s, c.position, d) {
            Some(n) => block_at(n.blocks, wrap(ax), wrap(ay), wrap(az)).state.transparent,
            None => false,
        }
    }
}

/// Whether face `d` of local block `(x, y, z)` is drawn: a non-transparent cube whose
/// neighbor in that direction is transparent.
pub open spec fn face_visible(c: ChunkView, s: Seq<Chunk>, x: int, y: int, z: int, d: int) -> bool {
    let b = block_at(c.blocks, x, y, z);
    &&& b.mesh is Cube
    &&& !b.state.transparent
    &&& adj_transparent(c, s, x, y, z, d)
}

/// Vertices of the first `k` faces (in face order) of local block `(x, y, z)`.
pub open spec fn block_faces(c: ChunkView, s: Seq<Chunk>, x: int, y: int, z: int, k: int) -> Seq<Vertex>
    decreases k,
{
    if k <= 0 {
        Seq::empty()
    } else {
        block_faces(c, s, x, y, z, k - 1) + if face_visible(c, s, x, y, z, k - 1) {
            cube_quad(k - 1, global_of(c.position, x, y, z), cube_texture(block_at(c.blocks, x, y, z).mesh, k - 1))
        } else {
            Seq::empty()
        }
    }
}

/// Cube vertices of the first `n` blocks of the chunk, in flat index order.
pub open spec fn cube_mesh_upto(c: ChunkView, s: Seq<Chunk>, n: int) -> Seq<Vertex>
    decreases n,
{
    if n <= 0 {
        Seq::empty()
    } else {
        let m = n - 1;
        cube_mesh_upto(c, s, m) + block_faces(c, s, m / 1024, (m / 32) % 32, m % 32, 6)
    }
}

/// Flora vertices of the first `n` blocks of the chunk, in flat index order.
pub open spec fn flora_mesh_upto(c: ChunkView, n: int) -> Seq<Vertex>
    decreases n,
{
    if n <= 0 {
        Seq::empty()
    } else {
        let m = n - 1;
        flora_mesh_upto(c, m) + match c.blocks[m].mesh {
            MeshType::FloraX { positive, negative } => flora_quads(
                global_of(c.position, m / 1024, (m / 32) % 32, m % 32),
                positive,
                negative,
            ),
            _ => Seq::empty(),
        }
    }
}

/// All chunks of `s` are well formed.
pub open spec fn all_wf(s: Seq<Chunk>) -> bool {
    forall|i: int| 0 <= i < s.len() ==> (#[trigger] s[i])@.wf()
}

/// `q` quads take six indices each.
pub proof fn lemma_quad_indices_len(q: nat)
    ensures
        quad_indices(q).len() == 6 * q,
    decreases q,
{
    if q > 0 {
        lemma_quad_indices_len((q - 1) as nat);
    }
}

/// Every index of `quad_indices(q)` names one of the first `4 q` vertices.
pub proof fn lemma_quad_indices_bound(q: nat)
    ensures
        quad_indices(q).len() == 6 * q,
        forall|i: int| 0 <= i < quad_indices(q).len() ==> (#[trigger] quad_indices(q)[i]) < 4 * q,
    decreases q,
{
    lemma_quad_indices_len(q);
    if q > 0 {
        lemma_quad_indices_bound((q - 1) as nat);
        let prev = quad_indices((q - 1) as nat);
        assert forall|i: int| 0 <= i < quad_indices(q).len() implies (#[trigger] quad_indices(q)[i]) < 4
            * q by {
            if i < prev.len() {
                assert(quad_indices(q)[i] == prev[i]);
            }
        }
    }
}

/// Pushes the six indices of one more quad after `q` quads.
fn push_quad_indices(idx: &mut Vec<u32>, q: usize)
    requires
        old(idx)@ == quad_indices(q as nat),
        4 * q + 3 <= u32::MAX,
    ensures
        final(idx)@ == quad_indices((q + 1) as nat),
{
    let o = (4 * q) as u32;
    idx.push(o);
    idx.push(o + 1);
    idx.push(o + 2);
    idx.push(o);
    idx.push(o + 2);
    idx.push(o + 3);
    proof {
        assert(idx@ =~= quad_indices((q + 1) as nat));
    }
}

fn pack_exec(corner: u32, tag: u32, tex: TextureID) -> (r: u32)
    requires
        corner < 4,
        tag < 16,
    ensures
        r == pack(corner as int, tag as int, tex),
{
    corner + 4 * tag + 65536 * (tex.0 as u32)
}

fn cube_corner_exec(d: usize, k: usize) -> (r: (i8, i8, i8, u32))
    requires
        d < 6,
        k < 4,
    ensures
        r == cube_corner(d as int, k as int),
        r.3 < 4,
{
    if d == 0 {
        if k == 0 { (0, 0, 10, 1) } else if k == 1 { (0, 10, 10, 0) } else if k == 2 { (0, 10, 0, 2) } else { (0, 0, 0, 3) }
    } else if d == 1 {
        if k == 0 { (0, 0, 0, 0) } else if k == 1 { (10, 0, 0, 2) } else if k == 2 { (10, 0, 10, 3) } else { (0, 0, 10, 1) }
    } else if d == 2 {
        if k == 0 { (0, 10, 0, 0) } else if k == 1 { (10, 10, 0, 2) } else if k == 2 { (10, 0, 0, 3) } else { (0, 0, 0, 1) }
    } else if d == 3 {
        if k == 0 { (10, 0, 0, 3) } else if k == 1 { (10, 10, 0, 2) } else if k == 2 { (10, 10, 10, 0) } else { (10, 0, 10, 1) }
    } else if d == 4 {
        if k == 0 { (0, 10, 10, 0) } else if k == 1 { (10, 10, 10, 1) } else if k == 2 { (10, 10, 0, 3) } else { (0, 10, 0, 2) }
    } else {
        if k == 0 { (0, 0, 10, 3) } else if k == 1 { (10, 0, 10, 1) } else if k == 2 { (10, 10, 10, 0) } else { (0, 10, 10, 2) }
    }
}

fn flora_corner_exec(k: usize) -> (r: (i8, i8, i8, u32))
    requires
        k < 8,
    ensures
        r == flora_corner(k as int),
        r.3 < 4,
{
    if k == 0 { (11, -1i8, 0, 1) } else if k == 1 { (11, 11, 0, 0) } else if k == 2 { (0, 11, 11, 2) } else if k == 3 { (0, -1i8, 11, 3) } else if k == 4 { (0, -1i8, 0, 1) } else if k == 5 { (0, 11, 0, 0) } else if k == 6 { (11, 11, 11, 2) } else { (11, -1i8, 11, 3) }
}

fn cube_texture_exec(m: MeshType, d: usize) -> (r: TextureID)
    ensures
        r == cube_texture(m, d as int),
{
    match m {
        MeshType::Cube { top, bottom, left, right, front, back } => {
            if d == 0 {
                left
            } else if d == 1 {
                bottom
            } else if d == 2 {
                front
            } else if d == 3 {
                right
            } else if d == 4 {
                top
            } else {
                back
            }
        },
        _ => TextureID(0),
    }
}

/// Appends face `d` of the cube at `g`: four vertices and six indices.
fn push_cube_face(verts: &mut Vec<Vertex>, idx: &mut Vec<u32>, d: usize, g: (i64, i64, i64), tex: TextureID)
    requires
        d < 6,
        old(verts)@.len() % 4 == 0,
        old(idx)@ == quad_indices((old(verts)@.len() / 4) as nat),
        old(verts)@.len() + 4 <= u32::MAX,
    ensures
        final(verts)@ == old(verts)@ + cube_quad(d as int, g, tex),
        final(verts)@.len() % 4 == 0,
        final(idx)@ == quad_indices((final(verts)@.len() / 4) as nat),
{
    let q = verts.len() / 4;
    push_quad_indices(idx, q);
    let tag: u32 = if d == 1 { 8 } else if d == 4 { 15 } else { 12 };
    let mut k: usize = 0;
    while k < 4
        invariant
            d < 6,
            k <= 4,
            tag == cube_tag(d as int),
            verts@ == old(verts)@ + cube_quad(d as int, g, tex).subrange(0, k as int),
        decreases 4 - k,
    {
        let c = cube_corner_exec(d, k);
        verts.push(Vertex { x: g.0, y: g.1, z: g.2, dx: c.0, dy: c.1, dz: c.2, txtr: pack_exec(c.3, tag, tex) });
        proof {
            assert(cube_quad(d as int, g, tex).subrange(0, k + 1) =~= cube_quad(d as int, g, tex).subrange(0, k as int).push(cube_quad(d as int, g, tex)[k as int]));
        }
        k = k + 1;
    }
    proof {
        assert(cube_quad(d as int, g, tex).subrange(0, 4) =~= cube_quad(d as int, g, tex));
    }
}

/// Index of the first chunk of `chunks` at the given chunk position, or `chunks.len()`.
pub fn find_chunk_at(chunks: &Vec<Chunk>, x: i64, y: i64, z: i64) -> (r: usize)
    ensures
        r == scan_from(chunks@, x as int, y as int, z as int, 0),
{
    let mut i: usize = 0;
    while i < chunks.len()
        invariant
            0 <= i <= chunks@.len(),
            scan_from(chunks@, x as int, y as int, z as int, 0) == scan_from(chunks@, x as int, y as int, z as int, i as int),
        decreases chunks@.len() - i,
    {
        let p = chunks[i].position();
        if p.x.0 == x && p.y.0 == y && p.z.0 == z {
            return i;
        }
        i = i + 1;
    }
    i
}

fn dir_exec(d: usize) -> (r: (i64, i64, i64))
    ensures
        r.0 == dir(d as int).0,
        r.1 == dir(d as int).1,
        r.2 == dir(d as int).2,
{
    if d == 0 {
        (-1, 0, 0)
    } else if d == 1 {
        (0, -1, 0)
    } else if d == 2 {
        (0, 0, -1)
    } else if d == 3 {
        (1, 0, 0)
    } else if d == 4 {
        (0, 1, 0)
    } else {
        (0, 0, 1)
    }
}

/// Resolves the six neighbors of chunk position `p` in face order.
fn resolve_neighbors(chunks: &Vec<Chunk>, p: Position<ChunkUnit>) -> (r: Vec<usize>)
    requires
        crate::units::chunk_coord_ok(p.x.0 as int),
        crate::units::chunk_coord_ok(p.y.0 as int),
        crate::units::chunk_coord_ok(p.z.0 as int),
    ensures
        r@.len() == 6,
        forall|d: int| 0 <= d < 6 ==> #[trigger] r@[d] == scan_from(chunks@, p.x.0 + dir(d).0, p.y.0 + dir(d).1, p.z.0 + dir(d).2, 0),
{
    let mut r: Vec<usize> = Vec::new();
    let mut d: usize = 0;
    while d < 6
        invariant
            d <= 6,
            r@.len() == d,
            crate::units::chunk_coord_ok(p.x.0 as int),
            crate::units::chunk_coord_ok(p.y.0 as int),
            crate::units::chunk_coord_ok(p.z.0 as int),
            forall|e: int| 0 <= e < d ==> #[trigger] r@[e] == scan_from(chunks@, p.x.0 + dir(e).0, p.y.0 + dir(e).1, p.z.0 + dir(e).2, 0),
        decreases 6 - d,
    {
        let s = dir_exec(d);
        r.push(find_chunk_at(chunks, p.x.0 + s.0, p.y.0 + s.1, p.z.0 + s.2));
        d = d + 1;
    }
    r
}

/// Whether the neighbor of local block `(x, y, z)` in direction `d` is transparent.
fn adj_transparent_exec(c: &Chunk, chunks: &Vec<Chunk>, nb: &Vec<usize>, x: usize, y: usize, z: usize, d: usize) -> (r: bool)
    requires
        c@.wf(),
        all_wf(chunks@),
        x < 32,
        y < 32,
        z < 32,
        d < 6,
        nb@.len() == 6,
        forall|e: int| 0 <= e < 6 ==> #[trigger] nb@[e] == scan_from(chunks@, c@.position.x.0 + dir(e).0, c@.position.y.0 + dir(e).1, c@.position.z.0 + dir(e).2, 0),
    ensures
        r == adj_transparent(c@, chunks@, x as int, y as int, z as int, d as int),
{
    let s = dir_exec(d);
    let ax = x as i64 + s.0;
    let ay = y as i64 + s.1;
    let az = z as i64 + s.2;
    if 0 <= ax && ax < 32 && 0 <= ay && ay < 32 && 0 <= az && az < 32 {
        c.local(ax as usize, ay as usize, az as usize).state.transparent
    } else {
        let k = nb[d];
        if k < chunks.len() {
            let wx: usize = if ax < 0 { (ax + 32) as usize } else if ax >= 32 { (ax - 32) as usize } else { ax as usize };
            let wy: usize = if ay < 0 { (ay + 32) as usize } else if ay >= 32 { (ay - 32) as usize } else { ay as usize };
            let wz: usize = if az < 0 { (az + 32) as usize } else if az >= 32 { (az - 32) as usize } else { az as usize };
            proof {
                assert(chunks@[k as int]@.wf());
            }
            chunks[k].local(wx, wy, wz).state.transparent
        } else {
            false
        }
    }
}

/// With a fully opaque layer between two fully opaque layers, an interior block of
/// that layer shows no face.
proof fn lemma_interior_hidden(c: ChunkView, s: Seq<Chunk>, x: int, y: int, z: int)
    requires
        c.wf(),
        1 <= x < 31,
        1 <= y < 31,
        1 <= z < 31,
        bit_set(c.layers, y as u32),
        bit_set(c.layers, (y + 1) as u32),
        bit_set(c.layers, (y - 1) as u32),
    ensures
        block_faces(c, s, x, y, z, 6) == Seq::<Vertex>::empty(),
{
    assert(layer_opaque(c.blocks, y));
    assert(layer_opaque(c.blocks, y + 1));
    assert(layer_opaque(c.blocks, y - 1));
    assert(!c.blocks[flat_index(x - 1, y, z)].state.transparent);
    assert(!c.blocks[flat_index(x + 1, y, z)].state.transparent);
    assert(!c.blocks[flat_index(x, y, z - 1)].state.transparent);
    assert(!c.blocks[flat_index(x, y, z + 1)].state.transparent);
    assert(!c.blocks[flat_index(x, y - 1, z)].state.transparent);
    assert(!c.blocks[flat_index(x, y + 1, z)].state.transparent);
    reveal_with_fuel(block_faces, 7);
    assert(block_faces(c, s, x, y, z, 6) =~= Seq::<Vertex>::empty());
}

proof fn lemma_block_faces_len(c: ChunkView, s: Seq<Chunk>, x: int, y: int, z: int, k: int)
    ensures
        block_faces(c, s, x, y, z, k).len() <= 4 * (if k < 0 { 0 } else { k }),
        block_faces(c, s, x, y, z, k).len() % 4 == 0,
    decreases k,
{
    if k > 0 {
        lemma_block_faces_len(c, s, x, y, z, k - 1);
    }
}

/// Appends the visible faces of local block `(x, y, z)`.
fn push_block_faces(
    chunk: &Chunk,
    chunks: &Vec<Chunk>,
    nb: &Vec<usize>,
    x: usize,
    y: usize,
    z: usize,
    g: (i64, i64, i64),
    verts: &mut Vec<Vertex>,
    idx: &mut Vec<u32>,
)
    requires
        chunk@.wf(),
        all_wf(chunks@),
        g == global_of(chunk@.position, x as int, y as int, z as int),
        nb@.len() == 6,
        forall|e: int| 0 <= e < 6 ==> #[trigger] nb@[e] == scan_from(chunks@, chunk@.position.x.0 + dir(e).0, chunk@.position.y.0 + dir(e).1, chunk@.position.z.0 + dir(e).2, 0),
        x < 32,
        y < 32,
        z < 32,
        old(verts)@.len() <= 24 * 32767,
        old(verts)@.len() % 4 == 0,
        old(idx)@ == quad_indices((old(verts)@.len() / 4) as nat),
    ensures
        final(verts)@ == old(verts)@ + block_faces(chunk@, chunks@, x as int, y as int, z as int, 6),
        final(verts)@.len() % 4 == 0,
        final(idx)@ == quad_indices((final(verts)@.len() / 4) as nat),
{
    let b = chunk.local(x, y, z);
    let ghost before = verts@;
    let mut d: usize = 0;
    while d < 6
        invariant
            chunk@.wf(),
            all_wf(chunks@),
            b == block_at(chunk@.blocks, x as int, y as int, z as int),
            g == global_of(chunk@.position, x as int, y as int, z as int),
            nb@.len() == 6,
            forall|e: int| 0 <= e < 6 ==> #[trigger] nb@[e] == scan_from(chunks@, chunk@.position.x.0 + dir(e).0, chunk@.position.y.0 + dir(e).1, chunk@.position.z.0 + dir(e).2, 0),
            x < 32,
            y < 32,
            z < 32,
            d <= 6,
            before.len() <= 24 * 32767,
            verts@ == before + block_faces(chunk@, chunks@, x as int, y as int, z as int, d as int),
            verts@.len() % 4 == 0,
            idx@ == quad_indices((verts@.len() / 4) as nat),
        decreases 6 - d,
    {
        proof {
            lemma_block_faces_len(chunk@, chunks@, x as int, y as int, z as int, d as int);
        }
        let is_cube = match b.mesh {
            MeshType::Cube { .. } => true,
            _ => false,
        };
        if is_cube && !b.state.transparent && adj_transparent_exec(chunk, chunks, nb, x, y, z, d) {
            let tex = cube_texture_exec(b.mesh, d);
            push_cube_face(verts, idx, d, g, tex);
        }
        proof {
            assert(verts@ =~= before + block_faces(chunk@, chunks@, x as int, y as int, z as int, d + 1));
        }
        d = d + 1;
    }
}

/// Cube geometry of one chunk: for every block whose mesh is a cube, in flat index
/// order, each of its six faces (left, bottom, front, right, top, back) whose
/// neighbor is transparent, as four vertices and two triangles.
#[verifier::rlimit(40)]
pub fn cube_mesh_data(chunk: &Chunk, chunks: &Vec<Chunk>) -> (r: (Vec<Vertex>, Vec<u32>))
    requires
        chunk@.wf(),
        all_wf(chunks@),
    ensures
        r.0@ == cube_mesh_upto(chunk@, chunks@, 32768),
        r.0@.len() % 4 == 0,
        r.0@.len() <= CHUNK_MESH_VERTICES,
        r.1@ == quad_indices((r.0@.len() / 4) as nat),
{
    let p = chunk.position();
    let nb = resolve_neighbors(chunks, p);
    let layers = chunk.layers();
    let mut verts: Vec<Vertex> = Vec::new();
    let mut idx: Vec<u32> = Vec::new();
    let gx0 = p.x.0 * 32;
    let gy0 = p.y.0 * 32;
    let gz0 = p.z.0 * 32;
    let mut x: usize = 0;
    while x < 32
        invariant
            chunk@.wf(),
            all_wf(chunks@),
            p == chunk@.position,
            layers == chunk@.layers,
            gx0 == p.x.0 * 32,
            gy0 == p.y.0 * 32,
            gz0 == p.z.0 * 32,
            nb@.len() == 6,
            forall|e: int| 0 <= e < 6 ==> #[trigger] nb@[e] == scan_from(chunks@, p.x.0 + dir(e).0, p.y.0 + dir(e).1, p.z.0 + dir(e).2, 0),
            x <= 32,
            verts@ == cube_mesh_upto(chunk@, chunks@, x * 1024),
            verts@.len() <= 24 * (x * 1024),
            verts@.len() % 4 == 0,
            idx@ == quad_indices((verts@.len() / 4) as nat),
        decreases 32 - x,
    {
        let mut y: usize = 0;
        while y < 32
            invariant
                chunk@.wf(),
                all_wf(chunks@),
                p == chunk@.position,
                layers == chunk@.layers,
                gx0 == p.x.0 * 32,
                gy0 == p.y.0 * 32,
                gz0 == p.z.0 * 32,
                nb@.len() == 6,
                forall|e: int| 0 <= e < 6 ==> #[trigger] nb@[e] == scan_from(chunks@, p.x.0 + dir(e).0, p.y.0 + dir(e).1, p.z.0 + dir(e).2, 0),
                x < 32,
                y <= 32,
                verts@ == cube_mesh_upto(chunk@, chunks@, x * 1024 + y * 32),
                verts@.len() <= 24 * (x * 1024 + y * 32),
                verts@.len() % 4 == 0,
                idx@ == quad_indices((verts@.len() / 4) as nat),
            decreases 32 - y,
        {
            let yl = y as u32;
            let solid_layer = 0 < y && y < 31 && (layers >> yl) & 1 == 1 && (layers >> (yl + 1)) & 1 == 1
                && (layers >> (yl - 1)) & 1 == 1;
            let mut z: usize = 0;
            while z < 32
                invariant
                    chunk@.wf(),
                    all_wf(chunks@),
                    p == chunk@.position,
                    layers == chunk@.layers,
                    gx0 == p.x.0 * 32,
                    gy0 == p.y.0 * 32,
                    gz0 == p.z.0 * 32,
                    nb@.len() == 6,
                    forall|e: int| 0 <= e < 6 ==> #[trigger] nb@[e] == scan_from(chunks@, p.x.0 + dir(e).0, p.y.0 + dir(e).1, p.z.0 + dir(e).2, 0),
                    x < 32,
                    y < 32,
                    z <= 32,
                    solid_layer ==> (0 < y < 31 && bit_set(layers, y as u32) && bit_set(layers, (y + 1) as u32)
                        && bit_set(layers, (y - 1) as u32)),
                    verts@ == cube_mesh_upto(chunk@, chunks@, x * 1024 + y * 32 + z),
                    verts@.len() <= 24 * (x * 1024 + y * 32 + z),
                    verts@.len() % 4 == 0,
                    idx@ == quad_indices((verts@.len() / 4) as nat),
                decreases 32 - z,
            {
                let n = x * 1024 + y * 32 + z;
                let ghost before = verts@;
                proof {
                    assert(n / 1024 == x && (n / 32) % 32 == y && n % 32 == z);
                    assert(cube_mesh_upto(chunk@, chunks@, n + 1) == cube_mesh_upto(chunk@, chunks@, n as int) + block_faces(chunk@, chunks@, x as int, y as int, z as int, 6));
                    lemma_block_faces_len(chunk@, chunks@, x as int, y as int, z as int, 6);
                }
                let interior = solid_layer && 0 < x && x < 31 && 0 < z && z < 31;
                if interior {
                    proof {
                        lemma_interior_hidden(chunk@, chunks@, x as int, y as int, z as int);
                        assert(verts@ =~= before + block_faces(chunk@, chunks@, x as int, y as int, z as int, 6));
                    }
                } else {
                    let g = (gx0 + x as i64, gy0 + y as i64, gz0 + z as i64);
                    proof {
                        assert(g == global_of(p, x as int, y as int, z as int));
                    }
                    push_block_faces(chunk, chunks, &nb, x, y, z, g, &mut verts, &mut idx);
                }
                z = z + 1;
            }
            y = y + 1;
        }
        x = x + 1;
    }
    (verts, idx)
}

/// Four corners of flora quad `h` (0 positive, 1 negative) with texture `tex`.
pub open spec fn flora_half(g: (i64, i64, i64), h: int, tex: TextureID) -> Seq<Vertex> {
    Seq::new(4, |i: int| make_vertex(g, flora_corner(4 * h + i), pack(flora_corner(4 * h + i).3 as int, 0, tex)))
}

/// Appends flora quad `h`: four vertices and six indices.
fn push_flora_half(verts: &mut Vec<Vertex>, idx: &mut Vec<u32>, g: (i64, i64, i64), h: usize, tex: TextureID)
    requires
        h < 2,
        old(verts)@.len() % 4 == 0,
        old(idx)@ == quad_indices((old(verts)@.len() / 4) as nat),
        old(verts)@.len() + 4 <= u32::MAX,
    ensures
        final(verts)@ == old(verts)@ + flora_half(g, h as int, tex),
        final(verts)@.len() % 4 == 0,
        final(idx)@ == quad_indices((final(verts)@.len() / 4) as nat),
{
    let q = verts.len() / 4;
    push_quad_indices(idx, q);
    let mut k: usize = 0;
    while k < 4
        invariant
            h < 2,
            k <= 4,
            verts@ == old(verts)@ + flora_half(g, h as int, tex).subrange(0, k as int),
        decreases 4 - k,
    {
        let c = flora_corner_exec(4 * h + k);
        verts.push(Vertex { x: g.0, y: g.1, z: g.2, dx: c.0, dy: c.1, dz: c.2, txtr: pack_exec(c.3, 0, tex) });
        proof {
            assert(flora_half(g, h as int, tex).subrange(0, k + 1) =~= flora_half(g, h as int, tex).subrange(0, k as int).push(flora_half(g, h as int, tex)[k as int]));
        }
        k = k + 1;
    }
    proof {
        assert(flora_half(g, h as int, tex).subrange(0, 4) =~= flora_half(g, h as int, tex));
    }
}

proof fn lemma_flora_len(c: ChunkView, n: int)
    ensures
        flora_mesh_upto(c, n).len() <= 8 * (if n < 0 { 0 } else { n }),
        flora_mesh_upto(c, n).len() % 4 == 0,
    decreases n,
{
    if n > 0 {
        lemma_flora_len(c, n - 1);
    }
}

/// Flora geometry of one chunk: for every block whose mesh is a flora cross, in flat
/// index order, its two crossed quads (eight vertices, four triangles), always drawn.
pub fn flora_mesh_data(chunk: &Chunk) -> (r: (Vec<Vertex>, Vec<u32>))
    requires
        chunk@.wf(),
    ensures
        r.0@ == flora_mesh_upto(chunk@, 32768),
        r.0@.len() % 4 == 0,
        r.0@.len() <= 8 * 32768,
        r.1@ == quad_indices((r.0@.len() / 4) as nat),
{
    let p = chunk.position();
    let mut verts: Vec<Vertex> = Vec::new();
    let mut idx: Vec<u32> = Vec::new();
    let gx0 = p.x.0 * 32;
    let gy0 = p.y.0 * 32;
    let gz0 = p.z.0 * 32;
    let mut n: usize = 0;
    while n < 32768
        invariant
            chunk@.wf(),
            p == chunk@.position,
            gx0 == p.x.0 * 32,
            gy0 == p.y.0 * 32,
            gz0 == p.z.0 * 32,
            n <= 32768,
            verts@ == flora_mesh_upto(chunk@, n as int),
            verts@.len() <= 8 * n,
            verts@.len() % 4 == 0,
            idx@ == quad_indices((verts@.len() / 4) as nat),
        decreases 32768 - n,
    {
        let ghost before = verts@;
        proof {
            lemma_flora_len(chunk@, n as int);
        }
        let x = n / 1024;
        let y = (n / 32) % 32;
        let z = n % 32;
        let b = chunk.local(x, y, z);
        proof {
            assert(flat_index(x as int, y as int, z as int) == n);
        }
        match b.mesh {
            MeshType::FloraX { positive, negative } => {
                let g = (gx0 + x as i64, gy0 + y as i64, gz0 + z as i64);
                push_flora_half(&mut verts, &mut idx, g, 0, positive);
                push_flora_half(&mut verts, &mut idx, g, 1, negative);
                proof {
                    assert(flora_quads(g, positive, negative) =~= flora_half(g, 0, positive) + flora_half(g, 1, negative));
                    assert(verts@ =~= before + flora_quads(g, positive, negative));
                    assert(g == global_of(p, x as int, y as int, z as int));
                }
            },
            _ => {
                proof {
                    assert(verts@ =~= before + Seq::<Vertex>::empty());
                }
            },
        }
        n = n + 1;
    }
    (verts, idx)
}

/// How many of the first `k` faces of local block `(x, y, z)` are drawn.
pub open spec fn visible_count(c: ChunkView, s: Seq<Chunk>, x: int, y: int, z: int, k: int) -> int
    decreases k,
{
    if k <= 0 {
        0
    } else {
        visible_count(c, s, x, y, z, k - 1) + if face_visible(c, s, x, y, z, k - 1) { 1int } else { 0int }
    }
}

/// A block contributes exactly one quad (four vertices) for each face whose neighbor
/// is transparent, in the chunk or across the border in a loaded neighbor chunk, and
/// nothing for the others; the chunk's mesh is the blocks' contributions in flat order.
pub proof fn lemma_face_per_transparent_neighbor(c: ChunkView, s: Seq<Chunk>, x: int, y: int, z: int, k: int, n: int)
    requires
        0 <= k <= 6,
        1 <= n,
    ensures
        block_faces(c, s, x, y, z, k).len() == 4 * visible_count(c, s, x, y, z, k),
        k >= 1 ==> block_faces(c, s, x, y, z, k) == block_faces(c, s, x, y, z, k - 1) + if face_visible(c, s, x, y, z, k - 1) {
            cube_quad(k - 1, global_of(c.position, x, y, z), cube_texture(block_at(c.blocks, x, y, z).mesh, k - 1))
        } else {
            Seq::empty()
        },
        cube_mesh_upto(c, s, n) == cube_mesh_upto(c, s, n - 1) + block_faces(
            c,
            s,
            (n - 1) / 1024,
            ((n - 1) / 32) % 32,
            (n - 1) % 32,
            6,
        ),
    decreases k,
{
    if k > 0 {
        lemma_face_per_transparent_neighbor(c, s, x, y, z, k - 1, n);
    }
}

/// On the chunk border, a face toward a loaded neighbor whose touching block is
/// opaque is never drawn, and neither is a face toward a missing neighbor.
pub proof fn lemma_border_face_hidden(c: ChunkView, s: Seq<Chunk>, x: int, y: int, z: int, d: int)
    requires
        0 <= d < 6,
        !(inside(x + dir(d).0) && inside(y + dir(d).1) && inside(z + dir(d).2)),
        match neighbor(s, c.position, d) {
            Some(n) => !block_at(n.blocks, wrap(x + dir(d).0), wrap(y + dir(d).1), wrap(z + dir(d).2)).state.transparent,
            None => true,
        },
    ensures
        !face_visible(c, s, x, y, z, d),
{
}

/// The block next to local block `(x, y, z)` in direction `d`: in the chunk `c`, or,
/// across the border, in the neighbor chunk `n`.
pub open spec fn adjacent_block(c: ChunkView, n: ChunkView, x: int, y: int, z: int, d: int) -> Block {
    let ax = x + dir(d).0;
    let ay = y + dir(d).1;
    let az = z + dir(d).2;
    if inside(ax) && inside(ay) && inside(az) {
        block_at(c.blocks, ax, ay, az)
    } else {
        block_at(n.blocks, wrap(ax), wrap(ay), wrap(az))
    }
}

proof fn lemma_block_faces_prefix(c: ChunkView, s: Seq<Chunk>, x: int, y: int, z: int, j: int, k: int)
    requires
        0 <= j <= k,
    ensures
        block_faces(c, s, x, y, z, k).len() >= block_faces(c, s, x, y, z, j).len(),
        block_faces(c, s, x, y, z, k).subrange(0, block_faces(c, s, x, y, z, j).len() as int) == block_faces(c, s, x, y, z, j),
    decreases k - j,
{
    if j < k {
        lemma_block_faces_prefix(c, s, x, y, z, j, k - 1);
        let a = block_faces(c, s, x, y, z, k - 1);
        let b = block_faces(c, s, x, y, z, k);
        let l = block_faces(c, s, x, y, z, j).len() as int;
        assert(b.subrange(0, a.len() as int) =~= a);
        assert(b.subrange(0, l) =~= a.subrange(0, l));
    } else {
        assert(block_faces(c, s, x, y, z, k).subrange(0, block_faces(c, s, x, y, z, k).len() as int) =~= block_faces(c, s, x, y, z, k));
    }
}

/// With the neighbor chunk in direction `d` loaded (say `n`), face `d` of block
/// `(x, y, z)` is drawn exactly when the block is an opaque cube and the adjacent block
/// (in the chunk, or across the border in `n`) is transparent; and then the block's share
/// of the mesh holds exactly one quad for `d`: four vertices on that side of the block,
/// after those of the block's earlier drawn faces.
pub proof fn lemma_mesh_face_rule(c: ChunkView, s: Seq<Chunk>, x: int, y: int, z: int, d: int)
    requires
        0 <= x < 32,
        0 <= y < 32,
        0 <= z < 32,
        0 <= d < 6,
        neighbor(s, c.position, d) is Some,
    ensures
        forall|n: ChunkView| neighbor(s, c.position, d) == Some(n) ==> (face_visible(c, s, x, y, z, d) <==> (
        block_at(c.blocks, x, y, z).mesh is Cube && !block_at(c.blocks, x, y, z).state.transparent
            && adjacent_block(c, n, x, y, z, d).state.transparent)),
        face_visible(c, s, x, y, z, d) ==> block_faces(c, s, x, y, z, 6).subrange(
            4 * visible_count(c, s, x, y, z, d),
            4 * visible_count(c, s, x, y, z, d) + 4,
        ) == cube_quad(d, global_of(c.position, x, y, z), cube_texture(block_at(c.blocks, x, y, z).mesh, d)),
        !face_visible(c, s, x, y, z, d) ==> block_faces(c, s, x, y, z, d + 1) == block_faces(c, s, x, y, z, d),
        block_faces(c, s, x, y, z, 6).len() == 4 * visible_count(c, s, x, y, z, 6),
{
    lemma_face_per_transparent_neighbor(c, s, x, y, z, 6, 1);
    lemma_face_per_transparent_neighbor(c, s, x, y, z, d, 1);
    lemma_face_per_transparent_neighbor(c, s, x, y, z, d + 1, 1);
    lemma_block_faces_prefix(c, s, x, y, z, d + 1, 6);
    let a = block_faces(c, s, x, y, z, d);
    let b = block_faces(c, s, x, y, z, d + 1);
    let all = block_faces(c, s, x, y, z, 6);
    if face_visible(c, s, x, y, z, d) {
        let quad = cube_quad(d, global_of(c.position, x, y, z), cube_texture(block_at(c.blocks, x, y, z).mesh, d));
        assert(b == a + quad);
        assert(a.len() == 4 * visible_count(c, s, x, y, z, d));
        assert(all.subrange(0, b.len() as int) == b);
        assert(all.subrange(a.len() as int, a.len() as int + 4) =~= b.subrange(a.len() as int, a.len() as int + 4));
        assert(b.subrange(a.len() as int, a.len() as int + 4) =~= quad);
    } else {
        assert(b =~= a);
    }
}

/// Whether vertex `v` lies on the plane `x = px`, with `px` in tenths of a block.
pub open spec fn on_x_plane(v: Vertex, px: int) -> bool {
    10 * v.x + v.dx == px
}

/// Whether all four vertices of quad `q` of `vs` lie on the plane `x = px` (tenths of a block).
pub open spec fn quad_on_x_plane(vs: Seq<Vertex>, q: int, px: int) -> bool {
    &&& on_x_plane(vs[4 * q], px)
    &&& on_x_plane(vs[4 * q + 1], px)
    &&& on_x_plane(vs[4 * q + 2], px)
    &&& on_x_plane(vs[4 * q + 3], px)
}

/// No quad of `vs` lies on the plane `x = px`.
pub open spec fn no_quad_on_x_plane(vs: Seq<Vertex>, px: int) -> bool {
    forall|q: int| 0 <= q < vs.len() / 4 ==> !#[trigger] quad_on_x_plane(vs, q, px)
}

proof fn lemma_no_quad_concat(a: Seq<Vertex>, b: Seq<Vertex>, px: int)
    requires
        a.len() % 4 == 0,
        b.len() % 4 == 0,
        no_quad_on_x_plane(a, px),
        no_quad_on_x_plane(b, px),
    ensures
        no_quad_on_x_plane(a + b, px),
{
    let ab = a + b;
    let na = a.len() / 4;
    assert forall|q: int| 0 <= q < ab.len() / 4 implies !#[trigger] quad_on_x_plane(ab, q, px) by {
        if q < na {
            assert(ab[4 * q] == a[4 * q] && ab[4 * q + 1] == a[4 * q + 1] && ab[4 * q + 2] == a[4 * q + 2] && ab[4 * q + 3] == a[4 * q + 3]);
            assert(!quad_on_x_plane(a, q, px));
        } else {
            let r = q - na;
            assert(4 * q == a.len() + 4 * r);
            assert(ab[4 * q] == b[4 * r] && ab[4 * q + 1] == b[4 * r + 1] && ab[4 * q + 2] == b[4 * r + 2] && ab[4 * q + 3] == b[4 * r + 3]);
            assert(!quad_on_x_plane(b, r, px));
        }
    }
}

proof fn lemma_block_faces_off_plane(c: ChunkView, s: Seq<Chunk>, x: int, y: int, z: int, k: int)
    requires
        c.wf(),
        0 <= x < 32,
        0 <= y < 32,
        0 <= z < 32,
        0 <= k <= 6,
        neighbor(s, c.position, 3) is None,
    ensures
        no_quad_on_x_plane(block_faces(c, s, x, y, z, k), 320 * (c.position.x.0 + 1)),
        block_faces(c, s, x, y, z, k).len() % 4 == 0,
    decreases k,
{
    let px = 320 * (c.position.x.0 + 1);
    lemma_block_faces_len(c, s, x, y, z, k);
    if k > 0 {
        lemma_block_faces_off_plane(c, s, x, y, z, k - 1);
        let d = k - 1;
        let tail = if face_visible(c, s, x, y, z, d) {
            cube_quad(d, global_of(c.position, x, y, z), cube_texture(block_at(c.blocks, x, y, z).mesh, d))
        } else {
            Seq::<Vertex>::empty()
        };
        assert(no_quad_on_x_plane(tail, px)) by {
            if face_visible(c, s, x, y, z, d) {
                let g = global_of(c.position, x, y, z);
                assert(g.0 == c.position.x.0 * 32 + x);
                if quad_on_x_plane(tail, 0, px) {
                    if d == 3 {
                        assert(x == 31);
                        assert(!adj_transparent(c, s, x, y, z, 3));
                    } else if d == 0 {
                        assert(tail[0].dx == 0);
                    } else if d == 1 {
                        assert(tail[0].dx == 0);
                    } else if d == 2 {
                        assert(tail[0].dx == 0);
                    } else if d == 4 {
                        assert(tail[0].dx == 0);
                    } else {
                        assert(tail[0].dx == 0);
                    }
                }
                assert forall|q: int| 0 <= q < tail.len() / 4 implies !#[trigger] quad_on_x_plane(tail, q, px) by {
                    assert(q == 0);
                }
            }
        }
        lemma_no_quad_concat(block_faces(c, s, x, y, z, k - 1), tail, px);
    }
}

/// With no chunk loaded next to `c` on the +x side, no quad of `c`'s cube mesh lies on
/// its +x border plane (`x = 32 (cx + 1)`): the border faces toward the missing
/// neighbor are absent until it loads.
pub proof fn lemma_no_face_toward_missing_neighbor(c: ChunkView, s: Seq<Chunk>, n: int)
    requires
        c.wf(),
        0 <= n <= 32768,
        neighbor(s, c.position, 3) is None,
    ensures
        no_quad_on_x_plane(cube_mesh_upto(c, s, n), 320 * (c.position.x.0 + 1)),
        cube_mesh_upto(c, s, n).len() % 4 == 0,
    decreases n,
{
    if n > 0 {
        let m = n - 1;
        lemma_no_face_toward_missing_neighbor(c, s, m);
        lemma_block_faces_off_plane(c, s, m / 1024, (m / 32) % 32, m % 32, 6);
        lemma_no_quad_concat(
            cube_mesh_upto(c, s, m),
            block_faces(c, s, m / 1024, (m / 32) % 32, m % 32, 6),
            320 * (c.position.x.0 + 1),
        );
    }
}

} // verus!
