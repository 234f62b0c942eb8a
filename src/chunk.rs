//! A chunk: a 32x32x32 cube of blocks with a per-layer opacity summary.
use vstd::prelude::*;
use crate::block::Block;
use crate::units::{
    BlockUnit, ChunkUnit, LocalBU, Position, CHUNK_BLOCKS, CHUNK_SIZE, chunk_coord_ok,
    flat_index,
};

verus! {

/// Process-local chunk identifier, assigned in increasing order.
#[derive(Clone, Copy, Debug, PartialEq, Eq, Structural)]
pub struct ChunkID(pub u32);

/// Why a chunk could not be made.
#[derive(Clone, Copy, Debug, PartialEq, Eq, Structural)]
pub enum ChunkError {
    /// The block data or the position does not describe a chunk.
    Invalid,
    /// The identifier is already taken.
    DuplicateID,
    /// A live chunk already stands at that position.
    DuplicateChunkPos,
}

/// Whether bit `l` of `m` is set.
pub open spec fn bit_set(m: u32, l: u32) -> bool {
    (m >> l) & 1u32 == 1u32
}

/// Whether every block of horizontal layer `l` is non-transparent.
pub open spec fn layer_opaque(blocks: Seq<Block>, l: int) -> bool {
    forall|x: int, z: int|
        0 <= x < 32 && 0 <= z < 32 ==> !(#[trigger] blocks[flat_index(x, l, z)]).state.transparent
}

/// The opacity mask of `blocks`: bit `l` set exactly for the opaque layers.
pub open spec fn mask_of(m: u32, blocks: Seq<Block>) -> bool {
    forall|l: u32| l < 32 ==> (#[trigger] bit_set(m, l) <==> layer_opaque(blocks, l as int))
}

/// The block of `blocks` at chunk-local coordinates.
pub open spec fn block_at(blocks: Seq<Block>, x: int, y: int, z: int) -> Block {
    blocks[flat_index(x, y, z)]
}

/// What a chunk holds, as mathematical values.
pub ghost struct ChunkView {
    pub id: ChunkID,
    pub position: Position<ChunkUnit>,
    pub blocks: Seq<Block>,
    pub layers: u32,
}

/// A fixed-size cube of blocks. Block `(x, y, z)` sits at `x*1024 + y*32 + z`.
pub struct Chunk {
    id: ChunkID,
    position: Position<ChunkUnit>,
    block_data: Vec<Block>,
    layers: u32,
}

impl View for Chunk {
    type V = ChunkView;

    closed spec fn view(&self) -> ChunkView {
        ChunkView { id: self.id, position: self.position, blocks: self.block_data@, layers: self.layers }
    }
}

impl ChunkView {
    /// A full block array, a cached mask that matches it, and a position whose blocks have `i64` coordinates.
    pub open spec fn wf(self) -> bool {
        &&& self.blocks.len() == CHUNK_BLOCKS
        &&& mask_of(self.layers, self.blocks)
        &&& chunk_coord_ok(self.position.x.0 as int)
        &&& chunk_coord_ok(self.position.y.0 as int)
        &&& chunk_coord_ok(self.position.z.0 as int)
    }
}

proof fn lemma_bit_or(m: u32, l: u32)
    requires
        l < 32,
    ensures
        forall|j: u32| j < 32 ==> (#[trigger] bit_set(m | (1u32 << l), j) <==> (j == l || bit_set(m, j))),
{
    assert forall|j: u32| j < 32 implies (#[trigger] bit_set(m | (1u32 << l), j) <==> (j == l || bit_set(
        m,
        j,
    ))) by {
        assert((((m | (1u32 << l)) >> j) & 1u32 == 1u32) <==> (j == l || (m >> j) & 1u32 == 1u32))
            by (bit_vector)
            requires
                l < 32,
                j < 32,
        ;
    }
}

proof fn lemma_bit_clear(m: u32, l: u32)
    requires
        l < 32,
    ensures
        forall|j: u32| j < 32 ==> (#[trigger] bit_set(m & !(1u32 << l), j) <==> (j != l && bit_set(m, j))),
{
    assert forall|j: u32| j < 32 implies (#[trigger] bit_set(m & !(1u32 << l), j) <==> (j != l && bit_set(
        m,
        j,
    ))) by {
        assert((((m & !(1u32 << l)) >> j) & 1u32 == 1u32) <==> (j != l && (m >> j) & 1u32 == 1u32))
            by (bit_vector)
            requires
                l < 32,
                j < 32,
        ;
    }
}

proof fn lemma_bit_zero()
    ensures
        forall|j: u32| j < 32 ==> !(#[trigger] bit_set(0u32, j)),
{
    assert forall|j: u32| j < 32 implies !(#[trigger] bit_set(0u32, j)) by {
        assert((0u32 >> j) & 1u32 != 1u32) by (bit_vector);
    }
}

/// Whether every block of layer `l` is non-transparent.
fn scan_layer(blocks: &Vec<Block>, l: usize) -> (r: bool)
    requires
        blocks@.len() == CHUNK_BLOCKS,
        l < 32,
    ensures
        r == layer_opaque(blocks@, l as int),
{
    let mut x: usize = 0;
    while x < 32
        invariant
            blocks@.len() == CHUNK_BLOCKS,
            l < 32,
            x <= 32,
            forall|a: int, c: int|
                0 <= a < x && 0 <= c < 32 ==> !(#[trigger] blocks@[flat_index(a, l as int, c)]).state.transparent,
        decreases 32 - x,
    {
        let mut z: usize = 0;
        while z < 32
            invariant
                blocks@.len() == CHUNK_BLOCKS,
                l < 32,
                x < 32,
                z <= 32,
                forall|a: int, c: int|
                    0 <= a < x && 0 <= c < 32 ==> !(#[trigger] blocks@[flat_index(a, l as int, c)]).state.transparent,
                forall|c: int| 0 <= c < z ==> !(#[trigger] blocks@[flat_index(x as int, l as int, c)]).state.transparent,
            decreases 32 - z,
        {
            if blocks[x * 1024 + l * 32 + z].state.transparent {
                assert(!layer_opaque(blocks@, l as int)) by {
                    assert(blocks@[flat_index(x as int, l as int, z as int)].state.transparent);
                }
                return false;
            }
            z = z + 1;
        }
        x = x + 1;
    }
    true
}

/// The opacity mask of a full block array.
fn compute_layers(blocks: &Vec<Block>) -> (r: u32)
    requires
        blocks@.len() == CHUNK_BLOCKS,
    ensures
        mask_of(r, blocks@),
{
    let mut layers: u32 = 0;
    let mut l: u32 = 0;
    proof {
        lemma_bit_zero();
    }
    while l < 32
        invariant
            blocks@.len() == CHUNK_BLOCKS,
            l <= 32,
            forall|j: u32| j < 32 ==> (#[trigger] bit_set(layers, j) <==> (j < l && layer_opaque(blocks@, j as int))),
        decreases 32 - l,
    {
        let opaque = scan_layer(blocks, l as usize);
        if opaque {
            proof {
                lemma_bit_or(layers, l);
            }
            layers = layers | (1u32 << l);
        }
        l = l + 1;
    }
    layers
}

impl Chunk {
    /// Makes a chunk from a full block array; `Invalid` when the array does not hold
    /// `CHUNK_BLOCKS` blocks or a block of the chunk would lie outside the `i64` grid.
    pub fn new(id: ChunkID, position: Position<ChunkUnit>, block_data: Vec<Block>) -> (r: Result<
        Chunk,
        ChunkError,
    >)
        ensures
            (block_data@.len() == CHUNK_BLOCKS && chunk_coord_ok(position.x.0 as int) && chunk_coord_ok(
                position.y.0 as int,
            ) && chunk_coord_ok(position.z.0 as int)) <==> r is Ok,
            r matches Ok(c) ==> c@.wf() && c@.id == id && c@.position == position && c@.blocks
                == block_data@,
            r matches Err(e) ==> e == ChunkError::Invalid,
    {
        if block_data.len() != CHUNK_BLOCKS || !coord_ok(position.x) || !coord_ok(position.y)
            || !coord_ok(position.z) {
            return Err(ChunkError::Invalid);
        }
        let layers = compute_layers(&block_data);
        Ok(Chunk { id, position, block_data, layers })
    }

    pub fn id(&self) -> (r: ChunkID)
        ensures
            r == self@.id,
    {
        self.id
    }

    pub fn position(&self) -> (r: Position<ChunkUnit>)
        ensures
            r == self@.position,
    {
        self.position
    }

    /// The opacity mask: bit `l` is set iff horizontal layer `l` is fully non-transparent.
    pub fn layers(&self) -> (r: u32)
        ensures
            r == self@.layers,
    {
        self.layers
    }

    /// The block at chunk-local coordinates, each below `CHUNK_SIZE`.
    pub fn local(&self, x: usize, y: usize, z: usize) -> (r: Block)
        requires
            self@.wf(),
            x < 32,
            y < 32,
            z < 32,
        ensures
            r == block_at(self@.blocks, x as int, y as int, z as int),
    {
        self.block_data[x * 1024 + y * 32 + z]
    }

    /// The block at the given block coordinates, each taken modulo `CHUNK_SIZE`.
    pub fn blocks(&self, x: BlockUnit, y: BlockUnit, z: BlockUnit) -> (r: Block)
        requires
            self@.wf(),
        ensures
            r == block_at(
                self@.blocks,
                x.0 as int % CHUNK_SIZE as int,
                y.0 as int % CHUNK_SIZE as int,
                z.0 as int % CHUNK_SIZE as int,
            ),
    {
        let a = local_of(x.0);
        let b = local_of(y.0);
        let c = local_of(z.0);
        self.local(a, b, c)
    }

    /// Replaces one block and refreshes the opacity bit of its layer.
    pub fn update(&mut self, pos: Position<LocalBU>, block: Block)
        requires
            old(self)@.wf(),
        ensures
            final(self)@.wf(),
            final(self)@.id == old(self)@.id,
            final(self)@.position == old(self)@.position,
            final(self)@.blocks == old(self)@.blocks.update(
                flat_index(pos.x.0 as int % 32, pos.y.0 as int % 32, pos.z.0 as int % 32),
                block,
            ),
    {
        let i = pos.into_vec_pos();
        self.block_data.set(i, block);
        let l = pos.y.0 % 32;
        let opaque = scan_layer(&self.block_data, l as usize);
        let ghost before = self.layers;
        proof {
            let y = (pos.y.0 % 32) as int;
            assert forall|j: u32| j < 32 && j != l implies layer_opaque(self.block_data@, j as int)
                == layer_opaque(old(self).block_data@, j as int) by {
                assert forall|x: int, z: int| 0 <= x < 32 && 0 <= z < 32 implies self.block_data@[flat_index(
                    x,
                    j as int,
                    z,
                )] == old(self).block_data@[flat_index(x, j as int, z)] by {
                    assert(flat_index(x, j as int, z) != i);
                }
            }
        }
        if opaque {
            proof {
                lemma_bit_or(self.layers, l);
            }
            self.layers = self.layers | (1u32 << l);
        } else {
            proof {
                lemma_bit_clear(self.layers, l);
            }
            self.layers = self.layers & !(1u32 << l);
        }
    }
}

/// Whether a chunk coordinate keeps all its blocks on the `i64` grid.
fn coord_ok(c: ChunkUnit) -> (r: bool)
    ensures
        r == chunk_coord_ok(c.0 as int),
{
    crate::units::CHUNK_MIN <= c.0 && c.0 <= crate::units::CHUNK_MAX
}

/// A block coordinate reduced into `[0, CHUNK_SIZE)`.
pub fn local_of(v: i64) -> (r: usize)
    ensures
        r == v as int % CHUNK_SIZE as int,
        r < 32,
{
    let m = v.checked_rem_euclid(32);
    match m {
        Some(k) => k as usize,
        None => 0,
    }
}

/// Bit `l` of a well-formed chunk's mask is set exactly when every block of
/// horizontal layer `l` is non-transparent.
pub proof fn lemma_opacity_mask(c: ChunkView, l: u32)
    requires
        c.wf(),
        l < 32,
    ensures
        bit_set(c.layers, l) <==> (forall|a: int, d: int|
            0 <= a < 32 && 0 <= d < 32 ==> !(#[trigger] block_at(c.blocks, a, l as int, d)).state.transparent),
{
    assert(bit_set(c.layers, l) <==> layer_opaque(c.blocks, l as int));
    if layer_opaque(c.blocks, l as int) {
        assert forall|a: int, d: int| 0 <= a < 32 && 0 <= d < 32 implies !(#[trigger] block_at(
            c.blocks,
            a,
            l as int,
            d,
        )).state.transparent by {
            assert(!c.blocks[flat_index(a, l as int, d)].state.transparent);
        }
    } else {
        let (a, d) = choose|a: int, d: int|
            0 <= a < 32 && 0 <= d < 32 && (#[trigger] c.blocks[flat_index(a, l as int, d)]).state.transparent;
        assert(block_at(c.blocks, a, l as int, d).state.transparent);
    }
}

/// Making any block of layer `l` transparent and recomputing the mask clears bit `l`.
pub proof fn lemma_transparent_clears_layer(
    before: ChunkView,
    after: ChunkView,
    x: int,
    l: u32,
    z: int,
    b: Block,
)
    requires
        before.wf(),
        after.wf(),
        l < 32,
        0 <= x < 32,
        0 <= z < 32,
        b.state.transparent,
        after.blocks == before.blocks.update(flat_index(x, l as int, z), b),
    ensures
        !bit_set(after.layers, l),
{
    assert(after.blocks[flat_index(x, l as int, z)] == b);
    assert(!layer_opaque(after.blocks, l as int));
}

} // verus!
