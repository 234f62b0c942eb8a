//! Strongly typed world units (blocks, chunks, sectors, chunk-local blocks) and
//! the small spatial records built from them.
use vstd::prelude::*;

verus! {

/// Blocks along one edge of a chunk.
pub const CHUNK_SIZE: usize = 32;

/// Blocks held by one chunk.
pub const CHUNK_BLOCKS: usize = 32768;

/// Chunks along one edge of a sector.
pub const SECTOR_CHUNKS: i64 = 16;

/// Blocks along one edge of a sector.
pub const SECTOR_BLOCKS: i64 = 512;

/// The least chunk coordinate: the chunk that holds block `i64::MIN`.
pub const CHUNK_MIN: i64 = -288230376151711744;

/// The greatest chunk coordinate: the chunk that holds block `i64::MAX`.
pub const CHUNK_MAX: i64 = 288230376151711743;

/// The least sector coordinate: the sector that holds block `i64::MIN`.
pub const SECTOR_MIN: i64 = -18014398509481984;

/// The greatest sector coordinate: the sector that holds block `i64::MAX`.
pub const SECTOR_MAX: i64 = 18014398509481983;

/// A chunk coordinate whose blocks all have an `i64` coordinate.
pub open spec fn chunk_coord_ok(c: int) -> bool {
    CHUNK_MIN <= c <= CHUNK_MAX
}

/// A sector coordinate whose blocks all have an `i64` coordinate.
pub open spec fn sector_coord_ok(s: int) -> bool {
    SECTOR_MIN <= s <= SECTOR_MAX
}

/// One world block (one meter); the global block grid.
#[derive(Clone, Copy, Debug, PartialEq, Eq, Structural)]
pub struct BlockUnit(pub i64);

/// A block coordinate inside one chunk, meant to lie in `[0, CHUNK_SIZE)`.
#[derive(Clone, Copy, Debug, PartialEq, Eq, Structural)]
pub struct LocalBU(pub u32);

/// One chunk: `CHUNK_SIZE` blocks.
#[derive(Clone, Copy, Debug, PartialEq, Eq, Structural)]
pub struct ChunkUnit(pub i64);

/// One sector: `SECTOR_CHUNKS` chunks.
#[derive(Clone, Copy, Debug, PartialEq, Eq, Structural)]
pub struct SectorUnit(pub i64);

/// The outcome of bounding a block coordinate to one chunk.
#[derive(Clone, Copy, Debug, PartialEq, Eq, Structural)]
pub enum LocalBUIntermediate {
    /// The coordinate already lay inside `[0, CHUNK_SIZE)`.
    Inside(LocalBU),
    /// The coordinate lay outside and was reduced modulo `CHUNK_SIZE`.
    UBound(LocalBU),
}

impl BlockUnit {
    /// The chunk that holds this block: the floor of `n / 32`.
    pub fn into_chunk(self) -> (r: ChunkUnit)
        ensures
            r.0 == self.0 as int / CHUNK_SIZE as int,
            chunk_coord_ok(r.0 as int),
    {
        let q = self.0.checked_div_euclid(32);
        match q {
            Some(v) => ChunkUnit(v),
            None => ChunkUnit(0),
        }
    }

    /// The sector that holds this block: the floor of `n / 512`.
    pub fn into_sector(self) -> (r: SectorUnit)
        ensures
            r.0 == self.0 as int / SECTOR_BLOCKS as int,
            sector_coord_ok(r.0 as int),
    {
        let q = self.0.checked_div_euclid(512);
        match q {
            Some(v) => SectorUnit(v),
            None => SectorUnit(0),
        }
    }

    /// The coordinate inside its chunk, tagged with whether it had to be reduced.
    pub fn into_local_bu(self) -> (r: LocalBUIntermediate)
        ensures
            0 <= self.0 < CHUNK_SIZE ==> r == LocalBUIntermediate::Inside(LocalBU(self.0 as u32)),
            !(0 <= self.0 < CHUNK_SIZE) ==> r == LocalBUIntermediate::UBound(
                LocalBU((self.0 as int % CHUNK_SIZE as int) as u32),
            ),
    {
        let m = self.0.checked_rem_euclid(32);
        let v: i64 = match m {
            Some(v) => v,
            None => 0,
        };
        if 0 <= self.0 && self.0 < 32 {
            LocalBUIntermediate::Inside(LocalBU(self.0 as u32))
        } else {
            LocalBUIntermediate::UBound(LocalBU(v as u32))
        }
    }

    pub fn into_inner(self) -> (r: i64)
        ensures
            r == self.0,
    {
        self.0
    }

    pub fn inner(&self) -> (r: i64)
        ensures
            r == self.0,
    {
        self.0
    }

    /// The next block up the axis.
    pub fn incr(self) -> (r: Self)
        requires
            self.0 < i64::MAX,
        ensures
            r.0 == self.0 + 1,
    {
        BlockUnit(self.0 + 1)
    }

    /// The next block down the axis.
    pub fn decr(self) -> (r: Self)
        requires
            self.0 > i64::MIN,
        ensures
            r.0 == self.0 - 1,
    {
        BlockUnit(self.0 - 1)
    }

    pub fn plus(self, rhs: Self) -> (r: Self)
        requires
            i64::MIN <= self.0 + rhs.0 <= i64::MAX,
        ensures
            r.0 == self.0 + rhs.0,
    {
        BlockUnit(self.0 + rhs.0)
    }

    pub fn minus(self, rhs: Self) -> (r: Self)
        requires
            i64::MIN <= self.0 - rhs.0 <= i64::MAX,
        ensures
            r.0 == self.0 - rhs.0,
    {
        BlockUnit(self.0 - rhs.0)
    }

    pub fn times(self, rhs: Self) -> (r: Self)
        requires
            i64::MIN <= self.0 * rhs.0 <= i64::MAX,
        ensures
            r.0 == self.0 * rhs.0,
    {
        BlockUnit(self.0 * rhs.0)
    }

    /// Euclidean quotient (the floor, for a positive divisor).
    pub fn div_euclid(self, rhs: Self) -> (r: Self)
        requires
            rhs.0 != 0,
            !(self.0 == i64::MIN && rhs.0 == -1),
        ensures
            r.0 == self.0 as int / rhs.0 as int,
    {
        BlockUnit(euclid_div(self.0, rhs.0))
    }

    pub fn neg(self) -> (r: Self)
        requires
            self.0 > i64::MIN,
        ensures
            r.0 == -self.0,
    {
        BlockUnit(-self.0)
    }
}

impl ChunkUnit {
    /// The first block of this chunk.
    pub fn into_block(self) -> (r: BlockUnit)
        requires
            chunk_coord_ok(self.0 as int),
        ensures
            r.0 == self.0 * CHUNK_SIZE as int,
    {
        BlockUnit(self.0 * 32)
    }

    /// The sector that holds this chunk: the floor of `c / 16`.
    pub fn into_sector(self) -> (r: SectorUnit)
        ensures
            r.0 == self.0 as int / SECTOR_CHUNKS as int,
    {
        let q = self.0.checked_div_euclid(16);
        match q {
            Some(v) => SectorUnit(v),
            None => SectorUnit(0),
        }
    }

    pub fn into_inner(self) -> (r: i64)
        ensures
            r == self.0,
    {
        self.0
    }

    pub fn inner(&self) -> (r: i64)
        ensures
            r == self.0,
    {
        self.0
    }

    pub fn incr(self) -> (r: Self)
        requires
            self.0 < i64::MAX,
        ensures
            r.0 == self.0 + 1,
    {
        ChunkUnit(self.0 + 1)
    }

    pub fn decr(self) -> (r: Self)
        requires
            self.0 > i64::MIN,
        ensures
            r.0 == self.0 - 1,
    {
        ChunkUnit(self.0 - 1)
    }

    pub fn plus(self, rhs: Self) -> (r: Self)
        requires
            i64::MIN <= self.0 + rhs.0 <= i64::MAX,
        ensures
            r.0 == self.0 + rhs.0,
    {
        ChunkUnit(self.0 + rhs.0)
    }

    pub fn minus(self, rhs: Self) -> (r: Self)
        requires
            i64::MIN <= self.0 - rhs.0 <= i64::MAX,
        ensures
            r.0 == self.0 - rhs.0,
    {
        ChunkUnit(self.0 - rhs.0)
    }

    pub fn times(self, rhs: Self) -> (r: Self)
        requires
            i64::MIN <= self.0 * rhs.0 <= i64::MAX,
        ensures
            r.0 == self.0 * rhs.0,
    {
        ChunkUnit(self.0 * rhs.0)
    }

    /// Euclidean quotient (the floor, for a positive divisor).
    pub fn div_euclid(self, rhs: Self) -> (r: Self)
        requires
            rhs.0 != 0,
            !(self.0 == i64::MIN && rhs.0 == -1),
        ensures
            r.0 == self.0 as int / rhs.0 as int,
    {
        ChunkUnit(euclid_div(self.0, rhs.0))
    }

    pub fn neg(self) -> (r: Self)
        requires
            self.0 > i64::MIN,
        ensures
            r.0 == -self.0,
    {
        ChunkUnit(-self.0)
    }
}

impl SectorUnit {
    /// The first chunk of this sector.
    pub fn into_chunk(self) -> (r: ChunkUnit)
        requires
            sector_coord_ok(self.0 as int),
        ensures
            r.0 == self.0 * SECTOR_CHUNKS,
            chunk_coord_ok(r.0 as int),
    {
        ChunkUnit(self.0 * 16)
    }

    /// The first block of this sector.
    pub fn into_block(self) -> (r: BlockUnit)
        requires
            sector_coord_ok(self.0 as int),
        ensures
            r.0 == self.0 * SECTOR_BLOCKS,
    {
        BlockUnit(self.0 * 512)
    }

    pub fn into_inner(self) -> (r: i64)
        ensures
            r == self.0,
    {
        self.0
    }

    pub fn inner(&self) -> (r: i64)
        ensures
            r == self.0,
    {
        self.0
    }

    pub fn incr(self) -> (r: Self)
        requires
            self.0 < i64::MAX,
        ensures
            r.0 == self.0 + 1,
    {
        SectorUnit(self.0 + 1)
    }

    pub fn decr(self) -> (r: Self)
        requires
            self.0 > i64::MIN,
        ensures
            r.0 == self.0 - 1,
    {
        SectorUnit(self.0 - 1)
    }

    pub fn plus(self, rhs: Self) -> (r: Self)
        requires
            i64::MIN <= self.0 + rhs.0 <= i64::MAX,
        ensures
            r.0 == self.0 + rhs.0,
    {
        SectorUnit(self.0 + rhs.0)
    }

    pub fn minus(self, rhs: Self) -> (r: Self)
        requires
            i64::MIN <= self.0 - rhs.0 <= i64::MAX,
        ensures
            r.0 == self.0 - rhs.0,
    {
        SectorUnit(self.0 - rhs.0)
    }

    pub fn times(self, rhs: Self) -> (r: Self)
        requires
            i64::MIN <= self.0 * rhs.0 <= i64::MAX,
        ensures
            r.0 == self.0 * rhs.0,
    {
        SectorUnit(self.0 * rhs.0)
    }

    /// Euclidean quotient (the floor, for a positive divisor).
    pub fn div_euclid(self, rhs: Self) -> (r: Self)
        requires
            rhs.0 != 0,
            !(self.0 == i64::MIN && rhs.0 == -1),
        ensures
            r.0 == self.0 as int / rhs.0 as int,
    {
        SectorUnit(euclid_div(self.0, rhs.0))
    }

    pub fn neg(self) -> (r: Self)
        requires
            self.0 > i64::MIN,
        ensures
            r.0 == -self.0,
    {
        SectorUnit(-self.0)
    }
}

/// Euclidean division of two `i64`s that does not overflow.
fn euclid_div(a: i64, b: i64) -> (r: i64)
    requires
        b != 0,
        !(a == i64::MIN && b == -1),
    ensures
        r == a as int / b as int,
{
    proof {
        lemma_euclid_div_fits(a as int, b as int);
    }
    match a.checked_div_euclid(b) {
        Some(v) => v,
        None => 0,
    }
}

proof fn lemma_euclid_div_fits(a: int, b: int)
    requires
        b != 0,
        i64::MIN <= a <= i64::MAX,
        i64::MIN <= b <= i64::MAX,
        !(a == i64::MIN && b == -1),
    ensures
        i64::MIN <= a / b <= i64::MAX,
{
    vstd::arithmetic::div_mod::lemma_fundamental_div_mod(a, b);
    let q = a / b;
    let m = a % b;
    assert(a == b * q + m);
    assert(0 <= m < if b > 0 { b } else { -b });
    if b > 0 {
        assert(i64::MIN <= q <= i64::MAX) by (nonlinear_arith)
            requires
                a == b * q + m,
                0 <= m < b,
                i64::MIN <= a <= i64::MAX,
        ;
    } else {
        assert(i64::MIN <= q <= i64::MAX) by (nonlinear_arith)
            requires
                a == b * q + m,
                0 <= m < -b,
                b <= -1,
                i64::MIN <= a <= i64::MAX,
                !(a == i64::MIN && b == -1),
        ;
    }
}

/// A point of a three-axis grid in some unit.
#[derive(Clone, Copy, Debug, PartialEq, Eq, Structural)]
pub struct Position<T> {
    pub x: T,
    pub y: T,
    pub z: T,
}

impl<T: Copy> Position<T> {
    pub fn new(x: T, y: T, z: T) -> (r: Self)
        ensures
            r.x == x,
            r.y == y,
            r.z == z,
    {
        Position { x, y, z }
    }
}

/// Index of a chunk-local coordinate triple in a chunk's flat block array.
pub open spec fn flat_index(x: int, y: int, z: int) -> int {
    x * 1024 + y * 32 + z
}

impl Position<LocalBU> {
    /// The flat block index of this chunk-local position, each axis taken modulo `CHUNK_SIZE`.
    pub fn into_vec_pos(self) -> (r: usize)
        ensures
            r == flat_index(self.x.0 as int % 32, self.y.0 as int % 32, self.z.0 as int % 32),
            r < CHUNK_BLOCKS,
    {
        let x = (self.x.0 % 32) as usize;
        let y = (self.y.0 % 32) as usize;
        let z = (self.z.0 % 32) as usize;
        x * 1024 + y * 32 + z
    }
}

/// The extent of a viewport.
#[derive(Clone, Copy, Debug, PartialEq, Eq, Structural)]
pub struct Dimension<T> {
    pub height: T,
    pub width: T,
}

impl<T: Copy> Dimension<T> {
    pub fn new(height: T, width: T) -> (r: Self)
        ensures
            r.height == height,
            r.width == width,
    {
        Dimension { height, width }
    }

    pub fn resize(&mut self, height: T, width: T)
        ensures
            final(self).height == height,
            final(self).width == width,
    {
        self.height = height;
        self.width = width;
    }
}

/// A segment between two points.
#[derive(Clone, Copy, Debug, PartialEq, Eq, Structural)]
pub struct Line<T> {
    pub a: Position<T>,
    pub b: Position<T>,
}

impl<T: Copy> Line<T> {
    pub fn new(a: Position<T>, b: Position<T>) -> (r: Self)
        ensures
            r.a == a,
            r.b == b,
    {
        Line { a, b }
    }
}

/// The six faces of a block, or the six directions out of a chunk.
#[derive(Clone, Copy, Debug, PartialEq, Eq, Structural)]
pub enum BlockFace {
    Top,
    Bottom,
    Left,
    Right,
    Front,
    Back,
}

/// Block -> chunk -> block keeps the first block of the chunk that holds `n`:
/// the result is the chunk floor of `n`, at most `n` and less than 32 below it.
pub proof fn lemma_block_chunk_round_trip(n: BlockUnit)
    ensures
        chunk_coord_ok(n.0 as int / CHUNK_SIZE as int),
        (n.0 as int / CHUNK_SIZE as int) * CHUNK_SIZE as int <= n.0,
        n.0 < (n.0 as int / CHUNK_SIZE as int) * CHUNK_SIZE as int + CHUNK_SIZE as int,
        (n.0 as int / CHUNK_SIZE as int) * CHUNK_SIZE as int == n.0 - n.0 as int % CHUNK_SIZE as int,
{
    vstd::arithmetic::div_mod::lemma_fundamental_div_mod(n.0 as int, 32);
    vstd::arithmetic::div_mod::lemma_mod_bound(n.0 as int, 32);
}

} // verus!
