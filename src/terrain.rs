//! Seeded terrain synthesis: banded block columns over a heightmap, with grass and
//! flower decoration drawn from a PCG generator (oorandom's `Rand64`).
use vstd::prelude::*;
use vstd::string::StringSliceAdditionalSpecFns;
use crate::block::{Block, BlockRegistry, has_name, lookup_spec};
use crate::units::{ChunkUnit, Position, chunk_coord_ok, CHUNK_BLOCKS};

verus! {

/// The increment that `Rand64::new` sets: `DEFAULT_INC << 1 | 1` (odd).
pub const PCG_INC: u128 = 127282724476935860102885390081777926815;

/// The multiplier of `Rand64`'s state step.
pub const PCG_MULTIPLIER: u128 = 47026247687942121848144207491837523525;

/// The saved state of `Rand64::new(seed)`: from state 0 one step gives `inc`, the seed
/// is added, and one more step gives `(inc + seed) * M + inc`, all modulo 2^128.
pub open spec fn seeded_state(seed: u128) -> (u128, u128) {
    (
        (((PCG_INC as int + seed as int) * PCG_MULTIPLIER as int + PCG_INC as int)
            % 340282366920938463463374607431768211456int) as u128,
        PCG_INC,
    )
}

/// What `Rand64::rand_range(lo..hi)` returns from a generator in `state`, with the state after it.
pub uninterp spec fn pcg_range(state: (u128, u128), lo: u64, hi: u64) -> (u64, (u128, u128));

/// Relies on `oorandom::Rand64::new` (read back with `Rand64::state`): the saved state
/// of the generator that a seed makes.
#[verifier::external_body]
fn rng_from_seed(seed: u128) -> (r: (u128, u128))
    ensures
        r == seeded_state(seed),
{
    oorandom::Rand64::new(seed).state()
}

/// Relies on `oorandom::Rand64::rand_range` (on a generator rebuilt with
/// `Rand64::from_state`): a value in `lo..hi` and the advanced state, both fixed by
/// the state and the bounds; the increment (second half of the state) is kept. With an
/// odd increment the generator has full period, so the rejection loop ends.
#[verifier::external_body]
fn rng_range(state: (u128, u128), lo: u64, hi: u64) -> (r: (u64, (u128, u128)))
    requires
        lo < hi,
        state.1 % 2 == 1,
    ensures
        r == pcg_range(state, lo, hi),
        lo <= r.0 < hi,
        r.1.1 == state.1,
{
    let mut g = oorandom::Rand64::from_state(state);
    let v = g.rand_range(lo..hi);
    (v, g.state())
}

/// The world's nominal ground level, in blocks.
pub const GROUND_LEVEL: i64 = 64;

/// The block kinds that terrain is made of.
#[derive(Clone, Copy, Debug)]
pub struct TerrainPalette {
    pub air: Block,
    pub grass: Block,
    pub flower: Block,
    pub grass_block: Block,
    pub sand: Block,
    pub dirt: Block,
    pub stone: Block,
}

/// Surface height of a column whose heightmap value is `h`.
pub open spec fn surface(h: u32) -> int {
    GROUND_LEVEL + h - 10
}

/// Band of global height `y` in a column with surface `s`, from the top:
/// 0 air above, 1 the decorated surface, 2 the top soil, 3 the subsoil, 4 stone.
pub open spec fn band(y: int, s: int) -> int {
    if y > s {
        0
    } else if y == s {
        1
    } else if y == s - 1 {
        2
    } else if y >= s - 3 {
        3
    } else {
        4
    }
}

/// The surface decoration: grass one time in ten, else flower one time in fifty, else air.
pub open spec fn decorate(p: TerrainPalette, st: (u128, u128)) -> (Block, (u128, u128)) {
    let (a, st1) = pcg_range(st, 0, 10);
    if a == 0 {
        (p.grass, st1)
    } else {
        let (b, st2) = pcg_range(st1, 0, 50);
        if b == 0 {
            (p.flower, st2)
        } else {
            (p.air, st2)
        }
    }
}

/// The block at global height `y` in a column with surface `s` (sand in place of grass
/// block and dirt where the surface lies below ground level), and the generator state after it.
pub open spec fn terrain_block(p: TerrainPalette, y: int, s: int, st: (u128, u128)) -> (Block, (u128, u128)) {
    let b = band(y, s);
    if b == 1 {
        decorate(p, st)
    } else if b == 2 {
        (if s < GROUND_LEVEL { p.sand } else { p.grass_block }, st)
    } else if b == 3 {
        (if s < GROUND_LEVEL { p.sand } else { p.dirt }, st)
    } else if b == 4 {
        (p.stone, st)
    } else {
        (p.air, st)
    }
}

/// The first `n` blocks (flat index order) of the chunk at `pos` over heightmap `hm`
/// (indexed `x * 32 + z`), and the generator state after them.
pub open spec fn terrain_upto(
    p: TerrainPalette,
    pos: Position<ChunkUnit>,
    hm: Seq<u32>,
    st: (u128, u128),
    n: int,
) -> (Seq<Block>, (u128, u128))
    decreases n,
{
    if n <= 0 {
        (Seq::empty(), st)
    } else {
        let m = n - 1;
        let prev = terrain_upto(p, pos, hm, st, m);
        let next = terrain_block(p, pos.y.0 * 32 + (m / 32) % 32, surface(hm[(m / 1024) * 32 + m % 32]), prev.1);
        (prev.0.push(next.0), next.1)
    }
}

/// None of the palette's kinds is the null block (identifier 0).
pub open spec fn palette_ok(p: TerrainPalette) -> bool {
    &&& p.air.id.0 >= 1
    &&& p.grass.id.0 >= 1
    &&& p.flower.id.0 >= 1
    &&& p.grass_block.id.0 >= 1
    &&& p.sand.id.0 >= 1
    &&& p.dirt.id.0 >= 1
    &&& p.stone.id.0 >= 1
}

/// A terrain generator: its palette and its seed. Every chunk is drawn from the
/// generator as the seed makes it, so a chunk depends on seed, position and heightmap alone.
pub struct Terrain {
    palette: TerrainPalette,
    seed: u128,
}

pub ghost struct TerrainView {
    pub palette: TerrainPalette,
    pub seed: u128,
}

impl Terrain {
    /// No palette kind is the null block.
    #[verifier::type_invariant]
    spec fn inv(&self) -> bool {
        palette_ok(self.palette)
    }
}

impl View for Terrain {
    type V = TerrainView;

    closed spec fn view(&self) -> TerrainView {
        TerrainView { palette: self.palette, seed: self.seed }
    }
}

/// Whether some kind of `s` carries `name`.
pub open spec fn named(s: Seq<Block>, name: &str) -> bool {
    exists|i: int| 0 <= i < s.len() && has_name(#[trigger] s[i], name.spec_bytes())
}

/// Whether `b` is the first kind of `s` that carries `name`.
pub open spec fn first_named(s: Seq<Block>, name: &str, b: Block) -> bool {
    exists|k: int| lookup_spec(s, name.spec_bytes(), Some(k)) && s[k] == b
}

impl TerrainPalette {
    /// The palette of a catalog that holds all seven terrain kinds by name.
    pub fn from_registry(reg: &BlockRegistry) -> (r: Option<TerrainPalette>)
        requires
            reg.wf(),
        ensures
            r is Some <==> (named(reg@, "air") && named(reg@, "grass") && named(reg@, "flower") && named(
                reg@,
                "grass_block",
            ) && named(reg@, "sand") && named(reg@, "dirt") && named(reg@, "stone")),
            r matches Some(p) ==> palette_ok(p),
            r matches Some(p) ==> first_named(reg@, "air", p.air) && first_named(reg@, "grass", p.grass)
                && first_named(reg@, "flower", p.flower) && first_named(reg@, "grass_block", p.grass_block)
                && first_named(reg@, "sand", p.sand) && first_named(reg@, "dirt", p.dirt) && first_named(
                reg@,
                "stone",
                p.stone,
            ),
    {
        proof {
            crate::block::lemma_registry_ids(reg);
        }
        let air = reg.get_block("air");
        let grass = reg.get_block("grass");
        let flower = reg.get_block("flower");
        let grass_block = reg.get_block("grass_block");
        let sand = reg.get_block("sand");
        let dirt = reg.get_block("dirt");
        let stone = reg.get_block("stone");
        match (air, grass, flower, grass_block, sand, dirt, stone) {
            (Some(air), Some(grass), Some(flower), Some(grass_block), Some(sand), Some(dirt), Some(stone)) => Some(
                TerrainPalette { air, grass, flower, grass_block, sand, dirt, stone },
            ),
            _ => None,
        }
    }
}

impl Terrain {
    /// A generator seeded with `seed`; the same seed always gives the same world.
    /// `None` when a palette kind is the null block.
    pub fn new(seed: u128, palette: TerrainPalette) -> (r: Option<Self>)
        ensures
            r is Some <==> palette_ok(palette),
            r matches Some(t) ==> t@.palette == palette && t@.seed == seed && palette_ok(t@.palette),
    {
        if palette.air.id.0 >= 1 && palette.grass.id.0 >= 1 && palette.flower.id.0 >= 1
            && palette.grass_block.id.0 >= 1 && palette.sand.id.0 >= 1 && palette.dirt.id.0 >= 1
            && palette.stone.id.0 >= 1 {
            Some(Terrain { palette, seed })
        } else {
            None
        }
    }

    pub fn seed(&self) -> (r: u128)
        ensures
            r == self@.seed,
    {
        self.seed
    }

    /// The blocks of the chunk at `pos`, in flat index order, from the heightmap of its
    /// 32 x 32 columns (value of column `(x, z)` at `x * 32 + z`). Decoration is drawn
    /// from the generator of the seed, so repeated calls give identical chunks.
    pub fn generate_chunk(&self, pos: Position<ChunkUnit>, heightmap: &Vec<u32>) -> (r: Vec<Block>)
        requires
            heightmap@.len() == 1024,
            chunk_coord_ok(pos.y.0 as int),
        ensures
            r@.len() == CHUNK_BLOCKS,
            r@ == terrain_upto(self@.palette, pos, heightmap@, seeded_state(self@.seed), CHUNK_BLOCKS as int).0,
            palette_ok(self@.palette),
            forall|i: int| 0 <= i < r@.len() ==> (#[trigger] r@[i]).id.0 >= 1,
    {
        proof {
            use_type_invariant(self);
        }
        let gy = pos.y.0 * 32;
        let mut st = rng_from_seed(self.seed);
        let p = self.palette;
        let mut out: Vec<Block> = Vec::new();
        let mut n: usize = 0;
        while n < CHUNK_BLOCKS
            invariant
                heightmap@.len() == 1024,
                gy == pos.y.0 * 32,
                chunk_coord_ok(pos.y.0 as int),
                p == self@.palette,
                n <= CHUNK_BLOCKS,
                out@.len() == n,
                st.1 == PCG_INC,
                (out@, st) == terrain_upto(p, pos, heightmap@, seeded_state(self@.seed), n as int),
                palette_ok(p),
                forall|i: int| 0 <= i < out@.len() ==> (#[trigger] out@[i]).id.0 >= 1,
            decreases CHUNK_BLOCKS - n,
        {
            let lx = n / 1024;
            let ly = (n / 32) % 32;
            let lz = n % 32;
            let y = gy + ly as i64;
            let s = GROUND_LEVEL + heightmap[lx * 32 + lz] as i64 - 10;
            let b = if y > s {
                p.air
            } else if y == s {
                let (a, st1) = rng_range(st, 0, 10);
                if a == 0 {
                    st = st1;
                    p.grass
                } else {
                    let (c, st2) = rng_range(st1, 0, 50);
                    st = st2;
                    if c == 0 {
                        p.flower
                    } else {
                        p.air
                    }
                }
            } else if y == s - 1 {
                if s < GROUND_LEVEL {
                    p.sand
                } else {
                    p.grass_block
                }
            } else if y >= s - 3 {
                if s < GROUND_LEVEL {
                    p.sand
                } else {
                    p.dirt
                }
            } else {
                p.stone
            };
            out.push(b);
            n = n + 1;
        }
        out
    }
}

/// The kinds that band `k` of a column with surface `s` may hold.
pub open spec fn band_holds(p: TerrainPalette, k: int, s: int, b: Block) -> bool {
    if k == 0 {
        b == p.air
    } else if k == 1 {
        b == p.grass || b == p.flower || b == p.air
    } else if k == 2 {
        b == (if s < GROUND_LEVEL { p.sand } else { p.grass_block })
    } else if k == 3 {
        b == (if s < GROUND_LEVEL { p.sand } else { p.dirt })
    } else {
        b == p.stone
    }
}

/// Walking a column from top to bottom never goes back up the band order
/// air, surface decoration, grass block or sand, dirt or sand, stone; and every block
/// generated for a chunk belongs to the band of its height in its column.
pub proof fn lemma_terrain_bands(
    p: TerrainPalette,
    pos: Position<ChunkUnit>,
    hm: Seq<u32>,
    st: (u128, u128),
    n: int,
    y1: int,
    y2: int,
    s: int,
)
    requires
        hm.len() == 1024,
        0 <= n <= CHUNK_BLOCKS,
        y1 >= y2,
    ensures
        band(y1, s) <= band(y2, s),
        terrain_upto(p, pos, hm, st, n).0.len() == n,
        forall|m: int| 0 <= m < n ==> band_holds(
            p,
            band(pos.y.0 * 32 + (m / 32) % 32, surface(hm[(m / 1024) * 32 + m % 32])),
            surface(hm[(m / 1024) * 32 + m % 32]),
            #[trigger] terrain_upto(p, pos, hm, st, n).0[m],
        ),
    decreases n,
{
    if n > 0 {
        lemma_terrain_bands(p, pos, hm, st, n - 1, y1, y2, s);
        let prev = terrain_upto(p, pos, hm, st, n - 1);
        let cur = terrain_upto(p, pos, hm, st, n);
        assert forall|m: int| 0 <= m < n implies band_holds(
            p,
            band(pos.y.0 * 32 + (m / 32) % 32, surface(hm[(m / 1024) * 32 + m % 32])),
            surface(hm[(m / 1024) * 32 + m % 32]),
            #[trigger] cur.0[m],
        ) by {
            if m < n - 1 {
                assert(cur.0[m] == prev.0[m]);
            }
        }
    }
}

/// Generation is a function of the seed, the palette, the chunk position and the
/// heightmap: any two generators with one seed and palette, and any two calls of one
/// generator, give byte-identical chunks.
pub proof fn lemma_generation_deterministic(
    t1: TerrainView,
    t2: TerrainView,
    pos: Position<ChunkUnit>,
    hm: Seq<u32>,
)
    requires
        t1.seed == t2.seed,
        t1.palette == t2.palette,
    ensures
        terrain_upto(t1.palette, pos, hm, seeded_state(t1.seed), CHUNK_BLOCKS as int).0 == terrain_upto(
            t2.palette,
            pos,
            hm,
            seeded_state(t2.seed),
            CHUNK_BLOCKS as int,
        ).0,
{
}

/// `s` with element `k` replaced by the last one and the last one dropped.
pub open spec fn swap_removed(s: Seq<u32>, k: int) -> Seq<u32> {
    s.update(k, s.last()).drop_last()
}

/// The Fisher-Yates draw order of `scratch`: each step draws an index below the
/// remaining length, takes that element and moves the last one into its place; the
/// final element follows without a draw.
pub open spec fn shuffle(scratch: Seq<u32>, st: (u128, u128)) -> Seq<u32>
    decreases scratch.len(),
{
    if scratch.len() <= 1 {
        scratch
    } else {
        let (roll, st1) = pcg_range(st, 0, #[verifier::truncate] (scratch.len() as u64));
        let k = if (roll as int) < scratch.len() { roll as int } else { 0 };
        seq![scratch[k]] + shuffle(swap_removed(scratch, k), st1)
    }
}

/// The draw order holds exactly the elements of `scratch`.
pub proof fn lemma_shuffle_permutes(scratch: Seq<u32>, st: (u128, u128))
    ensures
        shuffle(scratch, st).to_multiset() =~= scratch.to_multiset(),
    decreases scratch.len(),
{
    broadcast use vstd::multiset::group_multiset_axioms, vstd::seq_lib::group_to_multiset_ensures;

    if scratch.len() > 1 {
        let (roll, st1) = pcg_range(st, 0, #[verifier::truncate] (scratch.len() as u64));
        let k = if (roll as int) < scratch.len() { roll as int } else { 0 };
        let last = scratch.last();
        let u = scratch.update(k, last);
        let rest = swap_removed(scratch, k);
        lemma_shuffle_permutes(rest, st1);
        vstd::seq_lib::to_multiset_update(scratch, k, last);
        assert(u =~= rest.push(last));
        vstd::seq_lib::to_multiset_build(rest, last);
        assert(scratch.contains(scratch[k]));
        assert(scratch.to_multiset().count(scratch[k]) > 0);
        assert forall|x: u32| rest.to_multiset().count(x) == scratch.to_multiset().remove(scratch[k]).count(x) by {
            assert(u.to_multiset().count(x) == rest.to_multiset().insert(last).count(x));
            assert(u.to_multiset().count(x) == scratch.to_multiset().insert(last).remove(scratch[k]).count(x));
        }
        assert(rest.to_multiset() =~= scratch.to_multiset().remove(scratch[k]));
        vstd::seq_lib::lemma_multiset_commutative(seq![scratch[k]], shuffle(rest, st1));
        vstd::seq_lib::to_multiset_build(Seq::<u32>::empty(), scratch[k]);
        assert(seq![scratch[k]] =~= Seq::<u32>::empty().push(scratch[k]));
        assert(scratch.to_multiset().count(scratch[k]) > 0);
    }
}

/// `1, 2, ..., n`.
pub open spec fn one_to(n: nat) -> Seq<u32> {
    Seq::new(n, |i: int| (i + 1) as u32)
}

/// The permutation table of the noise: `1..=n` shuffled by the generator in `state`.
pub fn permutation(state: (u128, u128), n: u32) -> (r: Vec<u32>)
    requires
        state.1 % 2 == 1,
    ensures
        r@ == shuffle(one_to(n as nat), state),
        r@.len() == n,
        r@.to_multiset() == one_to(n as nat).to_multiset(),
{
    proof {
        lemma_shuffle_permutes(one_to(n as nat), state);
    }
    let mut scratch: Vec<u32> = Vec::new();
    let mut k: u32 = 0;
    while k < n
        invariant
            k <= n,
            scratch@ == one_to(k as nat),
        decreases n - k,
    {
        scratch.push(k + 1);
        proof {
            assert(scratch@ =~= one_to((k + 1) as nat));
        }
        k = k + 1;
    }
    let mut result: Vec<u32> = Vec::new();
    let mut st = state;
    while scratch.len() > 1
        invariant
            result@ + shuffle(scratch@, st) == shuffle(one_to(n as nat), state),
            result@.len() + scratch@.len() == n,
            st.1 == state.1,
            state.1 % 2 == 1,
        decreases scratch@.len(),
    {
        let len = scratch.len();
        let (roll, st1) = rng_range(st, 0, len as u64);
        let k = roll as usize;
        let ghost before = scratch@;
        result.push(scratch[k]);
        scratch.swap_remove(k);
        proof {
            assert(scratch@ =~= swap_removed(before, k as int));
            assert(shuffle(before, st) == seq![before[k as int]] + shuffle(swap_removed(before, k as int), st1));
            assert(result@ + shuffle(scratch@, st1) =~= result@.drop_last() + shuffle(before, st));
        }
        st = st1;
    }
    if scratch.len() == 1 {
        result.push(scratch[0]);
        proof {
            assert(shuffle(scratch@, st) == scratch@);
            assert(result@ =~= result@.drop_last() + scratch@);
        }
    } else {
        proof {
            assert(result@ =~= result@ + shuffle(scratch@, st));
        }
    }
    result
}

/// The noise permutation table of a seed: `1..=256` shuffled by `Rand64::new(seed)`.
pub fn perlin_permutation(seed: u128) -> (r: Vec<u32>)
    ensures
        r@ == shuffle(one_to(256), seeded_state(seed)),
        r@.len() == 256,
{
    permutation(rng_from_seed(seed), 256)
}

/// Index into the eight gradient directions for lattice point `(x, y)`:
/// `p[(p[x & 255] + (y & 255)) & 255] % 8`.
pub fn gradient_index(p: &Vec<u32>, x: u32, y: u32) -> (r: usize)
    requires
        p@.len() == 256,
    ensures
        r == p@[(((p@[(x & 255) as int] as u64 + (y & 255) as u64) as u64) & 255u64) as int] % 8,
        r < 8,
{
    let a = x & 255;
    let b = y & 255;
    assert(a < 256 && b < 256) by (bit_vector)
        requires
            a == x & 255,
            b == y & 255,
    ;
    let s: u64 = p[a as usize] as u64 + b as u64;
    let i = s & 255;
    assert(i < 256) by (bit_vector)
        requires
            i == s & 255,
    ;
    (p[i as usize] % 8) as usize
}

} // verus!
