//! Block kinds and the append-only block catalog.
use vstd::prelude::*;
use vstd::string::StringSliceAdditionalSpecFns;
use crate::units::BlockFace;

verus! {

/// Identifier of a block kind; kinds are numbered from 1, and 0 is the null block.
#[derive(Clone, Copy, Debug, PartialEq, Eq, Structural)]
pub struct BlockID(pub u32);

/// Index of a texture in the texture array.
#[derive(Clone, Copy, Debug, PartialEq, Eq, Structural)]
pub struct TextureID(pub u16);

/// Phase of matter of a block.
#[derive(Clone, Copy, Debug, PartialEq, Eq, Structural)]
pub enum Matter {
    Liquid,
    Solid,
    Gas,
}

/// Flags of a block kind.
#[derive(Clone, Copy, Debug, PartialEq, Eq, Structural)]
pub struct BlockState {
    pub matter: Matter,
    pub transparent: bool,
    pub placeable: bool,
    pub breakable: bool,
}

impl Default for BlockState {
    /// A solid, opaque, placeable and breakable block.
    fn default() -> (r: Self)
        ensures
            r == (BlockState { matter: Matter::Solid, transparent: false, placeable: true, breakable: true }),
    {
        BlockState { matter: Matter::Solid, transparent: false, placeable: true, breakable: true }
    }
}

/// The visual archetype of a block, with its texture indices.
#[derive(Clone, Copy, Debug, PartialEq, Eq, Structural)]
pub enum MeshType {
    /// Placeholder while an array is being built; never in a finished chunk.
    Null,
    /// The absence of a block.
    Air,
    /// A unit cube with one texture per face.
    Cube {
        top: TextureID,
        bottom: TextureID,
        left: TextureID,
        right: TextureID,
        front: TextureID,
        back: TextureID,
    },
    /// Two crossed quads; `positive` faces (+x,+y), `negative` faces (-x,-y).
    FloraX { positive: TextureID, negative: TextureID },
}

/// A cube with one texture on all six faces.
pub open spec fn uniform_cube(t: TextureID) -> MeshType {
    MeshType::Cube { top: t, bottom: t, left: t, right: t, front: t, back: t }
}

impl MeshType {
    /// A cube with the same texture on all six faces.
    pub fn cube_all(name: TextureID) -> (r: Self)
        ensures
            r == (MeshType::Cube {
                top: name,
                bottom: name,
                left: name,
                right: name,
                front: name,
                back: name,
            }),
    {
        MeshType::Cube { top: name, bottom: name, left: name, right: name, front: name, back: name }
    }

    /// A cube with `name` on every face but `side`, which has `single`.
    pub fn cube_except_one(name: TextureID, single: TextureID, side: BlockFace) -> (r: Self)
        ensures
            r == (MeshType::Cube {
                top: if side == BlockFace::Top { single } else { name },
                bottom: if side == BlockFace::Bottom { single } else { name },
                left: if side == BlockFace::Left { single } else { name },
                right: if side == BlockFace::Right { single } else { name },
                front: if side == BlockFace::Front { single } else { name },
                back: if side == BlockFace::Back { single } else { name },
            }),
    {
        MeshType::Cube {
            top: if side == BlockFace::Top { single } else { name },
            bottom: if side == BlockFace::Bottom { single } else { name },
            left: if side == BlockFace::Left { single } else { name },
            right: if side == BlockFace::Right { single } else { name },
            front: if side == BlockFace::Front { single } else { name },
            back: if side == BlockFace::Back { single } else { name },
        }
    }

    /// A cube with its six textures given one by one.
    pub fn cube_individual(
        top: TextureID,
        bottom: TextureID,
        left: TextureID,
        right: TextureID,
        front: TextureID,
        back: TextureID,
    ) -> (r: Self)
        ensures
            r == (MeshType::Cube { top, bottom, left, right, front, back }),
    {
        MeshType::Cube { top, bottom, left, right, front, back }
    }
}

/// A block kind: identifier, name, mesh shape and flags.
#[derive(Clone, Copy, Debug)]
pub struct Block {
    pub id: BlockID,
    pub name: &'static str,
    pub mesh: MeshType,
    pub state: BlockState,
}

impl Block {
    pub fn new(id: BlockID, name: &'static str, mesh: MeshType, state: BlockState) -> (r: Self)
        ensures
            r.id == id,
            r.name == name,
            r.mesh == mesh,
            r.state == state,
    {
        Block { id, name, mesh, state }
    }

    /// The placeholder block (id 0, null mesh, default flags).
    pub fn null() -> (r: Self)
        ensures
            r.id == BlockID(0),
            r.name == "null",
            r.mesh == MeshType::Null,
            r.state == (BlockState { matter: Matter::Solid, transparent: false, placeable: true, breakable: true }),
    {
        Block { id: BlockID(0), name: "null", mesh: MeshType::Null, state: BlockState::default() }
    }
}

/// Whether a block carries the given name (compared byte for byte).
pub open spec fn has_name(b: Block, name: Seq<u8>) -> bool {
    b.name.spec_bytes() == name
}

/// Block kinds numbered 1, 2, 3, ... in catalog order.
pub open spec fn ids_sequential(s: Seq<Block>) -> bool {
    forall|i: int| 0 <= i < s.len() ==> #[trigger] s[i].id.0 == i + 1
}

/// What a name lookup over `s` gives: the first kind with that name, if any.
pub open spec fn lookup_spec(s: Seq<Block>, name: Seq<u8>, r: Option<int>) -> bool {
    match r {
        None => forall|i: int| 0 <= i < s.len() ==> !has_name(#[trigger] s[i], name),
        Some(k) => 0 <= k < s.len() && has_name(s[k], name) && forall|j: int|
            0 <= j < k ==> !has_name(#[trigger] s[j], name),
    }
}

/// Byte-wise equality of two strings.
fn same_name(a: &str, b: &str) -> (r: bool)
    ensures
        r == (a.spec_bytes() == b.spec_bytes()),
{
    let x = a.as_bytes();
    let y = b.as_bytes();
    if x.len() != y.len() {
        return false;
    }
    let mut i: usize = 0;
    while i < x.len()
        invariant
            x@ == a.spec_bytes(),
            y@ == b.spec_bytes(),
            x@.len() == y@.len(),
            0 <= i <= x@.len(),
            forall|j: int| 0 <= j < i ==> x@[j] == y@[j],
        decreases x@.len() - i,
    {
        if x[i] != y[i] {
            return false;
        }
        i = i + 1;
    }
    proof {
        assert(x@ =~= y@);
    }
    true
}

/// Texture indices that the standard catalog needs, resolved by name at startup.
#[derive(Clone, Copy, Debug, PartialEq, Eq, Structural)]
pub struct DefaultTextures {
    pub grass_side: TextureID,
    pub grass_top: TextureID,
    pub dirt: TextureID,
    pub sand: TextureID,
    pub stone: TextureID,
    pub grass_flora: TextureID,
    pub flower: TextureID,
}

/// Append-only catalog of block kinds, numbered from 1.
pub struct BlockRegistry {
    blocks: Vec<Block>,
    id_counter: u32,
}

impl View for BlockRegistry {
    type V = Seq<Block>;

    closed spec fn view(&self) -> Seq<Block> {
        self.blocks@
    }
}

impl BlockRegistry {
    pub closed spec fn wf(&self) -> bool {
        &&& ids_sequential(self.blocks@)
        &&& self.id_counter == self.blocks@.len() + 1
    }

    /// An empty catalog.
    pub fn empty() -> (r: Self)
        ensures
            r.wf(),
            r@ == Seq::<Block>::empty(),
    {
        BlockRegistry { blocks: Vec::new(), id_counter: 1 }
    }

    /// The standard catalog: air, dirt, grass_block, stone, sand, grass, flower (ids 1 to 7).
    pub fn new(t: &DefaultTextures) -> (r: Self)
        ensures
            r.wf(),
            r@.len() == 7,
            ids_sequential(r@),
            r@[0].name == "air" && r@[0].mesh == MeshType::Air && r@[0].state.transparent
                && r@[0].state.matter == Matter::Gas,
            r@[1].name == "dirt" && r@[1].mesh == uniform_cube(t.dirt) && !r@[1].state.transparent,
            r@[2].name == "grass_block" && r@[2].mesh == (MeshType::Cube {
                top: t.grass_top,
                bottom: t.dirt,
                left: t.grass_side,
                right: t.grass_side,
                front: t.grass_side,
                back: t.grass_side,
            }) && !r@[2].state.transparent,
            r@[3].name == "stone" && r@[3].mesh == uniform_cube(t.stone) && !r@[3].state.transparent,
            r@[4].name == "sand" && r@[4].mesh == uniform_cube(t.sand) && !r@[4].state.transparent,
            r@[5].name == "grass" && r@[5].mesh == (MeshType::FloraX {
                positive: t.grass_flora,
                negative: t.grass_flora,
            }) && r@[5].state.transparent,
            r@[6].name == "flower" && r@[6].mesh == (MeshType::FloraX {
                positive: t.flower,
                negative: t.flower,
            }) && r@[6].state.transparent,
    {
        let mut reg = BlockRegistry::empty();
        let solid = BlockState::default();
        let see_through = BlockState { transparent: true, ..solid };
        reg.add_block("air", MeshType::Air, BlockState { matter: Matter::Gas, ..see_through });
        reg.add_block("dirt", MeshType::cube_all(t.dirt), solid);
        reg.add_block(
            "grass_block",
            MeshType::cube_individual(
                t.grass_top,
                t.dirt,
                t.grass_side,
                t.grass_side,
                t.grass_side,
                t.grass_side,
            ),
            solid,
        );
        reg.add_block("stone", MeshType::cube_all(t.stone), solid);
        reg.add_block("sand", MeshType::cube_all(t.sand), solid);
        reg.add_block(
            "grass",
            MeshType::FloraX { positive: t.grass_flora, negative: t.grass_flora },
            see_through,
        );
        reg.add_block("flower", MeshType::FloraX { positive: t.flower, negative: t.flower }, see_through);
        reg
    }

    /// Number of kinds in the catalog.
    pub fn len(&self) -> (r: usize)
        requires
            self.wf(),
        ensures
            r == self@.len(),
    {
        self.blocks.len()
    }

    /// Appends a kind under the next free identifier.
    pub fn add_block(&mut self, name: &'static str, mesh: MeshType, state: BlockState)
        requires
            old(self).wf(),
            old(self)@.len() + 2 <= u32::MAX,
        ensures
            final(self).wf(),
            final(self)@ == old(self)@.push(
                Block { id: BlockID((old(self)@.len() + 1) as u32), name, mesh, state },
            ),
    {
        let id = BlockID(self.id_counter);
        self.blocks.push(Block { id, name, mesh, state });
        self.id_counter = self.id_counter + 1;
        proof {
            assert forall|i: int| 0 <= i < self.blocks@.len() implies #[trigger] self.blocks@[i].id.0
                == i + 1 by {
                if i < old(self).blocks@.len() {
                    assert(self.blocks@[i] == old(self).blocks@[i]);
                }
            }
        }
    }

    /// Position of the first kind with the given name.
    fn find(&self, name: &str) -> (r: Option<usize>)
        requires
            self.wf(),
        ensures
            lookup_spec(self@, name.spec_bytes(), match r {
                Some(k) => Some(k as int),
                None => None,
            }),
    {
        let mut i: usize = 0;
        while i < self.blocks.len()
            invariant
                0 <= i <= self.blocks@.len(),
                forall|j: int| 0 <= j < i ==> !has_name(#[trigger] self.blocks@[j], name.spec_bytes()),
            decreases self.blocks@.len() - i,
        {
            if same_name(self.blocks[i].name, name) {
                return Some(i);
            }
            i = i + 1;
        }
        None
    }

    /// Identifier of the first kind with the given name, if any.
    pub fn block_id(&self, name: &str) -> (r: Option<BlockID>)
        requires
            self.wf(),
        ensures
            r is None <==> (forall|i: int| 0 <= i < self@.len() ==> !has_name(#[trigger] self@[i], name.spec_bytes())),
            r matches Some(id) ==> lookup_spec(self@, name.spec_bytes(), Some(id.0 - 1)),
    {
        match self.find(name) {
            Some(k) => Some(self.blocks[k].id),
            None => None,
        }
    }

    /// The first kind with the given name, if any.
    pub fn get_block(&self, name: &str) -> (r: Option<Block>)
        requires
            self.wf(),
        ensures
            r is None <==> (forall|i: int| 0 <= i < self@.len() ==> !has_name(#[trigger] self@[i], name.spec_bytes())),
            r matches Some(b) ==> exists|k: int| lookup_spec(self@, name.spec_bytes(), Some(k)) && b == self@[k],
    {
        match self.find(name) {
            Some(k) => Some(self.blocks[k]),
            None => None,
        }
    }

    /// The first kind with the given name, which must be in the catalog.
    pub fn block(&self, name: &str) -> (r: Block)
        requires
            self.wf(),
            exists|i: int| 0 <= i < self@.len() && has_name(#[trigger] self@[i], name.spec_bytes()),
        ensures
            exists|k: int| lookup_spec(self@, name.spec_bytes(), Some(k)) && r == self@[k],
    {
        match self.find(name) {
            Some(k) => self.blocks[k],
            None => self.blocks[0],
        }
    }

    /// The kind with the given identifier, if it is in the catalog.
    pub fn by_id(&self, id: BlockID) -> (r: Option<Block>)
        requires
            self.wf(),
        ensures
            1 <= id.0 <= self@.len() ==> r == Some(self@[id.0 - 1]),
            !(1 <= id.0 <= self@.len()) ==> r is None,
    {
        if 1 <= id.0 && (id.0 as usize) <= self.blocks.len() {
            Some(self.blocks[(id.0 - 1) as usize])
        } else {
            None
        }
    }
}

/// The kinds of a well-formed catalog are numbered 1, 2, 3, ... in order.
pub proof fn lemma_registry_ids(reg: &BlockRegistry)
    requires
        reg.wf(),
    ensures
        ids_sequential(reg@),
{
}

} // verus!
