//! Block materials and the material selections used when smoothing terrain.

use vstd::prelude::*;
use vstd::std_specs::hash::*;
use std::collections::HashSet;

verus! {

/// The closed set of materials a block can be made of.
///
/// The position of a variant in this list is the number by which shaders and
/// the texture atlas know it; see [`BlockType::index`].
#[derive(Clone, Copy, PartialEq, Eq, Debug, Hash, Structural)]
pub enum BlockType {
    Air,
    Dirt,
    Grass,
    Stone,
    Wood,
    Leaves,
    Sand,
    Ore,
    Water,
    Lava,
    Planks,
    DarkStone,
    RedSand,
    Cobblestone,
    Glass,
    Unknown,
}

/// Number of materials; one more than the index of `Unknown`.
pub const BLOCK_TYPES: usize = 16;

/// The texture atlas is a square of this many cells per side.
pub const PALLETTE_SIZE: usize = 4;

impl BlockType {
    /// The number of this material.
    pub open spec fn spec_index(self) -> int {
        match self {
            BlockType::Air => 0,
            BlockType::Dirt => 1,
            BlockType::Grass => 2,
            BlockType::Stone => 3,
            BlockType::Wood => 4,
            BlockType::Leaves => 5,
            BlockType::Sand => 6,
            BlockType::Ore => 7,
            BlockType::Water => 8,
            BlockType::Lava => 9,
            BlockType::Planks => 10,
            BlockType::DarkStone => 11,
            BlockType::RedSand => 12,
            BlockType::Cobblestone => 13,
            BlockType::Glass => 14,
            BlockType::Unknown => 15,
        }
    }

    /// The number of this material, below [`BLOCK_TYPES`].
    pub fn index(self) -> (i: usize)
        ensures
            i == self.spec_index(),
            i < BLOCK_TYPES,
    {
        match self {
            BlockType::Air => 0,
            BlockType::Dirt => 1,
            BlockType::Grass => 2,
            BlockType::Stone => 3,
            BlockType::Wood => 4,
            BlockType::Leaves => 5,
            BlockType::Sand => 6,
            BlockType::Ore => 7,
            BlockType::Water => 8,
            BlockType::Lava => 9,
            BlockType::Planks => 10,
            BlockType::DarkStone => 11,
            BlockType::RedSand => 12,
            BlockType::Cobblestone => 13,
            BlockType::Glass => 14,
            BlockType::Unknown => 15,
        }
    }

    /// The material with number `v`, for the materials that carry a texture
    /// of their own: every one but `Air` and `Unknown`.
    pub fn try_from(v: usize) -> (r: Result<BlockType, ()>)
        ensures
            r is Ok <==> 1 <= v <= 14,
            r matches Ok(b) ==> b.spec_index() == v,
    {
        if v == 1 {
            Ok(BlockType::Dirt)
        } else if v == 2 {
            Ok(BlockType::Grass)
        } else if v == 3 {
            Ok(BlockType::Stone)
        } else if v == 4 {
            Ok(BlockType::Wood)
        } else if v == 5 {
            Ok(BlockType::Leaves)
        } else if v == 6 {
            Ok(BlockType::Sand)
        } else if v == 7 {
            Ok(BlockType::Ore)
        } else if v == 8 {
            Ok(BlockType::Water)
        } else if v == 9 {
            Ok(BlockType::Lava)
        } else if v == 10 {
            Ok(BlockType::Planks)
        } else if v == 11 {
            Ok(BlockType::DarkStone)
        } else if v == 12 {
            Ok(BlockType::RedSand)
        } else if v == 13 {
            Ok(BlockType::Cobblestone)
        } else if v == 14 {
            Ok(BlockType::Glass)
        } else {
            Err(())
        }
    }
}

/// The material with number `k`, for `k` below [`BLOCK_TYPES`].
pub open spec fn material_numbered(k: int) -> BlockType {
    if k == 0 {
        BlockType::Air
    } else if k == 1 {
        BlockType::Dirt
    } else if k == 2 {
        BlockType::Grass
    } else if k == 3 {
        BlockType::Stone
    } else if k == 4 {
        BlockType::Wood
    } else if k == 5 {
        BlockType::Leaves
    } else if k == 6 {
        BlockType::Sand
    } else if k == 7 {
        BlockType::Ore
    } else if k == 8 {
        BlockType::Water
    } else if k == 9 {
        BlockType::Lava
    } else if k == 10 {
        BlockType::Planks
    } else if k == 11 {
        BlockType::DarkStone
    } else if k == 12 {
        BlockType::RedSand
    } else if k == 13 {
        BlockType::Cobblestone
    } else if k == 14 {
        BlockType::Glass
    } else {
        BlockType::Unknown
    }
}

/// Column and row of a material's tile in the texture atlas.
pub open spec fn pallette_cell(block_type: BlockType) -> (int, int) {
    match block_type {
        BlockType::Grass => (0, 3),
        BlockType::Dirt => (0, 2),
        BlockType::Stone => (1, 3),
        BlockType::Sand => (2, 3),
        BlockType::Ore => (3, 3),
        BlockType::Wood => (1, 2),
        BlockType::Leaves => (2, 2),
        BlockType::Water => (3, 2),
        BlockType::Lava => (0, 1),
        BlockType::Planks => (1, 1),
        BlockType::DarkStone => (2, 1),
        BlockType::RedSand => (3, 1),
        BlockType::Cobblestone => (0, 0),
        BlockType::Glass => (1, 0),
        _ => (3, 0),
    }
}

/// Column and row of a material's tile in the texture atlas, each below
/// [`PALLETTE_SIZE`]. Materials without a tile share the last one of row 0.
pub fn get_pallette_texture_cell(block_type: BlockType) -> (cell: (u8, u8))
    ensures
        (cell.0 as int, cell.1 as int) == pallette_cell(block_type),
        cell.0 < PALLETTE_SIZE,
        cell.1 < PALLETTE_SIZE,
{
    match block_type {
        BlockType::Grass => (0, 3),
        BlockType::Dirt => (0, 2),
        BlockType::Stone => (1, 3),
        BlockType::Sand => (2, 3),
        BlockType::Ore => (3, 3),
        BlockType::Wood => (1, 2),
        BlockType::Leaves => (2, 2),
        BlockType::Water => (3, 2),
        BlockType::Lava => (0, 1),
        BlockType::Planks => (1, 1),
        BlockType::DarkStone => (2, 1),
        BlockType::RedSand => (3, 1),
        BlockType::Cobblestone => (0, 0),
        BlockType::Glass => (1, 0),
        _ => (3, 0),
    }
}

/// A block is visible unless it is air.
pub open spec fn visible(material: BlockType) -> bool {
    material != BlockType::Air
}

/// Whether a block of this material is drawn at all.
pub fn is_visible_block(material: BlockType) -> (b: bool)
    ensures
        b == visible(material),
{
    !matches!(material, BlockType::Air)
}

/// Whether a chunk records blocks of this material as rigid.
pub open spec fn rigid_block(material: BlockType) -> bool {
    material == BlockType::Wood
}

/// Whether a chunk keeps a rigid-block record for this material: such a block
/// stays a sharp cube inside the smoothed surface.
pub fn is_rigid_block(material: BlockType) -> (b: bool)
    ensures
        b == rigid_block(material),
{
    matches!(material, BlockType::Wood)
}

/// The materials that the terrain pass treats as rigid.
pub const RIGID_MATERIALS: [BlockType; 5] = [
    BlockType::Wood,
    BlockType::Cobblestone,
    BlockType::Planks,
    BlockType::Glass,
    BlockType::Unknown,
];

/// How the list of a [`MaterialSetup`] is read.
#[derive(Clone, Copy, PartialEq, Eq, Debug, Structural)]
pub enum MaterialOperation {
    /// Only the listed materials are selected.
    Include,
    /// Every material but the listed ones is selected.
    Exclude,
}

/// Which materials one smoothing pass works on.
///
/// A setup lists materials, says whether the list includes or excludes, and
/// lists the rigid materials, which are never smoothed. Both lists are kept
/// as sets of the materials' numbers.
pub struct MaterialSetup {
    smoothable_materials: HashSet<usize>,
    rigid_materials: HashSet<usize>,
    op: MaterialOperation,
}

/// Materials with the same number are the same material.
pub proof fn lemma_index_tells_material(a: BlockType, b: BlockType)
    requires
        a.spec_index() == b.spec_index(),
    ensures
        a == b,
{
}

/// The numbers of `materials`, as a set.
fn to_set<const N: usize>(materials: [BlockType; N]) -> (set: HashSet<usize>)
    ensures
        forall|k: usize| set@.contains(k) ==> k < BLOCK_TYPES,
        forall|m: BlockType| set@.contains(m.spec_index() as usize) == materials@.contains(m),
{
    broadcast use group_hash_axioms;

    let mut set: HashSet<usize> = HashSet::new();
    let mut i: usize = 0;
    while i < N
        invariant
            i <= N,
            forall|k: usize| set@.contains(k) ==> k < BLOCK_TYPES,
            forall|m: BlockType|
                set@.contains(m.spec_index() as usize) == materials@.take(i as int).contains(m),
        decreases N - i,
    {
        let material = materials[i];
        let ghost before = set@;
        set.insert(material.index());
        i += 1;
        proof {
            let front = materials@.take(i - 1);
            let longer = materials@.take(i as int);
            assert(longer == front.push(material));
            assert forall|m: BlockType|
                set@.contains(m.spec_index() as usize) == longer.contains(m) by {
                if m == material {
                    assert(longer[i - 1] == m);
                } else {
                    if m.spec_index() == material.spec_index() {
                        lemma_index_tells_material(m, material);
                    }
                    if front.contains(m) {
                        let at = choose|at: int| 0 <= at < front.len() && front[at] == m;
                        assert(longer[at] == m);
                    }
                    if longer.contains(m) {
                        let at = choose|at: int| 0 <= at < longer.len() && longer[at] == m;
                        assert(front[at] == m);
                    }
                }
            }
        }
    }
    assert(materials@.take(N as int) == materials@);
    set
}

/// Whether `set` holds the number of `material`.
fn set_contains(set: &HashSet<usize>, material: BlockType) -> (found: bool)
    ensures
        found == set@.contains(material.spec_index() as usize),
{
    broadcast use group_hash_axioms;

    let key = material.index();
    set.contains(&key)
}

impl MaterialSetup {
    /// Every number in the set of rigid materials is the number of a
    /// material.
    #[verifier::type_invariant]
    spec fn holds_materials(&self) -> bool {
        forall|k: usize| self.rigid_materials@.contains(k) ==> k < BLOCK_TYPES
    }

    /// Whether `material` is on the setup's list.
    pub closed spec fn listed(&self, material: BlockType) -> bool {
        self.smoothable_materials@.contains(material.spec_index() as usize)
    }

    /// Whether `material` is one of the setup's rigid materials.
    pub closed spec fn rigid(&self, material: BlockType) -> bool {
        self.rigid_materials@.contains(material.spec_index() as usize)
    }

    /// How the list is read.
    pub closed spec fn operation(&self) -> MaterialOperation {
        self.op
    }

    /// Whether the list, read as the operation says, selects `material`.
    pub open spec fn selected(&self, material: BlockType) -> bool {
        match self.operation() {
            MaterialOperation::Include => self.listed(material),
            MaterialOperation::Exclude => !self.listed(material),
        }
    }

    /// A material is smoothable when it is not air, not rigid, and selected.
    pub open spec fn smoothable(&self, material: BlockType) -> bool {
        material != BlockType::Air && !self.rigid(material) && self.selected(material)
    }

    /// A material gives colour when it is selected or rigid.
    pub open spec fn colors(&self, material: BlockType) -> bool {
        self.selected(material) || self.rigid(material)
    }

    /// The setup that selects exactly the materials of `included`.
    pub fn including<const S: usize, const R: usize>(
        included: [BlockType; S],
        rigid: [BlockType; R],
    ) -> (setup: Self)
        ensures
            setup.operation() == MaterialOperation::Include,
            forall|m: BlockType| setup.listed(m) == included@.contains(m),
            forall|m: BlockType| setup.rigid(m) == rigid@.contains(m),
    {
        MaterialSetup {
            smoothable_materials: to_set(included),
            rigid_materials: to_set(rigid),
            op: MaterialOperation::Include,
        }
    }

    /// The setup that selects every material but those of `excluded`.
    pub fn exclude<const S: usize, const R: usize>(
        excluded: [BlockType; S],
        rigid: [BlockType; R],
    ) -> (setup: Self)
        ensures
            setup.operation() == MaterialOperation::Exclude,
            forall|m: BlockType| setup.listed(m) == excluded@.contains(m),
            forall|m: BlockType| setup.rigid(m) == rigid@.contains(m),
    {
        MaterialSetup {
            smoothable_materials: to_set(excluded),
            rigid_materials: to_set(rigid),
            op: MaterialOperation::Exclude,
        }
    }

    /// The setup that selects every material.
    pub fn all_smooth<const R: usize>(rigid: [BlockType; R]) -> (setup: Self)
        ensures
            setup.operation() == MaterialOperation::Exclude,
            forall|m: BlockType| !setup.listed(m),
            forall|m: BlockType| setup.rigid(m) == rigid@.contains(m),
    {
        MaterialSetup {
            smoothable_materials: HashSet::new(),
            rigid_materials: to_set(rigid),
            op: MaterialOperation::Exclude,
        }
    }

    fn is_selected(&self, material: BlockType) -> (b: bool)
        ensures
            b == self.selected(material),
    {
        match self.op {
            MaterialOperation::Include => set_contains(&self.smoothable_materials, material),
            MaterialOperation::Exclude => !set_contains(&self.smoothable_materials, material),
        }
    }

    /// Whether blocks of `material` take part in the smoothed surface.
    pub fn is_material_smoothable(&self, material: BlockType) -> (b: bool)
        ensures
            b == self.smoothable(material),
    {
        let possibly_smoothable = !matches!(material, BlockType::Air) && !set_contains(
            &self.rigid_materials,
            material,
        );
        if !possibly_smoothable {
            return false;
        }
        self.is_selected(material)
    }

    /// Whether blocks of `material` give colour to the surface near them.
    pub fn contributes_color(&self, material: BlockType) -> (b: bool)
        ensures
            b == self.colors(material),
    {
        self.is_selected(material) || self.is_rigid(material)
    }

    /// Whether `material` is rigid in this setup.
    pub fn is_rigid(&self, material: BlockType) -> (b: bool)
        ensures
            b == self.rigid(material),
    {
        set_contains(&self.rigid_materials, material)
    }

    /// Whether the setup has no rigid material at all.
    pub fn no_rigid(&self) -> (b: bool)
        ensures
            b == (forall|m: BlockType| !self.rigid(m)),
    {
        let empty = self.rigid_materials.is_empty();
        proof {
            use_type_invariant(self);
            if !empty {
                let k = choose|k: usize| self.rigid_materials@.contains(k);
                let m = material_numbered(k as int);
                assert(self.rigid(m));
            }
        }
        empty
    }
}

} // verus!
