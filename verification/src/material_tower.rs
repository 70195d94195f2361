//! One column of blocks, from the lowest supported height to the highest.

use vstd::prelude::*;
use crate::common::{is_visible_block, visible, BlockType, MaterialSetup};

verus! {

/// Number of blocks in a column.
pub const STACK_HEIGHT: usize = 384;

/// How many of a column's blocks lie below height 0.
pub const NEGATIVE_HEIGHT_PART: isize = 64;

/// The lowest height a column holds.
pub const MIN_BLOCK_Y: isize = -64;

/// One above the highest height a column holds.
pub const MAX_BLOCK_Y: isize = 320;

/// The blocks of one column, from height -64 up to height 319.
pub struct MaterialStack {
    blocks: Vec<BlockType>,
}

impl View for MaterialStack {
    type V = Seq<BlockType>;

    /// The column's materials, lowest block first.
    closed spec fn view(&self) -> Seq<BlockType> {
        self.blocks@
    }
}

/// The test "is smoothable under `setup`" as a predicate on materials.
pub open spec fn smoothable_in(setup: MaterialSetup) -> spec_fn(BlockType) -> bool {
    |material: BlockType| setup.smoothable(material)
}

/// The test "holds a visible block" as a predicate on entries of a column.
pub open spec fn holds_visible() -> spec_fn((isize, BlockType)) -> bool {
    |entry: (isize, BlockType)| visible(entry.1)
}

/// The height of the block stored at `index`.
pub fn index_to_height(index: usize) -> (height: isize)
    requires
        index <= STACK_HEIGHT,
    ensures
        height == index - 64,
{
    (index as isize) - NEGATIVE_HEIGHT_PART
}

/// The index at which the block of height `height` is stored.
pub fn height_to_index(height: isize) -> (index: usize)
    requires
        MIN_BLOCK_Y <= height <= MAX_BLOCK_Y,
    ensures
        index == height + 64,
{
    (height + NEGATIVE_HEIGHT_PART) as usize
}

impl MaterialStack {
    /// The column holds a block for every supported height.
    pub open spec fn wf(&self) -> bool {
        self@.len() == STACK_HEIGHT
    }

    /// The material at height `y`.
    pub open spec fn block_at(&self, y: int) -> BlockType {
        self@[y + 64]
    }

    /// The heights from `low` up to, not including, `high`, each with its
    /// material, lowest first.
    pub open spec fn blocks_between(&self, low: int, high: int) -> Seq<(isize, BlockType)> {
        Seq::new(
            if low <= high { (high - low) as nat } else { 0 },
            |i: int| ((low + i) as isize, self.block_at(low + i)),
        )
    }

    /// The visible blocks from `low` up to, not including, `high`, each with
    /// its height, lowest first.
    pub open spec fn visible_between(&self, low: int, high: int) -> Seq<(isize, BlockType)> {
        self.blocks_between(low, high).filter(holds_visible())
    }

    /// How many blocks from `low` up to, not including, `high` are smoothable
    /// under `setup`.
    pub open spec fn smoothable_between(&self, low: int, high: int, setup: MaterialSetup) -> nat {
        if low < high {
            self@.subrange(low + 64, high + 64).filter(smoothable_in(setup)).len()
        } else {
            0
        }
    }

    /// A column of air.
    pub fn new() -> (stack: Self)
        ensures
            stack.wf(),
            forall|y: int| MIN_BLOCK_Y <= y < MAX_BLOCK_Y ==> stack.block_at(y) == BlockType::Air,
    {
        let mut data: Vec<BlockType> = Vec::new();
        let mut i: usize = 0;
        while i < STACK_HEIGHT
            invariant
                i <= STACK_HEIGHT,
                data@.len() == i,
                forall|j: int| 0 <= j < i ==> data@[j] == BlockType::Air,
            decreases STACK_HEIGHT - i,
        {
            data.push(BlockType::Air);
            i += 1;
        }
        MaterialStack { blocks: data }
    }

    /// Puts `material` at height `base_height`; every other block stays.
    pub fn insert(&mut self, material: BlockType, base_height: isize)
        requires
            old(self).wf(),
            MIN_BLOCK_Y <= base_height < MAX_BLOCK_Y,
        ensures
            final(self).wf(),
            final(self)@ == old(self)@.update(base_height + 64, material),
    {
        let stack_index = height_to_index(base_height);
        self.blocks[stack_index] = material;
    }

    /// The material at height `y`.
    pub fn get_block_at_y(&self, y: isize) -> (material: BlockType)
        requires
            self.wf(),
            MIN_BLOCK_Y <= y < MAX_BLOCK_Y,
        ensures
            material == self.block_at(y as int),
    {
        let block_index = height_to_index(y);
        self.blocks[block_index]
    }

    /// How many blocks with height from `y_low` up to, not including, `y_high`
    /// are smoothable under `material_setup`: the volume, in blocks, that the
    /// column's smoothable part shares with that range of heights.
    pub fn get_intersection_size(
        &self,
        y_low: isize,
        y_high: isize,
        material_setup: &MaterialSetup,
    ) -> (size: usize)
        requires
            self.wf(),
            MIN_BLOCK_Y <= y_low,
            y_high <= MAX_BLOCK_Y,
        ensures
            size == self.smoothable_between(y_low as int, y_high as int, *material_setup),
            y_low <= y_high ==> size <= y_high - y_low,
    {
        if y_low >= y_high {
            return 0;
        }
        let low_index = height_to_index(y_low);
        let high_index = height_to_index(y_high);
        let ghost pred = smoothable_in(*material_setup);
        let mut blocks_in_range: usize = 0;
        let mut i: usize = low_index;
        proof {
            reveal(Seq::filter);
            assert(self@.subrange(low_index as int, low_index as int).len() == 0);
        }
        while i < high_index
            invariant
                self.wf(),
                low_index <= i <= high_index <= STACK_HEIGHT,
                pred == smoothable_in(*material_setup),
                blocks_in_range == self@.subrange(low_index as int, i as int).filter(pred).len(),
                blocks_in_range <= i - low_index,
            decreases high_index - i,
        {
            let material = self.blocks[i];
            proof {
                let before = self@.subrange(low_index as int, i as int);
                assert(self@.subrange(low_index as int, i + 1) == before.push(material));
                before.lemma_filter_len_push(pred, material);
            }
            if material_setup.is_material_smoothable(material) {
                blocks_in_range += 1;
            }
            i += 1;
        }
        blocks_in_range
    }

    /// Every block with height from `y_low` up to, not including, `y_high`,
    /// with its height, lowest first.
    pub fn iter_blocks_in_range(&self, y_low: isize, y_high: isize) -> (blocks: Vec<
        (isize, BlockType),
    >)
        requires
            self.wf(),
            MIN_BLOCK_Y <= y_low,
            y_high <= MAX_BLOCK_Y,
        ensures
            blocks@ == self.blocks_between(y_low as int, y_high as int),
    {
        let mut blocks: Vec<(isize, BlockType)> = Vec::new();
        if y_low >= y_high {
            return blocks;
        }
        let mut y: isize = y_low;
        while y < y_high
            invariant
                self.wf(),
                MIN_BLOCK_Y <= y_low <= y <= y_high <= MAX_BLOCK_Y,
                blocks@ == self.blocks_between(y_low as int, y as int),
            decreases y_high - y,
        {
            blocks.push((y, self.get_block_at_y(y)));
            y += 1;
        }
        blocks
    }

    /// The visible blocks with height from `y_low` up to, not including,
    /// `y_high`, each with its height, lowest first.
    pub fn iter_intersecting_blocks(&self, y_low: isize, y_high: isize) -> (blocks: Vec<
        (isize, BlockType),
    >)
        requires
            self.wf(),
            MIN_BLOCK_Y <= y_low,
            y_high <= MAX_BLOCK_Y,
        ensures
            blocks@ == self.visible_between(y_low as int, y_high as int),
    {
        let mut blocks: Vec<(isize, BlockType)> = Vec::new();
        proof {
            reveal(Seq::filter);
        }
        if y_low >= y_high {
            return blocks;
        }
        let mut y: isize = y_low;
        while y < y_high
            invariant
                self.wf(),
                MIN_BLOCK_Y <= y_low <= y <= y_high <= MAX_BLOCK_Y,
                blocks@ == self.visible_between(y_low as int, y as int),
            decreases y_high - y,
        {
            let material = self.get_block_at_y(y);
            proof {
                let before = self.blocks_between(y_low as int, y as int);
                assert(self.blocks_between(y_low as int, y + 1) == before.push((y, material)));
                before.lemma_filter_push((y, material), holds_visible());
            }
            if is_visible_block(material) {
                blocks.push((y, material));
            }
            y += 1;
        }
        blocks
    }

    /// The column's visible blocks, each with its height, lowest first.
    pub fn iter_visible_blocks(&self) -> (blocks: Vec<(isize, BlockType)>)
        requires
            self.wf(),
        ensures
            blocks@ == self.visible_between(MIN_BLOCK_Y as int, MAX_BLOCK_Y as int),
    {
        self.iter_intersecting_blocks(MIN_BLOCK_Y, MAX_BLOCK_Y)
    }
}

/// The smoothable volume of a range of heights splits at any height inside it.
pub proof fn lemma_intersection_size_splits(
    stack: MaterialStack,
    setup: MaterialSetup,
    low: int,
    mid: int,
    high: int,
)
    requires
        stack.wf(),
        MIN_BLOCK_Y <= low <= mid <= high <= MAX_BLOCK_Y,
    ensures
        stack.smoothable_between(low, high, setup) == stack.smoothable_between(low, mid, setup)
            + stack.smoothable_between(mid, high, setup),
{
    let pred = smoothable_in(setup);
    let a = stack@.subrange(low + 64, mid + 64);
    let b = stack@.subrange(mid + 64, high + 64);
    assert(stack@.subrange(low + 64, high + 64) == a + b);
    Seq::filter_distributes_over_add(a, b, pred);
    reveal(Seq::filter);
}

/// With the lower bound fixed, the smoothable volume never shrinks as the
/// upper bound rises.
pub proof fn lemma_intersection_size_monotone(
    stack: MaterialStack,
    setup: MaterialSetup,
    low: int,
    high: int,
    higher: int,
)
    requires
        stack.wf(),
        MIN_BLOCK_Y <= low,
        high <= higher <= MAX_BLOCK_Y,
    ensures
        stack.smoothable_between(low, high, setup) <= stack.smoothable_between(low, higher, setup),
{
    if low < high {
        lemma_intersection_size_splits(stack, setup, low, high, higher);
    }
}

/// On whole heights the smoothable volume is the number of smoothable blocks:
/// a block adds one exactly when it is smoothable.
pub proof fn lemma_intersection_size_counts(
    stack: MaterialStack,
    setup: MaterialSetup,
    low: int,
    high: int,
)
    requires
        stack.wf(),
        MIN_BLOCK_Y <= low <= high < MAX_BLOCK_Y,
    ensures
        stack.smoothable_between(low, low, setup) == 0,
        stack.smoothable_between(low, high + 1, setup) == stack.smoothable_between(
            low,
            high,
            setup,
        ) + if setup.smoothable(stack.block_at(high)) {
            1nat
        } else {
            0nat
        },
{
    let pred = smoothable_in(setup);
    lemma_intersection_size_splits(stack, setup, low, high, high + 1);
    let one = stack@.subrange(high + 64, high + 65);
    assert(one == Seq::<BlockType>::empty().push(stack.block_at(high)));
    Seq::<BlockType>::empty().lemma_filter_len_push(pred, stack.block_at(high));
    reveal(Seq::filter);
    assert(Seq::<BlockType>::empty().filter(pred).len() == 0);
}

} // verus!
