//! A chunk: 16 by 16 columns of blocks, with the lists derived from them.

use vstd::prelude::*;
use crate::chunk_position::ChunkPosition;
use crate::common::{is_rigid_block, is_visible_block, rigid_block, visible, BlockType};
use crate::material_tower::{holds_visible, MaterialStack, MAX_BLOCK_Y, MIN_BLOCK_Y};
use crate::sequences::concat_over;

verus! {

/// A chunk is a square of this many columns per side.
pub const CHUNK_SIZE: usize = 16;

/// Number of columns in a chunk.
pub const COLUMNS_IN_CHUNK: usize = 256;

/// Whole block coordinates. The block at `(x, y, z)` fills the unit cube from
/// that corner upwards on every axis.
#[derive(Clone, Copy, PartialEq, Eq, Debug, Structural)]
pub struct BlockPosition {
    pub x: i64,
    pub y: i64,
    pub z: i64,
}

/// What is needed to draw one block: where it is and what it is made of.
#[derive(Clone, Copy, PartialEq, Eq, Debug, Structural)]
pub struct BlockData {
    pub offset: BlockPosition,
    pub material: BlockType,
}

impl BlockData {
    /// The drawing data of a block of `material` at `offset`.
    pub fn create(offset: BlockPosition, material: BlockType) -> (data: Self)
        ensures
            data == (BlockData { offset, material }),
    {
        BlockData { offset, material }
    }
}

/// A rigid block of a chunk, at its place in the world.
#[derive(Clone, Copy, PartialEq, Eq, Debug, Structural)]
pub struct RigidBlockRecord {
    pub position: BlockPosition,
    pub material: BlockType,
}

/// A chunk of the world.
///
/// `surface_blocks` is filled by [`Chunk::build_surface`], once, after the
/// last block has been pushed.
pub struct Chunk {
    /// The columns, x running fastest.
    pub data: [MaterialStack; COLUMNS_IN_CHUNK],
    /// The rigid blocks pushed so far, in the order they came.
    pub rigid_blocks: Vec<RigidBlockRecord>,
    /// The blocks to draw when the chunk is shown as cubes.
    pub surface_blocks: Vec<BlockData>,
    /// The chunk's corner with the least x and z, seen from above.
    pub position: ChunkPosition,
}

/// Whether the column at `(x, z)` lies on the rim of its chunk.
pub open spec fn on_rim(x: int, z: int) -> bool {
    x == 0 || z == 0 || x == 15 || z == 15
}

/// Calls `array_init::array_init` with an initializer that makes a column of
/// air whatever the index. Claims that each of the 256 elements is what
/// [`MaterialStack::new`] returns: a well-formed column of nothing but air.
#[verifier::external_body]
fn new_towers() -> (towers: [MaterialStack; COLUMNS_IN_CHUNK])
    ensures
        forall|i: int|
            0 <= i < COLUMNS_IN_CHUNK ==> (#[trigger] towers[i]).wf() && forall|y: int|
                MIN_BLOCK_Y <= y < MAX_BLOCK_Y ==> towers[i].block_at(y) == BlockType::Air,
{
    array_init::array_init(|_inx| MaterialStack::new())
}

impl Chunk {
    /// The chunk's columns, x running fastest.
    pub open spec fn towers(&self) -> Seq<MaterialStack> {
        self.data@
    }

    /// The rigid blocks recorded so far, in the order they were pushed.
    pub open spec fn rigid_records(&self) -> Seq<RigidBlockRecord> {
        self.rigid_blocks@
    }

    /// The column at `(x, z)`.
    pub open spec fn tower(&self, x: int, z: int) -> MaterialStack {
        self.towers()[z * 16 + x]
    }

    /// The material at `(x, y, z)`, in the chunk's own coordinates.
    pub open spec fn block_at(&self, x: int, y: int, z: int) -> BlockType {
        self.tower(x, z).block_at(y)
    }

    /// The position is well formed and every column is.
    pub open spec fn wf(&self) -> bool {
        &&& self.position.wf()
        &&& self.towers().len() == COLUMNS_IN_CHUNK
        &&& forall|i: int| 0 <= i < COLUMNS_IN_CHUNK ==> (#[trigger] self.towers()[i]).wf()
    }

    /// World coordinates of the block at `(x, y, z)` of this chunk.
    pub open spec fn global(&self, x: int, y: int, z: int) -> BlockPosition {
        BlockPosition {
            x: (self.position.global_x() * 16 + x) as i64,
            y: y as i64,
            z: (self.position.global_z() * 16 + z) as i64,
        }
    }

    /// Turns an entry of column `(x, z)` into drawing data at its place in
    /// the world.
    pub open spec fn placed(&self, x: int, z: int) -> spec_fn((isize, BlockType)) -> BlockData {
        |entry: (isize, BlockType)|
            BlockData { offset: self.global(x, entry.0 as int, z), material: entry.1 }
    }

    /// The visible blocks of column `(x, z)`, lowest first.
    pub open spec fn column_blocks(&self, x: int, z: int) -> Seq<BlockData> {
        self.tower(x, z).visible_between(MIN_BLOCK_Y as int, MAX_BLOCK_Y as int).map_values(
            self.placed(x, z),
        )
    }

    /// The visible blocks of the `i`-th column when x runs slowest.
    pub open spec fn columns_x_major(&self) -> spec_fn(int) -> Seq<BlockData> {
        |i: int| self.column_blocks(i / 16, i % 16)
    }

    /// Every visible block of the chunk: column after column, z running
    /// fastest, each column from its lowest block up.
    pub open spec fn all_blocks(&self) -> Seq<BlockData> {
        concat_over(COLUMNS_IN_CHUNK as nat, self.columns_x_major())
    }

    /// Whether there is a visible block at `(x, y, z)`. Below the lowest and
    /// above the highest height of a column there is nothing to see.
    pub open spec fn shows(&self, x: int, y: int, z: int) -> bool {
        MIN_BLOCK_Y <= y < MAX_BLOCK_Y && visible(self.block_at(x, y, z))
    }

    /// Whether the block at `(x, y, z)` is visible and touches, on one of its
    /// six faces, a place that shows no block. So a visible block at the
    /// lowest or the highest height is always exposed: it is open below, or
    /// above. Meant for columns off the rim, whose four neighbours the chunk
    /// holds.
    pub open spec fn exposed(&self, x: int, y: int, z: int) -> bool {
        self.shows(x, y, z) && (!self.shows(x, y - 1, z) || !self.shows(x, y + 1, z)
            || !self.shows(x - 1, y, z) || !self.shows(x + 1, y, z) || !self.shows(x, y, z - 1)
            || !self.shows(x, y, z + 1))
    }

    /// The drawing data of the block at `(x, y, z)` if it is exposed, and
    /// nothing otherwise.
    pub open spec fn exposed_entry(&self, x: int, y: int, z: int) -> Seq<BlockData> {
        if self.exposed(x, y, z) {
            seq![BlockData { offset: self.global(x, y, z), material: self.block_at(x, y, z) }]
        } else {
            Seq::empty()
        }
    }

    /// The exposed entries of column `(x, z)` by height, counted from the
    /// lowest block.
    pub open spec fn exposed_by_height(&self, x: int, z: int) -> spec_fn(int) -> Seq<BlockData> {
        |k: int| self.exposed_entry(x, k - 64, z)
    }

    /// The exposed blocks of column `(x, z)`, lowest first, over all the
    /// heights of the column.
    pub open spec fn exposed_in_column(&self, x: int, z: int) -> Seq<BlockData> {
        concat_over(384, self.exposed_by_height(x, z))
    }

    /// The exposed blocks of row `z` by column, counted from the second.
    pub open spec fn exposed_by_column(&self, z: int) -> spec_fn(int) -> Seq<BlockData> {
        |c: int| self.exposed_in_column(c + 1, z)
    }

    /// The exposed blocks of the columns of row `z` that are off the rim.
    pub open spec fn exposed_in_row(&self, z: int) -> Seq<BlockData> {
        concat_over(14, self.exposed_by_column(z))
    }

    /// The exposed blocks by row, counted from the second.
    pub open spec fn exposed_by_row(&self) -> spec_fn(int) -> Seq<BlockData> {
        |r: int| self.exposed_in_row(r + 1)
    }

    /// The exposed blocks of all columns off the rim: row after row, x
    /// running fastest, each column from its lowest block up.
    pub open spec fn inner_surface(&self) -> Seq<BlockData> {
        concat_over(14, self.exposed_by_row())
    }

    /// The visible blocks of the `i`-th column if it is on the rim.
    pub open spec fn rim_by_column(&self) -> spec_fn(int) -> Seq<BlockData> {
        |i: int|
            if on_rim(i % 16, i / 16) {
                self.column_blocks(i % 16, i / 16)
            } else {
                Seq::empty()
            }
    }

    /// Every visible block of the columns on the rim, x running fastest. What
    /// lies beyond the rim is not known to the chunk, so all of them count as
    /// surface.
    pub open spec fn rim_surface(&self) -> Seq<BlockData> {
        concat_over(COLUMNS_IN_CHUNK as nat, self.rim_by_column())
    }

    /// The visible blocks of the `i`-th column with height from `low` up to,
    /// not including, `high`, in the chunk's own coordinates.
    pub open spec fn local_by_column(&self, low: int, high: int) -> spec_fn(int) -> Seq<
        (BlockPosition, BlockType),
    > {
        |i: int|
            self.towers()[i].visible_between(low, high).map_values(
                |entry: (isize, BlockType)|
                    (
                        BlockPosition { x: (i % 16) as i64, y: entry.0 as i64, z: (i / 16) as i64 },
                        entry.1,
                    ),
            )
    }

    /// An empty chunk at `chunk_position`: air everywhere, nothing recorded.
    pub fn new(chunk_position: ChunkPosition) -> (chunk: Self)
        requires
            chunk_position.wf(),
        ensures
            chunk.wf(),
            chunk.position == chunk_position,
            chunk.rigid_records().len() == 0,
            chunk.surface_blocks@.len() == 0,
            forall|x: int, y: int, z: int|
                0 <= x < 16 && 0 <= z < 16 && MIN_BLOCK_Y <= y < MAX_BLOCK_Y ==> chunk.block_at(
                    x,
                    y,
                    z,
                ) == BlockType::Air,
    {
        Chunk {
            data: new_towers(),
            rigid_blocks: Vec::new(),
            surface_blocks: Vec::new(),
            position: chunk_position,
        }
    }

    /// The column at `(x, z)`.
    pub fn get_tower(&self, x: usize, z: usize) -> (tower: &MaterialStack)
        requires
            self.wf(),
            x < CHUNK_SIZE,
            z < CHUNK_SIZE,
        ensures
            *tower == self.tower(x as int, z as int),
            tower.wf(),
    {
        &self.data[z * CHUNK_SIZE + x]
    }

    /// Puts `block` at `(x, base_height, z)`. A rigid block is recorded as
    /// well, with its place in the world.
    pub fn push_block(&mut self, x: usize, z: usize, base_height: isize, block: BlockType)
        requires
            old(self).wf(),
            x < CHUNK_SIZE,
            z < CHUNK_SIZE,
            MIN_BLOCK_Y <= base_height < MAX_BLOCK_Y,
        ensures
            final(self).wf(),
            final(self).position == old(self).position,
            final(self).surface_blocks == old(self).surface_blocks,
            final(self).towers() == old(self).towers().update(
                z * 16 + x,
                final(self).tower(x as int, z as int),
            ),
            final(self).tower(x as int, z as int)@ == old(self).tower(x as int, z as int)@.update(
                base_height + 64,
                block,
            ),
            final(self).rigid_records() == if rigid_block(block) {
                old(self).rigid_records().push(
                    RigidBlockRecord {
                        position: old(self).global(x as int, base_height as int, z as int),
                        material: block,
                    },
                )
            } else {
                old(self).rigid_records()
            },
    {
        let stack = &mut self.data[z * CHUNK_SIZE + x];
        stack.insert(block, base_height);
        if is_rigid_block(block) {
            let position = self.to_global_position(x, base_height, z);
            self.rigid_blocks.push(RigidBlockRecord { position, material: block });
        }
    }

    /// World coordinates of the block at `(x, y, z)` of this chunk.
    fn to_global_position(&self, x: usize, y: isize, z: usize) -> (position: BlockPosition)
        requires
            self.position.wf(),
            x < CHUNK_SIZE,
            z < CHUNK_SIZE,
        ensures
            position == self.global(x as int, y as int, z as int),
    {
        let (base_x, base_z) = self.position.get_global_position();
        BlockPosition { x: base_x + x as i64, y: y as i64, z: base_z + z as i64 }
    }

    /// Appends the visible blocks of column `(x, z)` to `out`.
    fn push_column_blocks(&self, x: usize, z: usize, out: &mut Vec<BlockData>)
        requires
            self.wf(),
            x < CHUNK_SIZE,
            z < CHUNK_SIZE,
        ensures
            final(out)@ == old(out)@ + self.column_blocks(x as int, z as int),
    {
        let entries = self.get_tower(x, z).iter_visible_blocks();
        let ghost place = self.placed(x as int, z as int);
        let ghost before = out@;
        let mut i: usize = 0;
        while i < entries.len()
            invariant
                self.position.wf(),
                x < CHUNK_SIZE,
                z < CHUNK_SIZE,
                i <= entries.len(),
                place == self.placed(x as int, z as int),
                out@ == before + entries@.take(i as int).map_values(place),
            decreases entries.len() - i,
        {
            let (y, material) = entries[i];
            let offset = self.to_global_position(x, y, z);
            out.push(BlockData::create(offset, material));
            i += 1;
            assert(entries@.take(i as int).map_values(place) == entries@.take(i - 1).map_values(
                place,
            ).push(place(entries@[i - 1])));
        }
        assert(entries@.take(entries.len() as int) == entries@);
    }

    /// Every visible block of the chunk with its place in the world.
    pub fn get_block_data(&self) -> (blocks: Vec<BlockData>)
        requires
            self.wf(),
        ensures
            blocks@ == self.all_blocks(),
    {
        let mut blocks: Vec<BlockData> = Vec::new();
        let mut x: usize = 0;
        while x < CHUNK_SIZE
            invariant
                self.wf(),
                x <= CHUNK_SIZE,
                blocks@ == concat_over((x * 16) as nat, self.columns_x_major()),
            decreases CHUNK_SIZE - x,
        {
            let mut z: usize = 0;
            while z < CHUNK_SIZE
                invariant
                    self.wf(),
                    x < CHUNK_SIZE,
                    z <= CHUNK_SIZE,
                    blocks@ == concat_over((x * 16 + z) as nat, self.columns_x_major()),
                decreases CHUNK_SIZE - z,
            {
                self.push_column_blocks(x, z, &mut blocks);
                proof {
                    let i = (x * 16 + z) as int;
                    assert(i / 16 == x && i % 16 == z);
                    assert(self.columns_x_major()(i) == self.column_blocks(x as int, z as int));
                    assert(concat_over((i + 1) as nat, self.columns_x_major()) == concat_over(
                        i as nat,
                        self.columns_x_major(),
                    ) + self.columns_x_major()(i));
                }
                z += 1;
            }
            x += 1;
        }
        blocks
    }

    /// The rigid blocks recorded so far.
    pub fn get_rigid_blocks(&self) -> (records: &Vec<RigidBlockRecord>)
        ensures
            records@ == self.rigid_records(),
    {
        &self.rigid_blocks
    }

    /// The drawing data of the rigid blocks recorded so far.
    pub fn get_rigid_block_data(&self) -> (blocks: Vec<BlockData>)
        ensures
            blocks@ == self.rigid_records().map_values(
                |record: RigidBlockRecord|
                    BlockData { offset: record.position, material: record.material },
            ),
    {
        let mut blocks: Vec<BlockData> = Vec::new();
        let mut i: usize = 0;
        while i < self.rigid_blocks.len()
            invariant
                i <= self.rigid_blocks.len(),
                blocks@.len() == i,
                forall|j: int|
                    0 <= j < i ==> blocks@[j] == (BlockData {
                        offset: self.rigid_blocks@[j].position,
                        material: self.rigid_blocks@[j].material,
                    }),
            decreases self.rigid_blocks.len() - i,
        {
            let record = &self.rigid_blocks[i];
            blocks.push(BlockData::create(record.position, record.material));
            i += 1;
        }
        blocks
    }

    /// The material at `(x, y, z)`, in the chunk's own coordinates.
    pub fn get_block(&self, x: usize, y: isize, z: usize) -> (material: BlockType)
        requires
            self.wf(),
            x < CHUNK_SIZE,
            z < CHUNK_SIZE,
            MIN_BLOCK_Y <= y < MAX_BLOCK_Y,
        ensures
            material == self.block_at(x as int, y as int, z as int),
    {
        let tower = self.get_tower(x, z);
        tower.get_block_at_y(y)
    }

    /// The visible blocks with height from `y_low` up to, not including,
    /// `y_high`, in the chunk's own coordinates: column after column, x
    /// running fastest, each column from its lowest block up.
    pub fn enumerate_blocks(&self, y_low: isize, y_high: isize) -> (blocks: Vec<
        (BlockPosition, BlockType),
    >)
        requires
            self.wf(),
            MIN_BLOCK_Y <= y_low,
            y_high <= MAX_BLOCK_Y,
        ensures
            blocks@ == concat_over(
                COLUMNS_IN_CHUNK as nat,
                self.local_by_column(y_low as int, y_high as int),
            ),
    {
        let mut blocks: Vec<(BlockPosition, BlockType)> = Vec::new();
        let ghost parts = self.local_by_column(y_low as int, y_high as int);
        let mut i: usize = 0;
        while i < COLUMNS_IN_CHUNK
            invariant
                self.wf(),
                i <= COLUMNS_IN_CHUNK,
                MIN_BLOCK_Y <= y_low,
                y_high <= MAX_BLOCK_Y,
                parts == self.local_by_column(y_low as int, y_high as int),
                blocks@ == concat_over(i as nat, parts),
            decreases COLUMNS_IN_CHUNK - i,
        {
            let block_x = (i % CHUNK_SIZE) as i64;
            let block_z = (i / CHUNK_SIZE) as i64;
            let entries = self.data[i].iter_intersecting_blocks(y_low, y_high);
            let ghost local = |entry: (isize, BlockType)|
                (
                    BlockPosition { x: (i % 16) as i64, y: entry.0 as i64, z: (i / 16) as i64 },
                    entry.1,
                );
            let ghost before = blocks@;
            let mut k: usize = 0;
            while k < entries.len()
                invariant
                    k <= entries.len(),
                    block_x == (i % 16) as i64,
                    block_z == (i / 16) as i64,
                    forall|entry: (isize, BlockType)|
                        #[trigger] local(entry) == (
                            BlockPosition {
                                x: (i % 16) as i64,
                                y: entry.0 as i64,
                                z: (i / 16) as i64,
                            },
                            entry.1,
                        ),
                    blocks@ == before + entries@.take(k as int).map_values(local),
                decreases entries.len() - k,
            {
                let (y, material) = entries[k];
                blocks.push((BlockPosition { x: block_x, y: y as i64, z: block_z }, material));
                k += 1;
                assert(entries@.take(k as int).map_values(local) == entries@.take(
                    k - 1,
                ).map_values(local).push(local(entries@[k - 1])));
            }
            proof {
                assert(entries@.take(entries.len() as int) == entries@);
                assert(parts(i as int) == entries@.map_values(local));
                assert(concat_over((i + 1) as nat, parts) == concat_over(i as nat, parts) + parts(
                    i as int,
                ));
            }
            i += 1;
        }
        blocks
    }

    /// Appends the exposed blocks of column `(x, z)` to `out`.
    fn push_exposed_in_column(&self, x: usize, z: usize, out: &mut Vec<BlockData>)
        requires
            self.wf(),
            1 <= x < 15,
            1 <= z < 15,
        ensures
            final(out)@ == old(out)@ + self.exposed_in_column(x as int, z as int),
    {
        let left_tower = self.get_tower(x - 1, z);
        let center_tower = self.get_tower(x, z);
        let right_tower = self.get_tower(x + 1, z);
        let upper_tower = self.get_tower(x, z + 1);
        let lower_tower = self.get_tower(x, z - 1);
        let ghost before = out@;
        let ghost parts = self.exposed_by_height(x as int, z as int);
        let mut depth: isize = MIN_BLOCK_Y;
        while depth < MAX_BLOCK_Y
            invariant
                self.wf(),
                1 <= x < 15,
                1 <= z < 15,
                MIN_BLOCK_Y <= depth <= MAX_BLOCK_Y,
                *left_tower == self.tower(x - 1, z as int),
                *center_tower == self.tower(x as int, z as int),
                *right_tower == self.tower(x + 1, z as int),
                *upper_tower == self.tower(x as int, z + 1),
                *lower_tower == self.tower(x as int, z - 1),
                left_tower.wf(),
                center_tower.wf(),
                right_tower.wf(),
                upper_tower.wf(),
                lower_tower.wf(),
                parts == self.exposed_by_height(x as int, z as int),
                out@ == before + concat_over((depth + 64) as nat, parts),
            decreases MAX_BLOCK_Y - depth,
        {
            proof {
                let k = depth + 64;
                assert(parts(k) == self.exposed_entry(x as int, depth as int, z as int));
                assert(concat_over((k + 1) as nat, parts) == concat_over(k as nat, parts) + parts(
                    k,
                ));
            }
            let center_block = center_tower.get_block_at_y(depth);
            if is_visible_block(center_block) {
                // Nothing lies below the lowest block or above the highest.
                let open_below = depth == MIN_BLOCK_Y || !is_visible_block(
                    center_tower.get_block_at_y(depth - 1),
                );
                let open_above = depth == MAX_BLOCK_Y - 1 || !is_visible_block(
                    center_tower.get_block_at_y(depth + 1),
                );
                let left_block = left_tower.get_block_at_y(depth);
                let right_block = right_tower.get_block_at_y(depth);
                let lower_block = lower_tower.get_block_at_y(depth);
                let upper_block = upper_tower.get_block_at_y(depth);
                let any_hidden_neighbor = open_below || open_above || !is_visible_block(left_block)
                    || !is_visible_block(right_block) || !is_visible_block(lower_block)
                    || !is_visible_block(upper_block);
                if any_hidden_neighbor {
                    let block_offset = self.to_global_position(x, depth, z);
                    out.push(BlockData::create(block_offset, center_block));
                }
            }
            depth += 1;
        }
    }

    /// Derives the surface blocks from the chunk's columns and appends them
    /// to `surface_blocks`: first the exposed blocks of the columns off the
    /// rim, then every visible block of the columns on it. Together these are
    /// the visible blocks that touch a place without a block, or lie where
    /// the chunk cannot tell; each is listed once, with its place in the
    /// world and its material.
    pub fn build_surface(&mut self)
        requires
            old(self).wf(),
        ensures
            final(self).wf(),
            final(self).position == old(self).position,
            final(self).towers() == old(self).towers(),
            final(self).rigid_records() == old(self).rigid_records(),
            final(self).surface_blocks@ == old(self).surface_blocks@ + old(self).inner_surface()
                + old(self).rim_surface(),
            final(self).surface_blocks@ == old(self).surface_blocks@ + crate::surface::surface_of(
                *old(self),
            ),
            crate::surface::surface_of(*old(self)).no_duplicates(),
    {
        proof {
            crate::surface::lemma_surface_once(*self);
            assert((self.surface_blocks@ + self.inner_surface()) + self.rim_surface()
                == self.surface_blocks@ + (self.inner_surface() + self.rim_surface()));
        }
        let mut found = self.find_inner_surface();
        let mut rim = self.find_rim_surface();
        self.surface_blocks.append(&mut found);
        self.surface_blocks.append(&mut rim);
    }

    /// The exposed blocks of all columns off the rim.
    fn find_inner_surface(&self) -> (found: Vec<BlockData>)
        requires
            self.wf(),
        ensures
            found@ == self.inner_surface(),
    {
        let mut found: Vec<BlockData> = Vec::new();
        let mut row: usize = 1;
        while row < 15
            invariant
                self.wf(),
                1 <= row <= 15,
                found@ == concat_over((row - 1) as nat, self.exposed_by_row()),
            decreases 15 - row,
        {
            let ghost done_rows = found@;
            let mut column: usize = 1;
            while column < 15
                invariant
                    self.wf(),
                    1 <= row < 15,
                    1 <= column <= 15,
                    found@ == done_rows + concat_over(
                        (column - 1) as nat,
                        self.exposed_by_column(row as int),
                    ),
                decreases 15 - column,
            {
                self.push_exposed_in_column(column, row, &mut found);
                proof {
                    let parts = self.exposed_by_column(row as int);
                    assert(parts(column - 1) == self.exposed_in_column(column as int, row as int));
                    assert(concat_over(column as nat, parts) == concat_over(
                        (column - 1) as nat,
                        parts,
                    ) + parts(column - 1));
                }
                column += 1;
            }
            proof {
                let rows = self.exposed_by_row();
                assert(rows(row - 1) == self.exposed_in_row(row as int));
                assert(concat_over(row as nat, rows) == concat_over((row - 1) as nat, rows) + rows(
                    row - 1,
                ));
            }
            row += 1;
        }
        found
    }

    /// Every visible block of the columns on the rim.
    fn find_rim_surface(&self) -> (found: Vec<BlockData>)
        requires
            self.wf(),
        ensures
            found@ == self.rim_surface(),
    {
        let mut found: Vec<BlockData> = Vec::new();
        let mut i: usize = 0;
        while i < COLUMNS_IN_CHUNK
            invariant
                self.wf(),
                i <= COLUMNS_IN_CHUNK,
                found@ == concat_over(i as nat, self.rim_by_column()),
            decreases COLUMNS_IN_CHUNK - i,
        {
            let column = i % 16;
            let row = i / 16;
            let is_edge = column == 0 || row == 0 || column == 15 || row == 15;
            proof {
                let parts = self.rim_by_column();
                assert(concat_over((i + 1) as nat, parts) == concat_over(i as nat, parts) + parts(
                    i as int,
                ));
            }
            if is_edge {
                self.push_column_blocks(column, row, &mut found);
            }
            i += 1;
        }
        found
    }
}

} // verus!
