//! Addresses of chunks: a region and a chunk within it, on each horizontal axis.

use vstd::prelude::*;
use vstd::arithmetic::div_mod::lemma_fundamental_div_mod_converse;

verus! {

/// A region is a square of this many chunks per side.
pub const CHUNKS_IN_REGION: usize = 32;

/// A chunk is a square of this many block columns per side.
pub const BLOCKS_IN_CHUNK: usize = 16;

/// Where a chunk lies: its region, and its place inside that region.
///
/// Regions tile both axes in both directions, so the chunk just below chunk 0
/// of region 0 is chunk 31 of region -1.
#[derive(Copy, Clone, Debug, PartialEq, Eq, Structural)]
pub struct ChunkPosition {
    pub region_x: i32,
    pub region_z: i32,
    /// Between 0 and `CHUNKS_IN_REGION - 1`.
    pub chunk_x: usize,
    /// Between 0 and `CHUNKS_IN_REGION - 1`.
    pub chunk_z: usize,
}

/// Whether the region that holds global chunk coordinate `global` has a number
/// that fits the region fields.
pub open spec fn region_in_range(global: int) -> bool {
    i32::MIN <= global / 32 <= i32::MAX
}

impl ChunkPosition {
    /// Both chunk coordinates lie inside their region.
    pub open spec fn wf(self) -> bool {
        self.chunk_x < CHUNKS_IN_REGION && self.chunk_z < CHUNKS_IN_REGION
    }

    /// The chunk's x coordinate counted in chunks from chunk 0 of region 0.
    pub open spec fn global_x(self) -> int {
        self.region_x * 32 + self.chunk_x
    }

    /// The chunk's z coordinate counted in chunks from chunk 0 of region 0.
    pub open spec fn global_z(self) -> int {
        self.region_z * 32 + self.chunk_z
    }

    /// The position of the chunk with the given global coordinates.
    pub open spec fn at_global(x: int, z: int) -> ChunkPosition {
        ChunkPosition {
            region_x: (x / 32) as i32,
            region_z: (z / 32) as i32,
            chunk_x: (x % 32) as usize,
            chunk_z: (z % 32) as usize,
        }
    }

    /// The position `offset_x` chunks further along x and `offset_z` along z.
    pub open spec fn spec_offset(self, offset_x: int, offset_z: int) -> ChunkPosition {
        Self::at_global(self.global_x() + offset_x, self.global_z() + offset_z)
    }

    /// Whether the position `offset_x`, `offset_z` chunks away can be written
    /// down: its region numbers fit.
    pub open spec fn can_offset(self, offset_x: int, offset_z: int) -> bool {
        region_in_range(self.global_x() + offset_x) && region_in_range(self.global_z() + offset_z)
    }

    /// The chunk's coordinates counted in chunks from chunk 0 of region 0.
    pub fn get_global_position_in_chunks(&self) -> (global: (i32, i32))
        requires
            self.wf(),
            i32::MIN <= self.global_x() <= i32::MAX,
            i32::MIN <= self.global_z() <= i32::MAX,
        ensures
            global.0 == self.global_x(),
            global.1 == self.global_z(),
    {
        let global_x = self.region_x * (CHUNKS_IN_REGION as i32) + (self.chunk_x as i32);
        let global_z = self.region_z * (CHUNKS_IN_REGION as i32) + (self.chunk_z as i32);
        (global_x, global_z)
    }

    /// The block coordinates of the chunk's corner with the least x and z.
    pub fn get_global_position(&self) -> (origin: (i64, i64))
        requires
            self.wf(),
        ensures
            origin.0 == self.global_x() * 16,
            origin.1 == self.global_z() * 16,
    {
        let chunk_x: i64 = (self.region_x as i64) * 32 + (self.chunk_x as i64);
        let chunk_z: i64 = (self.region_z as i64) * 32 + (self.chunk_z as i64);
        (chunk_x * 16, chunk_z * 16)
    }

    /// The position `offset_x` chunks further along x and `offset_z` along z.
    /// A coordinate that leaves its region on either side rolls over into the
    /// neighbouring region, however far the offset reaches.
    pub fn offset(&self, offset_x: i32, offset_z: i32) -> (moved: Self)
        requires
            self.wf(),
            self.can_offset(offset_x as int, offset_z as int),
        ensures
            moved == self.spec_offset(offset_x as int, offset_z as int),
            moved.wf(),
            moved.global_x() == self.global_x() + offset_x,
            moved.global_z() == self.global_z() + offset_z,
    {
        let (region_x, chunk_x) = offset_axis(self.region_x, self.chunk_x, offset_x);
        let (region_z, chunk_z) = offset_axis(self.region_z, self.chunk_z, offset_z);
        ChunkPosition { region_x, region_z, chunk_x, chunk_z }
    }
}

/// One axis of [`ChunkPosition::offset`].
fn offset_axis(region: i32, chunk: usize, offset: i32) -> (moved: (i32, usize))
    requires
        chunk < CHUNKS_IN_REGION,
        region_in_range(region * 32 + chunk + offset),
    ensures
        moved.0 == (region * 32 + chunk + offset) / 32,
        moved.1 == (region * 32 + chunk + offset) % 32,
        moved.1 < CHUNKS_IN_REGION,
        moved.0 * 32 + moved.1 == region * 32 + chunk + offset,
{
    let shifted: i64 = offset as i64 + chunk as i64;
    let ghost global = region * 32 + chunk + offset;
    if shifted < 0 {
        let region_offset: i64 = (-shifted - 1) / 32;
        let new_chunk: i64 = shifted + 32 * (region_offset + 1);
        let new_region: i64 = region as i64 - region_offset - 1;
        proof {
            lemma_fundamental_div_mod_converse(global, 32, new_region as int, new_chunk as int);
        }
        (new_region as i32, new_chunk as usize)
    } else if shifted > 31 {
        let region_offset: i64 = shifted / 32;
        let new_chunk: i64 = shifted % 32;
        let new_region: i64 = region as i64 + region_offset;
        proof {
            lemma_fundamental_div_mod_converse(global, 32, new_region as int, new_chunk as int);
        }
        (new_region as i32, new_chunk as usize)
    } else {
        proof {
            lemma_fundamental_div_mod_converse(global, 32, region as int, shifted as int);
        }
        (region, shifted as usize)
    }
}

/// A well-formed position is the one found at its own global coordinates.
pub proof fn lemma_at_own_global(p: ChunkPosition)
    requires
        p.wf(),
    ensures
        ChunkPosition::at_global(p.global_x(), p.global_z()) == p,
        region_in_range(p.global_x()),
        region_in_range(p.global_z()),
{
    lemma_fundamental_div_mod_converse(p.global_x(), 32, p.region_x as int, p.chunk_x as int);
    lemma_fundamental_div_mod_converse(p.global_z(), 32, p.region_z as int, p.chunk_z as int);
}

/// The position found at representable global coordinates is well formed and
/// has those coordinates.
pub proof fn lemma_global_of_at(x: int, z: int)
    requires
        region_in_range(x),
        region_in_range(z),
    ensures
        ChunkPosition::at_global(x, z).wf(),
        ChunkPosition::at_global(x, z).global_x() == x,
        ChunkPosition::at_global(x, z).global_z() == z,
{
    vstd::arithmetic::div_mod::lemma_fundamental_div_mod(x, 32);
    vstd::arithmetic::div_mod::lemma_fundamental_div_mod(z, 32);
    vstd::arithmetic::div_mod::lemma_mod_bound(x, 32);
    vstd::arithmetic::div_mod::lemma_mod_bound(z, 32);
}

/// Offsetting keeps the chunk coordinates in their range, whatever the size of
/// the offset, and moves the global coordinates by exactly the offset.
pub proof fn lemma_offset_in_range(p: ChunkPosition, a: int, b: int)
    requires
        p.can_offset(a, b),
    ensures
        p.spec_offset(a, b).wf(),
        p.spec_offset(a, b).global_x() == p.global_x() + a,
        p.spec_offset(a, b).global_z() == p.global_z() + b,
{
    lemma_global_of_at(p.global_x() + a, p.global_z() + b);
}

/// Offsetting by nothing changes nothing.
pub proof fn lemma_offset_zero(p: ChunkPosition)
    requires
        p.wf(),
    ensures
        p.spec_offset(0, 0) == p,
{
    lemma_at_own_global(p);
}

/// Two offsets in a row are the offset by their sum.
pub proof fn lemma_offset_composes(p: ChunkPosition, a: int, b: int, c: int, d: int)
    requires
        p.can_offset(a, b),
    ensures
        p.spec_offset(a, b).spec_offset(c, d) == p.spec_offset(a + c, b + d),
{
    lemma_offset_in_range(p, a, b);
}

/// Offsetting by `(a, b)` and then by `(-a, -b)` gives the position back.
pub proof fn lemma_offset_inverse(p: ChunkPosition, a: int, b: int)
    requires
        p.wf(),
        p.can_offset(a, b),
    ensures
        p.spec_offset(a, b).spec_offset(-a, -b) == p,
{
    lemma_offset_composes(p, a, b, -a, -b);
    lemma_offset_zero(p);
}

} // verus!
