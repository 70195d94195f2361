//! What the surface blocks of a chunk are: the visible blocks of the columns
//! on the rim, and of the other columns those that touch a place without a
//! block. Each is listed once.

use vstd::prelude::*;
use crate::chunk::{on_rim, BlockData, Chunk};
use crate::material_tower::{holds_visible, MAX_BLOCK_Y, MIN_BLOCK_Y};
use crate::sequences::{
    concat_over, lemma_concat_element, lemma_concat_holds, lemma_concat_no_duplicates,
};

verus! {

/// The drawing data of the block at `(x, y, z)` of `chunk`.
pub open spec fn recorded_at(chunk: Chunk, x: int, y: int, z: int) -> BlockData {
    BlockData { offset: chunk.global(x, y, z), material: chunk.block_at(x, y, z) }
}

/// Whether `(x, y, z)` is a place of `chunk`.
pub open spec fn in_chunk(x: int, y: int, z: int) -> bool {
    0 <= x < 16 && 0 <= z < 16 && MIN_BLOCK_Y <= y < MAX_BLOCK_Y
}

/// Whether the block at `(x, y, z)` of `chunk` belongs to the surface: it is
/// visible, and its column lies on the rim or the block is exposed.
pub open spec fn is_surface(chunk: Chunk, x: int, y: int, z: int) -> bool {
    in_chunk(x, y, z) && chunk.shows(x, y, z) && (on_rim(x, z) || chunk.exposed(x, y, z))
}

/// The surface blocks that [`Chunk::build_surface`] derives from `chunk`.
pub open spec fn surface_of(chunk: Chunk) -> Seq<BlockData> {
    chunk.inner_surface() + chunk.rim_surface()
}

/// Blocks at different places of a chunk have different drawing data.
pub proof fn lemma_places_apart(chunk: Chunk, x: int, y: int, z: int, x2: int, y2: int, z2: int)
    requires
        chunk.position.wf(),
        in_chunk(x, y, z),
        in_chunk(x2, y2, z2),
        chunk.global(x, y, z) == chunk.global(x2, y2, z2),
    ensures
        x == x2,
        y == y2,
        z == z2,
{
}

/// Filtering keeps a list free of duplicates.
proof fn lemma_filter_keeps_apart<T>(s: Seq<T>, p: spec_fn(T) -> bool)
    requires
        s.no_duplicates(),
    ensures
        s.filter(p).no_duplicates(),
    decreases s.len(),
{
    reveal(Seq::filter);
    if s.len() > 0 {
        let front = s.drop_last();
        assert(front.no_duplicates());
        lemma_filter_keeps_apart(front, p);
        if p(s.last()) {
            if front.filter(p).contains(s.last()) {
                front.lemma_filter_contains_rev(p, s.last());
                let at = choose|at: int| 0 <= at < front.len() && front[at] == s.last();
                assert(s[at] == s[s.len() - 1]);
            }
        }
    }
}

/// An exposed block listed for a column is an exposed block of that column.
proof fn lemma_column_entry(chunk: Chunk, x: int, z: int, at: int) -> (y: int)
    requires
        0 <= at < chunk.exposed_in_column(x, z).len(),
    ensures
        MIN_BLOCK_Y <= y < MAX_BLOCK_Y,
        chunk.exposed(x, y, z),
        chunk.exposed_in_column(x, z)[at] == recorded_at(chunk, x, y, z),
{
    let parts = chunk.exposed_by_height(x, z);
    let (k, j) = lemma_concat_element(384, parts, at);
    assert(parts(k) == chunk.exposed_entry(x, k - 64, z));
    k - 64
}

/// An exposed block of a column is listed for that column.
proof fn lemma_column_holds(chunk: Chunk, x: int, y: int, z: int)
    requires
        MIN_BLOCK_Y <= y < MAX_BLOCK_Y,
        chunk.exposed(x, y, z),
    ensures
        chunk.exposed_in_column(x, z).contains(recorded_at(chunk, x, y, z)),
{
    let parts = chunk.exposed_by_height(x, z);
    assert(parts(y + 64) == chunk.exposed_entry(x, y, z));
    lemma_concat_holds(384, parts, y + 64, 0);
}

/// No exposed block is listed twice for a column.
proof fn lemma_column_once(chunk: Chunk, x: int, z: int)
    requires
        chunk.position.wf(),
        0 <= x < 16,
        0 <= z < 16,
    ensures
        chunk.exposed_in_column(x, z).no_duplicates(),
{
    let parts = chunk.exposed_by_height(x, z);
    assert forall|k: int| 0 <= k < 384 implies (#[trigger] parts(k)).no_duplicates() by {
        assert(parts(k) == chunk.exposed_entry(x, k - 64, z));
    }
    assert forall|k: int, l: int, i: int, j: int|
        0 <= k < l < 384 && 0 <= i < parts(k).len() && 0 <= j < parts(l).len() implies #[trigger] parts(
        k,
    )[i] != #[trigger] parts(l)[j] by {
        assert(parts(k) == chunk.exposed_entry(x, k - 64, z));
        assert(parts(l) == chunk.exposed_entry(x, l - 64, z));
        if parts(k)[i] == parts(l)[j] {
            lemma_places_apart(chunk, x, k - 64, z, x, l - 64, z);
        }
    }
    lemma_concat_no_duplicates(384, parts);
}

/// An exposed block listed for a row is an exposed block of a column of that
/// row off the rim.
proof fn lemma_row_entry(chunk: Chunk, z: int, at: int) -> (place: (int, int))
    requires
        0 <= at < chunk.exposed_in_row(z).len(),
    ensures
        1 <= place.0 < 15,
        MIN_BLOCK_Y <= place.1 < MAX_BLOCK_Y,
        chunk.exposed(place.0, place.1, z),
        chunk.exposed_in_row(z)[at] == recorded_at(chunk, place.0, place.1, z),
{
    let parts = chunk.exposed_by_column(z);
    let (k, j) = lemma_concat_element(14, parts, at);
    assert(parts(k) == chunk.exposed_in_column(k + 1, z));
    let y = lemma_column_entry(chunk, k + 1, z, j);
    (k + 1, y)
}

/// An exposed block of a column off the rim is listed for its row.
proof fn lemma_row_holds(chunk: Chunk, x: int, y: int, z: int)
    requires
        1 <= x < 15,
        MIN_BLOCK_Y <= y < MAX_BLOCK_Y,
        chunk.exposed(x, y, z),
    ensures
        chunk.exposed_in_row(z).contains(recorded_at(chunk, x, y, z)),
{
    let parts = chunk.exposed_by_column(z);
    assert(parts(x - 1) == chunk.exposed_in_column(x, z));
    lemma_column_holds(chunk, x, y, z);
    let column = chunk.exposed_in_column(x, z);
    let j = choose|j: int| 0 <= j < column.len() && column[j] == recorded_at(chunk, x, y, z);
    lemma_concat_holds(14, parts, x - 1, j);
}

/// No exposed block is listed twice for a row.
proof fn lemma_row_once(chunk: Chunk, z: int)
    requires
        chunk.position.wf(),
        0 <= z < 16,
    ensures
        chunk.exposed_in_row(z).no_duplicates(),
{
    let parts = chunk.exposed_by_column(z);
    assert forall|k: int| 0 <= k < 14 implies (#[trigger] parts(k)).no_duplicates() by {
        assert(parts(k) == chunk.exposed_in_column(k + 1, z));
        lemma_column_once(chunk, k + 1, z);
    }
    assert forall|k: int, l: int, i: int, j: int|
        0 <= k < l < 14 && 0 <= i < parts(k).len() && 0 <= j < parts(l).len() implies #[trigger] parts(
        k,
    )[i] != #[trigger] parts(l)[j] by {
        assert(parts(k) == chunk.exposed_in_column(k + 1, z));
        assert(parts(l) == chunk.exposed_in_column(l + 1, z));
        let y = lemma_column_entry(chunk, k + 1, z, i);
        let y2 = lemma_column_entry(chunk, l + 1, z, j);
        if parts(k)[i] == parts(l)[j] {
            lemma_places_apart(chunk, k + 1, y, z, l + 1, y2, z);
        }
    }
    lemma_concat_no_duplicates(14, parts);
}

/// A block listed among the exposed blocks is an exposed block of a column
/// off the rim.
proof fn lemma_inner_entry(chunk: Chunk, at: int) -> (place: (int, int, int))
    requires
        0 <= at < chunk.inner_surface().len(),
    ensures
        1 <= place.0 < 15,
        1 <= place.2 < 15,
        MIN_BLOCK_Y <= place.1 < MAX_BLOCK_Y,
        chunk.exposed(place.0, place.1, place.2),
        chunk.inner_surface()[at] == recorded_at(chunk, place.0, place.1, place.2),
{
    let parts = chunk.exposed_by_row();
    let (k, j) = lemma_concat_element(14, parts, at);
    assert(parts(k) == chunk.exposed_in_row(k + 1));
    let (x, y) = lemma_row_entry(chunk, k + 1, j);
    (x, y, k + 1)
}

/// An exposed block of a column off the rim is listed among the exposed
/// blocks.
proof fn lemma_inner_holds(chunk: Chunk, x: int, y: int, z: int)
    requires
        1 <= x < 15,
        1 <= z < 15,
        MIN_BLOCK_Y <= y < MAX_BLOCK_Y,
        chunk.exposed(x, y, z),
    ensures
        chunk.inner_surface().contains(recorded_at(chunk, x, y, z)),
{
    let parts = chunk.exposed_by_row();
    assert(parts(z - 1) == chunk.exposed_in_row(z));
    lemma_row_holds(chunk, x, y, z);
    let row = chunk.exposed_in_row(z);
    let j = choose|j: int| 0 <= j < row.len() && row[j] == recorded_at(chunk, x, y, z);
    lemma_concat_holds(14, parts, z - 1, j);
}

/// No block is listed twice among the exposed blocks.
proof fn lemma_inner_once(chunk: Chunk)
    requires
        chunk.position.wf(),
    ensures
        chunk.inner_surface().no_duplicates(),
{
    let parts = chunk.exposed_by_row();
    assert forall|k: int| 0 <= k < 14 implies (#[trigger] parts(k)).no_duplicates() by {
        assert(parts(k) == chunk.exposed_in_row(k + 1));
        lemma_row_once(chunk, k + 1);
    }
    assert forall|k: int, l: int, i: int, j: int|
        0 <= k < l < 14 && 0 <= i < parts(k).len() && 0 <= j < parts(l).len() implies #[trigger] parts(
        k,
    )[i] != #[trigger] parts(l)[j] by {
        assert(parts(k) == chunk.exposed_in_row(k + 1));
        assert(parts(l) == chunk.exposed_in_row(l + 1));
        let (x, y) = lemma_row_entry(chunk, k + 1, i);
        let (x2, y2) = lemma_row_entry(chunk, l + 1, j);
        if parts(k)[i] == parts(l)[j] {
            lemma_places_apart(chunk, x, y, k + 1, x2, y2, l + 1);
        }
    }
    lemma_concat_no_duplicates(14, parts);
}

/// A block listed for a column as visible is a visible block of that column.
proof fn lemma_visible_entry(chunk: Chunk, x: int, z: int, at: int) -> (y: int)
    requires
        0 <= at < chunk.column_blocks(x, z).len(),
    ensures
        MIN_BLOCK_Y <= y < MAX_BLOCK_Y,
        chunk.shows(x, y, z),
        chunk.column_blocks(x, z)[at] == recorded_at(chunk, x, y, z),
{
    let tower = chunk.tower(x, z);
    let all = tower.blocks_between(MIN_BLOCK_Y as int, MAX_BLOCK_Y as int);
    let seen = all.filter(holds_visible());
    let entry = seen[at];
    all.lemma_filter_pred(holds_visible(), at);
    assert(seen.contains(entry));
    all.lemma_filter_contains_rev(holds_visible(), entry);
    let i = choose|i: int| 0 <= i < all.len() && all[i] == entry;
    assert(all[i] == entry);
    i - 64
}

/// A visible block of a column is listed for that column.
proof fn lemma_visible_holds(chunk: Chunk, x: int, y: int, z: int)
    requires
        chunk.shows(x, y, z),
    ensures
        chunk.column_blocks(x, z).contains(recorded_at(chunk, x, y, z)),
{
    let tower = chunk.tower(x, z);
    let all = tower.blocks_between(MIN_BLOCK_Y as int, MAX_BLOCK_Y as int);
    let seen = all.filter(holds_visible());
    let entry = (y as isize, chunk.block_at(x, y, z));
    assert(all[y + 64] == entry);
    all.lemma_filter_contains(holds_visible(), y + 64);
    let j = choose|j: int| 0 <= j < seen.len() && seen[j] == entry;
    assert(chunk.column_blocks(x, z)[j] == chunk.placed(x, z)(entry));
}

/// No block is listed twice among the visible blocks of a column.
proof fn lemma_visible_once(chunk: Chunk, x: int, z: int)
    requires
        chunk.position.wf(),
        0 <= x < 16,
        0 <= z < 16,
    ensures
        chunk.column_blocks(x, z).no_duplicates(),
{
    let blocks = chunk.column_blocks(x, z);
    assert forall|a: int, b: int| 0 <= a < b < blocks.len() implies blocks[a] != blocks[b] by {
        let tower = chunk.tower(x, z);
        let all = tower.blocks_between(MIN_BLOCK_Y as int, MAX_BLOCK_Y as int);
        assert(all.no_duplicates());
        lemma_filter_keeps_apart(all, holds_visible());
        let seen = all.filter(holds_visible());
        assert(seen[a] != seen[b]);
        let ya = lemma_visible_entry(chunk, x, z, a);
        let yb = lemma_visible_entry(chunk, x, z, b);
        if blocks[a] == blocks[b] {
            lemma_places_apart(chunk, x, ya, z, x, yb, z);
            all.lemma_filter_pred(holds_visible(), a);
            all.lemma_filter_pred(holds_visible(), b);
            assert(seen.contains(seen[a]));
            assert(seen.contains(seen[b]));
            all.lemma_filter_contains_rev(holds_visible(), seen[a]);
            all.lemma_filter_contains_rev(holds_visible(), seen[b]);
            let ia = choose|i: int| 0 <= i < all.len() && all[i] == seen[a];
            let ib = choose|i: int| 0 <= i < all.len() && all[i] == seen[b];
            assert(all[ia] == seen[a] && all[ib] == seen[b]);
            assert(blocks[a] == chunk.placed(x, z)(seen[a]));
            assert(blocks[b] == chunk.placed(x, z)(seen[b]));
            lemma_places_apart(chunk, x, ia - 64, z, x, ib - 64, z);
        }
    }
}

/// A block listed for the rim is a visible block of a column on the rim.
proof fn lemma_rim_entry(chunk: Chunk, at: int) -> (place: (int, int, int))
    requires
        0 <= at < chunk.rim_surface().len(),
    ensures
        in_chunk(place.0, place.1, place.2),
        on_rim(place.0, place.2),
        chunk.shows(place.0, place.1, place.2),
        chunk.rim_surface()[at] == recorded_at(chunk, place.0, place.1, place.2),
{
    let parts = chunk.rim_by_column();
    let (k, j) = lemma_concat_element(256, parts, at);
    assert(parts(k) == chunk.column_blocks(k % 16, k / 16));
    let y = lemma_visible_entry(chunk, k % 16, k / 16, j);
    (k % 16, y, k / 16)
}

/// A visible block of a column on the rim is listed for the rim.
proof fn lemma_rim_holds(chunk: Chunk, x: int, y: int, z: int)
    requires
        in_chunk(x, y, z),
        on_rim(x, z),
        chunk.shows(x, y, z),
    ensures
        chunk.rim_surface().contains(recorded_at(chunk, x, y, z)),
{
    let parts = chunk.rim_by_column();
    let k = z * 16 + x;
    assert(k % 16 == x && k / 16 == z);
    assert(parts(k) == chunk.column_blocks(x, z));
    lemma_visible_holds(chunk, x, y, z);
    let column = chunk.column_blocks(x, z);
    let j = choose|j: int| 0 <= j < column.len() && column[j] == recorded_at(chunk, x, y, z);
    lemma_concat_holds(256, parts, k, j);
}

/// No block is listed twice for the rim.
proof fn lemma_rim_once(chunk: Chunk)
    requires
        chunk.position.wf(),
    ensures
        chunk.rim_surface().no_duplicates(),
{
    let parts = chunk.rim_by_column();
    assert forall|k: int| 0 <= k < 256 implies (#[trigger] parts(k)).no_duplicates() by {
        lemma_visible_once(chunk, k % 16, k / 16);
    }
    assert forall|k: int, l: int, i: int, j: int|
        0 <= k < l < 256 && 0 <= i < parts(k).len() && 0 <= j < parts(l).len() implies #[trigger] parts(
        k,
    )[i] != #[trigger] parts(l)[j] by {
        assert(parts(k) == chunk.column_blocks(k % 16, k / 16));
        assert(parts(l) == chunk.column_blocks(l % 16, l / 16));
        let y = lemma_visible_entry(chunk, k % 16, k / 16, i);
        let y2 = lemma_visible_entry(chunk, l % 16, l / 16, j);
        if parts(k)[i] == parts(l)[j] {
            lemma_places_apart(chunk, k % 16, y, k / 16, l % 16, y2, l / 16);
        }
    }
    lemma_concat_no_duplicates(256, parts);
}

/// Every surface block is a block of the surface: a visible block of the
/// chunk, listed with its place in the world and its material, that lies in
/// a column on the rim or is exposed.
pub proof fn lemma_surface_entry(chunk: Chunk, at: int) -> (place: (int, int, int))
    requires
        0 <= at < surface_of(chunk).len(),
    ensures
        is_surface(chunk, place.0, place.1, place.2),
        surface_of(chunk)[at] == recorded_at(chunk, place.0, place.1, place.2),
{
    let inner = chunk.inner_surface();
    if at < inner.len() {
        lemma_inner_entry(chunk, at)
    } else {
        lemma_rim_entry(chunk, at - inner.len())
    }
}

/// Every block of the surface is a surface block: a visible block is listed
/// if its column lies on the rim, and also if it is exposed.
pub proof fn lemma_surface_holds(chunk: Chunk, x: int, y: int, z: int)
    requires
        is_surface(chunk, x, y, z),
    ensures
        surface_of(chunk).contains(recorded_at(chunk, x, y, z)),
{
    let inner = chunk.inner_surface();
    let rim = chunk.rim_surface();
    let block = recorded_at(chunk, x, y, z);
    if on_rim(x, z) {
        lemma_rim_holds(chunk, x, y, z);
        let j = choose|j: int| 0 <= j < rim.len() && rim[j] == block;
        assert(surface_of(chunk)[inner.len() + j] == block);
    } else {
        lemma_inner_holds(chunk, x, y, z);
        let j = choose|j: int| 0 <= j < inner.len() && inner[j] == block;
        assert(surface_of(chunk)[j] == block);
    }
}

/// No block is listed twice among the surface blocks.
pub proof fn lemma_surface_once(chunk: Chunk)
    requires
        chunk.position.wf(),
    ensures
        surface_of(chunk).no_duplicates(),
{
    let inner = chunk.inner_surface();
    let rim = chunk.rim_surface();
    let all = surface_of(chunk);
    lemma_inner_once(chunk);
    lemma_rim_once(chunk);
    assert forall|a: int, b: int| 0 <= a < b < all.len() implies all[a] != all[b] by {
        if b < inner.len() {
            assert(inner[a] != inner[b]);
        } else if a >= inner.len() {
            assert(rim[a - inner.len()] != rim[b - inner.len()]);
        } else {
            let (x, y, z) = lemma_inner_entry(chunk, a);
            let (x2, y2, z2) = lemma_rim_entry(chunk, b - inner.len());
            if all[a] == all[b] {
                lemma_places_apart(chunk, x, y, z, x2, y2, z2);
            }
        }
    }
}

} // verus!
