//! The window of loaded chunks and how it follows the viewer.

use vstd::prelude::*;
use vstd::std_specs::hash::*;
use std::collections::HashSet;
use std::sync::Arc;
use itertools::Itertools;
use crate::chunk::{BlockData, Chunk, CHUNK_SIZE};
use crate::chunk_position::ChunkPosition;
use crate::common::BlockType;
use crate::material_tower::{MAX_BLOCK_Y, MIN_BLOCK_Y};
use crate::mesh::{all_wf, merged_indices, pointed_to, total_vertices, Mesh};
use crate::sequences::concat_over;

verus! {

/// The window is a square of this many chunks per side.
pub const WORLD_SIZE: usize = 10;

/// Number of chunks in the window.
pub const CHUNKS_IN_WORLD: usize = 100;

/// How many chunks lie between the window's first row or column and its
/// centre.
pub const OFFSET_FROM_CENTER: usize = 5;

/// Where the chunk of a slot comes from when the window moves.
#[derive(Clone, Copy, PartialEq, Eq, Debug, Structural)]
pub enum ChunkSource {
    /// The chunk at this position has to be loaded.
    Direct(ChunkPosition),
    /// The chunk is in the window already, in this slot.
    Reference(usize),
}

/// One step of moving the window: what happens to the slot with the given
/// index. A reference makes the slot trade places with the slot referred to.
#[derive(Clone, Copy, PartialEq, Eq, Debug, Structural)]
pub struct ChunkChange(pub usize, pub ChunkSource);

/// The index of the slot in column `x` and row `z` of the window.
pub open spec fn slot_index(x: int, z: int) -> int {
    z * 10 + x
}

/// The `k`-th coordinate a moving window visits along an axis: upwards, or
/// downwards when `reverse` is set.
pub open spec fn axis_order(reverse: bool, k: int) -> int {
    if reverse {
        9 - k
    } else {
        k
    }
}

/// How many coordinates of an axis keep their chunk when the window moves by
/// `direction` along it.
pub open spec fn swappable_size(direction: int) -> int {
    if direction != 0 {
        9
    } else {
        10
    }
}

/// The coordinate of the row or column that a window moving in reverse, or
/// not, has to fill afresh.
pub open spec fn edge_coord(reverse: bool) -> int {
    if reverse {
        0
    } else {
        9
    }
}

/// All pairs of an element of `xs` with an element of `zs`, the element of
/// `xs` changing slowest.
pub open spec fn product(xs: Seq<usize>, zs: Seq<usize>) -> Seq<(usize, usize)> {
    Seq::new(xs.len() * zs.len(), |i: int| (xs[i / (zs.len() as int)], zs[i % (zs.len() as int)]))
}

/// `cells` without the entries that occurred earlier in it.
pub open spec fn first_occurrences(cells: Seq<(usize, usize)>) -> Seq<(usize, usize)>
    decreases cells.len(),
{
    if cells.len() == 0 {
        cells
    } else {
        let front = first_occurrences(cells.drop_last());
        if cells.drop_last().contains(cells.last()) {
            front
        } else {
            front.push(cells.last())
        }
    }
}

/// The first `count` coordinates that a window moving in reverse, or not,
/// visits along an axis.
pub open spec fn axis_cells(reverse: bool, count: int) -> Seq<usize> {
    Seq::new(count as nat, |k: int| axis_order(reverse, k) as usize)
}

/// The cells whose chunks stay in the window when it moves by `(dx, dz)`, in
/// the order in which they trade places.
pub open spec fn swap_cells(dx: int, dz: int) -> Seq<(usize, usize)> {
    product(axis_cells(dx < 0, swappable_size(dx)), axis_cells(dz < 0, swappable_size(dz)))
}

/// The cells of the column that a window moving by `dx` along x fills afresh.
pub open spec fn x_edge_cells(dx: int) -> Seq<(usize, usize)> {
    Seq::new(10, |z: int| (edge_coord(dx < 0) as usize, z as usize))
}

/// The cells of the row that a window moving by `dz` along z fills afresh.
pub open spec fn z_edge_cells(dz: int) -> Seq<(usize, usize)> {
    Seq::new(10, |x: int| (x as usize, edge_coord(dz < 0) as usize))
}

/// The cells that a window moving by `(dx, dz)` fills afresh, in the order in
/// which they are loaded: the column it moves into, then the row, the cell
/// in the corner once. A window that does not move fills none.
pub open spec fn load_cells(dx: int, dz: int) -> Seq<(usize, usize)> {
    if dx == 0 && dz == 0 {
        Seq::empty()
    } else if dx == 0 {
        z_edge_cells(dz)
    } else if dz == 0 {
        x_edge_cells(dx)
    } else {
        first_occurrences(x_edge_cells(dx) + z_edge_cells(dz))
    }
}

/// The change that lets a cell trade places with the cell `(dx, dz)` away.
pub open spec fn swap_of(dx: int, dz: int) -> spec_fn((usize, usize)) -> ChunkChange {
    |cell: (usize, usize)|
        ChunkChange(
            slot_index(cell.0 as int, cell.1 as int) as usize,
            ChunkSource::Reference(slot_index(cell.0 + dx, cell.1 + dz) as usize),
        )
}

/// The change that fills a cell with the chunk `(dx, dz)` away from the one
/// it held when the window had the chunks at `positions`.
pub open spec fn load_of(positions: Seq<ChunkPosition>, dx: int, dz: int) -> spec_fn(
    (usize, usize),
) -> ChunkChange {
    |cell: (usize, usize)|
        ChunkChange(
            slot_index(cell.0 as int, cell.1 as int) as usize,
            ChunkSource::Direct(
                positions[slot_index(cell.0 as int, cell.1 as int)].spec_offset(dx, dz),
            ),
        )
}

/// The changes that move a window with the chunks at `positions` by
/// `(dx, dz)`: first the trades, then the loads.
pub open spec fn plan(positions: Seq<ChunkPosition>, dx: int, dz: int) -> Seq<ChunkChange> {
    swap_cells(dx, dz).map_values(swap_of(dx, dz)) + load_cells(dx, dz).map_values(
        load_of(positions, dx, dz),
    )
}

/// The positions of `chunks`.
pub open spec fn positions_of(chunks: Seq<Arc<Chunk>>) -> Seq<ChunkPosition> {
    Seq::new(chunks.len(), |i: int| chunks[i].position)
}

/// -1, 0 or 1 as `new_region`, `new_chunk` lies below, at or above `region`,
/// `chunk` on its axis.
fn get_difference_1d(region: i32, chunk: usize, new_region: i32, new_chunk: usize) -> (step: i32)
    requires
        chunk < 32,
        new_chunk < 32,
    ensures
        -1 <= step <= 1,
        step == 0 <==> new_region * 32 + new_chunk == region * 32 + chunk,
        step == 1 <==> new_region * 32 + new_chunk > region * 32 + chunk,
{
    if region == new_region {
        if chunk == new_chunk {
            return 0;
        }
        if chunk > new_chunk {
            return -1;
        }
        return 1;
    }
    if region > new_region {
        return -1;
    }
    return 1;
}

/// The sign of a number.
pub open spec fn sign(n: int) -> int {
    if n < 0 {
        -1
    } else if n == 0 {
        0
    } else {
        1
    }
}

/// On each axis, the direction in which `different` lies from `start`: -1, 0
/// or 1.
pub fn get_difference(start: &ChunkPosition, different: &ChunkPosition) -> (direction: (
    i32,
    i32,
))
    requires
        start.wf(),
        different.wf(),
    ensures
        direction.0 == sign(different.global_x() - start.global_x()),
        direction.1 == sign(different.global_z() - start.global_z()),
{
    let diff_x = get_difference_1d(
        start.region_x,
        start.chunk_x,
        different.region_x,
        different.chunk_x,
    );
    let diff_z = get_difference_1d(
        start.region_z,
        start.chunk_z,
        different.region_z,
        different.chunk_z,
    );
    (diff_x, diff_z)
}

/// The index of the slot in column `x` and row `z` of the window.
pub fn chunk_index(x: usize, z: usize) -> (index: usize)
    requires
        x < WORLD_SIZE,
        z < WORLD_SIZE,
    ensures
        index == slot_index(x as int, z as int),
        index < CHUNKS_IN_WORLD,
{
    z * WORLD_SIZE + x
}

/// Calls `Itertools::cartesian_product` on the two lists and collects what it
/// yields. Claims that this is every pair of an element of `xs` with one of
/// `zs`, in the order of `xs`, and for each of them in the order of `zs`.
#[verifier::external_body]
fn cartesian_product(xs: Vec<usize>, zs: Vec<usize>) -> (pairs: Vec<(usize, usize)>)
    ensures
        pairs@ == product(xs@, zs@),
{
    xs.into_iter().cartesian_product(zs.into_iter()).collect()
}

/// Calls `Itertools::unique` on the list and collects what it yields. Claims
/// that this is the list without the entries that equal an earlier one, the
/// others in their order.
#[verifier::external_body]
fn unique(cells: Vec<(usize, usize)>) -> (kept: Vec<(usize, usize)>)
    ensures
        kept@ == first_occurrences(cells@),
{
    cells.into_iter().unique().collect()
}

/// The first `count` coordinates that a window moving in reverse, or not,
/// visits along an axis.
fn index_builder(reverse: bool, count: usize) -> (order: Vec<usize>)
    requires
        count <= WORLD_SIZE,
    ensures
        order@ == axis_cells(reverse, count as int),
{
    let mut order: Vec<usize> = Vec::new();
    let mut index: usize = 0;
    while index < count
        invariant
            index <= count <= WORLD_SIZE,
            order@ == axis_cells(reverse, index as int),
        decreases count - index,
    {
        let coordinate = match reverse {
            true => WORLD_SIZE - 1 - index,
            false => index,
        };
        order.push(coordinate);
        index += 1;
        assert(order@ == axis_cells(reverse, index as int));
    }
    order
}

/// How many coordinates of an axis keep their chunk when the window moves by
/// `dir` along it.
fn swappable_region_size(dir: i32) -> (size: usize)
    ensures
        size == swappable_size(dir as int),
{
    let loading_in_direction = dir != 0;
    if loading_in_direction {
        WORLD_SIZE - 1
    } else {
        WORLD_SIZE
    }
}

/// The cells of one edge of the window: those of column `coord` when
/// `column` is set, those of row `coord` otherwise.
fn edge_indices(coord: usize, column: bool) -> (cells: Vec<(usize, usize)>)
    requires
        coord < WORLD_SIZE,
    ensures
        cells@ == Seq::new(
            10,
            |k: int|
                if column {
                    (coord, k as usize)
                } else {
                    (k as usize, coord)
                },
        ),
{
    let mut cells: Vec<(usize, usize)> = Vec::new();
    let mut k: usize = 0;
    while k < WORLD_SIZE
        invariant
            k <= WORLD_SIZE,
            cells@ == Seq::new(
                k as nat,
                |k: int|
                    if column {
                        (coord, k as usize)
                    } else {
                        (k as usize, coord)
                    },
            ),
        decreases WORLD_SIZE - k,
    {
        if column {
            cells.push((coord, k));
        } else {
            cells.push((k, coord));
        }
        k += 1;
        assert(cells@ == Seq::new(
            k as nat,
            |k: int|
                if column {
                    (coord, k as usize)
                } else {
                    (k as usize, coord)
                },
        ));
    }
    cells
}

/// The changes that move the window holding `chunks` by one chunk, or none,
/// along each axis, as `offset` says. Chunks that stay in the window trade
/// places; the row and the column that the window moves into are loaded, each
/// slot of them with the chunk that lies `offset` from the one it held. A
/// window that moves along no axis loads nothing.
pub fn offset_chunks(chunks: &Vec<Arc<Chunk>>, offset: (i32, i32)) -> (changes: Vec<ChunkChange>)
    requires
        chunks@.len() == CHUNKS_IN_WORLD,
        -1 <= offset.0 <= 1,
        -1 <= offset.1 <= 1,
        forall|i: int|
            0 <= i < CHUNKS_IN_WORLD ==> (#[trigger] chunks@[i]).position.wf()
                && chunks@[i].position.can_offset(offset.0 as int, offset.1 as int),
    ensures
        changes@ == plan(positions_of(chunks@), offset.0 as int, offset.1 as int),
{
    let (direction_x, direction_z) = offset;
    let reverse_x = direction_x < 0;
    let reverse_z = direction_z < 0;
    let ghost (dx, dz) = (direction_x as int, direction_z as int);
    let ghost positions = positions_of(chunks@);

    let x_iter = index_builder(reverse_x, swappable_region_size(direction_x));
    let z_iter = index_builder(reverse_z, swappable_region_size(direction_z));
    let swappable_chunks = cartesian_product(x_iter, z_iter);
    assert(swappable_chunks@ == swap_cells(dx, dz));

    let mut changes: Vec<ChunkChange> = Vec::new();
    let mut i: usize = 0;
    while i < swappable_chunks.len()
        invariant
            -1 <= direction_x <= 1,
            -1 <= direction_z <= 1,
            dx == direction_x,
            dz == direction_z,
            swappable_chunks@ == swap_cells(dx, dz),
            i <= swappable_chunks.len(),
            changes@ == swappable_chunks@.take(i as int).map_values(swap_of(dx, dz)),
        decreases swappable_chunks.len() - i,
    {
        let (x, z) = swappable_chunks[i];
        proof {
            lemma_swap_cell(dx, dz, i as int);
        }
        let current_chunk_index = chunk_index(x, z);
        let next_x = (x as i32 + direction_x) as usize;
        let next_z = (z as i32 + direction_z) as usize;
        let next_chunk_index = chunk_index(next_x, next_z);
        changes.push(ChunkChange(current_chunk_index, ChunkSource::Reference(next_chunk_index)));
        i += 1;
        assert(swappable_chunks@.take(i as int).map_values(swap_of(dx, dz))
            == swappable_chunks@.take(i - 1).map_values(swap_of(dx, dz)).push(
            swap_of(dx, dz)(swappable_chunks@[i - 1]),
        ));
    }
    assert(swappable_chunks@.take(swappable_chunks.len() as int) == swappable_chunks@);

    let x_edge_coord: usize = if reverse_x {
        0
    } else {
        WORLD_SIZE - 1
    };
    let z_edge_coord: usize = if reverse_z {
        0
    } else {
        WORLD_SIZE - 1
    };
    let indices_of_chunks_to_load = if direction_x == 0 && direction_z == 0 {
        Vec::new()
    } else if direction_x == 0 {
        let cells = edge_indices(z_edge_coord, false);
        assert(cells@ == z_edge_cells(dz));
        cells
    } else if direction_z == 0 {
        let cells = edge_indices(x_edge_coord, true);
        assert(cells@ == x_edge_cells(dx));
        cells
    } else {
        let mut x_edge_indices = edge_indices(x_edge_coord, true);
        let mut z_edge_indices = edge_indices(z_edge_coord, false);
        assert(x_edge_indices@ == x_edge_cells(dx));
        assert(z_edge_indices@ == z_edge_cells(dz));
        x_edge_indices.append(&mut z_edge_indices);
        unique(x_edge_indices)
    };
    assert(indices_of_chunks_to_load@ == load_cells(dx, dz));

    let ghost swaps = changes@;
    let mut k: usize = 0;
    while k < indices_of_chunks_to_load.len()
        invariant
            chunks@.len() == CHUNKS_IN_WORLD,
            -1 <= direction_x <= 1,
            -1 <= direction_z <= 1,
            dx == direction_x,
            dz == direction_z,
            positions == positions_of(chunks@),
            forall|i: int|
                0 <= i < CHUNKS_IN_WORLD ==> (#[trigger] chunks@[i]).position.wf()
                    && chunks@[i].position.can_offset(dx, dz),
            indices_of_chunks_to_load@ == load_cells(dx, dz),
            k <= indices_of_chunks_to_load.len(),
            changes@ == swaps + indices_of_chunks_to_load@.take(k as int).map_values(
                load_of(positions, dx, dz),
            ),
        decreases indices_of_chunks_to_load.len() - k,
    {
        let (x, z) = indices_of_chunks_to_load[k];
        proof {
            lemma_load_cell(dx, dz, k as int);
        }
        let current_chunk_index = chunk_index(x, z);
        let held_position = &chunks[current_chunk_index].position;
        let position_to_load = held_position.offset(direction_x, direction_z);
        changes.push(ChunkChange(current_chunk_index, ChunkSource::Direct(position_to_load)));
        k += 1;
        assert(indices_of_chunks_to_load@.take(k as int).map_values(load_of(positions, dx, dz))
            == indices_of_chunks_to_load@.take(k - 1).map_values(load_of(positions, dx, dz)).push(
            load_of(positions, dx, dz)(indices_of_chunks_to_load@[k - 1]),
        ));
    }
    assert(indices_of_chunks_to_load@.take(indices_of_chunks_to_load.len() as int)
        == indices_of_chunks_to_load@);
    changes
}

/// A cell that trades places lies in the window, and so does the cell it
/// trades with.
pub proof fn lemma_swap_cell(dx: int, dz: int, i: int)
    requires
        -1 <= dx <= 1,
        -1 <= dz <= 1,
        0 <= i < swap_cells(dx, dz).len(),
    ensures
        swap_cells(dx, dz).len() == swappable_size(dx) * swappable_size(dz),
        swap_cells(dx, dz)[i].0 == axis_order(dx < 0, i / swappable_size(dz)),
        swap_cells(dx, dz)[i].1 == axis_order(dz < 0, i % swappable_size(dz)),
        0 <= i / swappable_size(dz) < swappable_size(dx),
        0 <= swap_cells(dx, dz)[i].0 < 10,
        0 <= swap_cells(dx, dz)[i].1 < 10,
        0 <= swap_cells(dx, dz)[i].0 + dx < 10,
        0 <= swap_cells(dx, dz)[i].1 + dz < 10,
{
    let nx = swappable_size(dx);
    let nz = swappable_size(dz);
    assert(swap_cells(dx, dz).len() == nx * nz);
    assert(0 <= i / nz < nx) by (nonlinear_arith)
        requires
            0 <= i < nx * nz,
            9 <= nz <= 10,
            9 <= nx <= 10,
    ;
}

/// A list of first occurrences has the elements of the list it was made
/// from, each of them once.
pub proof fn lemma_first_occurrences(cells: Seq<(usize, usize)>)
    ensures
        forall|cell: (usize, usize)|
            first_occurrences(cells).contains(cell) <==> cells.contains(cell),
        forall|i: int, j: int|
            0 <= i < j < first_occurrences(cells).len() ==> first_occurrences(cells)[i]
                != first_occurrences(cells)[j],
        first_occurrences(cells).len() <= cells.len(),
    decreases cells.len(),
{
    if cells.len() > 0 {
        let front = cells.drop_last();
        let last = cells.last();
        lemma_first_occurrences(front);
        let kept = first_occurrences(cells);
        assert forall|cell: (usize, usize)| kept.contains(cell) <==> cells.contains(cell) by {
            if cells.contains(cell) {
                let at = choose|at: int| 0 <= at < cells.len() && cells[at] == cell;
                if at < front.len() {
                    assert(front[at] == cell);
                    assert(front.contains(cell));
                    assert(first_occurrences(front).contains(cell));
                    let k = choose|k: int|
                        0 <= k < first_occurrences(front).len() && first_occurrences(front)[k]
                            == cell;
                    assert(kept[k] == cell);
                } else {
                    assert(cell == last);
                    if front.contains(last) {
                        assert(first_occurrences(front).contains(cell));
                    } else {
                        assert(kept[kept.len() - 1] == cell);
                    }
                }
            }
            if kept.contains(cell) {
                let k = choose|k: int| 0 <= k < kept.len() && kept[k] == cell;
                if k < first_occurrences(front).len() {
                    assert(first_occurrences(front)[k] == cell);
                    assert(first_occurrences(front).contains(cell));
                    assert(front.contains(cell));
                    let at = choose|at: int| 0 <= at < front.len() && front[at] == cell;
                    assert(cells[at] == cell);
                } else {
                    assert(cells[cells.len() - 1] == cell);
                }
            }
        }
        assert forall|i: int, j: int| 0 <= i < j < kept.len() implies kept[i] != kept[j] by {
            if j >= first_occurrences(front).len() {
                assert(kept[j] == last);
                assert(first_occurrences(front)[i] == kept[i]);
                if kept[i] == last {
                    assert(first_occurrences(front).contains(last));
                }
            }
        }
    }
}

/// A cell that is loaded lies in the window.
pub proof fn lemma_load_cell(dx: int, dz: int, k: int)
    requires
        -1 <= dx <= 1,
        -1 <= dz <= 1,
        0 <= k < load_cells(dx, dz).len(),
    ensures
        0 <= load_cells(dx, dz)[k].0 < 10,
        0 <= load_cells(dx, dz)[k].1 < 10,
{
    if dx != 0 && dz != 0 {
        let both = x_edge_cells(dx) + z_edge_cells(dz);
        lemma_first_occurrences(both);
        let cell = load_cells(dx, dz)[k];
        assert(first_occurrences(both).contains(cell));
        assert(both.contains(cell));
        let at = choose|at: int| 0 <= at < both.len() && both[at] == cell;
        assert(both[at] == cell);
    }
}

/// A move of the window that has been asked for and not yet carried out.
pub struct WorldChange {
    /// The centre the window will have.
    pub center: ChunkPosition,
    /// The direction in which the window moves, -1, 0 or 1 on each axis.
    pub direction: (i32, i32),
    /// The changes that move it.
    pub changes: Vec<ChunkChange>,
}

/// What the worker that loads chunks for a move of the window is doing.
pub enum WorkerReport {
    /// No worker was started, or its result has been taken already.
    Idle,
    /// The worker is still loading.
    Running,
    /// The worker has loaded these chunks, in the order of the loads it was
    /// given, and built the surface of each.
    Finished(Vec<Arc<Chunk>>),
    /// The worker died.
    Panicked,
}

/// What [`World::update_chunk_data`] did and what it asks for.
pub struct UpdateOutcome {
    /// Whether the window has moved.
    pub world_data_updated: bool,
    /// The slots whose meshes are to be built now.
    pub to_build: Vec<usize>,
    /// The positions of the chunks that a worker is to load now, in this
    /// order, if a move of the window has been asked for.
    pub to_load: Option<Vec<ChunkPosition>>,
}

/// A square window of chunks around a centre chunk, with the mesh of each
/// chunk once it has been built.
///
/// Rows of the window run along x and columns along z; greater indices are
/// greater coordinates. The chunks are shared: a snapshot of the window costs
/// a handle per chunk, and stays as it is when the window moves on.
pub struct World<V> {
    /// The chunks, row after row.
    pub chunks: Vec<Arc<Chunk>>,
    /// The position of the chunk in the middle of the window.
    pub center: ChunkPosition,
    /// For each slot, the mesh of its chunk, once built.
    pub chunk_meshes: Vec<Option<Mesh<V>>>,
    /// The chunks whose meshes are being built, each by the number that
    /// stands for its position.
    pub meshes_being_built: HashSet<u128>,
    /// The move of the window that is under way, if one is.
    pub world_change: Option<WorldChange>,
}

/// The slots after `change`: a reference makes two slots trade places, a load
/// puts `fresh` into one.
pub open spec fn changed<T>(slots: Seq<T>, change: ChunkChange, fresh: T) -> Seq<T> {
    match change.1 {
        ChunkSource::Reference(other) => slots.update(change.0 as int, slots[other as int]).update(
            other as int,
            slots[change.0 as int],
        ),
        ChunkSource::Direct(_) => slots.update(change.0 as int, fresh),
    }
}

/// How many of `changes` are loads.
pub open spec fn loads_in(changes: Seq<ChunkChange>) -> nat
    decreases changes.len(),
{
    if changes.len() == 0 {
        0
    } else {
        loads_in(changes.drop_last()) + if changes.last().1 is Direct {
            1nat
        } else {
            0nat
        }
    }
}

/// The positions that the loads among `changes` ask for, in their order.
pub open spec fn positions_to_load(changes: Seq<ChunkChange>) -> Seq<ChunkPosition>
    decreases changes.len(),
{
    if changes.len() == 0 {
        Seq::empty()
    } else {
        match changes.last().1 {
            ChunkSource::Direct(position) => positions_to_load(changes.drop_last()).push(position),
            ChunkSource::Reference(_) => positions_to_load(changes.drop_last()),
        }
    }
}

/// The slots after all `changes`, one after the other; the `k`-th load puts
/// `fresh[k]` into its slot.
pub open spec fn applied<T>(slots: Seq<T>, changes: Seq<ChunkChange>, fresh: Seq<T>) -> Seq<T>
    decreases changes.len(),
{
    if changes.len() == 0 {
        slots
    } else {
        changed(
            applied(slots, changes.drop_last(), fresh),
            changes.last(),
            fresh[loads_in(changes.drop_last()) as int],
        )
    }
}

/// Whether every change names slots of the window.
pub open spec fn changes_in_window(changes: Seq<ChunkChange>) -> bool {
    forall|i: int|
        0 <= i < changes.len() ==> (#[trigger] changes[i]).0 < CHUNKS_IN_WORLD && (
        changes[i].1 matches ChunkSource::Reference(other) ==> other < CHUNKS_IN_WORLD)
}

/// The position that the slot in column `x` and row `z` shows when the window
/// is centred on `center`.
pub open spec fn window_position(center: ChunkPosition, x: int, z: int) -> ChunkPosition {
    center.spec_offset(x - 5, z - 5)
}

/// Whether a window can be centred on `center`: the regions of all its
/// chunks have numbers that fit.
pub open spec fn fits_window(center: ChunkPosition) -> bool {
    center.wf() && center.can_offset(-5, -5) && center.can_offset(4, 4)
}

/// The cells of the window that have a neighbour on every side.
pub open spec fn inner_cells() -> Seq<(usize, usize)> {
    product(Seq::new(8, |k: int| (k + 1) as usize), Seq::new(8, |k: int| (k + 1) as usize))
}

/// The slots of the window that have a neighbour on every side.
pub open spec fn inner_slots() -> Seq<usize> {
    inner_cells().map_values(|cell: (usize, usize)| slot_index(cell.0 as int, cell.1 as int) as usize)
}

/// Calls `<[T]>::swap` on the vector's elements. Claims that the elements at
/// `a` and `b` have traded places and the others are where they were; with
/// `a` equal to `b` nothing has changed.
#[verifier::external_body]
fn swap_slots<T>(slots: &mut Vec<T>, a: usize, b: usize)
    requires
        a < old(slots)@.len(),
        b < old(slots)@.len(),
    ensures
        final(slots)@ == old(slots)@.update(a as int, old(slots)@[b as int]).update(
            b as int,
            old(slots)@[a as int],
        ),
{
    slots.swap(a, b)
}

/// Calls `Arc::clone`. Claims that the new handle points at the same chunk.
#[verifier::external_body]
fn share(chunk: &Arc<Chunk>) -> (shared: Arc<Chunk>)
    ensures
        shared == *chunk,
{
    Arc::clone(chunk)
}

/// The loads among `changes`, as the positions they ask for.
pub fn chunks_to_load(changes: &Vec<ChunkChange>) -> (positions: Vec<ChunkPosition>)
    ensures
        positions@ == positions_to_load(changes@),
{
    let mut positions: Vec<ChunkPosition> = Vec::new();
    let mut i: usize = 0;
    while i < changes.len()
        invariant
            i <= changes.len(),
            positions@ == positions_to_load(changes@.take(i as int)),
        decreases changes.len() - i,
    {
        proof {
            assert(changes@.take(i + 1).drop_last() == changes@.take(i as int));
        }
        match changes[i].1 {
            ChunkSource::Direct(position) => {
                positions.push(position);
            },
            ChunkSource::Reference(_) => {},
        }
        i += 1;
    }
    assert(changes@.take(changes.len() as int) == changes@);
    positions
}

/// The positions of the chunks of a window centred on `center`, slot by slot.
pub fn window_positions(center: ChunkPosition) -> (positions: Vec<ChunkPosition>)
    requires
        fits_window(center),
    ensures
        positions@.len() == CHUNKS_IN_WORLD,
        forall|x: int, z: int|
            0 <= x < 10 && 0 <= z < 10 ==> #[trigger] positions@[slot_index(x, z)]
                == window_position(center, x, z),
{
    // The position of the chunk that belongs in slot 0.
    let base_chunk_position = center.offset(
        -(OFFSET_FROM_CENTER as i32),
        -(OFFSET_FROM_CENTER as i32),
    );
    let mut positions: Vec<ChunkPosition> = Vec::new();
    let mut index: usize = 0;
    while index < CHUNKS_IN_WORLD
        invariant
            fits_window(center),
            base_chunk_position == center.spec_offset(-5, -5),
            base_chunk_position.wf(),
            base_chunk_position.global_x() == center.global_x() - 5,
            base_chunk_position.global_z() == center.global_z() - 5,
            index <= CHUNKS_IN_WORLD,
            positions@.len() == index,
            forall|i: int|
                0 <= i < index ==> #[trigger] positions@[i] == window_position(
                    center,
                    i % 10,
                    i / 10,
                ),
        decreases CHUNKS_IN_WORLD - index,
    {
        let x = index % WORLD_SIZE;
        let z = index / WORLD_SIZE;
        proof {
            lemma_region_between(center.global_x(), -5, 4, x - 5);
            lemma_region_between(center.global_z(), -5, 4, z - 5);
        }
        let chunk_position = base_chunk_position.offset(x as i32, z as i32);
        positions.push(chunk_position);
        index += 1;
    }
    assert forall|x: int, z: int| 0 <= x < 10 && 0 <= z < 10 implies #[trigger] positions@[slot_index(
        x,
        z,
    )] == window_position(center, x, z) by {
        let i = slot_index(x, z);
        assert(i % 10 == x && i / 10 == z);
    }
    positions
}

/// A coordinate between two coordinates whose regions have numbers that fit
/// lies in a region whose number fits.
pub proof fn lemma_region_between(global: int, low: int, high: int, by: int)
    requires
        crate::chunk_position::region_in_range(global + low),
        crate::chunk_position::region_in_range(global + high),
        low <= by <= high,
    ensures
        crate::chunk_position::region_in_range(global + by),
{
    vstd::arithmetic::div_mod::lemma_div_is_ordered(global + low, global + by, 32);
    vstd::arithmetic::div_mod::lemma_div_is_ordered(global + by, global + high, 32);
}

/// The slots of the window that have a neighbour on every side. Only their
/// chunks get a mesh: the field around a chunk on the rim is not known.
pub fn inner_chunk_indices() -> (indices: Vec<usize>)
    ensures
        indices@ == inner_slots(),
        forall|k: int| 0 <= k < indices@.len() ==> indices@[k] < CHUNKS_IN_WORLD,
{
    let mut xs: Vec<usize> = Vec::new();
    let mut zs: Vec<usize> = Vec::new();
    let mut k: usize = 1;
    while k < WORLD_SIZE - 1
        invariant
            1 <= k <= WORLD_SIZE - 1,
            xs@ == Seq::new((k - 1) as nat, |k: int| (k + 1) as usize),
            zs@ == Seq::new((k - 1) as nat, |k: int| (k + 1) as usize),
        decreases WORLD_SIZE - k,
    {
        xs.push(k);
        zs.push(k);
        k += 1;
        assert(xs@ == Seq::new((k - 1) as nat, |k: int| (k + 1) as usize));
        assert(zs@ == Seq::new((k - 1) as nat, |k: int| (k + 1) as usize));
    }
    let cells = cartesian_product(xs, zs);
    let ghost to_slot = |cell: (usize, usize)| slot_index(cell.0 as int, cell.1 as int) as usize;
    let mut chunk_indices: Vec<usize> = Vec::new();
    let mut i: usize = 0;
    while i < cells.len()
        invariant
            cells@ == inner_cells(),
            i <= cells.len(),
            forall|cell: (usize, usize)|
                #[trigger] to_slot(cell) == slot_index(cell.0 as int, cell.1 as int) as usize,
            chunk_indices@ == cells@.take(i as int).map_values(to_slot),
            forall|k: int| 0 <= k < chunk_indices@.len() ==> chunk_indices@[k] < CHUNKS_IN_WORLD,
        decreases cells.len() - i,
    {
        let (x, z) = cells[i];
        proof {
            assert(0 <= i as int / 8 < 8 && 0 <= i as int % 8 < 8);
        }
        chunk_indices.push(chunk_index(x, z));
        i += 1;
        assert(cells@.take(i as int).map_values(to_slot) == cells@.take(i - 1).map_values(
            to_slot,
        ).push(to_slot(cells@[i - 1])));
    }
    proof {
        assert(cells@.take(cells.len() as int) == cells@);
        assert(cells@.map_values(to_slot) == inner_slots());
    }
    chunk_indices
}

/// A move that is under way, as plain values: the centre to come, the
/// direction, and the changes.
pub type Pending = Option<(ChunkPosition, (i32, i32), Seq<ChunkChange>)>;

/// No mesh for each of `count` freshly loaded chunks.
pub open spec fn no_meshes<V>(count: nat) -> Seq<Option<Mesh<V>>> {
    Seq::new(count, |k: int| None)
}

/// Whether a position can be moved by `(dx, dz)` and written down.
pub open spec fn can_step(position: ChunkPosition, dx: int, dz: int) -> bool {
    position.wf() && position.can_offset(dx, dz)
}

impl<V> World<V> {
    /// The positions of the chunks, slot by slot.
    pub open spec fn positions(&self) -> Seq<ChunkPosition> {
        positions_of(self.chunks@)
    }

    /// Whether the mesh of the chunk at `position` is being built.
    pub open spec fn being_built(&self, position: ChunkPosition) -> bool {
        self.meshes_being_built@.contains(position_key(position) as u128)
    }

    /// The move that is under way, if one is.
    pub open spec fn pending(&self) -> Pending {
        match self.world_change {
            Some(change) => Some((change.center, change.direction, change.changes@)),
            None => None,
        }
    }

    /// Whether `(center, direction, changes)` is a move this window can make:
    /// one step at most on each axis, with the changes that the window's
    /// chunks call for.
    pub open spec fn can_make(&self, direction: (i32, i32), changes: Seq<ChunkChange>) -> bool {
        &&& -1 <= direction.0 <= 1
        &&& -1 <= direction.1 <= 1
        &&& forall|i: int|
            0 <= i < CHUNKS_IN_WORLD ==> can_step(
                #[trigger] self.positions()[i],
                direction.0 as int,
                direction.1 as int,
            )
        &&& changes == plan(self.positions(), direction.0 as int, direction.1 as int)
    }

    /// The window is complete: a well-formed chunk in every slot, a
    /// well-formed mesh or none for each, and a move under way only if the
    /// window can make it.
    pub open spec fn wf(&self) -> bool {
        &&& self.slots_wf()
        &&& self.center.wf()
        &&& self.pending() matches Some((center, direction, changes)) ==> center.wf()
            && self.can_make(direction, changes)
    }

    /// The window shows what lies around its centre: every slot holds the
    /// chunk whose position is the centre offset by the slot's place, and a
    /// move under way leads to the centre that its direction points at.
    pub open spec fn aligned(&self) -> bool {
        &&& self.center.can_offset(-5, -5)
        &&& self.center.can_offset(4, 4)
        &&& forall|x: int, z: int|
            0 <= x < 10 && 0 <= z < 10 ==> #[trigger] self.positions()[slot_index(x, z)]
                == window_position(self.center, x, z)
        &&& self.pending() matches Some((center, direction, _)) ==> center
            == self.center.spec_offset(direction.0 as int, direction.1 as int)
    }

    /// A window centred on `center` that holds `chunks`, slot by slot, and no
    /// meshes.
    pub fn new(center: ChunkPosition, chunks: Vec<Arc<Chunk>>) -> (world: Self)
        requires
            center.wf(),
            chunks@.len() == CHUNKS_IN_WORLD,
            forall|i: int| 0 <= i < CHUNKS_IN_WORLD ==> (#[trigger] chunks@[i]).wf(),
        ensures
            world.wf(),
            world.center == center,
            world.chunks@ == chunks@,
            world.chunk_meshes@ == no_meshes::<V>(CHUNKS_IN_WORLD as nat),
            world.meshes_being_built@ == Set::<u128>::empty(),
            world.pending() is None,
            fits_window(center) && (forall|x: int, z: int|
                0 <= x < 10 && 0 <= z < 10 ==> (#[trigger] chunks@[slot_index(x, z)]).position
                    == window_position(center, x, z)) ==> world.aligned(),
    {
        let mut chunk_meshes: Vec<Option<Mesh<V>>> = Vec::new();
        let mut i: usize = 0;
        while i < CHUNKS_IN_WORLD
            invariant
                i <= CHUNKS_IN_WORLD,
                chunk_meshes@ == no_meshes::<V>(i as nat),
            decreases CHUNKS_IN_WORLD - i,
        {
            chunk_meshes.push(None);
            i += 1;
            assert(chunk_meshes@ == no_meshes::<V>(i as nat));
        }
        let world = World {
            chunks,
            center,
            chunk_meshes,
            meshes_being_built: HashSet::new(),
            world_change: None,
        };
        proof {
            if fits_window(center) && (forall|x: int, z: int|
                0 <= x < 10 && 0 <= z < 10 ==> (#[trigger] world.chunks@[slot_index(
                    x,
                    z,
                )]).position == window_position(center, x, z)) {
                assert forall|x: int, z: int| 0 <= x < 10 && 0 <= z < 10 implies #[trigger] world.positions()[slot_index(
                    x,
                    z,
                )] == window_position(center, x, z) by {
                    assert(world.chunks@[slot_index(x, z)].position == window_position(
                        center,
                        x,
                        z,
                    ));
                }
            }
        }
        world
    }

    /// The surface blocks of the chunk in each slot.
    pub open spec fn surface_by_slot(&self) -> spec_fn(int) -> Seq<BlockData> {
        |i: int| self.chunks@[i].surface_blocks@
    }

    /// The rigid blocks of the chunk in each slot, as drawing data.
    pub open spec fn rigid_by_slot(&self) -> spec_fn(int) -> Seq<BlockData> {
        |i: int|
            self.chunks@[i].rigid_records().map_values(
                |record: crate::chunk::RigidBlockRecord|
                    BlockData { offset: record.position, material: record.material },
            )
    }

    /// Every visible block of the chunk in each slot.
    pub open spec fn blocks_by_slot(&self) -> spec_fn(int) -> Seq<BlockData> {
        |i: int| self.chunks@[i].all_blocks()
    }

    /// The surface blocks of all chunks, slot after slot.
    pub fn get_surface_block_data(&self) -> (blocks: Vec<BlockData>)
        requires
            self.wf(),
        ensures
            blocks@ == concat_over(CHUNKS_IN_WORLD as nat, self.surface_by_slot()),
    {
        let mut blocks: Vec<BlockData> = Vec::new();
        let mut i: usize = 0;
        while i < CHUNKS_IN_WORLD
            invariant
                self.wf(),
                i <= CHUNKS_IN_WORLD,
                blocks@ == concat_over(i as nat, self.surface_by_slot()),
            decreases CHUNKS_IN_WORLD - i,
        {
            let chunk = &self.chunks[i];
            let ghost before = blocks@;
            let mut k: usize = 0;
            while k < chunk.surface_blocks.len()
                invariant
                    k <= chunk.surface_blocks.len(),
                    blocks@ == before + chunk.surface_blocks@.take(k as int),
                decreases chunk.surface_blocks.len() - k,
            {
                blocks.push(chunk.surface_blocks[k]);
                k += 1;
                assert(chunk.surface_blocks@.take(k as int) == chunk.surface_blocks@.take(
                    k - 1,
                ).push(chunk.surface_blocks@[k - 1]));
            }
            proof {
                assert(chunk.surface_blocks@.take(chunk.surface_blocks.len() as int)
                    == chunk.surface_blocks@);
                let parts = self.surface_by_slot();
                assert(parts(i as int) == chunk.surface_blocks@);
                assert(concat_over((i + 1) as nat, parts) == concat_over(i as nat, parts) + parts(
                    i as int,
                ));
            }
            i += 1;
        }
        blocks
    }

    /// The rigid blocks of all chunks, slot after slot.
    pub fn get_rigid_blocks_data(&self) -> (blocks: Vec<BlockData>)
        requires
            self.wf(),
        ensures
            blocks@ == concat_over(CHUNKS_IN_WORLD as nat, self.rigid_by_slot()),
    {
        let mut blocks: Vec<BlockData> = Vec::new();
        let mut i: usize = 0;
        while i < CHUNKS_IN_WORLD
            invariant
                self.wf(),
                i <= CHUNKS_IN_WORLD,
                blocks@ == concat_over(i as nat, self.rigid_by_slot()),
            decreases CHUNKS_IN_WORLD - i,
        {
            let mut chunk_blocks = self.chunks[i].get_rigid_block_data();
            proof {
                let parts = self.rigid_by_slot();
                assert(parts(i as int) == chunk_blocks@);
                assert(concat_over((i + 1) as nat, parts) == concat_over(i as nat, parts) + parts(
                    i as int,
                ));
            }
            blocks.append(&mut chunk_blocks);
            i += 1;
        }
        blocks
    }

    /// Every visible block of all chunks, slot after slot.
    pub fn get_block_data(&self) -> (blocks: Vec<BlockData>)
        requires
            self.wf(),
        ensures
            blocks@ == concat_over(CHUNKS_IN_WORLD as nat, self.blocks_by_slot()),
    {
        let mut blocks: Vec<BlockData> = Vec::new();
        let mut i: usize = 0;
        while i < CHUNKS_IN_WORLD
            invariant
                self.wf(),
                i <= CHUNKS_IN_WORLD,
                blocks@ == concat_over(i as nat, self.blocks_by_slot()),
            decreases CHUNKS_IN_WORLD - i,
        {
            let mut chunk_blocks = self.chunks[i].get_block_data();
            proof {
                let parts = self.blocks_by_slot();
                assert(parts(i as int) == chunk_blocks@);
                assert(concat_over((i + 1) as nat, parts) == concat_over(i as nat, parts) + parts(
                    i as int,
                ));
            }
            blocks.append(&mut chunk_blocks);
            i += 1;
        }
        blocks
    }

    /// Whether slot `i` is the first whose chunk lies at `position`.
    pub open spec fn first_at(&self, position: ChunkPosition, i: int) -> bool {
        &&& 0 <= i < CHUNKS_IN_WORLD
        &&& self.positions()[i] == position
        &&& forall|j: int| 0 <= j < i ==> self.positions()[j] != position
    }

    /// Whether the window holds the chunk at `position`.
    pub open spec fn shows(&self, position: ChunkPosition) -> bool {
        exists|i: int| 0 <= i < CHUNKS_IN_WORLD && self.positions()[i] == position
    }

    /// The first slot whose chunk lies at `position`, if one does.
    pub fn find_chunk(&self, position: ChunkPosition) -> (found: Option<usize>)
        requires
            self.wf(),
        ensures
            found is Some <==> self.shows(position),
            found matches Some(index) ==> self.first_at(position, index as int),
    {
        let mut index: usize = 0;
        while index < CHUNKS_IN_WORLD
            invariant
                self.wf(),
                index <= CHUNKS_IN_WORLD,
                forall|i: int| 0 <= i < index ==> self.positions()[i] != position,
            decreases CHUNKS_IN_WORLD - index,
        {
            if self.chunks[index].position == position {
                assert(self.positions()[index as int] == position);
                return Some(index);
            }
            index += 1;
        }
        None
    }

    /// The material at `(x, y, z)` of the chunk at `chunk_position`, taken
    /// from the first slot that holds that chunk; air if the window does not
    /// hold it.
    pub fn get_block(&self, chunk_position: ChunkPosition, x: usize, y: isize, z: usize) -> (material:
        BlockType)
        requires
            self.wf(),
            x < CHUNK_SIZE,
            z < CHUNK_SIZE,
            MIN_BLOCK_Y <= y < MAX_BLOCK_Y,
        ensures
            !self.shows(chunk_position) ==> material == BlockType::Air,
            forall|i: int|
                self.first_at(chunk_position, i) ==> material == self.chunks@[i].block_at(
                    x as int,
                    y as int,
                    z as int,
                ),
    {
        match self.find_chunk(chunk_position) {
            Some(index) => {
                proof {
                    assert forall|i: int| self.first_at(chunk_position, i) implies i == index by {
                        if i < index {
                            assert(self.positions()[i] != chunk_position);
                        }
                        if index < i {
                            assert(self.positions()[index as int] != chunk_position);
                        }
                    }
                }
                self.chunks[index].get_block(x, y, z)
            },
            None => BlockType::Air,
        }
    }

    /// A snapshot of the window: a handle to each chunk.
    pub fn get_chunks(&self) -> (chunks: Vec<Arc<Chunk>>)
        ensures
            chunks@ == self.chunks@,
    {
        let mut clone: Vec<Arc<Chunk>> = Vec::new();
        let mut index: usize = 0;
        while index < self.chunks.len()
            invariant
                index <= self.chunks.len(),
                clone@ == self.chunks@.take(index as int),
            decreases self.chunks.len() - index,
        {
            clone.push(share(&self.chunks[index]));
            index += 1;
            assert(self.chunks@.take(index as int) == self.chunks@.take(index - 1).push(
                self.chunks@[index - 1],
            ));
        }
        assert(self.chunks@.take(self.chunks.len() as int) == self.chunks@);
        clone
    }
}

/// Whether `post` is `pre` after the move that was under way in `pre`, made
/// with the freshly loaded chunks `loaded`: every change applied to chunks
/// and meshes alike, a loaded chunk coming without a mesh, and the centre
/// where the move was to lead.
pub open spec fn moved_by<V>(pre: World<V>, loaded: Seq<Arc<Chunk>>, post: World<V>) -> bool {
    &&& pre.pending() matches Some((center, _, changes))
    &&& post.center == center
    &&& post.chunks@ == applied(pre.chunks@, changes, loaded)
    &&& post.chunk_meshes@ == applied(pre.chunk_meshes@, changes, no_meshes::<V>(loaded.len()))
    &&& post.meshes_being_built@ == pre.meshes_being_built@
    &&& post.pending() is None
}

/// Whether `pre` and `post` have the same centre, chunks and meshes.
pub open spec fn same_window<V>(pre: World<V>, post: World<V>) -> bool {
    &&& post.center == pre.center
    &&& post.chunks@ == pre.chunks@
    &&& post.chunk_meshes@ == pre.chunk_meshes@
}

/// Whether slot `i` wants a mesh built: it has none and none is being built
/// for its chunk.
pub open spec fn wants_mesh<V>(world: World<V>) -> spec_fn(usize) -> bool {
    |i: usize|
        world.chunk_meshes@[i as int] is None && !world.being_built(world.positions()[i as int])
}

/// Whether `post` is `pre` after the meshes of the slots of `batch` have been
/// marked as being built, and `batch` is what `pre` wanted built: the inner
/// slots without a mesh whose chunk's mesh was not being built yet.
pub open spec fn dispatched<V>(pre: World<V>, post: World<V>, batch: Seq<usize>) -> bool {
    &&& same_window(pre, post)
    &&& post.pending() == pre.pending()
    &&& batch == inner_slots().filter(wants_mesh(pre))
    &&& forall|position: ChunkPosition|
        position.wf() ==> (post.being_built(position) <==> pre.being_built(position) || exists|
            k: int,
        | 0 <= k < batch.len() && #[trigger] pre.positions()[batch[k] as int] == position)
}

/// Whether `post` is `pre`, where no move was under way, after a move towards
/// `new_center` has been asked for. A move is started when `new_center` is
/// not the centre and every chunk of the window can step in its direction;
/// then `to_load` names the chunks to load for it. Otherwise nothing is
/// started or asked for.
pub open spec fn requested<V>(
    pre: World<V>,
    new_center: ChunkPosition,
    post: World<V>,
    to_load: Option<Seq<ChunkPosition>>,
) -> bool {
    let direction = (
        sign(new_center.global_x() - pre.center.global_x()) as i32,
        sign(new_center.global_z() - pre.center.global_z()) as i32,
    );
    let changes = plan(pre.positions(), direction.0 as int, direction.1 as int);
    &&& same_window(pre, post)
    &&& post.meshes_being_built@ == pre.meshes_being_built@
    &&& if new_center != pre.center && pre.can_make(direction, changes) {
        &&& post.pending() == Some((new_center, direction, changes))
        &&& to_load == Some(positions_to_load(changes))
    } else {
        &&& post.pending() is None
        &&& to_load is None
    }
}

/// Whether the move that is under way in `pre` can be made with `loaded`: a
/// move is under way and the loaded chunks are those it asked for.
pub open spec fn completes<V>(pre: World<V>, loaded: Seq<Arc<Chunk>>) -> bool {
    pre.pending() matches Some((_, _, changes)) && positions_of(loaded) == positions_to_load(
        changes,
    )
}

/// Whether `position`, moved by the step `(dx, dz)`, can be written down.
fn position_can_step(position: &ChunkPosition, dx: i32, dz: i32) -> (fits: bool)
    requires
        position.wf(),
        -1 <= dx <= 1,
        -1 <= dz <= 1,
    ensures
        fits == position.can_offset(dx as int, dz as int),
{
    axis_can_step(position.region_x, position.chunk_x, dx) && axis_can_step(
        position.region_z,
        position.chunk_z,
        dz,
    )
}

/// One axis of [`position_can_step`].
fn axis_can_step(region: i32, chunk: usize, step: i32) -> (fits: bool)
    requires
        chunk < 32,
        -1 <= step <= 1,
    ensures
        fits == crate::chunk_position::region_in_range(region * 32 + chunk + step),
{
    let ghost global = region * 32 + chunk + step;
    if chunk == 0 && step == -1 {
        proof {
            vstd::arithmetic::div_mod::lemma_fundamental_div_mod_converse(global, 32, region - 1, 31);
        }
        region > i32::MIN
    } else if chunk == 31 && step == 1 {
        proof {
            vstd::arithmetic::div_mod::lemma_fundamental_div_mod_converse(global, 32, region + 1, 0);
        }
        region < i32::MAX
    } else {
        proof {
            vstd::arithmetic::div_mod::lemma_fundamental_div_mod_converse(
                global,
                32,
                region as int,
                chunk + step,
            );
        }
        true
    }
}

/// The number that stands for `position` in the set of meshes being built.
pub open spec fn position_key(position: ChunkPosition) -> int {
    ((position.region_x + 0x8000_0000) * 0x1_0000_0000 + (position.region_z + 0x8000_0000)) * 1024
        + position.chunk_x * 32 + position.chunk_z
}

/// Well-formed positions with the same number are the same position.
pub proof fn lemma_key_tells_position(p: ChunkPosition, q: ChunkPosition)
    requires
        p.wf(),
        q.wf(),
        position_key(p) == position_key(q),
    ensures
        p == q,
{
}

/// The number that stands for `position` in the set of meshes being built.
pub fn key_of(position: &ChunkPosition) -> (key: u128)
    requires
        position.wf(),
    ensures
        key == position_key(*position),
{
    let x = (position.region_x as i64 + 0x8000_0000) as u128;
    let z = (position.region_z as i64 + 0x8000_0000) as u128;
    (x * 0x1_0000_0000 + z) * 1024 + (position.chunk_x as u128) * 32 + (position.chunk_z as u128)
}

/// Whether `marked` holds the number of `position`.
fn holds_position(marked: &HashSet<u128>, position: &ChunkPosition) -> (found: bool)
    requires
        position.wf(),
    ensures
        found == marked@.contains(position_key(*position) as u128),
{
    broadcast use group_hash_axioms;

    let key = key_of(position);
    marked.contains(&key)
}

/// The changes of a plan name slots of the window, and a plan has as many
/// loads as it asks positions for.
pub proof fn lemma_plan_in_window(positions: Seq<ChunkPosition>, dx: int, dz: int)
    requires
        -1 <= dx <= 1,
        -1 <= dz <= 1,
    ensures
        changes_in_window(plan(positions, dx, dz)),
{
    let changes = plan(positions, dx, dz);
    let swaps = swap_cells(dx, dz).map_values(swap_of(dx, dz));
    assert forall|i: int| 0 <= i < changes.len() implies (#[trigger] changes[i]).0
        < CHUNKS_IN_WORLD && (changes[i].1 matches ChunkSource::Reference(other) ==> other
        < CHUNKS_IN_WORLD) by {
        if i < swaps.len() {
            lemma_swap_cell(dx, dz, i);
            assert(changes[i] == swap_of(dx, dz)(swap_cells(dx, dz)[i]));
        } else {
            lemma_load_cell(dx, dz, i - swaps.len());
            assert(changes[i] == load_of(positions, dx, dz)(load_cells(dx, dz)[i - swaps.len()]));
        }
    }
}

/// The number of loads among changes is the number of positions they ask
/// for, and a front part of the changes has no more loads than all of them.
pub proof fn lemma_loads(changes: Seq<ChunkChange>, n: int)
    requires
        0 <= n <= changes.len(),
    ensures
        loads_in(changes) == positions_to_load(changes).len(),
        loads_in(changes.take(n)) <= loads_in(changes),
    decreases changes.len(),
{
    if changes.len() > 0 {
        if n < changes.len() {
            lemma_loads(changes.drop_last(), n);
            assert(changes.drop_last().take(n) == changes.take(n));
        } else {
            lemma_loads(changes.drop_last(), n - 1);
            assert(changes.take(n) == changes);
        }
    } else {
        assert(changes.take(n) == changes);
    }
}

impl<V> World<V> {
    /// Carries out the move that is under way, with the chunks that were
    /// loaded for it. Returns whether the window has moved. Without a move
    /// under way nothing changes; with chunks other than those asked for the
    /// move is given up and the window stays where it is.
    pub fn integrate_world_change(&mut self, loaded: &Vec<Arc<Chunk>>) -> (updated: bool)
        requires
            old(self).wf(),
            forall|k: int| 0 <= k < loaded@.len() ==> (#[trigger] loaded@[k]).wf(),
        ensures
            final(self).wf(),
            updated <==> completes(*old(self), loaded@),
            updated ==> moved_by(*old(self), loaded@, *final(self)),
            !updated ==> same_window(*old(self), *final(self)) && final(self).meshes_being_built@
                == old(self).meshes_being_built@ && final(self).pending() is None,
    {
        let Some(world_change) = self.world_change.take() else {
            return false;
        };
        let new_center = world_change.center;
        let chunk_changes = world_change.changes;
        let ghost changes = chunk_changes@;
        let ghost direction = world_change.direction;

        let wanted = chunks_to_load(&chunk_changes);
        if !same_positions(loaded, &wanted) {
            return false;
        }
        proof {
            lemma_plan_in_window(old(self).positions(), direction.0 as int, direction.1 as int);
            lemma_loads(changes, 0);
        }
        let ghost fresh_meshes = no_meshes::<V>(loaded@.len());
        let mut next: usize = 0;
        let mut i: usize = 0;
        while i < chunk_changes.len()
            invariant
                changes == chunk_changes@,
                changes_in_window(changes),
                loads_in(changes) == loaded@.len(),
                fresh_meshes == no_meshes::<V>(loaded@.len()),
                forall|k: int| 0 <= k < loaded@.len() ==> (#[trigger] loaded@[k]).wf(),
                i <= chunk_changes.len(),
                next == loads_in(changes.take(i as int)),
                self.center == old(self).center,
                self.meshes_being_built@ == old(self).meshes_being_built@,
                self.world_change is None,
                self.chunks@ == applied(old(self).chunks@, changes.take(i as int), loaded@),
                self.chunk_meshes@ == applied(
                    old(self).chunk_meshes@,
                    changes.take(i as int),
                    fresh_meshes,
                ),
                self.slots_wf(),
            decreases chunk_changes.len() - i,
        {
            let change = chunk_changes[i];
            proof {
                assert(changes.take(i + 1).drop_last() == changes.take(i as int));
                assert(changes.take(i + 1).last() == change);
                lemma_loads(changes, i + 1);
                if change.1 is Direct {
                    assert(fresh_meshes[next as int] == None::<Mesh<V>>);
                }
            }
            next = self.apply_chunk_change(change, loaded, next);
            i += 1;
        }
        proof {
            assert(changes.take(chunk_changes.len() as int) == changes);
        }
        self.center = new_center;
        true
    }

    /// Every slot holds a well-formed chunk and a well-formed mesh or none.
    pub open spec fn slots_wf(&self) -> bool {
        &&& self.chunks@.len() == CHUNKS_IN_WORLD
        &&& self.chunk_meshes@.len() == CHUNKS_IN_WORLD
        &&& forall|i: int| 0 <= i < CHUNKS_IN_WORLD ==> (#[trigger] self.chunks@[i]).wf()
        &&& forall|i: int|
            0 <= i < CHUNKS_IN_WORLD ==> ((#[trigger] self.chunk_meshes@[i]) matches Some(mesh)
                ==> mesh.wf())
    }

    /// Applies one change. A load puts the chunk `loaded[next]` into its
    /// slot, without a mesh; a reference lets two slots trade places, mesh
    /// and all. Returns the number of the load that comes next.
    fn apply_chunk_change(&mut self, change: ChunkChange, loaded: &Vec<Arc<Chunk>>, next: usize) -> (after:
        usize)
        requires
            old(self).slots_wf(),
            change.0 < CHUNKS_IN_WORLD,
            change.1 matches ChunkSource::Reference(other) ==> other < CHUNKS_IN_WORLD,
            change.1 is Direct ==> next < loaded@.len(),
            forall|k: int| 0 <= k < loaded@.len() ==> (#[trigger] loaded@[k]).wf(),
        ensures
            final(self).slots_wf(),
            final(self).center == old(self).center,
            final(self).meshes_being_built == old(self).meshes_being_built,
            final(self).world_change == old(self).world_change,
            final(self).chunks@ == changed(old(self).chunks@, change, loaded@[next as int]),
            final(self).chunk_meshes@ == changed(old(self).chunk_meshes@, change, None),
            after == next + if change.1 is Direct {
                1nat
            } else {
                0nat
            },
    {
        let chunk_index = change.0;
        match change.1 {
            ChunkSource::Direct(_) => {
                let count = loaded.len();
                assert(next < count);
                self.chunks[chunk_index] = share(&loaded[next]);
                self.chunk_meshes[chunk_index] = None;
                next + 1
            },
            ChunkSource::Reference(new_chunk_index) => {
                swap_slots(&mut self.chunks, chunk_index, new_chunk_index);
                swap_slots(&mut self.chunk_meshes, chunk_index, new_chunk_index);
                next
            },
        }
    }
}

/// Whether the chunks of `loaded` lie at the positions of `wanted`, one by
/// one.
fn same_positions(loaded: &Vec<Arc<Chunk>>, wanted: &Vec<ChunkPosition>) -> (same: bool)
    ensures
        same == (positions_of(loaded@) == wanted@),
{
    if loaded.len() != wanted.len() {
        return false;
    }
    let mut k: usize = 0;
    while k < loaded.len()
        invariant
            loaded@.len() == wanted@.len(),
            k <= loaded.len(),
            forall|j: int| 0 <= j < k ==> positions_of(loaded@)[j] == wanted@[j],
        decreases loaded.len() - k,
    {
        if loaded[k].position != wanted[k] {
            assert(positions_of(loaded@)[k as int] != wanted@[k as int]);
            return false;
        }
        k += 1;
    }
    assert(positions_of(loaded@) =~= wanted@);
    true
}

/// Whether `to` lies one chunk at most from `from` on each axis.
pub open spec fn one_step(from: ChunkPosition, to: ChunkPosition) -> bool {
    &&& -1 <= to.global_x() - from.global_x() <= 1
    &&& -1 <= to.global_z() - from.global_z() <= 1
}

/// Whether `pre` and `post` are the same in everything.
pub open spec fn unchanged<V>(pre: World<V>, post: World<V>) -> bool {
    &&& same_window(pre, post)
    &&& post.meshes_being_built@ == pre.meshes_being_built@
    &&& post.pending() == pre.pending()
}

/// Whether `post` is `pre` after the worker's report has been taken in, and
/// `updated` says whether that moved the window. Chunks that complete the
/// move under way move the window; with anything else the move, if there was
/// one, is given up and the window stays.
pub open spec fn settled<V>(
    pre: World<V>,
    report: WorkerReport,
    post: World<V>,
    updated: bool,
) -> bool {
    let stays = same_window(pre, post) && post.meshes_being_built@ == pre.meshes_being_built@
        && post.pending() is None;
    match report {
        WorkerReport::Finished(loaded) => if completes(pre, loaded@) {
            updated && moved_by(pre, loaded@, post)
        } else {
            !updated && stays
        },
        _ => !updated && stays,
    }
}

/// Whether one round of [`World::update_chunk_data`] leads from `pre` to
/// `post` by way of `moved` and `marked`: the report is taken in, then the
/// meshes that a moved window lacks are picked, then a move towards
/// `new_center` is asked for.
pub open spec fn updated_by<V>(
    pre: World<V>,
    report: WorkerReport,
    new_center: ChunkPosition,
    moved: World<V>,
    marked: World<V>,
    post: World<V>,
    outcome: UpdateOutcome,
) -> bool {
    &&& settled(pre, report, moved, outcome.world_data_updated)
    &&& if outcome.world_data_updated {
        dispatched(moved, marked, outcome.to_build@)
    } else {
        unchanged(moved, marked) && outcome.to_build@.len() == 0
    }
    &&& requested(marked, new_center, post, listed(outcome.to_load))
}

/// The positions of a list of chunks to load, if there is a list.
pub open spec fn listed(to_load: Option<Vec<ChunkPosition>>) -> Option<Seq<ChunkPosition>> {
    match to_load {
        Some(positions) => Some(positions@),
        None => None,
    }
}

/// The test "holds a mesh" as a predicate on slots.
pub open spec fn has_mesh<V>(world: World<V>) -> spec_fn(usize) -> bool {
    |i: usize| world.chunk_meshes@[i as int] is Some
}

/// Takes the number of `position` out of `marked`.
fn remove_position(marked: &mut HashSet<u128>, position: &ChunkPosition)
    requires
        position.wf(),
    ensures
        forall|key: u128|
            final(marked)@.contains(key) <==> old(marked)@.contains(key) && key != position_key(
                *position,
            ),
{
    broadcast use group_hash_axioms;

    let key = key_of(position);
    marked.remove(&key);
}

impl<V> World<V> {
    /// The meshes that the inner slots hold, in the order of the slots.
    pub open spec fn inner_meshes(&self) -> Seq<Mesh<V>> {
        inner_slots().filter(has_mesh(*self)).map_values(
            |i: usize| self.chunk_meshes@[i as int]->0,
        )
    }

    /// Whether the mesh of the chunk at `position` is being built.
    pub fn is_being_built(&self, position: ChunkPosition) -> (marked: bool)
        requires
            position.wf(),
        ensures
            marked == self.being_built(position),
    {
        holds_position(&self.meshes_being_built, &position)
    }

    /// Picks the inner slots that want a mesh and marks the mesh of each as
    /// being built. Returns the slots picked: the batch to build now.
    pub fn dispatch_mesh_builder(&mut self) -> (batch: Vec<usize>)
        requires
            old(self).wf(),
        ensures
            final(self).wf(),
            dispatched(*old(self), *final(self), batch@),
            forall|k: int| 0 <= k < batch@.len() ==> batch@[k] < CHUNKS_IN_WORLD,
    {
        let inner = inner_chunk_indices();
        let ghost wanted = wants_mesh(*self);
        let mut chunks_without_mesh: Vec<usize> = Vec::new();
        let mut i: usize = 0;
        proof {
            reveal(Seq::filter);
            assert(inner@.take(0).len() == 0);
        }
        while i < inner.len()
            invariant
                self.wf(),
                *self == *old(self),
                wanted == wants_mesh(*self),
                inner@ == inner_slots(),
                forall|k: int| 0 <= k < inner@.len() ==> inner@[k] < CHUNKS_IN_WORLD,
                i <= inner.len(),
                chunks_without_mesh@ == inner@.take(i as int).filter(wanted),
                forall|k: int|
                    0 <= k < chunks_without_mesh@.len() ==> chunks_without_mesh@[k]
                        < CHUNKS_IN_WORLD,
            decreases inner.len() - i,
        {
            let index = inner[i];
            proof {
                assert(inner@.take(i + 1) == inner@.take(i as int).push(index));
                inner@.take(i as int).lemma_filter_push(index, wanted);
            }
            let chunk_position = self.chunks[index].position;
            let no_mesh = self.chunk_meshes[index].is_none();
            assert(self.chunks@[index as int].wf());
            if no_mesh && !holds_position(&self.meshes_being_built, &chunk_position) {
                chunks_without_mesh.push(index);
            }
            i += 1;
        }
        proof {
            assert(inner@.take(inner.len() as int) == inner@);
        }
        let mut k: usize = 0;
        while k < chunks_without_mesh.len()
            invariant
                self.slots_wf(),
                self.center.wf(),
                same_window(*old(self), *self),
                self.world_change == old(self).world_change,
                k <= chunks_without_mesh.len(),
                forall|j: int|
                    0 <= j < chunks_without_mesh@.len() ==> chunks_without_mesh@[j]
                        < CHUNKS_IN_WORLD,
                forall|position: ChunkPosition|
                    position.wf() ==> (self.being_built(position) <==> old(self).being_built(
                        position,
                    ) || exists|j: int|
                        0 <= j < k && #[trigger] old(self).positions()[chunks_without_mesh@[j] as int]
                            == position),
            decreases chunks_without_mesh.len() - k,
        {
            let position = self.chunks[chunks_without_mesh[k]].position;
            let ghost before = self.meshes_being_built@;
            assert(self.chunks@[chunks_without_mesh@[k as int] as int].wf());
            let key = key_of(&position);
            proof {
                broadcast use group_hash_axioms;

            }
            self.meshes_being_built.insert(key);
            proof {
                broadcast use group_hash_axioms;

                let slot = chunks_without_mesh@[k as int] as int;
                assert(old(self).positions()[slot] == position);
                assert(self.meshes_being_built@ == before.insert(key));
                assert forall|p: ChunkPosition| p.wf() implies (self.being_built(p) <==> old(
                    self,
                ).being_built(p) || exists|j: int|
                    0 <= j < k + 1 && #[trigger] old(self).positions()[chunks_without_mesh@[j] as int]
                        == p) by {
                    if position_key(p) == position_key(position) {
                        lemma_key_tells_position(p, position);
                    }
                    if before.contains(position_key(p) as u128) {
                        if !old(self).being_built(p) {
                            let j = choose|j: int|
                                0 <= j < k && #[trigger] old(
                                    self,
                                ).positions()[chunks_without_mesh@[j] as int] == p;
                            assert(0 <= j < k + 1 && old(
                                self,
                            ).positions()[chunks_without_mesh@[j] as int] == p);
                        }
                    }
                }
            }
            k += 1;
        }
        chunks_without_mesh
    }

    /// Throws all meshes away and picks the inner slots to build anew.
    pub fn rebuild_all_meshes(&mut self) -> (batch: Vec<usize>)
        requires
            old(self).wf(),
        ensures
            final(self).wf(),
            final(self).center == old(self).center,
            final(self).chunks@ == old(self).chunks@,
            final(self).pending() == old(self).pending(),
            final(self).chunk_meshes@ == no_meshes::<V>(CHUNKS_IN_WORLD as nat),
            batch@ == inner_slots().filter(
                |i: usize| !old(self).being_built(old(self).positions()[i as int]),
            ),
            forall|position: ChunkPosition|
                position.wf() ==> (final(self).being_built(position) <==> old(self).being_built(
                    position,
                ) || exists|k: int|
                    0 <= k < batch@.len() && #[trigger] old(self).positions()[batch@[k] as int]
                        == position),
    {
        let mut i: usize = 0;
        while i < CHUNKS_IN_WORLD
            invariant
                self.wf(),
                self.center == old(self).center,
                self.chunks@ == old(self).chunks@,
                self.world_change == old(self).world_change,
                self.meshes_being_built@ == old(self).meshes_being_built@,
                i <= CHUNKS_IN_WORLD,
                forall|j: int| 0 <= j < i ==> self.chunk_meshes@[j] is None,
            decreases CHUNKS_IN_WORLD - i,
        {
            self.chunk_meshes[i] = None;
            i += 1;
        }
        proof {
            assert(self.chunk_meshes@ =~= no_meshes::<V>(CHUNKS_IN_WORLD as nat));
            let cleared = *self;
            let inner = inner_slots();
            let simple = |i: usize| !old(self).being_built(old(self).positions()[i as int]);
            assert forall|k: int| 0 <= k < inner.len() implies wants_mesh(cleared)(inner[k])
                == simple(inner[k]) by {
                lemma_inner_slots();
                assert(0 <= k / 8 < 8 && 0 <= k % 8 < 8);
                assert(inner[k] < CHUNKS_IN_WORLD);
                assert(cleared.chunk_meshes@[inner[k] as int] is None);
                assert(cleared.positions() == old(self).positions());
            }
            lemma_filter_agrees(inner, wants_mesh(cleared), simple);
        }
        self.dispatch_mesh_builder()
    }

    /// Takes in the mesh built for the chunk at `chunk_position`, which is
    /// no longer being built. The mesh goes to the first slot that holds that
    /// chunk; if the window has moved on and holds it no more, the mesh is
    /// dropped. Returns the slot that took the mesh.
    pub fn integrate_built_mesh(&mut self, mesh: Mesh<V>, chunk_position: ChunkPosition) -> (stored:
        Option<usize>)
        requires
            old(self).wf(),
            mesh.wf(),
            chunk_position.wf(),
            forall|i: int|
                old(self).first_at(chunk_position, i) ==> old(self).chunk_meshes@[i] is None,
        ensures
            final(self).wf(),
            final(self).center == old(self).center,
            final(self).chunks@ == old(self).chunks@,
            final(self).pending() == old(self).pending(),
            forall|position: ChunkPosition|
                position.wf() ==> (final(self).being_built(position) <==> old(self).being_built(
                    position,
                ) && position != chunk_position),
            stored is Some <==> old(self).shows(chunk_position),
            stored matches Some(index) ==> old(self).first_at(chunk_position, index as int)
                && final(self).chunk_meshes@ == old(self).chunk_meshes@.update(
                index as int,
                Some(mesh),
            ),
            stored is None ==> final(self).chunk_meshes@ == old(self).chunk_meshes@,
    {
        remove_position(&mut self.meshes_being_built, &chunk_position);
        proof {
            assert forall|position: ChunkPosition| position.wf() implies (self.being_built(
                position,
            ) <==> old(self).being_built(position) && position != chunk_position) by {
                if position_key(position) == position_key(chunk_position) {
                    lemma_key_tells_position(position, chunk_position);
                }
            }
        }
        assert(self.positions() == old(self).positions());
        let target_index = self.find_chunk(chunk_position);
        match target_index {
            Some(mesh_index) => {
                assert(old(self).first_at(chunk_position, mesh_index as int));
                self.chunk_meshes[mesh_index] = Some(mesh);
            },
            None => {
                assert(!old(self).shows(chunk_position));
            },
        }
        target_index
    }

    /// Forgets that the mesh of the chunk at `chunk_position` is being built,
    /// so that a later batch can take it up again.
    pub fn release_build(&mut self, chunk_position: ChunkPosition)
        requires
            old(self).wf(),
            chunk_position.wf(),
        ensures
            final(self).wf(),
            same_window(*old(self), *final(self)),
            final(self).pending() == old(self).pending(),
            forall|position: ChunkPosition|
                position.wf() ==> (final(self).being_built(position) <==> old(self).being_built(
                    position,
                ) && position != chunk_position),
    {
        remove_position(&mut self.meshes_being_built, &chunk_position);
        proof {
            assert forall|position: ChunkPosition| position.wf() implies (self.being_built(
                position,
            ) <==> old(self).being_built(position) && position != chunk_position) by {
                if position_key(position) == position_key(chunk_position) {
                    lemma_key_tells_position(position, chunk_position);
                }
            }
        }
    }

    /// One mesh holding a copy of the mesh of every inner slot that has one,
    /// in the order of the slots.
    pub fn get_smooth_mesh(&self) -> (merged: Mesh<V>) where V: Clone
        requires
            self.wf(),
            total_vertices(self.inner_meshes()) <= u32::MAX,
        ensures
            merged.wf(),
            merged.indices@ == merged_indices(self.inner_meshes()),
            merged.vertices@.len() == total_vertices(self.inner_meshes()),
            forall|k: int|
                0 <= k < merged.vertices@.len() ==> cloned(
                    crate::mesh::merged_vertices(self.inner_meshes())[k],
                    #[trigger] merged.vertices@[k],
                ),
    {
        let inner = inner_chunk_indices();
        let ghost held = has_mesh(*self);
        let ghost mesh_of = |i: usize| self.chunk_meshes@[i as int]->0;
        let mut chunk_meshes: Vec<&Mesh<V>> = Vec::new();
        let mut i: usize = 0;
        proof {
            reveal(Seq::filter);
            assert(inner@.take(0).len() == 0);
            assert(pointed_to(chunk_meshes@) =~= inner@.take(0).filter(held).map_values(mesh_of));
        }
        while i < inner.len()
            invariant
                self.wf(),
                held == has_mesh(*self),
                forall|i: usize| #[trigger] mesh_of(i) == self.chunk_meshes@[i as int]->0,
                inner@ == inner_slots(),
                forall|k: int| 0 <= k < inner@.len() ==> inner@[k] < CHUNKS_IN_WORLD,
                i <= inner.len(),
                pointed_to(chunk_meshes@) == inner@.take(i as int).filter(held).map_values(mesh_of),
                all_wf(pointed_to(chunk_meshes@)),
            decreases inner.len() - i,
        {
            let index = inner[i];
            let ghost before = chunk_meshes@;
            proof {
                assert(inner@.take(i + 1) == inner@.take(i as int).push(index));
                inner@.take(i as int).lemma_filter_push(index, held);
            }
            match &self.chunk_meshes[index] {
                Some(chunk_mesh) => {
                    chunk_meshes.push(chunk_mesh);
                    proof {
                        let kept = inner@.take(i as int).filter(held);
                        assert(pointed_to(chunk_meshes@) =~= pointed_to(before).push(*chunk_mesh));
                        assert(kept.push(index).map_values(mesh_of) =~= kept.map_values(
                            mesh_of,
                        ).push(mesh_of(index)));
                        assert(chunk_mesh.wf());
                    }
                },
                None => {},
            }
            i += 1;
        }
        proof {
            assert(inner@.take(inner.len() as int) == inner@);
            assert(inner@.filter(held).map_values(mesh_of) =~= self.inner_meshes());
        }
        Mesh::copy_merge(&chunk_meshes)
    }

    /// Starts a move of the window towards `new_center`, if it is not the
    /// centre already and the chunks can step that way. Returns the positions
    /// of the chunks to load for the move.
    fn request_world_change(&mut self, new_center: ChunkPosition) -> (to_load: Option<
        Vec<ChunkPosition>,
    >)
        requires
            old(self).wf(),
            old(self).pending() is None,
            new_center.wf(),
        ensures
            final(self).wf(),
            requested(*old(self), new_center, *final(self), listed(to_load)),
    {
        let recenter = self.center != new_center;
        if !recenter {
            return None;
        }
        let direction_of_change = get_difference(&self.center, &new_center);
        let ghost (dx, dz) = (direction_of_change.0 as int, direction_of_change.1 as int);
        let ghost positions = self.positions();
        let mut i: usize = 0;
        while i < CHUNKS_IN_WORLD
            invariant
                self.wf(),
                unchanged(*old(self), *self),
                positions == self.positions(),
                dx == direction_of_change.0,
                dz == direction_of_change.1,
                dx == sign(new_center.global_x() - self.center.global_x()),
                dz == sign(new_center.global_z() - self.center.global_z()),
                new_center != self.center,
                self.pending() is None,
                -1 <= dx <= 1,
                -1 <= dz <= 1,
                i <= CHUNKS_IN_WORLD,
                forall|j: int| 0 <= j < i ==> can_step(#[trigger] positions[j], dx, dz),
            decreases CHUNKS_IN_WORLD - i,
        {
            assert(self.chunks@[i as int].wf());
            assert(positions[i as int] == self.chunks@[i as int].position);
            if !position_can_step(
                &self.chunks[i].position,
                direction_of_change.0,
                direction_of_change.1,
            ) {
                assert(!can_step(positions[i as int], dx, dz));
                assert(!old(self).can_make(direction_of_change, plan(positions, dx, dz)));
                assert(direction_of_change == (
                    sign(new_center.global_x() - old(self).center.global_x()) as i32,
                    sign(new_center.global_z() - old(self).center.global_z()) as i32,
                ));
                assert(old(self).positions() == positions);
                return None;
            }
            i += 1;
        }
        proof {
            assert forall|i: int| 0 <= i < CHUNKS_IN_WORLD implies (#[trigger] self.chunks@[i]).position.wf()
                && self.chunks@[i].position.can_offset(dx, dz) by {
                assert(can_step(positions[i], dx, dz));
            }
        }
        let changes = offset_chunks(&self.chunks, direction_of_change);
        let to_load = chunks_to_load(&changes);
        proof {
            assert(old(self).can_make(direction_of_change, changes@));
        }
        self.world_change = Some(
            WorldChange { center: new_center, direction: direction_of_change, changes },
        );
        proof {
            assert(self.positions() == positions);
            assert(self.can_make(direction_of_change, changes@));
        }
        Some(to_load)
    }

    /// One round of keeping the window around the viewer, who is in the
    /// chunk at `new_center`; `report` says what the worker that loads
    /// chunks for a move has to show.
    ///
    /// While the worker is running nothing happens. Otherwise its report is
    /// taken in: the chunks it loaded complete the move under way, and then
    /// the meshes that the moved window lacks are picked for building. After
    /// that, if the viewer is not in the centre chunk, a move one step
    /// towards the viewer on each axis is started, and the chunks to load for
    /// it are handed out.
    ///
    /// A window that shows what lies around its centre keeps doing so as long
    /// as the viewer is no further than one chunk from the centre whenever a
    /// move is started. A viewer who has got further makes the window move one
    /// step while its centre is set to the viewer's chunk.
    pub fn update_chunk_data(&mut self, new_center: ChunkPosition, report: WorkerReport) -> (outcome:
        UpdateOutcome)
        requires
            old(self).wf(),
            new_center.wf(),
            report matches WorkerReport::Finished(loaded) ==> forall|k: int|
                0 <= k < loaded@.len() ==> (#[trigger] loaded@[k]).wf(),
        ensures
            final(self).wf(),
            report is Running ==> unchanged(*old(self), *final(self))
                && !outcome.world_data_updated && outcome.to_build@.len() == 0
                && outcome.to_load is None,
            !(report is Running) ==> exists|moved: World<V>, marked: World<V>|
                updated_by(*old(self), report, new_center, moved, marked, *final(self), outcome),
            forall|k: int|
                0 <= k < outcome.to_build@.len() ==> outcome.to_build@[k] < CHUNKS_IN_WORLD,
            old(self).aligned() && one_step(final(self).center, new_center)
                ==> final(self).aligned(),
    {
        let world_data_updated = match &report {
            WorkerReport::Running => {
                return UpdateOutcome {
                    world_data_updated: false,
                    to_build: Vec::new(),
                    to_load: None,
                };
            },
            WorkerReport::Finished(loaded) => self.integrate_world_change(loaded),
            _ => {
                self.world_change = None;
                false
            },
        };
        let ghost moved = *self;
        let to_build = if world_data_updated {
            self.dispatch_mesh_builder()
        } else {
            Vec::new()
        };
        let ghost marked = *self;
        let to_load = self.request_world_change(new_center);
        let outcome = UpdateOutcome { world_data_updated, to_build, to_load };
        proof {
            assert(updated_by(*old(self), report, new_center, moved, marked, *self, outcome));
            if old(self).aligned() && one_step(self.center, new_center) {
                crate::recentering::lemma_update_keeps_window(
                    *old(self),
                    report,
                    new_center,
                    moved,
                    marked,
                    *self,
                    outcome,
                );
            }
        }
        outcome
    }
}

/// No chunk is picked for building while its mesh is being built: of two
/// batches picked one after the other, the second holds no chunk of the
/// first.
pub proof fn lemma_dispatch_picks_once<V>(
    pre: World<V>,
    mid: World<V>,
    post: World<V>,
    first: Seq<usize>,
    second: Seq<usize>,
)
    requires
        pre.slots_wf(),
        dispatched(pre, mid, first),
        dispatched(mid, post, second),
        forall|k: int| 0 <= k < first.len() ==> first[k] < CHUNKS_IN_WORLD,
    ensures
        forall|k: int, j: int|
            0 <= k < first.len() && 0 <= j < second.len() ==> pre.positions()[first[k] as int]
                != mid.positions()[second[j] as int],
{
    assert forall|k: int, j: int| 0 <= k < first.len() && 0 <= j < second.len() implies pre.positions()[first[k] as int]
        != mid.positions()[second[j] as int] by {
        let position = pre.positions()[first[k] as int];
        assert(pre.chunks@[first[k] as int].wf());
        assert(mid.being_built(position));
        inner_slots().lemma_filter_pred(wants_mesh(mid), j);
        assert(wants_mesh(mid)(second[j]));
    }
}

/// The window has 64 inner slots.
pub proof fn lemma_inner_slots()
    ensures
        inner_cells().len() == 64,
        inner_slots().len() == 64,
        forall|k: int| 0 <= k < 64 ==> #[trigger] inner_slots()[k] < CHUNKS_IN_WORLD,
{
    let side = Seq::new(8, |k: int| (k + 1) as usize);
    let n = side.len();
    assert(n == 8);
    assert(n * n == 64) by (nonlinear_arith)
        requires
            n == 8,
    ;
    assert forall|k: int| 0 <= k < 64 implies #[trigger] inner_slots()[k] < CHUNKS_IN_WORLD by {
        assert(0 <= k / 8 < 8 && 0 <= k % 8 < 8);
    }
}

/// Filtering by two tests that agree on every element gives the same.
pub proof fn lemma_filter_agrees<T>(s: Seq<T>, p: spec_fn(T) -> bool, q: spec_fn(T) -> bool)
    requires
        forall|i: int| 0 <= i < s.len() ==> p(s[i]) == q(s[i]),
    ensures
        s.filter(p) == s.filter(q),
    decreases s.len(),
{
    reveal(Seq::filter);
    if s.len() > 0 {
        lemma_filter_agrees(s.drop_last(), p, q);
    }
}

} // verus!
