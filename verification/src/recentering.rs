//! Why moving the window keeps it around its centre.
//!
//! A move trades the chunks that stay, cell by cell, and then loads the rest.
//! The lemmas here follow the chunk positions through the changes of a move
//! and show that every slot ends up with the position one step further.

use vstd::prelude::*;
use std::sync::Arc;
use crate::chunk::Chunk;
use crate::chunk_position::{
    lemma_at_own_global, lemma_offset_composes, lemma_offset_in_range, ChunkPosition,
};
use crate::discrete::{
    applied, axis_order, changes_in_window, completes, edge_coord, first_occurrences,
    lemma_first_occurrences,
    lemma_load_cell, lemma_loads, lemma_plan_in_window, lemma_region_between, lemma_swap_cell,
    load_cells, load_of, loads_in, moved_by, one_step, plan, positions_of, positions_to_load,
    requested, slot_index, swap_cells, swap_of, swappable_size, updated_by,
    window_position, x_edge_cells, z_edge_cells, ChunkChange, ChunkSource, UpdateOutcome,
    WorkerReport, World,
};

verus! {

/// The place along x, in the order of the move, of the `m`-th cell that
/// trades places in a move by `dz` along z.
pub open spec fn place_x(dz: int, m: int) -> int {
    if dz == 0 {
        m / 10
    } else {
        m / 9
    }
}

/// The place along z, in the order of the move, of the `m`-th cell that
/// trades places in a move by `dz` along z.
pub open spec fn place_z(dz: int, m: int) -> int {
    if dz == 0 {
        m % 10
    } else {
        m % 9
    }
}

/// The slot of the `m`-th cell that trades places in a move by `(dx, dz)`.
#[verifier::opaque]
pub open spec fn source_slot(dx: int, dz: int, m: int) -> int {
    slot_index(axis_order(dx < 0, place_x(dz, m)), axis_order(dz < 0, place_z(dz, m)))
}

/// The slot with which the `m`-th cell trades places in a move by `(dx, dz)`.
#[verifier::opaque]
pub open spec fn target_slot(dx: int, dz: int, m: int) -> int {
    slot_index(axis_order(dx < 0, place_x(dz, m)) + dx, axis_order(dz < 0, place_z(dz, m)) + dz)
}

/// The number of cells that trade places in a move by `(dx, dz)`.
pub open spec fn swap_count(dx: int, dz: int) -> int {
    swappable_size(dx) * swappable_size(dz)
}

/// Whether slot `q` has taken part in one of the first `n` trades.
pub open spec fn touched(dx: int, dz: int, n: int, q: int) -> bool {
    exists|m: int| 0 <= m < n && (q == #[trigger] source_slot(dx, dz, m) || q == target_slot(dx, dz, m))
}

/// The trades of a move by `(dx, dz)`.
pub open spec fn swaps(dx: int, dz: int) -> Seq<ChunkChange> {
    swap_cells(dx, dz).map_values(swap_of(dx, dz))
}

/// The loads of a move by `(dx, dz)` of a window with the chunks at
/// `positions`.
pub open spec fn loads(positions: Seq<ChunkPosition>, dx: int, dz: int) -> Seq<ChunkChange> {
    load_cells(dx, dz).map_values(load_of(positions, dx, dz))
}

/// Whether slot `q` of `slots` holds the position one step `(dx, dz)` from
/// the one it held in `positions`.
pub open spec fn stepped(
    slots: Seq<ChunkPosition>,
    positions: Seq<ChunkPosition>,
    dx: int,
    dz: int,
    q: int,
) -> bool {
    slots[q] == positions[q].spec_offset(dx, dz)
}

/// The slots of the trades are slots of the window, and no trade takes a
/// chunk from a slot that an earlier trade has filled or emptied.
proof fn lemma_trades_apart(dx: int, dz: int, m: int, n: int)
    requires
        -1 <= dx <= 1,
        -1 <= dz <= 1,
        0 <= m < n < swap_count(dx, dz),
    ensures
        0 <= source_slot(dx, dz, n) < 100,
        0 <= target_slot(dx, dz, n) < 100,
        0 <= source_slot(dx, dz, m) < 100,
        0 <= target_slot(dx, dz, m) < 100,
        source_slot(dx, dz, m) != source_slot(dx, dz, n),
        target_slot(dx, dz, m) != target_slot(dx, dz, n),
        source_slot(dx, dz, m) != target_slot(dx, dz, n),
{
    lemma_places(dx, dz, m);
    lemma_places(dx, dz, n);
    let (am, bm) = (place_x(dz, m), place_z(dz, m));
    let (an, bn) = (place_x(dz, n), place_z(dz, n));
    assert(am <= an && (am == an ==> bm < bn)) by {
        if dz == 0 {
            assert(m / 10 <= n / 10 && (m / 10 == n / 10 ==> m % 10 < n % 10));
        } else {
            assert(m / 9 <= n / 9 && (m / 9 == n / 9 ==> m % 9 < n % 9));
        }
    }
    assert(source_slot(dx, dz, m) == slot_index(axis_order(dx < 0, am), axis_order(dz < 0, bm)))
        by {
        reveal(source_slot);
    }
    assert(source_slot(dx, dz, n) == slot_index(axis_order(dx < 0, an), axis_order(dz < 0, bn)))
        by {
        reveal(source_slot);
    }
    assert(target_slot(dx, dz, m) == slot_index(
        axis_order(dx < 0, am) + dx,
        axis_order(dz < 0, bm) + dz,
    )) by {
        reveal(target_slot);
    }
    assert(target_slot(dx, dz, n) == slot_index(
        axis_order(dx < 0, an) + dx,
        axis_order(dz < 0, bn) + dz,
    )) by {
        reveal(target_slot);
    }
    lemma_cells_apart(dx, dz, am, bm, an, bn);
}

/// Two cells of a move, the first earlier in the order of the move than the
/// second, are different cells, trade with different cells, and the second
/// does not trade with the first.
proof fn lemma_cells_apart(dx: int, dz: int, am: int, bm: int, an: int, bn: int)
    requires
        -1 <= dx <= 1,
        -1 <= dz <= 1,
        0 <= am <= an < swappable_size(dx),
        0 <= bm < swappable_size(dz),
        0 <= bn < swappable_size(dz),
        am == an ==> bm < bn,
    ensures
        ({
            let (xm, zm) = (axis_order(dx < 0, am), axis_order(dz < 0, bm));
            let (xn, zn) = (axis_order(dx < 0, an), axis_order(dz < 0, bn));
            &&& 0 <= slot_index(xm, zm) < 100
            &&& 0 <= slot_index(xn, zn) < 100
            &&& 0 <= slot_index(xm + dx, zm + dz) < 100
            &&& 0 <= slot_index(xn + dx, zn + dz) < 100
            &&& slot_index(xm, zm) != slot_index(xn, zn)
            &&& slot_index(xm + dx, zm + dz) != slot_index(xn + dx, zn + dz)
            &&& slot_index(xm, zm) != slot_index(xn + dx, zn + dz)
        }),
{
    let (xm, zm) = (axis_order(dx < 0, am), axis_order(dz < 0, bm));
    let (xn, zn) = (axis_order(dx < 0, an), axis_order(dz < 0, bn));
    assert(0 <= xm < 10 && 0 <= zm < 10 && 0 <= xn < 10 && 0 <= zn < 10);
    assert(0 <= xm + dx < 10 && 0 <= zm + dz < 10 && 0 <= xn + dx < 10 && 0 <= zn + dz < 10);
    assert(xm != xn || zm != zn);
    assert(xm != xn + dx || zm != zn + dz);
}

/// The `m`-th cell that trades places has a place on each axis among those
/// that keep their chunk.
proof fn lemma_places(dx: int, dz: int, m: int)
    requires
        -1 <= dx <= 1,
        -1 <= dz <= 1,
        0 <= m < swap_count(dx, dz),
    ensures
        place_x(dz, m) == m / swappable_size(dz),
        place_z(dz, m) == m % swappable_size(dz),
        0 <= place_x(dz, m) < swappable_size(dx),
        0 <= place_z(dz, m) < swappable_size(dz),
        0 <= axis_order(dx < 0, place_x(dz, m)) < 10,
        0 <= axis_order(dz < 0, place_z(dz, m)) < 10,
        0 <= axis_order(dx < 0, place_x(dz, m)) + dx < 10,
        0 <= axis_order(dz < 0, place_z(dz, m)) + dz < 10,
{
    let nx = swappable_size(dx);
    let nz = swappable_size(dz);
    assert(swap_count(dx, dz) == nx * nz);
    assert(nx * nz == if nx == 9 {
        if nz == 9 {
            81int
        } else {
            90int
        }
    } else {
        if nz == 9 {
            90int
        } else {
            100int
        }
    }) by (nonlinear_arith)
        requires
            nx == 9 || nx == 10,
            nz == 9 || nz == 10,
    ;
}

/// The `n`-th trade as a change.
proof fn lemma_trade(dx: int, dz: int, n: int)
    requires
        -1 <= dx <= 1,
        -1 <= dz <= 1,
        0 <= n < swap_count(dx, dz),
    ensures
        swaps(dx, dz).len() == swap_count(dx, dz),
        swaps(dx, dz)[n] == ChunkChange(
            source_slot(dx, dz, n) as usize,
            ChunkSource::Reference(target_slot(dx, dz, n) as usize),
        ),
        0 <= source_slot(dx, dz, n) < 100,
        0 <= target_slot(dx, dz, n) < 100,
{
    reveal(source_slot);
    reveal(target_slot);
    lemma_swap_cell(dx, dz, n);
    lemma_places(dx, dz, n);
}

/// After the first `n` trades, each cell that has traded holds the chunk
/// that was one step further, and the slots that took no part hold what they
/// held.
proof fn lemma_after_trades(
    positions: Seq<ChunkPosition>,
    fresh: Seq<ChunkPosition>,
    dx: int,
    dz: int,
    n: int,
)
    requires
        positions.len() == 100,
        -1 <= dx <= 1,
        -1 <= dz <= 1,
        0 <= n <= swap_count(dx, dz),
    ensures
        applied(positions, swaps(dx, dz).take(n), fresh).len() == 100,
        forall|m: int|
            0 <= m < n ==> applied(positions, swaps(dx, dz).take(n), fresh)[#[trigger] source_slot(
                dx,
                dz,
                m,
            )] == positions[target_slot(dx, dz, m)],
        forall|q: int|
            0 <= q < 100 && !touched(dx, dz, n, q) ==> #[trigger] applied(
                positions,
                swaps(dx, dz).take(n),
                fresh,
            )[q] == positions[q],
    decreases n,
{
    let all = swaps(dx, dz);
    if n == 0 {
        assert(all.take(0).len() == 0);
    } else {
        lemma_after_trades(positions, fresh, dx, dz, n - 1);
        lemma_trade(dx, dz, n - 1);
        let before = applied(positions, all.take(n - 1), fresh);
        let after = applied(positions, all.take(n), fresh);
        let a = source_slot(dx, dz, n - 1);
        let b = target_slot(dx, dz, n - 1);
        assert(all.take(n).drop_last() == all.take(n - 1));
        assert(all.take(n).last() == all[n - 1]);
        assert(after == before.update(a, before[b]).update(b, before[a]));
        assert(!touched(dx, dz, n - 1, b)) by {
            assert forall|m: int| 0 <= m < n - 1 implies b != #[trigger] source_slot(dx, dz, m) && b
                != target_slot(dx, dz, m) by {
                lemma_trades_apart(dx, dz, m, n - 1);
            }
        }
        assert(before[b] == positions[b]);
        assert forall|m: int| 0 <= m < n implies after[#[trigger] source_slot(dx, dz, m)]
            == positions[target_slot(dx, dz, m)] by {
            if m < n - 1 {
                lemma_trades_apart(dx, dz, m, n - 1);
            }
        }
        assert forall|q: int| 0 <= q < 100 && !touched(dx, dz, n, q) implies #[trigger] after[q]
            == positions[q] by {
            assert(q != source_slot(dx, dz, n - 1) && q != target_slot(dx, dz, n - 1));
            assert(!touched(dx, dz, n - 1, q)) by {
                if touched(dx, dz, n - 1, q) {
                    let m = choose|m: int|
                        0 <= m < n - 1 && (q == #[trigger] source_slot(dx, dz, m) || q
                            == target_slot(dx, dz, m));
                    assert(0 <= m < n && (q == source_slot(dx, dz, m) || q == target_slot(
                        dx,
                        dz,
                        m,
                    )));
                }
            }
        }
    }
}

/// Trades load nothing.
proof fn lemma_trades_load_nothing(dx: int, dz: int, n: int)
    requires
        -1 <= dx <= 1,
        -1 <= dz <= 1,
        0 <= n <= swap_count(dx, dz),
    ensures
        loads_in(swaps(dx, dz).take(n)) == 0,
        positions_to_load(swaps(dx, dz).take(n)).len() == 0,
    decreases n,
{
    let all = swaps(dx, dz);
    if n == 0 {
        assert(all.take(0).len() == 0);
    } else {
        lemma_trade(dx, dz, n - 1);
        lemma_trades_load_nothing(dx, dz, n - 1);
        assert(all.take(n).drop_last() == all.take(n - 1));
        assert(all.take(n).last() == all[n - 1]);
    }
}

/// The trades followed by the first `k` loads hold `k` loads, which ask for
/// the positions one step from those of their slots.
proof fn lemma_loads_of_plan(positions: Seq<ChunkPosition>, dx: int, dz: int, k: int)
    requires
        -1 <= dx <= 1,
        -1 <= dz <= 1,
        0 <= k <= load_cells(dx, dz).len(),
    ensures
        loads_in(swaps(dx, dz) + loads(positions, dx, dz).take(k)) == k,
        positions_to_load(swaps(dx, dz) + loads(positions, dx, dz).take(k)).len() == k,
        forall|j: int|
            0 <= j < k ==> #[trigger] positions_to_load(
                swaps(dx, dz) + loads(positions, dx, dz).take(k),
            )[j] == positions[slot_index(
                load_cells(dx, dz)[j].0 as int,
                load_cells(dx, dz)[j].1 as int,
            )].spec_offset(dx, dz),
    decreases k,
{
    let trades = swaps(dx, dz);
    let fills = loads(positions, dx, dz);
    if k == 0 {
        assert(swap_cells(dx, dz).len() == swap_count(dx, dz)) by {
            if swap_count(dx, dz) > 0 {
                lemma_swap_cell(dx, dz, 0);
            }
        }
        lemma_trades_load_nothing(dx, dz, swap_count(dx, dz));
        assert(trades.take(swap_count(dx, dz)) == trades);
        assert(trades + fills.take(0) == trades);
    } else {
        lemma_loads_of_plan(positions, dx, dz, k - 1);
        let shorter = trades + fills.take(k - 1);
        let longer = trades + fills.take(k);
        assert(longer.drop_last() == shorter);
        assert(longer.last() == fills[k - 1]);
        assert(fills[k - 1] == load_of(positions, dx, dz)(load_cells(dx, dz)[k - 1]));
    }
}

/// Every cell of the window either trades places or is loaded.
proof fn lemma_cell_covered(dx: int, dz: int, x: int, z: int)
    requires
        -1 <= dx <= 1,
        -1 <= dz <= 1,
        0 <= x < 10,
        0 <= z < 10,
    ensures
        (exists|m: int| 0 <= m < swap_count(dx, dz) && #[trigger] source_slot(dx, dz, m) == slot_index(x, z))
            || (exists|j: int|
            0 <= j < load_cells(dx, dz).len() && slot_index(
                (#[trigger] load_cells(dx, dz)[j]).0 as int,
                load_cells(dx, dz)[j].1 as int,
            ) == slot_index(x, z)),
{
    reveal(source_slot);
    let nx = swappable_size(dx);
    let nz = swappable_size(dz);
    // The places of x and z in the order in which the move visits them.
    let a = if dx < 0 { 9 - x } else { x };
    let b = if dz < 0 { 9 - z } else { z };
    if a < nx && b < nz {
        let m = if dz == 0 {
            a * 10 + b
        } else {
            a * 9 + b
        };
        assert(place_x(dz, m) == a && place_z(dz, m) == b);
        assert(0 <= m < swap_count(dx, dz)) by (nonlinear_arith)
            requires
                m == a * nz + b,
                0 <= a < nx,
                0 <= b < nz,
                swap_count(dx, dz) == nx * nz,
        ;
        assert(source_slot(dx, dz, m) == slot_index(x, z));
    } else {
        let cell = (x as usize, z as usize);
        if a >= nx {
            // x lies on the edge that the move along x fills afresh.
            assert(dx != 0 && x == edge_coord(dx < 0));
            assert(x_edge_cells(dx)[z] == cell);
            if dz == 0 {
                assert(load_cells(dx, dz)[z] == cell);
            } else {
                let both = x_edge_cells(dx) + z_edge_cells(dz);
                assert(both[z] == cell);
                assert(both.contains(cell));
                lemma_first_occurrences(both);
                assert(load_cells(dx, dz).contains(cell));
                let j = choose|j: int|
                    0 <= j < load_cells(dx, dz).len() && load_cells(dx, dz)[j] == cell;
                assert(load_cells(dx, dz)[j] == cell);
            }
        } else {
            assert(dz != 0 && z == edge_coord(dz < 0));
            assert(z_edge_cells(dz)[x] == cell);
            if dx == 0 {
                assert(load_cells(dx, dz)[x] == cell);
            } else {
                let both = x_edge_cells(dx) + z_edge_cells(dz);
                assert(both[10 + x] == cell);
                assert(both.contains(cell));
                lemma_first_occurrences(both);
                assert(load_cells(dx, dz).contains(cell));
                let j = choose|j: int|
                    0 <= j < load_cells(dx, dz).len() && load_cells(dx, dz)[j] == cell;
                assert(load_cells(dx, dz)[j] == cell);
            }
        }
    }
}

/// After the trades and the first `k` loads, every cell that has traded and
/// every cell that has been loaded holds the position one step from the one
/// it held, provided that before the move neighbours one step apart held
/// positions one step apart.
proof fn lemma_after_loads(positions: Seq<ChunkPosition>, dx: int, dz: int, k: int)
    requires
        positions.len() == 100,
        -1 <= dx <= 1,
        -1 <= dz <= 1,
        0 <= k <= load_cells(dx, dz).len(),
        forall|m: int|
            0 <= m < swap_count(dx, dz) ==> positions[#[trigger] target_slot(dx, dz, m)]
                == positions[source_slot(dx, dz, m)].spec_offset(dx, dz),
    ensures
        ({
            let fresh = positions_to_load(plan(positions, dx, dz));
            let slots = applied(
                positions,
                swaps(dx, dz) + loads(positions, dx, dz).take(k),
                fresh,
            );
            &&& slots.len() == 100
            &&& forall|m: int|
                0 <= m < swap_count(dx, dz) ==> stepped(
                    slots,
                    positions,
                    dx,
                    dz,
                    #[trigger] source_slot(dx, dz, m),
                )
            &&& forall|j: int|
                0 <= j < k ==> stepped(
                    slots,
                    positions,
                    dx,
                    dz,
                    slot_index(
                        (#[trigger] load_cells(dx, dz)[j]).0 as int,
                        load_cells(dx, dz)[j].1 as int,
                    ),
                )
        }),
    decreases k,
{
    let trades = swaps(dx, dz);
    let fills = loads(positions, dx, dz);
    let fresh = positions_to_load(plan(positions, dx, dz));
    let count = swap_count(dx, dz);
    assert(swap_cells(dx, dz).len() == count) by {
        if count > 0 {
            lemma_swap_cell(dx, dz, 0);
        }
    }
    if k == 0 {
        lemma_after_trades(positions, fresh, dx, dz, count);
        assert(trades.take(count) == trades);
        assert(trades + fills.take(0) == trades);
        let slots = applied(positions, trades, fresh);
        assert forall|m: int| 0 <= m < count implies stepped(
            slots,
            positions,
            dx,
            dz,
            #[trigger] source_slot(dx, dz, m),
        ) by {
            assert(slots[source_slot(dx, dz, m)] == positions[target_slot(dx, dz, m)]);
        }
    } else {
        lemma_after_loads(positions, dx, dz, k - 1);
        lemma_loads_of_plan(positions, dx, dz, k - 1);
        lemma_loads_of_plan(positions, dx, dz, load_cells(dx, dz).len() as int);
        lemma_load_cell(dx, dz, k - 1);
        assert(fills.take(fills.len() as int) == fills);
        let shorter = trades + fills.take(k - 1);
        let longer = trades + fills.take(k);
        assert(longer.drop_last() == shorter);
        assert(longer.last() == fills[k - 1]);
        assert(fills[k - 1] == load_of(positions, dx, dz)(load_cells(dx, dz)[k - 1]));
        let before = applied(positions, shorter, fresh);
        let after = applied(positions, longer, fresh);
        let cell = load_cells(dx, dz)[k - 1];
        let q = slot_index(cell.0 as int, cell.1 as int);
        assert(after == before.update(q, fresh[k - 1]));
        assert(fresh[k - 1] == positions[q].spec_offset(dx, dz));
        assert forall|m: int| 0 <= m < count implies stepped(
            after,
            positions,
            dx,
            dz,
            #[trigger] source_slot(dx, dz, m),
        ) by {
            lemma_trade(dx, dz, m);
            assert(stepped(before, positions, dx, dz, source_slot(dx, dz, m)));
        }
        assert forall|j: int| 0 <= j < k implies stepped(
            after,
            positions,
            dx,
            dz,
            slot_index(
                (#[trigger] load_cells(dx, dz)[j]).0 as int,
                load_cells(dx, dz)[j].1 as int,
            ),
        ) by {
            lemma_load_cell(dx, dz, j);
            if j < k - 1 {
                assert(stepped(
                    before,
                    positions,
                    dx,
                    dz,
                    slot_index(load_cells(dx, dz)[j].0 as int, load_cells(dx, dz)[j].1 as int),
                ));
            }
        }
    }
}

/// A move by one step, or none, on each axis shifts the window: after its
/// changes every slot holds the position one step from the one it held,
/// provided that before the move neighbours one step apart held positions
/// one step apart.
pub proof fn lemma_plan_shifts_window(positions: Seq<ChunkPosition>, dx: int, dz: int)
    requires
        positions.len() == 100,
        -1 <= dx <= 1,
        -1 <= dz <= 1,
        forall|x: int, z: int|
            0 <= x < 10 && 0 <= z < 10 && 0 <= x + dx < 10 && 0 <= z + dz < 10
                ==> #[trigger] positions[slot_index(x + dx, z + dz)] == positions[slot_index(
                x,
                z,
            )].spec_offset(dx, dz),
    ensures
        ({
            let changes = plan(positions, dx, dz);
            let slots = applied(positions, changes, positions_to_load(changes));
            &&& slots.len() == 100
            &&& forall|x: int, z: int|
                0 <= x < 10 && 0 <= z < 10 ==> #[trigger] slots[slot_index(x, z)]
                    == positions[slot_index(x, z)].spec_offset(dx, dz)
        }),
{
    let changes = plan(positions, dx, dz);
    let fills = loads(positions, dx, dz);
    let slots = applied(positions, changes, positions_to_load(changes));
    assert forall|m: int| 0 <= m < swap_count(dx, dz) implies positions[#[trigger] target_slot(
        dx,
        dz,
        m,
    )] == positions[source_slot(dx, dz, m)].spec_offset(dx, dz) by {
        reveal(source_slot);
        reveal(target_slot);
        lemma_places(dx, dz, m);
        let x = axis_order(dx < 0, place_x(dz, m));
        let z = axis_order(dz < 0, place_z(dz, m));
        assert(positions[slot_index(x + dx, z + dz)] == positions[slot_index(x, z)].spec_offset(
            dx,
            dz,
        ));
    }
    lemma_after_loads(positions, dx, dz, load_cells(dx, dz).len() as int);
    assert(fills.take(fills.len() as int) == fills);
    assert forall|x: int, z: int| 0 <= x < 10 && 0 <= z < 10 implies #[trigger] slots[slot_index(
        x,
        z,
    )] == positions[slot_index(x, z)].spec_offset(dx, dz) by {
        lemma_cell_covered(dx, dz, x, z);
        if exists|m: int|
            0 <= m < swap_count(dx, dz) && #[trigger] source_slot(dx, dz, m) == slot_index(x, z) {
            let m = choose|m: int|
                0 <= m < swap_count(dx, dz) && #[trigger] source_slot(dx, dz, m) == slot_index(
                    x,
                    z,
                );
            assert(stepped(slots, positions, dx, dz, source_slot(dx, dz, m)));
        } else {
            let j = choose|j: int|
                0 <= j < load_cells(dx, dz).len() && slot_index(
                    (#[trigger] load_cells(dx, dz)[j]).0 as int,
                    load_cells(dx, dz)[j].1 as int,
                ) == slot_index(x, z);
            assert(stepped(
                slots,
                positions,
                dx,
                dz,
                slot_index(load_cells(dx, dz)[j].0 as int, load_cells(dx, dz)[j].1 as int),
            ));
        }
    }
}

/// Changes that name slots of the window leave it with as many slots.
proof fn lemma_applied_len<T>(slots: Seq<T>, changes: Seq<ChunkChange>, fresh: Seq<T>)
    requires
        slots.len() == 100,
        changes_in_window(changes),
    ensures
        applied(slots, changes, fresh).len() == 100,
    decreases changes.len(),
{
    if changes.len() > 0 {
        assert(changes_in_window(changes.drop_last())) by {
            assert forall|i: int| 0 <= i < changes.drop_last().len() implies (
            #[trigger] changes.drop_last()[i]).0 < 100 && (changes.drop_last()[i].1 matches ChunkSource::Reference(
                other,
            ) ==> other < 100) by {
                assert(changes.drop_last()[i] == changes[i]);
            }
        }
        lemma_applied_len(slots, changes.drop_last(), fresh);
        assert(changes.last() == changes[changes.len() - 1]);
    }
}

/// The positions of the chunks follow the chunks through changes: the
/// positions after the changes are the changes applied to the positions.
proof fn lemma_positions_follow(
    chunks: Seq<Arc<Chunk>>,
    changes: Seq<ChunkChange>,
    loaded: Seq<Arc<Chunk>>,
)
    requires
        chunks.len() == 100,
        changes_in_window(changes),
        loads_in(changes) <= loaded.len(),
    ensures
        positions_of(applied(chunks, changes, loaded)) == applied(
            positions_of(chunks),
            changes,
            positions_of(loaded),
        ),
    decreases changes.len(),
{
    if changes.len() > 0 {
        let front = changes.drop_last();
        assert(changes_in_window(front)) by {
            assert forall|i: int| 0 <= i < front.len() implies (#[trigger] front[i]).0 < 100 && (
            front[i].1 matches ChunkSource::Reference(other) ==> other < 100) by {
                assert(front[i] == changes[i]);
            }
        }
        assert(changes.last() == changes[changes.len() - 1]);
        lemma_positions_follow(chunks, front, loaded);
        lemma_applied_len(chunks, front, loaded);
        lemma_applied_len(positions_of(chunks), front, positions_of(loaded));
        lemma_applied_len(chunks, changes, loaded);
        lemma_applied_len(positions_of(chunks), changes, positions_of(loaded));
        assert(positions_of(applied(chunks, changes, loaded)) =~= applied(
            positions_of(chunks),
            changes,
            positions_of(loaded),
        ));
    } else {
        assert(positions_of(chunks) =~= positions_of(applied(chunks, changes, loaded)));
    }
}

/// In a window around its centre, every position can be written down, and
/// chunks one step apart lie at positions one step apart.
proof fn lemma_window_steps<V>(world: World<V>, x: int, z: int, dx: int, dz: int)
    requires
        world.slots_wf(),
        world.aligned(),
        0 <= x < 10,
        0 <= z < 10,
        -1 <= dx <= 1,
        -1 <= dz <= 1,
    ensures
        world.center.can_offset(x - 5, z - 5),
        world.positions()[slot_index(x, z)].global_x() == world.center.global_x() + x - 5,
        world.positions()[slot_index(x, z)].global_z() == world.center.global_z() + z - 5,
        world.positions()[slot_index(x, z)].spec_offset(dx, dz) == world.center.spec_offset(
            x - 5 + dx,
            z - 5 + dz,
        ),
{
    let center = world.center;
    lemma_region_between(center.global_x(), -5, 4, x - 5);
    lemma_region_between(center.global_z(), -5, 4, z - 5);
    assert(world.positions()[slot_index(x, z)] == window_position(center, x, z));
    lemma_offset_in_range(center, x - 5, z - 5);
    lemma_offset_composes(center, x - 5, z - 5, dx, dz);
}

/// Carrying out a move keeps the window around its centre: if every slot
/// showed the chunk that its place calls for, and the move led one step
/// towards its new centre, every slot does so again after the move.
pub proof fn lemma_move_keeps_window<V>(pre: World<V>, loaded: Seq<Arc<Chunk>>, post: World<V>)
    requires
        pre.wf(),
        pre.aligned(),
        completes(pre, loaded),
        moved_by(pre, loaded, post),
    ensures
        post.aligned(),
{
    let (center, direction, changes) = pre.pending()->0;
    let (dx, dz) = (direction.0 as int, direction.1 as int);
    let positions = pre.positions();
    lemma_plan_in_window(positions, dx, dz);
    lemma_loads(changes, 0);
    lemma_positions_follow(pre.chunks@, changes, loaded);
    assert forall|x: int, z: int|
        0 <= x < 10 && 0 <= z < 10 && 0 <= x + dx < 10 && 0 <= z + dz < 10 implies #[trigger] positions[slot_index(
        x + dx,
        z + dz,
    )] == positions[slot_index(x, z)].spec_offset(dx, dz) by {
        lemma_window_steps(pre, x, z, dx, dz);
        assert(positions[slot_index(x + dx, z + dz)] == window_position(
            pre.center,
            x + dx,
            z + dz,
        ));
    }
    lemma_plan_shifts_window(positions, dx, dz);
    // The new centre is one step from the old one.
    lemma_window_steps(pre, 5, 5, dx, dz);
    lemma_window_steps(pre, 0, 0, dx, dz);
    lemma_window_steps(pre, 9, 9, dx, dz);
    lemma_region_between(pre.center.global_x(), -5, 4, dx);
    lemma_region_between(pre.center.global_z(), -5, 4, dz);
    lemma_offset_in_range(pre.center, dx, dz);
    assert(pre.positions()[slot_index(0, 0)].can_offset(dx, dz));
    assert(pre.positions()[slot_index(9, 9)].can_offset(dx, dz));
    assert forall|x: int, z: int| 0 <= x < 10 && 0 <= z < 10 implies #[trigger] post.positions()[slot_index(
        x,
        z,
    )] == window_position(post.center, x, z) by {
        lemma_window_steps(pre, x, z, dx, dz);
        lemma_offset_composes(pre.center, dx, dz, x - 5, z - 5);
    }
}

/// Asking for a move keeps the window around its centre, and sets a move
/// under way that leads to the centre asked for, provided that centre is one
/// step away at most.
pub proof fn lemma_request_keeps_window<V>(
    pre: World<V>,
    new_center: ChunkPosition,
    post: World<V>,
    to_load: Option<Seq<ChunkPosition>>,
)
    requires
        pre.wf(),
        pre.aligned(),
        new_center.wf(),
        one_step(pre.center, new_center),
        requested(pre, new_center, post, to_load),
    ensures
        post.aligned(),
{
    let dx = new_center.global_x() - pre.center.global_x();
    let dz = new_center.global_z() - pre.center.global_z();
    lemma_at_own_global(new_center);
    assert(post.positions() == pre.positions());
}

/// One round of updating keeps the window around its centre, provided the
/// viewer has come no further than one chunk from the centre of the window
/// when a move towards the viewer is asked for.
pub proof fn lemma_update_keeps_window<V>(
    pre: World<V>,
    report: WorkerReport,
    new_center: ChunkPosition,
    moved: World<V>,
    marked: World<V>,
    post: World<V>,
    outcome: UpdateOutcome,
)
    requires
        pre.wf(),
        pre.aligned(),
        new_center.wf(),
        moved.wf(),
        marked.wf(),
        updated_by(pre, report, new_center, moved, marked, post, outcome),
        one_step(marked.center, new_center),
    ensures
        post.aligned(),
{
    if outcome.world_data_updated {
        let loaded = report->Finished_0@;
        lemma_move_keeps_window(pre, loaded, moved);
    } else {
        assert(moved.positions() == pre.positions());
    }
    assert(marked.positions() == moved.positions());
    assert(marked.aligned());
    lemma_request_keeps_window(marked, new_center, post, crate::discrete::listed(outcome.to_load));
}

/// Among the first occurrences of a list with one more entry, the entry is
/// there exactly if it did not occur before.
proof fn lemma_first_occurrences_push(cells: Seq<(usize, usize)>, cell: (usize, usize))
    ensures
        first_occurrences(cells.push(cell)) == if cells.contains(cell) {
            first_occurrences(cells)
        } else {
            first_occurrences(cells).push(cell)
        },
{
    assert(cells.push(cell).drop_last() == cells);
}

/// The cells of the column that a move fills afresh are all different.
proof fn lemma_column_kept(dx: int, m: int)
    requires
        0 <= m <= 10,
    ensures
        first_occurrences(x_edge_cells(dx).take(m)) == x_edge_cells(dx).take(m),
    decreases m,
{
    let column = x_edge_cells(dx);
    if m > 0 {
        lemma_column_kept(dx, m - 1);
        lemma_first_occurrences_push(column.take(m - 1), column[m - 1]);
        assert(column.take(m) == column.take(m - 1).push(column[m - 1]));
        let front = column.take(m - 1);
        let cell = column[m - 1];
        assert(!front.contains(cell)) by {
            if front.contains(cell) {
                let at = choose|at: int| 0 <= at < front.len() && front[at] == cell;
                assert(column[at] == cell);
            }
        }
    }
}

/// Of the row that a diagonal move fills afresh, all cells but the one in
/// the corner are loaded after the column.
proof fn lemma_row_kept(dx: int, dz: int, k: int)
    requires
        dx == 1 || dx == -1,
        dz == 1 || dz == -1,
        0 <= k <= 10,
    ensures
        first_occurrences(x_edge_cells(dx) + z_edge_cells(dz).take(k)).len() == 10 + k - if k
            > edge_coord(dx < 0) {
            1int
        } else {
            0int
        },
    decreases k,
{
    let column = x_edge_cells(dx);
    let row = z_edge_cells(dz);
    if k == 0 {
        lemma_column_kept(dx, 10);
        assert(column.take(10) == column);
        assert(column + row.take(0) == column);
    } else {
        lemma_row_kept(dx, dz, k - 1);
        let front = column + row.take(k - 1);
        let cell = row[k - 1];
        assert(column + row.take(k) == front.push(cell));
        lemma_first_occurrences_push(front, cell);
        if k - 1 == edge_coord(dx < 0) {
            assert(front[edge_coord(dz < 0)] == cell);
            assert(front.contains(cell));
        } else {
            if front.contains(cell) {
                let at = choose|at: int| 0 <= at < front.len() && front[at] == cell;
                if at < 10 {
                    assert(column[at] == cell);
                } else {
                    assert(row[at - 10] == cell);
                }
            }
        }
    }
}

/// A move loads ten chunks for each axis along which the window moves, the
/// chunk in the corner counted once; a move that is none loads none.
pub proof fn lemma_load_count(dx: int, dz: int)
    requires
        -1 <= dx <= 1,
        -1 <= dz <= 1,
    ensures
        load_cells(dx, dz).len() == if dx != 0 && dz != 0 {
            19int
        } else if dx != 0 || dz != 0 {
            10int
        } else {
            0int
        },
{
    if dx != 0 && dz != 0 {
        lemma_row_kept(dx, dz, 10);
        assert(z_edge_cells(dz).take(10) == z_edge_cells(dz));
    }
}

} // verus!
