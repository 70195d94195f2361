//! Marching cubes on a grid of samples: which grid edges the surface crosses,
//! and which triangles join the crossings.
//!
//! The grid only knows of each sample whether it is below the surface level.
//! Where exactly a crossing lies on its edge, and what the vertex there looks
//! like, is for the caller to work out from the two samples a crossing names.

use vstd::prelude::*;
use vstd::arithmetic::div_mod::lemma_fundamental_div_mod_converse;
use crate::mesh::{Mesh, VertexIndex};
use crate::sequences::concat_over;
use crate::tables::{
    bit_set, edge_crossed, edge_listed, intersected_edges, lemma_edge_table, lemma_triangle_table,
    lists_edge, triangle_edge, triangle_entry, triangle_entry_sound, CUBE_EDGES,
    EDGE_INVALID_INDEX, TRIANGLE_ROW,
};

verus! {

/// Each grid point owns this many of the edges that leave it.
pub const INTERSECTION_STRIDE: usize = 3;

/// The edges a grid point owns, by their number in the cube that has the
/// point as corner 0: the edge towards greater z, the one towards greater x,
/// and the one towards greater y.
pub const EDGE_INDICES: [u16; 3] = [0, 3, 8];

/// The place of a sample in the grid.
#[derive(Clone, Copy, PartialEq, Eq, Debug, Structural)]
pub struct GridPosition {
    pub x: usize,
    pub y: usize,
    pub z: usize,
}

/// A grid edge that the surface crosses, named by the indices of the samples
/// at its two ends. `end` is the neighbour of `start` one step along an axis.
#[derive(Clone, Copy, PartialEq, Eq, Debug, Structural)]
pub struct Crossing {
    pub start: usize,
    pub end: usize,
}

/// What is known of a grid edge: the crossing on it, if there is one.
pub type Intersection = Option<Crossing>;

/// A box of `width` by `height` by `depth` samples, x running fastest and z
/// slowest, with the flag of each: whether the field there is below the
/// surface level.
pub struct Grid {
    pub below: Vec<bool>,
    pub width: usize,
    pub height: usize,
    pub depth: usize,
}

/// 1 for a flag that is set, 0 for one that is not.
pub open spec fn flag(set: bool) -> int {
    if set {
        1
    } else {
        0
    }
}

/// How far corner `i` of a cube lies from corner 0 along x.
pub open spec fn corner_dx(i: int) -> int {
    flag(i == 2 || i == 3 || i == 6 || i == 7)
}

/// How far corner `i` of a cube lies from corner 0 along y.
pub open spec fn corner_dy(i: int) -> int {
    flag(i == 4 || i == 5 || i == 6 || i == 7)
}

/// How far corner `i` of a cube lies from corner 0 along z.
pub open spec fn corner_dz(i: int) -> int {
    flag(i == 1 || i == 2 || i == 5 || i == 6)
}

/// The number, in the cube of its owner, of the `slot`-th edge a point owns.
pub open spec fn slot_edge(slot: int) -> int {
    if slot == 0 {
        0
    } else if slot == 1 {
        3
    } else {
        8
    }
}

impl GridPosition {
    /// The position `x`, `y`, `z` steps further along the axes.
    pub fn plus(self, x: usize, y: usize, z: usize) -> (moved: GridPosition)
        requires
            self.x + x <= usize::MAX,
            self.y + y <= usize::MAX,
            self.z + z <= usize::MAX,
        ensures
            moved.x == self.x + x,
            moved.y == self.y + y,
            moved.z == self.z + z,
    {
        GridPosition { x: self.x + x, y: self.y + y, z: self.z + z }
    }
}

/// The index of the sample at `(x, y, z)` in a grid `width` wide and `height`
/// high.
pub open spec fn index_in(width: int, height: int, x: int, y: int, z: int) -> int {
    x + y * width + (width * height) * z
}

/// A sample inside a grid has an index below the number of samples, and the
/// index gives its place back.
pub proof fn lemma_index_in(width: int, height: int, depth: int, x: int, y: int, z: int)
    requires
        0 <= x < width,
        0 <= y < height,
        0 <= z < depth,
    ensures
        0 <= index_in(width, height, x, y, z) < width * height * depth,
        index_in(width, height, x, y, z) % width == x,
        (index_in(width, height, x, y, z) / width) % height == y,
        (index_in(width, height, x, y, z) / width) / height == z,
        1 <= width * height <= width * height * depth,
        0 <= y * width < width * height,
        0 <= (width * height) * z,
{
    let p = index_in(width, height, x, y, z);
    let rows = y + height * z;
    assert(p == rows * width + x) by (nonlinear_arith)
        requires
            p == x + y * width + (width * height) * z,
            rows == y + height * z,
    ;
    assert(0 <= rows) by (nonlinear_arith)
        requires
            rows == y + height * z,
            0 <= y,
            0 <= z,
            0 < height,
    ;
    assert(rows == z * height + y) by (nonlinear_arith)
        requires
            rows == y + height * z,
    ;
    lemma_fundamental_div_mod_converse(p, width, rows, x);
    lemma_fundamental_div_mod_converse(rows, height, z, y);
    assert(0 <= y * width < width * height) by (nonlinear_arith)
        requires
            0 <= y < height,
            0 < width,
    ;
    assert(0 <= (width * height) * z) by (nonlinear_arith)
        requires
            0 <= z,
            0 < height,
            0 < width,
    ;
    assert(p < width * height * depth) by (nonlinear_arith)
        requires
            p == x + y * width + (width * height) * z,
            0 <= x < width,
            0 <= y < height,
            0 <= z < depth,
    ;
    assert(0 <= p) by (nonlinear_arith)
        requires
            p == x + y * width + (width * height) * z,
            0 <= x < width,
            0 <= y < height,
            0 <= z < depth,
    ;
    assert(width * height <= width * height * depth && width * height >= 1) by (nonlinear_arith)
        requires
            1 <= depth,
            1 <= width,
            1 <= height,
    ;
}

impl Grid {
    /// The number of samples the sides call for.
    pub open spec fn points(&self) -> int {
        self.width * self.height * self.depth
    }

    /// The grid has a sample on every side and a flag for every sample.
    pub open spec fn wf(&self) -> bool {
        &&& self.width >= 1
        &&& self.height >= 1
        &&& self.depth >= 1
        &&& self.below@.len() == self.points()
    }

    /// Whether `(x, y, z)` is the place of a sample.
    pub open spec fn contains(&self, x: int, y: int, z: int) -> bool {
        0 <= x < self.width && 0 <= y < self.height && 0 <= z < self.depth
    }

    /// The index of the sample at `(x, y, z)`.
    pub open spec fn index_of(&self, x: int, y: int, z: int) -> int {
        index_in(self.width as int, self.height as int, x, y, z)
    }

    /// The x of the sample with index `p`.
    pub open spec fn x_of(&self, p: int) -> int {
        p % (self.width as int)
    }

    /// The y of the sample with index `p`.
    pub open spec fn y_of(&self, p: int) -> int {
        (p / (self.width as int)) % (self.height as int)
    }

    /// The z of the sample with index `p`.
    pub open spec fn z_of(&self, p: int) -> int {
        (p / (self.width as int)) / (self.height as int)
    }

    /// Whether there is a sample at `(x, y, z)` and it is below the surface.
    /// Beyond the grid nothing is.
    pub open spec fn below_at(&self, x: int, y: int, z: int) -> bool {
        self.contains(x, y, z) && self.below@[self.index_of(x, y, z)]
    }

    /// Whether corner `i` of the cube at `(x, y, z)` counts as not below the
    /// surface.
    pub open spec fn corner_above(&self, x: int, y: int, z: int, i: int) -> bool {
        !self.below_at(x + corner_dx(i), y + corner_dy(i), z + corner_dz(i))
    }

    /// The case of the cube whose corner 0 is at `(x, y, z)`.
    pub open spec fn case_at(&self, x: int, y: int, z: int) -> int {
        flag(self.corner_above(x, y, z, 0)) + 2 * flag(self.corner_above(x, y, z, 1)) + 4 * flag(
            self.corner_above(x, y, z, 2),
        ) + 8 * flag(self.corner_above(x, y, z, 3)) + 16 * flag(self.corner_above(x, y, z, 4)) + 32
            * flag(self.corner_above(x, y, z, 5)) + 64 * flag(self.corner_above(x, y, z, 6)) + 128
            * flag(self.corner_above(x, y, z, 7))
    }

    /// The grid of the given sides and flags.
    pub fn new(width: usize, height: usize, depth: usize, below: Vec<bool>) -> (grid: Self)
        requires
            width >= 1,
            height >= 1,
            depth >= 1,
            below@.len() == width * height * depth,
        ensures
            grid.wf(),
            grid.width == width,
            grid.height == height,
            grid.depth == depth,
            grid.below@ == below@,
    {
        Grid { below, width, height, depth }
    }

    /// The index of the sample at `pos`.
    pub fn get_index_for(&self, pos: GridPosition) -> (index: usize)
        requires
            self.wf(),
            self.contains(pos.x as int, pos.y as int, pos.z as int),
        ensures
            index == self.index_of(pos.x as int, pos.y as int, pos.z as int),
            index < self.below@.len(),
    {
        let count = self.below.len();
        proof {
            lemma_index_in(
                self.width as int,
                self.height as int,
                self.depth as int,
                pos.x as int,
                pos.y as int,
                pos.z as int,
            );
            assert(self.width * self.height * self.depth == count);
        }
        pos.x + pos.y * self.width + (self.width * self.height) * pos.z
    }

    /// The flag of the sample at `pos`, if there is a sample there.
    pub fn get_cell(&self, pos: GridPosition) -> (cell: Option<bool>)
        requires
            self.wf(),
        ensures
            cell is Some <==> self.contains(pos.x as int, pos.y as int, pos.z as int),
            cell matches Some(below) ==> below == self.below_at(
                pos.x as int,
                pos.y as int,
                pos.z as int,
            ),
    {
        if pos.x >= self.width || pos.y >= self.height || pos.z >= self.depth {
            return None;
        }
        let index = self.get_index_for(pos);
        Some(self.get_cell_by_index(index))
    }

    /// The flag of the sample with index `index`.
    pub fn get_cell_by_index(&self, index: usize) -> (below: bool)
        requires
            index < self.below@.len(),
        ensures
            below == self.below@[index as int],
    {
        self.below[index]
    }
}

/// How far corner `i` of a cube lies from corner 0 along each axis.
fn corner_offset(i: usize) -> (by: (usize, usize, usize))
    requires
        i < 8,
    ensures
        by.0 == corner_dx(i as int),
        by.1 == corner_dy(i as int),
        by.2 == corner_dz(i as int),
{
    let add_x: usize = if i == 2 || i == 3 || i == 6 || i == 7 {
        1
    } else {
        0
    };
    let add_y: usize = if i >= 4 {
        1
    } else {
        0
    };
    let add_z: usize = if i == 1 || i == 2 || i == 5 || i == 6 {
        1
    } else {
        0
    };
    (add_x, add_y, add_z)
}

/// The sum of the first `n` corner flags of the cube at `(x, y, z)`, each
/// weighted by its bit.
pub open spec fn case_prefix(grid: Grid, x: int, y: int, z: int, n: int) -> int
    decreases n,
{
    if n <= 0 {
        0
    } else {
        case_prefix(grid, x, y, z, n - 1) + weight(n - 1) * flag(
            grid.corner_above(x, y, z, n - 1),
        )
    }
}

/// The value of bit `i`, for `i` up to 8.
pub open spec fn weight(i: int) -> int {
    if i == 0 {
        1
    } else if i == 1 {
        2
    } else if i == 2 {
        4
    } else if i == 3 {
        8
    } else if i == 4 {
        16
    } else if i == 5 {
        32
    } else if i == 6 {
        64
    } else if i == 7 {
        128
    } else {
        256
    }
}

/// The case of the cube whose corner 0 is the sample at `cell_index`. A
/// corner that lies beyond the grid counts as not below the surface.
pub fn get_cell_case(grid: &Grid, cell_index: GridPosition) -> (case: usize)
    requires
        grid.wf(),
        grid.contains(cell_index.x as int, cell_index.y as int, cell_index.z as int),
    ensures
        case == grid.case_at(cell_index.x as int, cell_index.y as int, cell_index.z as int),
        case < 256,
{
    let ghost (x, y, z) = (cell_index.x as int, cell_index.y as int, cell_index.z as int);
    let mut lookup_index: usize = 0;
    let mut bit: usize = 1;
    let mut i: usize = 0;
    while i < 8
        invariant
            grid.wf(),
            grid.contains(x, y, z),
            x == cell_index.x,
            y == cell_index.y,
            z == cell_index.z,
            i <= 8,
            bit == weight(i as int),
            lookup_index == case_prefix(*grid, x, y, z, i as int),
            lookup_index < bit,
        decreases 8 - i,
    {
        let (add_x, add_y, add_z) = corner_offset(i);
        let grid_position = cell_index.plus(add_x, add_y, add_z);
        let mut above = true;
        if let Some(below) = grid.get_cell(grid_position) {
            if below {
                above = false;
            }
        }
        assert(above == grid.corner_above(x, y, z, i as int));
        if above {
            lookup_index += bit;
        }
        bit *= 2;
        i += 1;
    }
    proof {
        reveal_with_fuel(case_prefix, 9);
    }
    lookup_index
}

/// The bits of a cube's case are its corner flags.
pub proof fn lemma_case_bits(grid: Grid, x: int, y: int, z: int, i: int)
    requires
        0 <= i < 8,
    ensures
        0 <= grid.case_at(x, y, z) < 256,
        bit_set(grid.case_at(x, y, z), i) == grid.corner_above(x, y, z, i),
{
}

/// How far the end of the `slot`-th edge a point owns lies from the point
/// along x.
pub open spec fn slot_dx(slot: int) -> int {
    flag(slot == 1)
}

/// How far the end of the `slot`-th edge a point owns lies from the point
/// along y.
pub open spec fn slot_dy(slot: int) -> int {
    flag(slot == 2)
}

/// How far the end of the `slot`-th edge a point owns lies from the point
/// along z.
pub open spec fn slot_dz(slot: int) -> int {
    flag(slot == 0)
}

/// How far the point that owns edge `e` of a cube lies from the cube's corner
/// 0 along x.
pub open spec fn owner_dx(e: int) -> int {
    flag(e == 2 || e == 6 || e == 10 || e == 11)
}

/// How far the point that owns edge `e` of a cube lies from the cube's corner
/// 0 along y.
pub open spec fn owner_dy(e: int) -> int {
    flag(e == 4 || e == 5 || e == 6 || e == 7)
}

/// How far the point that owns edge `e` of a cube lies from the cube's corner
/// 0 along z.
pub open spec fn owner_dz(e: int) -> int {
    flag(e == 1 || e == 5 || e == 9 || e == 10)
}

/// Which of its owner's three edges edge `e` of a cube is.
pub open spec fn owner_slot(e: int) -> int {
    if e >= 8 {
        2
    } else if e % 2 == 0 {
        0
    } else {
        1
    }
}

/// The test "holds a crossing" as a predicate on intersections.
pub open spec fn is_crossing() -> spec_fn(Intersection) -> bool {
    |intersection: Intersection| intersection is Some
}

/// How many of the first `i` intersections hold a crossing.
pub open spec fn rank(intersections: Seq<Intersection>, i: int) -> nat {
    intersections.take(i).filter(is_crossing()).len()
}

/// For each intersection that holds a crossing, the number of crossings
/// before it: the index of its vertex.
pub open spec fn vertex_map(intersections: Seq<Intersection>) -> Seq<Option<VertexIndex>> {
    Seq::new(
        intersections.len(),
        |i: int|
            if intersections[i] is Some {
                Some(rank(intersections, i) as VertexIndex)
            } else {
                None
            },
    )
}

/// The crossings among `intersections`, in their order.
pub open spec fn crossings(intersections: Seq<Intersection>) -> Seq<Crossing> {
    intersections.filter(is_crossing()).map_values(|intersection: Intersection| intersection->0)
}

/// The number of entries of the row of `case`, from entry `j` on, up to the
/// first that is no edge.
pub open spec fn row_len_from(case: int, j: int) -> int
    decreases 15 - j,
{
    if j >= 15 || triangle_entry(case, j) < 0 {
        j
    } else {
        row_len_from(case, j + 1)
    }
}

/// The number of edges that the row of `case` lists.
pub open spec fn row_len(case: int) -> int {
    row_len_from(case, 0)
}

impl Grid {
    /// Whether the cube with corner 0 at `(x, y, z)` has all its corners in
    /// the grid.
    pub open spec fn has_cube(&self, x: int, y: int, z: int) -> bool {
        0 <= x && x + 1 < self.width && 0 <= y && y + 1 < self.height && 0 <= z && z + 1
            < self.depth
    }

    /// The crossing on the `slot`-th edge owned by the point at `(x, y, z)`:
    /// there is one when the table lists that edge for the point's case and
    /// the edge ends inside the grid.
    pub open spec fn crossing(&self, x: int, y: int, z: int, slot: int) -> Intersection {
        let (end_x, end_y, end_z) = (x + slot_dx(slot), y + slot_dy(slot), z + slot_dz(slot));
        if edge_listed(self.case_at(x, y, z), slot_edge(slot)) && self.contains(
            end_x,
            end_y,
            end_z,
        ) {
            Some(
                Crossing {
                    start: self.index_of(x, y, z) as usize,
                    end: self.index_of(end_x, end_y, end_z) as usize,
                },
            )
        } else {
            None
        }
    }

    /// Intersection number `i`: the one on edge `i % 3` of point `i / 3`.
    pub open spec fn intersection(&self, i: int) -> Intersection {
        let p = i / 3;
        self.crossing(self.x_of(p), self.y_of(p), self.z_of(p), i % 3)
    }

    /// The intersections of all edges that the grid's points own: three for
    /// each point, the points in the order of their indices.
    pub open spec fn intersections(&self) -> Seq<Intersection> {
        Seq::new((3 * self.points()) as nat, |i: int| self.intersection(i))
    }

    /// The number of the intersection on edge `e` of the cube at `(x, y, z)`.
    pub open spec fn edge_slot(&self, x: int, y: int, z: int, e: int) -> int {
        3 * self.index_of(x + owner_dx(e), y + owner_dy(e), z + owner_dz(e)) + owner_slot(e)
    }

    /// The vertex on edge `e` of the cube at `(x, y, z)`, if the surface
    /// crosses that edge.
    pub open spec fn cube_vertex(&self, x: int, y: int, z: int, e: int) -> Option<VertexIndex> {
        vertex_map(self.intersections())[self.edge_slot(x, y, z, e)]
    }

    /// The corners of the triangles of the cube at `(x, y, z)`: for each edge
    /// that the row of the cube's case lists, the vertex on that edge.
    pub open spec fn cube_triangles(&self, x: int, y: int, z: int) -> Seq<VertexIndex> {
        let case = self.case_at(x, y, z);
        Seq::new(
            row_len(case) as nat,
            |j: int| self.cube_vertex(x, y, z, triangle_entry(case, j))->0,
        )
    }

    /// The triangles of row `(y, z)` of cubes, by the cubes' x.
    pub open spec fn triangles_by_x(&self, y: int, z: int) -> spec_fn(int) -> Seq<VertexIndex> {
        |x: int| self.cube_triangles(x, y, z)
    }

    /// The triangles of layer `z` of cubes, by the cubes' y.
    pub open spec fn triangles_by_y(&self, z: int) -> spec_fn(int) -> Seq<VertexIndex> {
        |y: int| concat_over((self.width - 1) as nat, self.triangles_by_x(y, z))
    }

    /// The triangles of the grid, by the cubes' z.
    pub open spec fn triangles_by_z(&self) -> spec_fn(int) -> Seq<VertexIndex> {
        |z: int| concat_over((self.height - 1) as nat, self.triangles_by_y(z))
    }

    /// The corners of the triangles of all cubes of the grid, z running
    /// slowest and x fastest.
    pub open spec fn triangles(&self) -> Seq<VertexIndex> {
        concat_over((self.depth - 1) as nat, self.triangles_by_z())
    }
}

/// Counting crossings one intersection further adds one exactly when that
/// intersection holds a crossing.
pub proof fn lemma_rank_step(intersections: Seq<Intersection>, i: int)
    requires
        0 <= i < intersections.len(),
    ensures
        rank(intersections, i + 1) == rank(intersections, i) + flag(intersections[i] is Some),
        rank(intersections, 0) == 0,
{
    let front = intersections.take(i);
    assert(intersections.take(i + 1) == front.push(intersections[i]));
    front.lemma_filter_len_push(is_crossing(), intersections[i]);
    reveal(Seq::filter);
    assert(intersections.take(0).len() == 0);
}

/// The count of crossings never falls along the list.
pub proof fn lemma_rank_monotone(intersections: Seq<Intersection>, i: int, j: int)
    requires
        0 <= i <= j <= intersections.len(),
    ensures
        rank(intersections, i) <= rank(intersections, j) <= rank(intersections, i) + (j - i),
    decreases j - i,
{
    if i < j {
        lemma_rank_monotone(intersections, i, j - 1);
        lemma_rank_step(intersections, j - 1);
    }
}

/// An intersection that holds a crossing has a vertex index below the number
/// of crossings.
pub proof fn lemma_rank_below_count(intersections: Seq<Intersection>, i: int)
    requires
        0 <= i < intersections.len(),
        intersections[i] is Some,
    ensures
        rank(intersections, i) < rank(intersections, intersections.len() as int),
        crossings(intersections).len() == rank(intersections, intersections.len() as int),
{
    lemma_rank_step(intersections, i);
    lemma_rank_monotone(intersections, i + 1, intersections.len() as int);
    assert(intersections.take(intersections.len() as int) == intersections);
}

/// The end of the `slot`-th edge owned by the point at `edge_start`, as the
/// index of its sample, if the edge ends inside the grid. `edge_index` is the
/// number of that edge in the cube of its owner.
pub fn get_edge_end(grid: &Grid, edge_start: GridPosition, edge_index: u16) -> (end: Option<usize>)
    requires
        grid.wf(),
        grid.contains(edge_start.x as int, edge_start.y as int, edge_start.z as int),
        edge_index == 0 || edge_index == 3 || edge_index == 8,
    ensures
        ({
            let slot: int = if edge_index == 0 {
                0
            } else if edge_index == 3 {
                1
            } else {
                2
            };
            let (x, y, z) = (
                edge_start.x + slot_dx(slot),
                edge_start.y + slot_dy(slot),
                edge_start.z + slot_dz(slot),
            );
            &&& end is Some <==> grid.contains(x, y, z)
            &&& end matches Some(index) ==> index == grid.index_of(x, y, z)
        }),
{
    let end_position = if edge_index == 0 {
        edge_start.plus(0, 0, 1)
    } else if edge_index == 3 {
        edge_start.plus(1, 0, 0)
    } else {
        edge_start.plus(0, 1, 0)
    };
    if end_position.x >= grid.width || end_position.y >= grid.height || end_position.z
        >= grid.depth {
        return None;
    }
    Some(grid.get_index_for(end_position))
}

/// The intersection on the `slot`-th edge owned by the point at `base`, whose
/// case lists the edges of `intersected_edges`.
fn evaluate_edge(grid: &Grid, base: GridPosition, intersected: u16, slot: usize) -> (found:
    Intersection)
    requires
        grid.wf(),
        grid.contains(base.x as int, base.y as int, base.z as int),
        slot < INTERSECTION_STRIDE,
        intersected == crate::tables::EDGES_LOOKUP[grid.case_at(
            base.x as int,
            base.y as int,
            base.z as int,
        )],
    ensures
        found == grid.crossing(base.x as int, base.y as int, base.z as int, slot as int),
{
    let edge_index = EDGE_INDICES[slot];
    if !lists_edge(intersected, edge_index) {
        return None;
    }
    match get_edge_end(grid, base, edge_index) {
        Some(end) => Some(Crossing { start: grid.get_index_for(base), end }),
        None => None,
    }
}

/// The intersections of all edges that the grid's points own: three for each
/// point, the points in the order of their indices.
pub fn find_intersections(grid: &Grid) -> (intersections: Vec<Intersection>)
    requires
        grid.wf(),
    ensures
        intersections@ == grid.intersections(),
{
    let mut intersections: Vec<Intersection> = Vec::new();
    let ghost (w, h, d) = (grid.width as int, grid.height as int, grid.depth as int);
    let mut z: usize = 0;
    while z < grid.depth
        invariant
            grid.wf(),
            w == grid.width,
            h == grid.height,
            d == grid.depth,
            z <= grid.depth,
            intersections@.len() == 3 * ((w * h) * z),
            forall|i: int|
                0 <= i < intersections@.len() ==> intersections@[i] == grid.intersection(i),
        decreases grid.depth - z,
    {
        let mut y: usize = 0;
        while y < grid.height
            invariant
                grid.wf(),
                w == grid.width,
                h == grid.height,
                d == grid.depth,
                z < grid.depth,
                y <= grid.height,
                intersections@.len() == 3 * (y * w + (w * h) * z),
                forall|i: int|
                    0 <= i < intersections@.len() ==> intersections@[i] == grid.intersection(i),
            decreases grid.height - y,
        {
            let mut x: usize = 0;
            while x < grid.width
                invariant
                    grid.wf(),
                    w == grid.width,
                    h == grid.height,
                    d == grid.depth,
                    z < grid.depth,
                    y < grid.height,
                    x <= grid.width,
                    intersections@.len() == 3 * (x + y * w + (w * h) * z),
                    forall|i: int|
                        0 <= i < intersections@.len() ==> intersections@[i] == grid.intersection(
                            i,
                        ),
                decreases grid.width - x,
            {
                let base_cell_position = GridPosition { x, y, z };
                let cell_case = get_cell_case(grid, base_cell_position);
                let intersected = intersected_edges(cell_case);
                proof {
                    lemma_index_in(w, h, d, x as int, y as int, z as int);
                }
                let back = evaluate_edge(grid, base_cell_position, intersected, 0);
                let right = evaluate_edge(grid, base_cell_position, intersected, 1);
                let up = evaluate_edge(grid, base_cell_position, intersected, 2);
                intersections.push(back);
                intersections.push(right);
                intersections.push(up);
                x += 1;
            }
            proof {
                assert((y + 1) * w == y * w + w) by (nonlinear_arith);
            }
            y += 1;
        }
        proof {
            assert((w * h) * (z + 1) == (w * h) * z + h * w) by (nonlinear_arith);
        }
        z += 1;
    }
    proof {
        assert((w * h) * d == w * h * d);
        assert(intersections@ =~= grid.intersections());
    }
    intersections
}

/// For each intersection that holds a crossing, the index of its vertex: the
/// crossings are numbered in their order.
pub fn build_vertex_mapping(intersections: &Vec<Intersection>) -> (mapping: Vec<
    Option<VertexIndex>,
>)
    requires
        crossings(intersections@).len() <= u32::MAX,
    ensures
        mapping@ == vertex_map(intersections@),
{
    let mut mapping: Vec<Option<VertexIndex>> = Vec::new();
    let mut vertex_index: VertexIndex = 0;
    let ghost all = intersections@;
    let mut i: usize = 0;
    proof {
        if all.len() > 0 {
            lemma_rank_step(all, 0);
        } else {
            reveal(Seq::filter);
            assert(all.take(0).len() == 0);
        }
        assert(all.take(all.len() as int) == all);
    }
    while i < intersections.len()
        invariant
            all == intersections@,
            i <= intersections.len(),
            rank(all, all.len() as int) <= u32::MAX,
            vertex_index == rank(all, i as int),
            mapping@.len() == i,
            forall|k: int| 0 <= k < i ==> mapping@[k] == vertex_map(all)[k],
        decreases intersections.len() - i,
    {
        proof {
            lemma_rank_step(all, i as int);
            lemma_rank_monotone(all, i + 1, all.len() as int);
        }
        let mapping_value = if intersections[i].is_some() {
            let index = vertex_index;
            vertex_index += 1;
            Some(index)
        } else {
            None
        };
        mapping.push(mapping_value);
        i += 1;
    }
    assert(mapping@ =~= vertex_map(all));
    mapping
}

/// In a cube that lies in the grid, an edge whose ends differ in the cube's
/// case carries a crossing: the point that owns the edge has found it.
pub proof fn lemma_crossed_edge_has_crossing(grid: Grid, x: int, y: int, z: int, e: int)
    requires
        grid.wf(),
        grid.has_cube(x, y, z),
        0 <= e < 12,
        edge_crossed(grid.case_at(x, y, z), e),
    ensures
        0 <= grid.edge_slot(x, y, z, e) < 3 * grid.points(),
        grid.intersections()[grid.edge_slot(x, y, z, e)] is Some,
{
    let (ox, oy, oz) = (x + owner_dx(e), y + owner_dy(e), z + owner_dz(e));
    let slot = owner_slot(e);
    let p = grid.index_of(ox, oy, oz);
    lemma_index_in(grid.width as int, grid.height as int, grid.depth as int, ox, oy, oz);
    assert(grid.intersections()[3 * p + slot] == grid.crossing(ox, oy, oz, slot));
    lemma_owner_sees_edge(grid, x, y, z, e);
}

/// The point that owns edge `e` of a cube finds, in its own case, the same
/// two corner flags at the ends of that edge as the cube does.
proof fn lemma_owner_sees_edge(grid: Grid, x: int, y: int, z: int, e: int)
    requires
        grid.wf(),
        grid.has_cube(x, y, z),
        0 <= e < 12,
    ensures
        edge_listed(
            grid.case_at(x + owner_dx(e), y + owner_dy(e), z + owner_dz(e)),
            slot_edge(owner_slot(e)),
        ) == edge_crossed(grid.case_at(x, y, z), e),
        grid.contains(
            x + owner_dx(e) + slot_dx(owner_slot(e)),
            y + owner_dy(e) + slot_dy(owner_slot(e)),
            z + owner_dz(e) + slot_dz(owner_slot(e)),
        ),
{
    let (ox, oy, oz) = (x + owner_dx(e), y + owner_dy(e), z + owner_dz(e));
    let own_edge = slot_edge(owner_slot(e));
    lemma_case_bits(grid, ox, oy, oz, crate::tables::edge_start(own_edge));
    lemma_case_bits(grid, ox, oy, oz, crate::tables::edge_end(own_edge));
    lemma_case_bits(grid, x, y, z, crate::tables::edge_start(e));
    lemma_case_bits(grid, x, y, z, crate::tables::edge_end(e));
    lemma_edge_table(grid.case_at(ox, oy, oz), own_edge);
}

/// Every edge that the row of a case lists, up to the row's length, is an
/// edge that is crossed in that case; and the length is a multiple of three.
pub proof fn lemma_row(case: int, j: int)
    requires
        0 <= case < 256,
        0 <= j <= 15,
    ensures
        j <= row_len_from(case, j) <= 15,
        forall|k: int|
            j <= k < row_len_from(case, j) ==> 0 <= #[trigger] triangle_entry(case, k) < 12
                && edge_crossed(case, triangle_entry(case, k)),
        j % 3 == 0 ==> row_len_from(case, j) % 3 == 0,
        j % 3 != 0 && j < 15 && triangle_entry(case, j) >= 0 ==> row_len_from(case, j) % 3 == 0,
    decreases 15 - j,
{
    if j < 15 {
        lemma_triangle_table(case, j);
        if triangle_entry(case, j) >= 0 {
            lemma_row(case, j + 1);
            if j + 1 < 15 {
                lemma_triangle_table(case, j + 1);
            }
        }
    }
}

/// The vertices on the twelve edges of the cube at `cell_position`, where
/// the surface crosses them.
pub fn get_edge_intersections_for_cell(
    grid: &Grid,
    cell_position: GridPosition,
    vertex_mapping: &Vec<Option<VertexIndex>>,
) -> (edge_intersections: [Option<VertexIndex>; 12])
    requires
        grid.wf(),
        grid.has_cube(cell_position.x as int, cell_position.y as int, cell_position.z as int),
        vertex_mapping@.len() == 3 * grid.points(),
    ensures
        forall|e: int|
            0 <= e < 12 ==> #[trigger] edge_intersections[e] == vertex_mapping@[grid.edge_slot(
                cell_position.x as int,
                cell_position.y as int,
                cell_position.z as int,
                e,
            )],
{
    let count = vertex_mapping.len();
    // Named after the corners of the cube:
    // {[b]ottom | [t]op}{[l]eft | [r]ight}{[f]orward | [b]ack}
    let cube_blf = get_cube_vertex_index(grid, cell_position, 0, 0, 0, count);
    let cube_brf = get_cube_vertex_index(grid, cell_position, 1, 0, 0, count);
    let cube_tlf = get_cube_vertex_index(grid, cell_position, 0, 1, 0, count);
    let cube_trf = get_cube_vertex_index(grid, cell_position, 1, 1, 0, count);
    let cube_blb = get_cube_vertex_index(grid, cell_position, 0, 0, 1, count);
    let cube_brb = get_cube_vertex_index(grid, cell_position, 1, 0, 1, count);
    let cube_tlb = get_cube_vertex_index(grid, cell_position, 0, 1, 1, count);
    [
        // The edges round the bottom face.
        vertex_mapping[cube_blf],
        vertex_mapping[cube_blb + 1],
        vertex_mapping[cube_brf],
        vertex_mapping[cube_blf + 1],
        // The edges round the top face.
        vertex_mapping[cube_tlf],
        vertex_mapping[cube_tlb + 1],
        vertex_mapping[cube_trf],
        vertex_mapping[cube_tlf + 1],
        // The edges that join bottom and top.
        vertex_mapping[cube_blf + 2],
        vertex_mapping[cube_blb + 2],
        vertex_mapping[cube_brb + 2],
        vertex_mapping[cube_brf + 2],
    ]
}

/// The number of the first of the three intersections owned by the corner of
/// the cube at `cell_position` that lies `add_x`, `add_y`, `add_z` from its
/// corner 0. `count` is the number of intersections of the grid.
fn get_cube_vertex_index(
    grid: &Grid,
    cell_position: GridPosition,
    add_x: usize,
    add_y: usize,
    add_z: usize,
    count: usize,
) -> (first: usize)
    requires
        grid.wf(),
        grid.has_cube(cell_position.x as int, cell_position.y as int, cell_position.z as int),
        add_x <= 1,
        add_y <= 1,
        add_z <= 1,
        count == 3 * grid.points(),
    ensures
        first == 3 * grid.index_of(
            cell_position.x + add_x,
            cell_position.y + add_y,
            cell_position.z + add_z,
        ),
        first + 2 < count,
{
    let grid_cell_position = cell_position.plus(add_x, add_y, add_z);
    let cell_index = grid.get_index_for(grid_cell_position);
    cell_index * INTERSECTION_STRIDE
}

/// Appends the corners of the triangles of the cube at `pos` to `indices`.
fn push_cube_triangles(
    grid: &Grid,
    pos: GridPosition,
    vertex_mapping: &Vec<Option<VertexIndex>>,
    indices: &mut Vec<VertexIndex>,
)
    requires
        grid.wf(),
        grid.has_cube(pos.x as int, pos.y as int, pos.z as int),
        vertex_mapping@ == vertex_map(grid.intersections()),
    ensures
        final(indices)@ == old(indices)@ + grid.cube_triangles(
            pos.x as int,
            pos.y as int,
            pos.z as int,
        ),
        grid.cube_triangles(pos.x as int, pos.y as int, pos.z as int).len() % 3 == 0,
        forall|k: int|
            0 <= k < grid.cube_triangles(pos.x as int, pos.y as int, pos.z as int).len()
                ==> #[trigger] grid.cube_triangles(pos.x as int, pos.y as int, pos.z as int)[k]
                < crossings(grid.intersections()).len(),
{
    let ghost (x, y, z) = (pos.x as int, pos.y as int, pos.z as int);
    let ghost all = grid.intersections();
    let ghost before = indices@;
    let edge_vertex_map = get_edge_intersections_for_cell(grid, pos, vertex_mapping);
    let case = get_cell_case(grid, pos);
    let ghost triangles = grid.cube_triangles(x, y, z);
    proof {
        lemma_row(case as int, 0);
        assert forall|k: int| 0 <= k < triangles.len() implies #[trigger] triangles[k] < crossings(
            all,
        ).len() by {
            let e = triangle_entry(case as int, k);
            lemma_crossed_edge_has_crossing(*grid, x, y, z, e);
            lemma_rank_below_count(all, grid.edge_slot(x, y, z, e));
        }
    }
    let mut i: usize = 0;
    let mut edge_index: i16 = triangle_edge(case, 0);
    while i < TRIANGLE_ROW && edge_index != EDGE_INVALID_INDEX
        invariant
            grid.wf(),
            grid.has_cube(x, y, z),
            vertex_mapping@ == vertex_map(all),
            all == grid.intersections(),
            case == grid.case_at(x, y, z),
            case < 256,
            triangles == grid.cube_triangles(x, y, z),
            i <= TRIANGLE_ROW,
            i < TRIANGLE_ROW ==> edge_index == triangle_entry(case as int, i as int),
            row_len(case as int) == row_len_from(case as int, i as int),
            forall|e: int|
                0 <= e < 12 ==> #[trigger] edge_vertex_map[e] == vertex_mapping@[grid.edge_slot(
                    x,
                    y,
                    z,
                    e,
                )],
            indices@ == before + triangles.take(i as int),
        decreases TRIANGLE_ROW - i,
    {
        proof {
            lemma_row(case as int, 0);
            lemma_row(case as int, i + 1);
            assert(i < row_len(case as int));
            let e = triangle_entry(case as int, i as int);
            lemma_crossed_edge_has_crossing(*grid, x, y, z, e);
            assert(edge_vertex_map[e] == vertex_mapping@[grid.edge_slot(x, y, z, e)]);
            assert(triangles.take(i + 1) == triangles.take(i as int).push(triangles[i as int]));
        }
        match edge_vertex_map[edge_index as usize] {
            Some(vertex) => {
                indices.push(vertex);
            },
            None => {},
        }
        i += 1;
        if i < TRIANGLE_ROW {
            edge_index = triangle_edge(case, i);
        }
    }
    proof {
        assert(row_len(case as int) == i);
        assert(triangles.take(i as int) == triangles);
    }
}

/// The corners of the triangles of all cubes of the grid, as indices of the
/// vertices that `vertex_mapping` gives to the crossings.
pub fn assemble_triangles(grid: &Grid, vertex_mapping: &Vec<Option<VertexIndex>>) -> (indices: Vec<
    VertexIndex,
>)
    requires
        grid.wf(),
        vertex_mapping@ == vertex_map(grid.intersections()),
    ensures
        indices@ == grid.triangles(),
        indices@.len() % 3 == 0,
        forall|k: int|
            0 <= k < indices@.len() ==> indices@[k] < crossings(grid.intersections()).len(),
{
    let mut indices: Vec<VertexIndex> = Vec::new();
    let ghost count = crossings(grid.intersections()).len();
    let mut z: usize = 0;
    while z < grid.depth - 1
        invariant
            grid.wf(),
            vertex_mapping@ == vertex_map(grid.intersections()),
            count == crossings(grid.intersections()).len(),
            z <= grid.depth - 1,
            indices@ == concat_over(z as nat, grid.triangles_by_z()),
            indices@.len() % 3 == 0,
            forall|k: int| 0 <= k < indices@.len() ==> indices@[k] < count,
        decreases grid.depth - z,
    {
        let ghost done_layers = indices@;
        let mut y: usize = 0;
        while y < grid.height - 1
            invariant
                grid.wf(),
                vertex_mapping@ == vertex_map(grid.intersections()),
                count == crossings(grid.intersections()).len(),
                z < grid.depth - 1,
                y <= grid.height - 1,
                indices@ == done_layers + concat_over(y as nat, grid.triangles_by_y(z as int)),
                indices@.len() % 3 == 0,
                forall|k: int| 0 <= k < indices@.len() ==> indices@[k] < count,
            decreases grid.height - y,
        {
            let ghost done_rows = indices@;
            let mut x: usize = 0;
            while x < grid.width - 1
                invariant
                    grid.wf(),
                    vertex_mapping@ == vertex_map(grid.intersections()),
                    count == crossings(grid.intersections()).len(),
                    z < grid.depth - 1,
                    y < grid.height - 1,
                    x <= grid.width - 1,
                    indices@ == done_rows + concat_over(
                        x as nat,
                        grid.triangles_by_x(y as int, z as int),
                    ),
                    indices@.len() % 3 == 0,
                    forall|k: int| 0 <= k < indices@.len() ==> indices@[k] < count,
                decreases grid.width - x,
            {
                let grid_position = GridPosition { x, y, z };
                let ghost held = indices@;
                push_cube_triangles(grid, grid_position, vertex_mapping, &mut indices);
                proof {
                    let parts = grid.triangles_by_x(y as int, z as int);
                    let own = grid.cube_triangles(x as int, y as int, z as int);
                    assert(parts(x as int) == own);
                    assert(concat_over((x + 1) as nat, parts) == concat_over(x as nat, parts)
                        + parts(x as int));
                    assert forall|k: int| 0 <= k < indices@.len() implies indices@[k] < count by {
                        if k >= held.len() {
                            assert(indices@[k] == own[k - held.len()]);
                        }
                    }
                }
                x += 1;
            }
            proof {
                let parts = grid.triangles_by_y(z as int);
                assert(concat_over((y + 1) as nat, parts) == concat_over(y as nat, parts) + parts(
                    y as int,
                ));
            }
            y += 1;
        }
        proof {
            let parts = grid.triangles_by_z();
            assert(concat_over((z + 1) as nat, parts) == concat_over(z as nat, parts) + parts(
                z as int,
            ));
        }
        z += 1;
    }
    indices
}

/// The crossings among `intersections`, in their order.
fn collect_crossings(intersections: &Vec<Intersection>) -> (found: Vec<Crossing>)
    ensures
        found@ == crossings(intersections@),
{
    let mut found: Vec<Crossing> = Vec::new();
    let ghost all = intersections@;
    let ghost held = |intersection: Intersection| intersection->0;
    let mut i: usize = 0;
    proof {
        reveal(Seq::filter);
        assert(all.take(0).len() == 0);
    }
    while i < intersections.len()
        invariant
            all == intersections@,
            i <= intersections.len(),
            forall|intersection: Intersection| #[trigger] held(intersection) == intersection->0,
            found@ == all.take(i as int).filter(is_crossing()).map_values(held),
        decreases intersections.len() - i,
    {
        proof {
            let front = all.take(i as int);
            assert(all.take(i + 1) == front.push(all[i as int]));
            front.lemma_filter_push(all[i as int], is_crossing());
            if all[i as int] is Some {
                assert(front.filter(is_crossing()).push(all[i as int]).map_values(held)
                    == front.filter(is_crossing()).map_values(held).push(held(all[i as int])));
            }
        }
        match intersections[i] {
            Some(crossing) => {
                found.push(crossing);
            },
            None => {},
        }
        i += 1;
    }
    proof {
        assert(all.take(intersections.len() as int) == all);
        assert(all.filter(is_crossing()).map_values(held) == crossings(all));
    }
    found
}

/// A grid has at most three crossings for each of its samples.
pub proof fn lemma_crossing_count(grid: Grid)
    requires
        grid.wf(),
    ensures
        crossings(grid.intersections()).len() <= 3 * grid.points(),
{
    grid.intersections().lemma_filter_len(is_crossing());
}

/// The surface through the grid as a mesh, if the grid is small enough for
/// every edge that could be crossed to have a vertex index of its own.
pub fn try_polygonize(grid: &Grid) -> (surface: Option<Mesh<Crossing>>)
    requires
        grid.wf(),
    ensures
        surface is Some <==> 3 * grid.points() <= u32::MAX,
        surface matches Some(mesh) ==> mesh.vertices@ == crossings(grid.intersections())
            && mesh.indices@ == grid.triangles() && mesh.indices@.len() % 3 == 0 && mesh.wf(),
{
    if grid.below.len() > (u32::MAX / 3) as usize {
        return None;
    }
    proof {
        lemma_crossing_count(*grid);
    }
    Some(polygonize(grid))
}

/// The surface through the grid as a mesh. Its vertices are the grid edges
/// that the surface crosses, in the order of [`find_intersections`]; its
/// indices are the corners of the triangles of all cubes, three to a triangle.
/// Every index points at a vertex.
pub fn polygonize(grid: &Grid) -> (mesh: Mesh<Crossing>)
    requires
        grid.wf(),
        crossings(grid.intersections()).len() <= u32::MAX,
    ensures
        mesh.vertices@ == crossings(grid.intersections()),
        mesh.indices@ == grid.triangles(),
        mesh.indices@.len() % 3 == 0,
        mesh.wf(),
{
    let intersections = find_intersections(grid);
    let vertex_mapping = build_vertex_mapping(&intersections);
    let indices = assemble_triangles(grid, &vertex_mapping);
    let vertices = collect_crossings(&intersections);
    Mesh { vertices, indices }
}

} // verus!
