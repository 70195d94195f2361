//! What the user can set about the smooth surface.

use vstd::prelude::*;
use crate::chunk_position::BLOCKS_IN_CHUNK;
use crate::common::{BlockType, MaterialOperation, MaterialSetup, RIGID_MATERIALS};
use crate::config::MULTIPASS;

verus! {

/// The settings of the smooth surface as the user sees them.
#[derive(Clone, Copy, PartialEq, Eq, Debug, Structural)]
pub struct SmoothMeshOptions {
    /// The greater, the larger the kernel that smooths the terrain.
    pub smoothness_level: u8,
    /// The greater, the finer the grid on which the surface is sampled.
    pub mesh_resolution_level: u8,
    /// The lowest height for which a surface is built.
    pub y_low_limit: isize,
    /// The number of heights, from the lowest on, for which one is built.
    pub y_size: usize,
    /// Whether the settings are to take effect now.
    pub apply: bool,
}

impl Default for SmoothMeshOptions {
    fn default() -> (options: Self)
        ensures
            options == (SmoothMeshOptions {
                smoothness_level: 2,
                mesh_resolution_level: 1,
                y_low_limit: 40,
                y_size: 40,
                apply: false,
            }),
    {
        SmoothMeshOptions {
            smoothness_level: 2,
            mesh_resolution_level: 1,
            y_low_limit: 40,
            y_size: 40,
            apply: false,
        }
    }
}

/// The number of grid cells along the side of a block at the given
/// resolution level.
pub open spec fn cells_per_block(mesh_resolution_level: int) -> int {
    if mesh_resolution_level <= 1 {
        1
    } else if mesh_resolution_level == 2 {
        2
    } else if mesh_resolution_level == 3 {
        4
    } else {
        8
    }
}

/// The number of grid cells along the side of a block at the given
/// resolution level: the cell size is one over it.
pub fn cells_per_vertex(mesh_resolution_level: u8) -> (cells: usize)
    ensures
        cells == cells_per_block(mesh_resolution_level as int),
{
    match mesh_resolution_level {
        0 | 1 => 1,
        2 => 2,
        3 => 4,
        _ => 8,
    }
}

/// The sides of the grid that samples one chunk at the given resolution
/// level over `y_size` heights: the samples at both ends of each side count,
/// so a side of `n` cells has `n + 1` samples. Returns width, height and depth.
pub fn grid_sides(options: SmoothMeshOptions) -> (sides: (usize, usize, usize))
    requires
        options.y_size * 8 < usize::MAX,
    ensures
        sides.0 == 16 * cells_per_block(options.mesh_resolution_level as int) + 1,
        sides.1 == options.y_size * cells_per_block(options.mesh_resolution_level as int) + 1,
        sides.2 == sides.0,
{
    let cells = cells_per_vertex(options.mesh_resolution_level);
    assert(options.y_size * cells <= options.y_size * 8) by (nonlinear_arith)
        requires
            1 <= cells <= 8,
    ;
    let width = BLOCKS_IN_CHUNK * cells + 1;
    let height = options.y_size * cells + 1;
    (width, height, width)
}

/// The materials of the terrain pass: everything but the rigid materials,
/// and but leaves where they get a pass of their own.
pub fn terrain_setup() -> (setup: MaterialSetup)
    ensures
        setup.operation() == MaterialOperation::Exclude,
        forall|m: BlockType| setup.listed(m) == (MULTIPASS && m == BlockType::Leaves),
        forall|m: BlockType| setup.rigid(m) == RIGID_MATERIALS@.contains(m),
{
    if MULTIPASS {
        let excluded = [BlockType::Leaves];
        proof {
            assert forall|m: BlockType| excluded@.contains(m) == (m == BlockType::Leaves) by {
                if m == BlockType::Leaves {
                    assert(excluded@[0] == m);
                }
            }
        }
        MaterialSetup::exclude(excluded, RIGID_MATERIALS)
    } else {
        MaterialSetup::all_smooth(RIGID_MATERIALS)
    }
}

/// The materials of the pass that builds the surface of the leaves: leaves
/// alone, none of them rigid.
pub fn leaves_setup() -> (setup: MaterialSetup)
    ensures
        setup.operation() == MaterialOperation::Include,
        forall|m: BlockType| setup.listed(m) == (m == BlockType::Leaves),
        forall|m: BlockType| !setup.rigid(m),
{
    let included = [BlockType::Leaves];
    let rigid: [BlockType; 0] = [];
    proof {
        assert forall|m: BlockType| included@.contains(m) == (m == BlockType::Leaves) by {
            if m == BlockType::Leaves {
                assert(included@[0] == m);
            }
        }
    }
    MaterialSetup::including(included, rigid)
}

} // verus!
