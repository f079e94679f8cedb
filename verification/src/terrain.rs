//! Terrain grid bookkeeping: level of detail, the vertex grid's triangles and the
//! neighbours used for normals, and height-map sampling.
use vstd::prelude::*;

use crate::mesh::{grid_indices, grid_rows};

verus! {

/// Level of detail for terrain generation.
#[derive(Debug, Clone, Copy, PartialEq, Eq, Structural)]
pub enum TerrainLod {
    /// High detail: full resolution.
    High,
    /// Medium detail: half resolution.
    Medium,
    /// Low detail: quarter resolution.
    Low,
}

impl TerrainLod {
    pub open spec fn multiplier(self) -> u32 {
        match self {
            TerrainLod::High => 1,
            TerrainLod::Medium => 2,
            TerrainLod::Low => 4,
        }
    }

    /// The step size multiplier for this LOD level.
    pub fn step_multiplier(self) -> (r: u32)
        ensures
            r == self.multiplier(),
    {
        match self {
            TerrainLod::High => 1,
            TerrainLod::Medium => 2,
            TerrainLod::Low => 4,
        }
    }
}

/// Vertices per grid side at a level of detail: the requested resolution divided by
/// the LOD step, and never below two.
pub fn effective_resolution(resolution: u32, lod: TerrainLod) -> (r: u32)
    ensures
        r == (if resolution / lod.multiplier() < 2 {
            2
        } else {
            resolution / lod.multiplier()
        }),
        r >= 2,
{
    let step = lod.step_multiplier();
    let r = resolution / step;
    if r < 2 {
        2
    } else {
        r
    }
}

/// Triangle indices of a `resolution` x `resolution` vertex grid (row-major), two
/// triangles per cell.
pub fn terrain_indices(resolution: u32) -> (r: Vec<u32>)
    requires
        resolution >= 1,
        resolution * resolution <= u32::MAX,
    ensures
        r@.map_values(|i: u32| i as int) == grid_rows(
            (resolution - 1) as nat,
            (resolution - 1) as nat,
            resolution as int,
        ),
        r@.len() == 6 * (resolution - 1) * (resolution - 1),
        forall|k: int|
            0 <= k < r@.len() ==> (#[trigger] r@[k] as int) < resolution * resolution,
{
    grid_indices(resolution - 1, resolution - 1, resolution)
}

/// The grid vertices whose heights give vertex `(ix, iz)` its normal by central
/// differences: left, right, down, up, each replaced by the vertex itself at the
/// grid's edge.
pub fn neighbour_indices(ix: u32, iz: u32, resolution: u32) -> (r: [u32; 4])
    requires
        ix < resolution,
        iz < resolution,
        resolution * resolution <= u32::MAX,
    ensures
        ({
            let idx = iz * resolution + ix;
            &&& r[0] == (if ix > 0 { idx - 1 } else { idx })
            &&& r[1] == (if ix + 1 < resolution { idx + 1 } else { idx })
            &&& r[2] == (if iz > 0 { idx - resolution } else { idx })
            &&& r[3] == (if iz + 1 < resolution { idx + resolution } else { idx })
        }),
        r[0] < resolution * resolution,
        r[1] < resolution * resolution,
        r[2] < resolution * resolution,
        r[3] < resolution * resolution,
{
    proof {
        assert(iz * resolution + ix < resolution * resolution) by (nonlinear_arith)
            requires
                ix < resolution,
                iz < resolution,
        ;
        assert(iz + 1 < resolution ==> iz * resolution + ix + resolution < resolution * resolution)
            by (nonlinear_arith)
            requires
                ix < resolution,
        ;
        assert(iz > 0 ==> iz * resolution + ix >= resolution) by (nonlinear_arith);
        assert(ix + 1 < resolution ==> iz * resolution + ix + 1 < resolution * resolution)
            by (nonlinear_arith)
            requires
                iz < resolution,
        ;
    }
    let idx = iz * resolution + ix;
    let left = if ix > 0 { idx - 1 } else { idx };
    let right = if ix + 1 < resolution { idx + 1 } else { idx };
    let down = if iz > 0 { idx - resolution } else { idx };
    let up = if iz + 1 < resolution { idx + resolution } else { idx };
    [left, right, down, up]
}

/// The row-major height-map sample for grid coordinates `(ix, iz)`, each clamped to
/// the last column / row.
pub fn heightmap_index(ix: u32, iz: u32, res_x: u32, res_z: u32) -> (r: u32)
    requires
        res_x >= 1,
        res_z >= 1,
        res_x * res_z <= u32::MAX,
    ensures
        r == (if iz < res_z - 1 { iz } else { (res_z - 1) as u32 }) * res_x + (if ix < res_x
            - 1 {
            ix
        } else {
            (res_x - 1) as u32
        }),
        r < res_x * res_z,
{
    let cx = if ix < res_x - 1 { ix } else { res_x - 1 };
    let cz = if iz < res_z - 1 { iz } else { res_z - 1 };
    proof {
        assert(cz * res_x + cx < res_x * res_z) by (nonlinear_arith)
            requires
                cx < res_x,
                cz < res_z,
        ;
    }
    cz * res_x + cx
}

} // verus!
