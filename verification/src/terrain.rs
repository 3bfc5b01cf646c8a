//! The contract the world core requires from a terrain generator: a
//! height query per world column. How a height is computed (noise,
//! biomes, structures) is the collaborator's concern, not the core's.

use vstd::prelude::*;

verus! {

/// A terrain height collaborator. The height assigned to a column is a
/// mathematical function of the source alone (`height_spec`), so a fixed
/// source is deterministic; a query may fail, which `None` reports.
pub trait TerrainSource: Sized {
    /// The height in [0, 255] that this source assigns to the world
    /// column at (world_x, world_z), or `None` where the query fails.
    spec fn height_spec(&self, world_x: int, world_z: int) -> Option<u8>;

    /// Queries the height of the column at (world_x, world_z). The
    /// result agrees exactly with `height_spec`.
    fn height(&self, world_x: i32, world_z: i32) -> (r: Option<u8>)
        ensures
            r == self.height_spec(world_x as int, world_z as int),
    ;
}

/// A terrain source that assigns one constant height to every column
/// and never fails.
pub struct FlatTerrain {
    pub surface: u8,
}

impl TerrainSource for FlatTerrain {
    open spec fn height_spec(&self, world_x: int, world_z: int) -> Option<u8> {
        Some(self.surface)
    }

    fn height(&self, world_x: i32, world_z: i32) -> (r: Option<u8>) {
        Some(self.surface)
    }
}

/// A terrain source with limited coverage: it answers one constant
/// height inside the square of world coordinates bounded by `limit` in
/// every direction, and fails outside it.
pub struct BoundedTerrain {
    pub surface: u8,
    pub limit: i32,
}

impl TerrainSource for BoundedTerrain {
    open spec fn height_spec(&self, world_x: int, world_z: int) -> Option<u8> {
        if -(self.limit as int) <= world_x <= self.limit && -(self.limit as int) <= world_z
            <= self.limit {
            Some(self.surface)
        } else {
            None
        }
    }

    fn height(&self, world_x: i32, world_z: i32) -> (r: Option<u8>) {
        let lim = self.limit as i64;
        let wx = world_x as i64;
        let wz = world_z as i64;
        if -lim <= wx && wx <= lim && -lim <= wz && wz <= lim {
            Some(self.surface)
        } else {
            None
        }
    }
}

} // verus!
