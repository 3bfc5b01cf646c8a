//! The chunk data model: a fixed 16 x 16 x 256 column of the voxel
//! world, the unit of generation, caching and persistence.

use vstd::prelude::*;
use crate::coords::{flat_index, BLOCKS_PER_CHUNK, COLUMNS_PER_CHUNK};

verus! {

/// Block-type identifier for air.
pub const BLOCK_AIR: u8 = 0;

/// Block-type identifier for stone.
pub const BLOCK_STONE: u8 = 1;

/// Block-type identifier for grass.
pub const BLOCK_GRASS: u8 = 2;

/// Block-type identifier for dirt.
pub const BLOCK_DIRT: u8 = 3;

/// Block-type identifier for bedrock.
pub const BLOCK_BEDROCK: u8 = 7;

/// A fixed-footprint column of the world. `blocks`, `metadata` and
/// `light` are parallel flat buffers of exactly 16 * 16 * 256 entries,
/// indexed by [`flat_index`]; `height_map` holds one entry per (x, z)
/// column. `last_accessed` is a caller-supplied monotonic timestamp in
/// seconds.
#[derive(Debug)]
pub struct Chunk {
    pub x: i32,
    pub z: i32,
    pub blocks: Vec<u8>,
    pub metadata: Vec<u8>,
    pub light: Vec<u8>,
    pub height_map: Vec<u8>,
    pub is_generated: bool,
    pub is_modified: bool,
    pub last_accessed: u64,
}

impl Chunk {
    /// The fixed-footprint invariant: every buffer has exactly its fixed
    /// length, and the chunk is fully generated. No partially generated
    /// chunk is ever visible to callers.
    pub open spec fn wf(self) -> bool {
        &&& self.blocks@.len() == BLOCKS_PER_CHUNK
        &&& self.metadata@.len() == BLOCKS_PER_CHUNK
        &&& self.light@.len() == BLOCKS_PER_CHUNK
        &&& self.height_map@.len() == COLUMNS_PER_CHUNK
        &&& self.is_generated
    }

    /// Bitwise equality of everything that identifies a chunk and its
    /// content: coordinate, all four buffers and both flags. Only the
    /// access timestamp may differ.
    pub open spec fn same_content(self, other: Chunk) -> bool {
        &&& self.x == other.x
        &&& self.z == other.z
        &&& self.blocks@ == other.blocks@
        &&& self.metadata@ == other.metadata@
        &&& self.light@ == other.light@
        &&& self.height_map@ == other.height_map@
        &&& self.is_generated == other.is_generated
        &&& self.is_modified == other.is_modified
    }
}

impl Clone for Chunk {
    fn clone(&self) -> (c: Chunk)
        ensures
            c.same_content(*self),
            c.last_accessed == self.last_accessed,
    {
        let c = Chunk {
            x: self.x,
            z: self.z,
            blocks: self.blocks.clone(),
            metadata: self.metadata.clone(),
            light: self.light.clone(),
            height_map: self.height_map.clone(),
            is_generated: self.is_generated,
            is_modified: self.is_modified,
            last_accessed: self.last_accessed,
        };
        proof {
            assert(c.blocks@ =~= self.blocks@);
            assert(c.metadata@ =~= self.metadata@);
            assert(c.light@ =~= self.light@);
            assert(c.height_map@ =~= self.height_map@);
        }
        c
    }
}

/// The deterministic height-threshold rule that terrain synthesis fills
/// a column with, for surface height `h`: bedrock at the floor, stone up
/// to four blocks below the surface, dirt up to the surface, grass at
/// the surface, air above it.
pub open spec fn block_for_height(y: int, h: int) -> u8 {
    if y == 0 {
        BLOCK_BEDROCK
    } else if y < h - 4 {
        BLOCK_STONE
    } else if y < h {
        BLOCK_DIRT
    } else if y == h {
        BLOCK_GRASS
    } else {
        BLOCK_AIR
    }
}

/// What a freshly synthesized chunk at chunk coordinate (cx, cz) with
/// height map `hs` looks like: every block follows the height-threshold
/// rule for its column, metadata is zeroed, light is full (15), the
/// modified flag is clear and the access timestamp is the generation
/// instant.
pub open spec fn generated_chunk(c: Chunk, cx: int, cz: int, hs: Seq<u8>, now: u64) -> bool {
    &&& c.wf()
    &&& c.x == cx
    &&& c.z == cz
    &&& c.height_map@ == hs
    &&& forall|lx: int, y: int, lz: int|
        0 <= lx < 16 && 0 <= y < 256 && 0 <= lz < 16 ==> c.blocks@[flat_index(lx, y, lz)]
            == block_for_height(y, hs[lz * 16 + lx] as int)
    &&& forall|i: int| 0 <= i < BLOCKS_PER_CHUNK ==> c.metadata@[i] == 0
    &&& forall|i: int| 0 <= i < BLOCKS_PER_CHUNK ==> c.light@[i] == 15
    &&& !c.is_modified
    &&& c.last_accessed == now
}

} // verus!
