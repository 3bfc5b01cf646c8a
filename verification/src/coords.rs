//! Pure mapping between absolute world coordinates, chunk coordinates,
//! local-in-chunk coordinates and the flat storage index of a block.
//!
//! Chunks are 16 x 16 columns of 256 vertically stacked blocks. Chunk
//! coordinates are obtained by floor division (not truncation), so that
//! negative world coordinates map correctly; local coordinates use the
//! matching non-negative remainder.

use vstd::prelude::*;
use vstd::arithmetic::div_mod::{
    lemma_fundamental_div_mod, lemma_fundamental_div_mod_converse_div,
    lemma_fundamental_div_mod_converse_mod, lemma_mod_division_less_than_divisor,
};

verus! {

/// Chunk edge length in blocks along the x and z axes.
pub const CHUNK_EDGE: i32 = 16;

/// Height of a chunk in blocks.
pub const CHUNK_HEIGHT: i32 = 256;

/// Number of blocks stored in one chunk: 16 * 16 * 256.
pub const BLOCKS_PER_CHUNK: usize = 65536;

/// Number of (x, z) columns in one chunk: 16 * 16.
pub const COLUMNS_PER_CHUNK: usize = 256;

/// The chunk coordinate that a world coordinate falls in: floor division
/// by 16. In spec arithmetic `/` is Euclidean division, which agrees with
/// floor division for the positive divisor 16.
pub open spec fn chunk_coord(w: int) -> int {
    w / 16
}

/// The local coordinate of a world coordinate within its chunk: the
/// non-negative remainder of division by 16.
pub open spec fn local_coord(w: int) -> int {
    w % 16
}

/// The flat index of local block position (lx, y, lz) in a chunk's
/// block buffer.
pub open spec fn flat_index(lx: int, y: int, lz: int) -> int {
    y * 256 + lz * 16 + lx
}

/// Floor division of a world coordinate by 16, computed without signed
/// machine division: negative inputs round toward negative infinity.
fn floor_div_16(w: i32) -> (q: i32)
    ensures
        q as int == chunk_coord(w as int),
{
    if w >= 0 {
        let q32: u32 = (w as u32) / 16;
        proof {
            assert(w as u32 as int == w as int);
            assert(q32 as int == (w as int) / 16);
        }
        q32 as i32
    } else {
        let m: u64 = (-(w as i64)) as u64;
        let qm: u64 = (m + 15) / 16;
        let q: i32 = (-(qm as i64)) as i32;
        proof {
            let wi = w as int;
            let mi = m as int;
            let qi = qm as int;
            assert(mi == -wi);
            assert(qi == (mi + 15) / 16);
            lemma_fundamental_div_mod(mi + 15, 16);
            // 16 * qi lies in [mi, mi + 15], so r below lies in [0, 16)
            let r = 16 * qi - mi;
            assert(wi == (-qi) * 16 + r) by (nonlinear_arith)
                requires mi == -wi && r == 16 * qi - mi;
            lemma_fundamental_div_mod_converse_div(wi, 16, -qi, r);
            assert(q as int == -qi);
        }
        q
    }
}

/// Maps absolute world (x, z) to the coordinate of the owning chunk,
/// using floor division so that negative coordinates map correctly.
pub fn chunk_of(world_x: i32, world_z: i32) -> (r: (i32, i32))
    ensures
        r.0 as int == chunk_coord(world_x as int),
        r.1 as int == chunk_coord(world_z as int),
{
    (floor_div_16(world_x), floor_div_16(world_z))
}

/// Maps absolute world (x, z) to local coordinates within the owning
/// chunk; both components always lie in [0, 16).
pub fn local_of(world_x: i32, world_z: i32) -> (r: (i32, i32))
    ensures
        r.0 as int == local_coord(world_x as int),
        r.1 as int == local_coord(world_z as int),
        0 <= r.0 < 16,
        0 <= r.1 < 16,
{
    let cx = floor_div_16(world_x);
    let cz = floor_div_16(world_z);
    proof {
        lemma_fundamental_div_mod(world_x as int, 16);
        lemma_fundamental_div_mod(world_z as int, 16);
        lemma_mod_division_less_than_divisor(world_x as int, 16);
        lemma_mod_division_less_than_divisor(world_z as int, 16);
    }
    let lx: i32 = (world_x as i64 - (cx as i64) * 16) as i32;
    let lz: i32 = (world_z as i64 - (cz as i64) * 16) as i32;
    (lx, lz)
}

/// The flat storage index of the block at local position (lx, y, lz).
/// An out-of-range vertical coordinate is a caller error, excluded by
/// contract rather than silently wrapped.
pub fn block_index(lx: i32, y: i32, lz: i32) -> (idx: usize)
    requires
        0 <= lx < 16,
        0 <= lz < 16,
        0 <= y < 256,
    ensures
        idx as int == flat_index(lx as int, y as int, lz as int),
        idx < BLOCKS_PER_CHUNK,
{
    (y as usize) * 256 + (lz as usize) * 16 + (lx as usize)
}

/// Periodicity of the chunk mapping: moving one full chunk width along
/// an axis moves the chunk coordinate by exactly one, for every integer
/// world coordinate.
pub proof fn lemma_chunk_coord_period(a: int)
    ensures
        chunk_coord(a + 16) == chunk_coord(a) + 1,
{
    lemma_fundamental_div_mod(a, 16);
    lemma_mod_division_less_than_divisor(a, 16);
    lemma_fundamental_div_mod_converse_div(a + 16, 16, a / 16 + 1, a % 16);
}

/// The local coordinate always lies in [0, 16), for every integer world
/// coordinate, negative inputs included.
pub proof fn lemma_local_coord_range(a: int)
    ensures
        0 <= local_coord(a) < 16,
{
    lemma_mod_division_less_than_divisor(a, 16);
}

/// A column number below 256 splits uniquely into its local (x, z)
/// pair: `lz * 16 + lx` has remainder `lx` and quotient `lz` by 16.
pub proof fn lemma_column_split(lx: int, lz: int)
    requires
        0 <= lx < 16,
        0 <= lz < 16,
    ensures
        0 <= lz * 16 + lx < 256,
        (lz * 16 + lx) % 16 == lx,
        (lz * 16 + lx) / 16 == lz,
{
    lemma_fundamental_div_mod_converse_div(lz * 16 + lx, 16, lz, lx);
    lemma_fundamental_div_mod_converse_mod(lz * 16 + lx, 16, lz, lx);
}

/// A flat block index below 65536 splits uniquely into its height and
/// its column number: `y * 256 + col` has remainder `col` and quotient
/// `y` by 256.
pub proof fn lemma_flat_split(y: int, col: int)
    requires
        0 <= y < 256,
        0 <= col < 256,
    ensures
        0 <= y * 256 + col < 65536,
        (y * 256 + col) % 256 == col,
        (y * 256 + col) / 256 == y,
{
    lemma_fundamental_div_mod_converse_div(y * 256 + col, 256, y, col);
    lemma_fundamental_div_mod_converse_mod(y * 256 + col, 256, y, col);
}

/// A world coordinate is recovered exactly from its chunk and local
/// coordinates, so the pair (chunk_coord, local_coord) loses nothing.
pub proof fn lemma_coord_roundtrip(a: int)
    ensures
        16 * chunk_coord(a) + local_coord(a) == a,
{
    lemma_fundamental_div_mod(a, 16);
}

} // verus!
