//! The chunk store: owns the cached chunks of one world, serves block
//! and chunk lookups, triggers terrain synthesis on miss, tracks unsaved
//! mutations and reclaims stale unmodified chunks under a capacity
//! budget.
//!
//! Time enters every operation as an explicit caller-supplied clock
//! reading (`now`, in seconds), so eviction staleness and access
//! stamping are part of the verified logic rather than an ambient
//! effect.

use vstd::prelude::*;
use vstd::arithmetic::div_mod::lemma_fundamental_div_mod_converse;
use crate::chunk::{block_for_height, generated_chunk, Chunk};
use crate::coords::{
    block_index, chunk_coord, chunk_of, flat_index, lemma_column_split, lemma_flat_split,
    local_coord, local_of, BLOCKS_PER_CHUNK,
};
use crate::persistence::PersistenceSink;
use crate::terrain::TerrainSource;

verus! {

/// A pure aggregate snapshot of the chunk store.
#[derive(Debug, Clone, Copy, PartialEq, Eq, Structural)]
pub struct ChunkStats {
    pub total_chunks: usize,
    pub modified_chunks: usize,
    pub generated_chunks: usize,
    pub max_cached_chunks: usize,
}

/// Signalled when a caller passes a vertical coordinate outside
/// [0, 256): a contract violation by the caller, distinguished from the
/// silent no-op of writing into an unloaded chunk.
#[derive(Debug, PartialEq, Eq, Structural)]
pub enum BlockError {
    InvalidCoordinate,
}

/// True when chunk `c` is the cache entry for chunk coordinate
/// (cx, cz).
pub open spec fn at_coord(c: Chunk, cx: int, cz: int) -> bool {
    c.x == cx && c.z == cz
}

/// Chunk coordinates whose world coordinates all fit in a signed 32-bit
/// block coordinate; terrain can only be queried inside this square.
pub open spec fn chunk_in_range(c: int) -> bool {
    -134217728 <= c <= 134217727
}

/// Every chunk of the cache sequence is well formed.
pub open spec fn chunks_wf(s: Seq<Chunk>) -> bool {
    forall|i: int| 0 <= i < s.len() ==> (#[trigger] s[i]).wf()
}

/// No two entries of the cache sequence share a chunk coordinate.
pub open spec fn coords_unique(s: Seq<Chunk>) -> bool {
    forall|i: int, j: int|
        0 <= i < j < s.len() ==> !at_coord(#[trigger] s[i], #[trigger] s[j].x as int, s[j].z as int)
}

/// A chunk the eviction sweeper retains: one carrying unsaved
/// mutations (never evicted, whatever its age), or one accessed within
/// the staleness bound.
pub open spec fn keep_chunk(c: Chunk, now: u64, ttl: u64) -> bool {
    c.is_modified || c.last_accessed + ttl >= now
}

/// The cache after an eviction sweep at time `now`: untouched while the
/// capacity budget is not exceeded; otherwise exactly the stale
/// unmodified chunks are dropped, in place, preserving order. The sweep
/// gives no capacity guarantee: if every chunk is modified or fresh,
/// nothing is removed.
pub open spec fn swept(s: Seq<Chunk>, now: u64, ttl: u64, max: int) -> Seq<Chunk> {
    if s.len() <= max {
        s
    } else {
        s.filter(|c: Chunk| keep_chunk(c, now, ttl))
    }
}

/// A cache-hit refresh of entry `i`: every other entry is untouched,
/// and entry `i` keeps its exact content while its access stamp becomes
/// `now`.
pub open spec fn refreshed_at(pre: Seq<Chunk>, post: Seq<Chunk>, i: int, now: u64) -> bool {
    &&& post.len() == pre.len()
    &&& forall|j: int| 0 <= j < pre.len() && j != i ==> post[j] == #[trigger] pre[j]
    &&& post[i].same_content(pre[i])
    &&& post[i].last_accessed == now
}

/// Filtering the empty cache leaves it empty.
proof fn lemma_filter_empty(pred: spec_fn(Chunk) -> bool)
    ensures
        Seq::<Chunk>::empty().filter(pred) == Seq::<Chunk>::empty(),
{
    reveal(Seq::filter);
}

/// Filtering a one-chunk sequence keeps or drops that one chunk.
proof fn lemma_filter_singleton(c: Chunk, pred: spec_fn(Chunk) -> bool)
    ensures
        pred(c) ==> seq![c].filter(pred) == seq![c],
        !pred(c) ==> seq![c].filter(pred) == Seq::<Chunk>::empty(),
{
    reveal(Seq::filter);
    let s = seq![c];
    assert(s.drop_last() =~= Seq::<Chunk>::empty());
    lemma_filter_empty(pred);
    assert(s.last() == c);
    if pred(c) {
        assert(s.filter(pred) =~= seq![c]);
    }
}

/// Removing one entry preserves well-formedness and coordinate
/// uniqueness of the cache sequence.
proof fn lemma_invariants_after_remove(s: Seq<Chunk>, i: int)
    requires
        0 <= i < s.len(),
        chunks_wf(s),
        coords_unique(s),
    ensures
        chunks_wf(s.remove(i)),
        coords_unique(s.remove(i)),
{
    s.remove_ensures(i);
    let t = s.remove(i);
    assert forall|j: int| 0 <= j < t.len() implies (#[trigger] t[j]).wf() by {
        if j < i {
            assert(t[j] == s[j]);
        } else {
            assert(t[j] == s[j + 1]);
        }
    }
    assert forall|j: int, k: int|
        0 <= j < k < t.len() implies !at_coord(#[trigger] t[j], #[trigger] t[k].x as int,
    t[k].z as int) by {
        let j2: int = if j < i {
            j
        } else {
            j + 1
        };
        let k2: int = if k < i {
            k
        } else {
            k + 1
        };
        assert(t[j] == s[j2]);
        assert(t[k] == s[k2]);
        assert(!at_coord(s[j2], s[k2].x as int, s[k2].z as int));
    }
}

/// How many cached chunks carry unsaved mutations.
pub open spec fn count_modified(s: Seq<Chunk>) -> int
    decreases s.len(),
{
    if s.len() == 0 {
        0
    } else {
        count_modified(s.drop_last()) + if s.last().is_modified {
            1int
        } else {
            0int
        }
    }
}

/// How many cached chunks have completed terrain synthesis.
pub open spec fn count_generated(s: Seq<Chunk>) -> int
    decreases s.len(),
{
    if s.len() == 0 {
        0
    } else {
        count_generated(s.drop_last()) + if s.last().is_generated {
            1int
        } else {
            0int
        }
    }
}

/// True when the terrain source answers a height for every one of the
/// 256 columns of chunk (cx, cz).
pub open spec fn terrain_defined<T: TerrainSource>(t: T, cx: int, cz: int) -> bool {
    forall|lx: int, lz: int|
        0 <= lx < 16 && 0 <= lz < 16 ==> (#[trigger] t.height_spec(cx * 16 + lx, cz * 16 + lz))
            is Some
}

/// The height map the terrain source assigns to chunk (cx, cz): one
/// entry per column, at column number `lz * 16 + lx`.
pub open spec fn terrain_heights<T: TerrainSource>(t: T, cx: int, cz: int) -> Seq<u8> {
    Seq::new(256, |col: int| t.height_spec(cx * 16 + col % 16, cz * 16 + col / 16)->0)
}

/// A persistence pass over the cache: every entry keeps its identity,
/// content and access stamp; the modified flag is only ever cleared,
/// never set; and an entry without unsaved mutations is left entirely
/// untouched.
pub open spec fn flush_applied(pre: Seq<Chunk>, post: Seq<Chunk>) -> bool {
    &&& post.len() == pre.len()
    &&& forall|i: int|
        0 <= i < pre.len() ==> {
            &&& (#[trigger] post[i]).x == pre[i].x
            &&& post[i].z == pre[i].z
            &&& post[i].blocks == pre[i].blocks
            &&& post[i].metadata == pre[i].metadata
            &&& post[i].light == pre[i].light
            &&& post[i].height_map == pre[i].height_map
            &&& post[i].is_generated == pre[i].is_generated
            &&& post[i].last_accessed == pre[i].last_accessed
            &&& (post[i].is_modified ==> pre[i].is_modified)
            &&& (!pre[i].is_modified ==> post[i] == pre[i])
        }
}

/// Extending a prefix by one entry adds that entry's modified flag to
/// the count.
proof fn lemma_count_modified_step(s: Seq<Chunk>, i: int)
    requires
        0 <= i < s.len(),
    ensures
        count_modified(s.subrange(0, i + 1)) == count_modified(s.subrange(0, i)) + if s[
            i
        ].is_modified {
            1int
        } else {
            0int
        },
{
    assert(s.subrange(0, i + 1).drop_last() =~= s.subrange(0, i));
    assert(s.subrange(0, i + 1).last() == s[i]);
}

/// Extending a prefix by one entry adds that entry's generated flag to
/// the count.
proof fn lemma_count_generated_step(s: Seq<Chunk>, i: int)
    requires
        0 <= i < s.len(),
    ensures
        count_generated(s.subrange(0, i + 1)) == count_generated(s.subrange(0, i)) + if s[
            i
        ].is_generated {
            1int
        } else {
            0int
        },
{
    assert(s.subrange(0, i + 1).drop_last() =~= s.subrange(0, i));
    assert(s.subrange(0, i + 1).last() == s[i]);
}

/// The modified count lies between zero and the cache size.
pub proof fn lemma_count_modified_bounds(s: Seq<Chunk>)
    ensures
        0 <= count_modified(s) <= s.len(),
    decreases s.len(),
{
    if s.len() > 0 {
        lemma_count_modified_bounds(s.drop_last());
    }
}

/// A cache with a zero modified count has no modified entry at all.
pub proof fn lemma_count_modified_zero(s: Seq<Chunk>)
    requires
        count_modified(s) == 0,
    ensures
        forall|i: int| 0 <= i < s.len() ==> !(#[trigger] s[i]).is_modified,
    decreases s.len(),
{
    if s.len() > 0 {
        lemma_count_modified_bounds(s.drop_last());
        lemma_count_modified_zero(s.drop_last());
        assert forall|i: int| 0 <= i < s.len() implies !(#[trigger] s[i]).is_modified by {
            if i < s.len() - 1 {
                assert(s[i] == s.drop_last()[i]);
            } else {
                assert(s[i] == s.last());
            }
        }
    }
}

/// A cache entry freshly stamped `now` survives one successful chunk
/// fetch at the same instant, whatever that fetch did: a hit only
/// restamps one entry, and the sweep after an insert never drops an
/// entry whose access stamp is current.
proof fn lemma_fresh_survives_get<T: TerrainSource>(
    pre: ChunkManager<T>,
    post: ChunkManager<T>,
    x: int,
    z: int,
    now: u64,
    a: int,
    b: int,
)
    requires
        pre.wf(),
        post.wf(),
        pre.has_chunk(a, b),
        pre.chunk_at(a, b).last_accessed == now,
        (pre.has_chunk(x, z) && refreshed_at(
            pre.chunks@,
            post.chunks@,
            pre.chunk_index(x, z),
            now,
        )) || (!pre.has_chunk(x, z) && post.chunks@ == swept(
            pre.chunks@.push(post.chunk_at(x, z)),
            now,
            pre.ttl_seconds,
            pre.max_cached_chunks as int,
        )),
    ensures
        post.has_chunk(a, b),
        post.chunk_at(a, b).last_accessed == now,
{
    let k = pre.chunk_index(a, b);
    assert(at_coord(pre.chunks@[k], a, b));
    if pre.has_chunk(x, z) {
        let i = pre.chunk_index(x, z);
        if k == i {
            assert(post.chunks@[k].same_content(pre.chunks@[k]));
            assert(at_coord(post.chunks@[k], a, b));
        } else {
            assert(post.chunks@[k] == pre.chunks@[k]);
        }
        assert(post.has_chunk(a, b));
        let j = post.chunk_index(a, b);
        assert(at_coord(post.chunks@[j], a, b));
        if j != k {
            if j < k {
                assert(!at_coord(post.chunks@[j], post.chunks@[k].x as int,
                    post.chunks@[k].z as int));
            } else {
                assert(!at_coord(post.chunks@[k], post.chunks@[j].x as int,
                    post.chunks@[j].z as int));
            }
        }
    } else {
        let pushed = pre.chunks@.push(post.chunk_at(x, z));
        assert(pushed[k] == pre.chunks@[k]);
        assert(keep_chunk(pushed[k], now, pre.ttl_seconds));
        let surviving: Chunk = pushed[k];
        if pushed.len() <= pre.max_cached_chunks {
            assert(post.chunks@ == pushed);
            assert(post.chunks@[k] == surviving);
            assert(at_coord(post.chunks@[k], a, b));
            assert(post.has_chunk(a, b));
        } else {
            broadcast use vstd::seq_lib::group_filter_ensures;

            let pred = |c: Chunk| keep_chunk(c, now, pre.ttl_seconds);
            assert(post.chunks@ == pushed.filter(pred));
            assert(pred(pushed[k]));
            assert(pushed.filter(pred).contains(surviving));
            let j = choose|j: int| 0 <= j < post.chunks@.len() && post.chunks@[j] == surviving;
            assert(at_coord(post.chunks@[j], a, b));
            assert(post.has_chunk(a, b));
        }
        let j2 = post.chunk_index(a, b);
        assert(at_coord(post.chunks@[j2], a, b));
        let jw = choose|jw: int| 0 <= jw < post.chunks@.len() && post.chunks@[jw] == surviving;
        assert(post.chunks@[jw] == surviving || post.chunks@ == pushed);
        let j1: int = if pushed.len() <= pre.max_cached_chunks {
            k
        } else {
            jw
        };
        assert(post.chunks@[j1] == surviving);
        if j2 != j1 {
            if j2 < j1 {
                assert(!at_coord(post.chunks@[j2], post.chunks@[j1].x as int,
                    post.chunks@[j1].z as int));
            } else {
                assert(!at_coord(post.chunks@[j1], post.chunks@[j2].x as int,
                    post.chunks@[j2].z as int));
            }
        }
        assert(post.chunk_at(a, b) == surviving);
    }
}

/// The owner of all cached chunks of one world. `chunks` holds at most
/// one entry per chunk coordinate; `load_distance` is the radius of a
/// view query in chunks; `max_cached_chunks` is the eviction trigger
/// threshold and `ttl_seconds` the staleness bound of the sweeper.
pub struct ChunkManager<T: TerrainSource> {
    pub chunks: Vec<Chunk>,
    pub load_distance: i32,
    pub terrain: T,
    pub max_cached_chunks: usize,
    pub ttl_seconds: u64,
}

impl<T: TerrainSource> ChunkManager<T> {
    /// Store invariant: every cached chunk is well formed and no two
    /// entries share a chunk coordinate.
    pub open spec fn wf(self) -> bool {
        &&& chunks_wf(self.chunks@)
        &&& coords_unique(self.chunks@)
    }

    /// Whether a chunk for coordinate (cx, cz) is currently cached.
    pub open spec fn has_chunk(self, cx: int, cz: int) -> bool {
        exists|i: int|
            0 <= i < self.chunks@.len() && #[trigger] at_coord(self.chunks@[i], cx, cz)
    }

    /// The cache index of the chunk for (cx, cz); meaningful only when
    /// `has_chunk(cx, cz)` holds (the entry is unique by `wf`).
    pub open spec fn chunk_index(self, cx: int, cz: int) -> int {
        choose|i: int|
            0 <= i < self.chunks@.len() && #[trigger] at_coord(self.chunks@[i], cx, cz)
    }

    /// The cached chunk for (cx, cz); meaningful only when
    /// `has_chunk(cx, cz)` holds.
    pub open spec fn chunk_at(self, cx: int, cz: int) -> Chunk {
        self.chunks@[self.chunk_index(cx, cz)]
    }

    /// The tuning parameters and the terrain collaborator of `post` are
    /// those of `pre`: an operation moved only the cache.
    pub open spec fn same_config(pre: Self, post: Self) -> bool {
        &&& post.load_distance == pre.load_distance
        &&& post.terrain == pre.terrain
        &&& post.max_cached_chunks == pre.max_cached_chunks
        &&& post.ttl_seconds == pre.ttl_seconds
    }

    /// The block value the store would answer for world position
    /// (x, y, z): the stored byte when the owning chunk is cached and y
    /// is in range, and nothing otherwise. Reads never trigger
    /// generation.
    pub open spec fn read_block_spec(self, x: int, y: int, z: int) -> Option<u8> {
        let cx = chunk_coord(x);
        let cz = chunk_coord(z);
        if self.has_chunk(cx, cz) && 0 <= y < 256 {
            Some(self.chunk_at(cx, cz).blocks@[flat_index(local_coord(x), y, local_coord(z))])
        } else {
            None
        }
    }

    /// Creates an empty store around a terrain collaborator, with the
    /// reference capacity of 1000 cached chunks and a 300 second
    /// staleness bound.
    pub fn new(load_distance: i32, terrain: T) -> (r: ChunkManager<T>)
        ensures
            r.wf(),
            r.chunks@.len() == 0,
            r.load_distance == load_distance,
            r.terrain == terrain,
            r.max_cached_chunks == 1000,
            r.ttl_seconds == 300,
    {
        ChunkManager {
            chunks: Vec::new(),
            load_distance,
            terrain,
            max_cached_chunks: 1000,
            ttl_seconds: 300,
        }
    }

    /// Creates an empty store with explicit capacity and staleness
    /// configuration (`maxCachedChunks` and `chunkTtlSeconds`).
    pub fn with_limits(
        load_distance: i32,
        terrain: T,
        max_cached_chunks: usize,
        ttl_seconds: u64,
    ) -> (r: ChunkManager<T>)
        ensures
            r.wf(),
            r.chunks@.len() == 0,
            r.load_distance == load_distance,
            r.terrain == terrain,
            r.max_cached_chunks == max_cached_chunks,
            r.ttl_seconds == ttl_seconds,
    {
        ChunkManager { chunks: Vec::new(), load_distance, terrain, max_cached_chunks, ttl_seconds }
    }

    /// Linear scan for the cache entry of chunk coordinate (cx, cz).
    fn find_chunk(&self, cx: i32, cz: i32) -> (r: Option<usize>)
        requires
            self.wf(),
        ensures
            match r {
                Some(i) => {
                    &&& i < self.chunks@.len()
                    &&& at_coord(self.chunks@[i as int], cx as int, cz as int)
                    &&& self.has_chunk(cx as int, cz as int)
                    &&& i as int == self.chunk_index(cx as int, cz as int)
                },
                None => !self.has_chunk(cx as int, cz as int),
            },
    {
        let n = self.chunks.len();
        let mut i: usize = 0;
        while i < n
            invariant
                self.wf(),
                n == self.chunks@.len(),
                i <= n,
                forall|j: int| 0 <= j < i ==> !at_coord(#[trigger] self.chunks@[j], cx as int, cz as int),
            decreases n - i,
        {
            let c = &self.chunks[i];
            if c.x == cx && c.z == cz {
                proof {
                    assert(at_coord(self.chunks@[i as int], cx as int, cz as int));
                    let j = self.chunk_index(cx as int, cz as int);
                    if j != i as int {
                        if j < i as int {
                            assert(!at_coord(self.chunks@[j], self.chunks@[i as int].x as int,
                                self.chunks@[i as int].z as int));
                        } else {
                            assert(!at_coord(self.chunks@[i as int], self.chunks@[j].x as int,
                                self.chunks@[j].z as int));
                        }
                    }
                }
                return Some(i);
            }
            i += 1;
        }
        None
    }

    /// The deterministic height-threshold rule of terrain synthesis: the
    /// block type at height `y` in a column whose surface is at
    /// `max_height`.
    pub fn get_block_type_for_height(&self, y: i32, max_height: i32) -> (b: u8)
        ensures
            b == block_for_height(y as int, max_height as int),
    {
        if y == 0 {
            7
        } else if (y as i64) < (max_height as i64) - 4 {
            1
        } else if y < max_height {
            3
        } else if y == max_height {
            2
        } else {
            0
        }
    }

    /// The effect of a block write at world position (x, y, z) on the
    /// store: when the owning chunk is not cached the store is
    /// untouched (a write never loads or generates); otherwise exactly
    /// the addressed byte of that chunk changes, its modified flag is
    /// set and its access stamp becomes `now`, while every other cache
    /// entry is untouched.
    pub open spec fn write_applied(
        pre: Self,
        post: Self,
        x: int,
        y: int,
        z: int,
        block_id: u8,
        now: u64,
    ) -> bool {
        let cx = chunk_coord(x);
        let cz = chunk_coord(z);
        if !pre.has_chunk(cx, cz) {
            post == pre
        } else {
            let i = pre.chunk_index(cx, cz);
            let c = pre.chunks@[i];
            let idx = flat_index(local_coord(x), y, local_coord(z));
            &&& Self::same_config(pre, post)
            &&& post.chunks@.len() == pre.chunks@.len()
            &&& forall|j: int|
                0 <= j < pre.chunks@.len() && j != i ==> post.chunks@[j] == #[trigger] pre.chunks@[j]
            &&& post.chunks@[i].x == c.x
            &&& post.chunks@[i].z == c.z
            &&& post.chunks@[i].blocks@ == c.blocks@.update(idx, block_id)
            &&& post.chunks@[i].metadata == c.metadata
            &&& post.chunks@[i].light == c.light
            &&& post.chunks@[i].height_map == c.height_map
            &&& post.chunks@[i].is_generated == c.is_generated
            &&& post.chunks@[i].is_modified
            &&& post.chunks@[i].last_accessed == now
        }
    }

    /// Writes `block_id` at world position (x, y, z) if and only if the
    /// owning chunk is already cached; an uncached chunk makes the write
    /// a silent no-op, by policy. A vertical coordinate outside
    /// [0, 256) is rejected as `InvalidCoordinate` and changes nothing.
    pub fn set_block(&mut self, x: i32, y: i32, z: i32, block_id: u8, now: u64) -> (r: Result<
        (),
        BlockError,
    >)
        requires
            old(self).wf(),
        ensures
            final(self).wf(),
            match r {
                Ok(()) => 0 <= y < 256 && Self::write_applied(
                    *old(self),
                    *final(self),
                    x as int,
                    y as int,
                    z as int,
                    block_id,
                    now,
                ),
                Err(e) => e == BlockError::InvalidCoordinate && !(0 <= y < 256) && *final(self)
                    == *old(self),
            },
    {
        if y < 0 || y >= 256 {
            return Err(BlockError::InvalidCoordinate);
        }
        let (cx, cz) = chunk_of(x, z);
        let (lx, lz) = local_of(x, z);
        match self.find_chunk(cx, cz) {
            None => Ok(()),
            Some(i) => {
                let ghost pre = *self;
                let idx = block_index(lx, y, lz);
                self.chunks[i].blocks[idx] = block_id;
                self.chunks[i].is_modified = true;
                self.chunks[i].last_accessed = now;
                proof {
                    assert forall|j: int| 0 <= j < self.chunks@.len() implies (
                    #[trigger] self.chunks@[j]).wf() by {
                        assert(pre.chunks@[j].wf());
                    }
                    assert forall|j: int, k: int|
                        0 <= j < k < self.chunks@.len() implies !at_coord(
                        #[trigger] self.chunks@[j],
                        #[trigger] self.chunks@[k].x as int,
                        self.chunks@[k].z as int,
                    ) by {
                        assert(!at_coord(pre.chunks@[j], pre.chunks@[k].x as int,
                            pre.chunks@[k].z as int));
                    }
                }
                Ok(())
            },
        }
    }

    /// Synthesizes the full chunk at chunk coordinate (x, z) by querying
    /// the terrain collaborator for each of the 256 columns and filling
    /// every block by the height-threshold rule; light starts at full
    /// illumination, metadata at zero. Fails, producing nothing, exactly
    /// when some column's height query fails; generation is
    /// deterministic for a fixed terrain source.
    pub fn generate_chunk(&self, x: i32, z: i32, now: u64) -> (r: Option<Chunk>)
        requires
            chunk_in_range(x as int),
            chunk_in_range(z as int),
        ensures
            match r {
                Some(c) => terrain_defined(self.terrain, x as int, z as int) && generated_chunk(
                    c,
                    x as int,
                    z as int,
                    terrain_heights(self.terrain, x as int, z as int),
                    now,
                ),
                None => !terrain_defined(self.terrain, x as int, z as int),
            },
    {
        let mut height_map: Vec<u8> = Vec::new();
        let mut lz: usize = 0;
        while lz < 16
            invariant
                chunk_in_range(x as int),
                chunk_in_range(z as int),
                lz <= 16,
                height_map@.len() == lz * 16,
                forall|col: int|
                    0 <= col < height_map@.len() ==> {
                        &&& (#[trigger] self.terrain.height_spec(
                            x * 16 + col % 16,
                            z * 16 + col / 16,
                        )) is Some
                        &&& height_map@[col] == self.terrain.height_spec(
                            x * 16 + col % 16,
                            z * 16 + col / 16,
                        )->0
                    },
            decreases 16 - lz,
        {
            let mut lx: usize = 0;
            while lx < 16
                invariant
                    chunk_in_range(x as int),
                    chunk_in_range(z as int),
                    lz < 16,
                    lx <= 16,
                    height_map@.len() == lz * 16 + lx,
                    forall|col: int|
                        0 <= col < height_map@.len() ==> {
                            &&& (#[trigger] self.terrain.height_spec(
                                x * 16 + col % 16,
                                z * 16 + col / 16,
                            )) is Some
                            &&& height_map@[col] == self.terrain.height_spec(
                                x * 16 + col % 16,
                                z * 16 + col / 16,
                            )->0
                        },
                decreases 16 - lx,
            {
                let wx: i32 = ((x as i64) * 16 + lx as i64) as i32;
                let wz: i32 = ((z as i64) * 16 + lz as i64) as i32;
                match self.terrain.height(wx, wz) {
                    Some(h) => {
                        proof {
                            lemma_column_split(lx as int, lz as int);
                        }
                        height_map.push(h);
                    },
                    None => {
                        proof {
                            assert(!(self.terrain.height_spec(
                                x as int * 16 + lx as int,
                                z as int * 16 + lz as int,
                            ) is Some));
                        }
                        return None;
                    },
                }
                lx += 1;
            }
            lz += 1;
        }
        let mut metadata: Vec<u8> = Vec::new();
        let mut light: Vec<u8> = Vec::new();
        let mut i: usize = 0;
        while i < 65536
            invariant
                i <= 65536,
                metadata@.len() == i,
                light@.len() == i,
                forall|j: int| 0 <= j < i ==> #[trigger] metadata@[j] == 0,
                forall|j: int| 0 <= j < i ==> #[trigger] light@[j] == 15,
            decreases 65536 - i,
        {
            metadata.push(0);
            light.push(15);
            i += 1;
        }
        let mut blocks: Vec<u8> = Vec::new();
        let mut y: usize = 0;
        while y < 256
            invariant
                height_map@.len() == 256,
                y <= 256,
                blocks@.len() == y * 256,
                forall|k: int|
                    0 <= k < blocks@.len() ==> #[trigger] blocks@[k] == block_for_height(
                        k / 256,
                        height_map@[k % 256] as int,
                    ),
            decreases 256 - y,
        {
            let mut col: usize = 0;
            while col < 256
                invariant
                    height_map@.len() == 256,
                    y < 256,
                    col <= 256,
                    blocks@.len() == y * 256 + col,
                    forall|k: int|
                        0 <= k < blocks@.len() ==> #[trigger] blocks@[k] == block_for_height(
                            k / 256,
                            height_map@[k % 256] as int,
                        ),
                decreases 256 - col,
            {
                let h = height_map[col];
                let b = self.get_block_type_for_height(y as i32, h as i32);
                proof {
                    lemma_flat_split(y as int, col as int);
                }
                blocks.push(b);
                col += 1;
            }
            y += 1;
        }
        let c = Chunk {
            x,
            z,
            blocks,
            metadata,
            light,
            height_map,
            is_generated: true,
            is_modified: false,
            last_accessed: now,
        };
        proof {
            let cx = x as int;
            let cz = z as int;
            assert forall|lxi: int, lzi: int| 0 <= lxi < 16 && 0 <= lzi < 16 implies (
            #[trigger] self.terrain.height_spec(cx * 16 + lxi, cz * 16 + lzi)) is Some by {
                lemma_column_split(lxi, lzi);
            }
            assert(c.height_map@ =~= terrain_heights(self.terrain, cx, cz));
            assert forall|lxi: int, yi: int, lzi: int|
                0 <= lxi < 16 && 0 <= yi < 256 && 0 <= lzi < 16 implies c.blocks@[flat_index(
                lxi,
                yi,
                lzi,
            )] == block_for_height(yi, c.height_map@[lzi * 16 + lxi] as int) by {
                lemma_column_split(lxi, lzi);
                lemma_flat_split(yi, lzi * 16 + lxi);
                assert(flat_index(lxi, yi, lzi) == yi * 256 + (lzi * 16 + lxi));
            }
        }
        Some(c)
    }

    /// Serves the chunk at chunk coordinate (x, z) at time `now`: the
    /// cached chunk when present (refreshing its access stamp and
    /// changing nothing else), otherwise a freshly synthesized chunk
    /// that is inserted into the cache before an eviction sweep runs.
    /// The caller receives a copy whose content is bitwise that of the
    /// cache entry. Fails, caching nothing and changing nothing, exactly
    /// when the chunk was absent and some column's height query failed,
    /// so a later retry is possible.
    pub fn get_chunk(&mut self, x: i32, z: i32, now: u64) -> (r: Option<Chunk>)
        requires
            old(self).wf(),
            chunk_in_range(x as int),
            chunk_in_range(z as int),
        ensures
            final(self).wf(),
            Self::same_config(*old(self), *final(self)),
            match r {
                Some(c) => {
                    &&& c.wf()
                    &&& at_coord(c, x as int, z as int)
                    &&& c.last_accessed == now
                    &&& final(self).has_chunk(x as int, z as int)
                    &&& final(self).chunk_at(x as int, z as int).same_content(c)
                    &&& final(self).chunk_at(x as int, z as int).last_accessed == now
                    &&& if old(self).has_chunk(x as int, z as int) {
                        &&& c.same_content(old(self).chunk_at(x as int, z as int))
                        &&& refreshed_at(
                            old(self).chunks@,
                            final(self).chunks@,
                            old(self).chunk_index(x as int, z as int),
                            now,
                        )
                    } else {
                        &&& terrain_defined(old(self).terrain, x as int, z as int)
                        &&& generated_chunk(
                            c,
                            x as int,
                            z as int,
                            terrain_heights(old(self).terrain, x as int, z as int),
                            now,
                        )
                        &&& final(self).chunks@ == swept(
                            old(self).chunks@.push(final(self).chunk_at(x as int, z as int)),
                            now,
                            old(self).ttl_seconds,
                            old(self).max_cached_chunks as int,
                        )
                    }
                },
                None => {
                    &&& !old(self).has_chunk(x as int, z as int)
                    &&& !terrain_defined(old(self).terrain, x as int, z as int)
                    &&& *final(self) == *old(self)
                },
            },
    {
        match self.find_chunk(x, z) {
            Some(i) => {
                let ghost pre = *self;
                self.chunks[i].last_accessed = now;
                let c = self.chunks[i].clone();
                proof {
                    assert forall|j: int| 0 <= j < self.chunks@.len() implies (
                    #[trigger] self.chunks@[j]).wf() by {
                        assert(pre.chunks@[j].wf());
                    }
                    assert forall|j: int, k: int|
                        0 <= j < k < self.chunks@.len() implies !at_coord(
                        #[trigger] self.chunks@[j],
                        #[trigger] self.chunks@[k].x as int,
                        self.chunks@[k].z as int,
                    ) by {
                        assert(!at_coord(pre.chunks@[j], pre.chunks@[k].x as int,
                            pre.chunks@[k].z as int));
                    }
                    assert(at_coord(self.chunks@[i as int], x as int, z as int));
                    let j = self.chunk_index(x as int, z as int);
                    if j != i as int {
                        if j < i as int {
                            assert(!at_coord(self.chunks@[j], self.chunks@[i as int].x as int,
                                self.chunks@[i as int].z as int));
                        } else {
                            assert(!at_coord(self.chunks@[i as int], self.chunks@[j].x as int,
                                self.chunks@[j].z as int));
                        }
                    }
                    assert(self.chunk_at(x as int, z as int) == self.chunks@[i as int]);
                }
                Some(c)
            },
            None => {
                match self.generate_chunk(x, z, now) {
                    None => None,
                    Some(cnew) => {
                        let ret = cnew.clone();
                        let ghost pre = *self;
                        let ghost pushed = self.chunks@.push(cnew);
                        self.chunks.push(cnew);
                        proof {
                            assert forall|j: int| 0 <= j < pushed.len() implies (
                            #[trigger] pushed[j]).wf() by {
                                if j < pushed.len() - 1 {
                                    assert(pre.chunks@[j].wf());
                                }
                            }
                            assert forall|j: int, k: int|
                                0 <= j < k < pushed.len() implies !at_coord(
                                #[trigger] pushed[j],
                                #[trigger] pushed[k].x as int,
                                pushed[k].z as int,
                            ) by {
                                if k < pushed.len() - 1 {
                                    assert(!at_coord(pre.chunks@[j], pre.chunks@[k].x as int,
                                        pre.chunks@[k].z as int));
                                } else {
                                    assert(pushed[k] == cnew);
                                    assert(pushed[j] == pre.chunks@[j]);
                                    if at_coord(pre.chunks@[j], x as int, z as int) {
                                        assert(pre.has_chunk(x as int, z as int));
                                    }
                                }
                            }
                        }
                        self.cleanup_old_chunks(now);
                        proof {
                            let ghost ttl = pre.ttl_seconds;
                            let ghost maxc = pre.max_cached_chunks as int;
                            let ghost pred = |c: Chunk| keep_chunk(c, now, ttl);
                            // the fresh chunk survives the sweep: it was just accessed
                            if pushed.len() > maxc {
                                broadcast use vstd::seq_lib::group_filter_ensures;

                                assert(pred(cnew));
                                assert(pushed[pushed.len() - 1] == cnew);
                                assert(pushed.filter(pred).contains(cnew));
                            } else {
                                assert(self.chunks@ == pushed);
                                assert(self.chunks@[pushed.len() - 1] == cnew);
                            }
                            let k = choose|k: int|
                                0 <= k < self.chunks@.len() && self.chunks@[k] == cnew;
                            assert(at_coord(self.chunks@[k], x as int, z as int));
                            assert(self.has_chunk(x as int, z as int));
                            let j = self.chunk_index(x as int, z as int);
                            if j != k {
                                if j < k {
                                    assert(!at_coord(self.chunks@[j], self.chunks@[k].x as int,
                                        self.chunks@[k].z as int));
                                } else {
                                    assert(!at_coord(self.chunks@[k], self.chunks@[j].x as int,
                                        self.chunks@[j].z as int));
                                }
                            }
                            assert(self.chunk_at(x as int, z as int) == cnew);
                        }
                        Some(ret)
                    },
                }
            },
        }
    }

    /// An eviction sweep at time `now`: while the cache is within its
    /// capacity budget it is left untouched; otherwise every chunk that
    /// is both unmodified and stale (not accessed for longer than the
    /// staleness bound) is removed, in place. Modified chunks are never
    /// evicted, whatever their age: they must be persisted first. The
    /// sweep is best-effort: it does not promise to bring the cache
    /// back under the budget.
    pub fn cleanup_old_chunks(&mut self, now: u64)
        requires
            old(self).wf(),
        ensures
            final(self).wf(),
            Self::same_config(*old(self), *final(self)),
            final(self).chunks@ == swept(
                old(self).chunks@,
                now,
                old(self).ttl_seconds,
                old(self).max_cached_chunks as int,
            ),
    {
        if self.chunks.len() <= self.max_cached_chunks {
            return;
        }
        let ghost s = self.chunks@;
        let ghost n = s.len() as int;
        let ghost ttl = self.ttl_seconds;
        let ghost pred = |c: Chunk| keep_chunk(c, now, ttl);
        let mut i: usize = self.chunks.len();
        proof {
            lemma_filter_empty(pred);
            assert(s.subrange(i as int, n) =~= Seq::<Chunk>::empty());
            assert(s.subrange(0, i as int) =~= s);
            assert(self.chunks@ =~= s.subrange(0, i as int) + s.subrange(i as int, n).filter(
                pred,
            ));
        }
        while i > 0
            invariant
                i <= n,
                n == s.len(),
                chunks_wf(s),
                coords_unique(s),
                self.wf(),
                self.ttl_seconds == ttl,
                pred == (|c: Chunk| keep_chunk(c, now, ttl)),
                self.load_distance == old(self).load_distance,
                self.terrain == old(self).terrain,
                self.max_cached_chunks == old(self).max_cached_chunks,
                self.chunks@ == s.subrange(0, i as int) + s.subrange(i as int, n).filter(pred),
            decreases i,
        {
            i -= 1;
            let ghost i0 = i as int + 1;
            let keep: bool = {
                let c = &self.chunks[i];
                c.is_modified || c.last_accessed >= now || now - c.last_accessed
                    <= self.ttl_seconds
            };
            proof {
                assert(self.chunks@[i as int] == s[i as int]);
                let cc = s[i as int];
                assert(pred(cc) == keep_chunk(cc, now, ttl));
                if cc.last_accessed >= now {
                    assert(keep_chunk(cc, now, ttl));
                }
                assert(keep == pred(s[i as int]));
                assert(s.subrange(i as int, n) =~= seq![s[i as int]] + s.subrange(i0, n));
                Seq::filter_distributes_over_add(seq![s[i as int]], s.subrange(i0, n), pred);
                lemma_filter_singleton(s[i as int], pred);
                assert(s.subrange(0, i0) =~= s.subrange(0, i as int) + seq![s[i as int]]);
            }
            if keep {
                proof {
                    assert((s.subrange(0, i as int) + seq![s[i as int]]) + s.subrange(
                        i0,
                        n,
                    ).filter(pred) =~= s.subrange(0, i as int) + (seq![s[i as int]] + s.subrange(
                        i0,
                        n,
                    ).filter(pred)));
                }
            } else {
                let ghost before = self.chunks@;
                self.chunks.remove(i);
                proof {
                    before.remove_ensures(i as int);
                    lemma_invariants_after_remove(before, i as int);
                    assert(self.chunks@ =~= s.subrange(0, i as int) + s.subrange(i0, n).filter(
                        pred,
                    ));
                }
            }
        }
        proof {
            assert(s.subrange(0, 0) =~= Seq::<Chunk>::empty());
            assert(s.subrange(0, n) =~= s);
            assert(Seq::<Chunk>::empty() + s.filter(pred) =~= s.filter(pred));
        }
    }

    /// Serves every chunk of the inclusive square window of radius
    /// `load_distance` around chunk coordinate (center_x, center_z),
    /// generating each miss, in row-major order (x outer, z inner): a
    /// player's view query. A chunk whose generation fails is skipped.
    /// When the terrain answers everywhere in the window the result is
    /// the complete square: one chunk per window coordinate, in that
    /// fixed order. A negative radius yields nothing.
    pub fn get_chunks_in_radius(&mut self, center_x: i32, center_z: i32, now: u64) -> (r: Vec<
        Chunk,
    >)
        requires
            old(self).wf(),
            old(self).load_distance >= 0 ==> {
                &&& chunk_in_range(center_x - old(self).load_distance)
                &&& chunk_in_range(center_x + old(self).load_distance)
                &&& chunk_in_range(center_z - old(self).load_distance)
                &&& chunk_in_range(center_z + old(self).load_distance)
            },
        ensures
            final(self).wf(),
            Self::same_config(*old(self), *final(self)),
            old(self).load_distance < 0 ==> r@.len() == 0,
            forall|k: int|
                0 <= k < r@.len() ==> {
                    &&& (#[trigger] r@[k]).wf()
                    &&& r@[k].last_accessed == now
                    &&& center_x - old(self).load_distance <= r@[k].x <= center_x + old(
                        self,
                    ).load_distance
                    &&& center_z - old(self).load_distance <= r@[k].z <= center_z + old(
                        self,
                    ).load_distance
                },
            (old(self).load_distance >= 0 && (forall|cxi: int, czi: int|
                center_x - old(self).load_distance <= cxi <= center_x + old(self).load_distance
                    && center_z - old(self).load_distance <= czi <= center_z + old(
                    self,
                ).load_distance ==> terrain_defined(old(self).terrain, cxi, czi))) ==> {
                let side = 2 * old(self).load_distance + 1;
                &&& r@.len() == side * side
                &&& forall|k: int|
                    0 <= k < r@.len() ==> at_coord(
                        #[trigger] r@[k],
                        center_x - old(self).load_distance + k / side,
                        center_z - old(self).load_distance + k % side,
                    )
                &&& forall|cxi: int, czi: int|
                    center_x - old(self).load_distance <= cxi <= center_x + old(
                        self,
                    ).load_distance && center_z - old(self).load_distance <= czi <= center_z
                        + old(self).load_distance ==> #[trigger] final(self).has_chunk(cxi, czi)
                        && final(self).chunk_at(cxi, czi).last_accessed == now
            },
    {
        let d = self.load_distance;
        let mut out: Vec<Chunk> = Vec::new();
        if d < 0 {
            return out;
        }
        let ghost di = d as int;
        let ghost side = 2 * di + 1;
        let ghost all_def = forall|cxi: int, czi: int|
            center_x - di <= cxi <= center_x + di && center_z - di <= czi <= center_z + di
                ==> terrain_defined(old(self).terrain, cxi, czi);
        let side64: i64 = 2 * (d as i64) + 1;
        let x0: i64 = center_x as i64 - d as i64;
        let z0: i64 = center_z as i64 - d as i64;
        let mut dx: i64 = 0;
        while dx < side64
            invariant
                self.wf(),
                Self::same_config(*old(self), *self),
                di == old(self).load_distance,
                side == 2 * di + 1,
                di >= 0,
                side64 == side,
                x0 == center_x - di,
                z0 == center_z - di,
                chunk_in_range(center_x - di) && chunk_in_range(center_x + di),
                chunk_in_range(center_z - di) && chunk_in_range(center_z + di),
                0 <= dx <= side64,
                all_def == (forall|cxi: int, czi: int|
                    center_x - di <= cxi <= center_x + di && center_z - di <= czi <= center_z
                        + di ==> terrain_defined(old(self).terrain, cxi, czi)),
                all_def ==> out@.len() == dx * side,
                forall|k: int|
                    0 <= k < out@.len() ==> {
                        &&& (#[trigger] out@[k]).wf()
                        &&& out@[k].last_accessed == now
                        &&& center_x - di <= out@[k].x <= center_x + di
                        &&& center_z - di <= out@[k].z <= center_z + di
                    },
                all_def ==> forall|k: int|
                    0 <= k < out@.len() ==> at_coord(
                        #[trigger] out@[k],
                        x0 + k / side,
                        z0 + k % side,
                    ),
                all_def ==> forall|a: int, b: int|
                    x0 <= a < x0 + dx && z0 <= b <= z0 + 2 * di ==> #[trigger] self.has_chunk(
                        a,
                        b,
                    ) && self.chunk_at(a, b).last_accessed == now,
            decreases side64 - dx,
        {
            let mut dz: i64 = 0;
            while dz < side64
                invariant
                    self.wf(),
                    Self::same_config(*old(self), *self),
                    di == old(self).load_distance,
                    side == 2 * di + 1,
                    di >= 0,
                    side64 == side,
                    x0 == center_x - di,
                    z0 == center_z - di,
                    chunk_in_range(center_x - di) && chunk_in_range(center_x + di),
                    chunk_in_range(center_z - di) && chunk_in_range(center_z + di),
                    0 <= dx < side64,
                    0 <= dz <= side64,
                    all_def == (forall|cxi: int, czi: int|
                        center_x - di <= cxi <= center_x + di && center_z - di <= czi
                            <= center_z + di ==> terrain_defined(old(self).terrain, cxi, czi)),
                    all_def ==> out@.len() == dx * side + dz,
                    forall|k: int|
                        0 <= k < out@.len() ==> {
                            &&& (#[trigger] out@[k]).wf()
                            &&& out@[k].last_accessed == now
                            &&& center_x - di <= out@[k].x <= center_x + di
                            &&& center_z - di <= out@[k].z <= center_z + di
                        },
                    all_def ==> forall|k: int|
                        0 <= k < out@.len() ==> at_coord(
                            #[trigger] out@[k],
                            x0 + k / side,
                            z0 + k % side,
                        ),
                    all_def ==> forall|a: int, b: int|
                        ((x0 <= a < x0 + dx && z0 <= b <= z0 + 2 * di) || (a == x0 + dx && z0
                            <= b < z0 + dz)) ==> #[trigger] self.has_chunk(a, b)
                            && self.chunk_at(a, b).last_accessed == now,
                decreases side64 - dz,
            {
                let cx = (x0 + dx) as i32;
                let cz = (z0 + dz) as i32;
                let ghost before_call = *self;
                match self.get_chunk(cx, cz, now) {
                    Some(c) => {
                        proof {
                            if all_def {
                                lemma_fundamental_div_mod_converse(
                                    dx * side + dz,
                                    side,
                                    dx as int,
                                    dz as int,
                                );
                                assert(cx as int == x0 + dx && cz as int == z0 + dz);
                                assert forall|a: int, b: int|
                                    ((x0 <= a < x0 + dx && z0 <= b <= z0 + 2 * di) || (a == x0
                                        + dx && z0 <= b < z0 + dz + 1)) implies #[trigger] self.has_chunk(
                                    a,
                                    b,
                                ) && self.chunk_at(a, b).last_accessed == now by {
                                    if a == cx as int && b == cz as int {
                                    } else {
                                        assert(before_call.has_chunk(a, b));
                                        assert(before_call.chunk_at(a, b).last_accessed == now);
                                        lemma_fresh_survives_get(
                                            before_call,
                                            *self,
                                            cx as int,
                                            cz as int,
                                            now,
                                            a,
                                            b,
                                        );
                                    }
                                }
                            }
                        }
                        out.push(c);
                    },
                    None => {
                        proof {
                            if all_def {
                                assert(terrain_defined(old(self).terrain, cx as int, cz as int));
                            }
                        }
                    },
                }
                dz += 1;
            }
            proof {
                if all_def {
                    assert((dx + 1) * side == dx * side + side) by (nonlinear_arith);
                }
            }
            dx += 1;
        }
        proof {
            if all_def {
                assert(out@.len() == side64 * side);
            }
        }
        out
    }

    /// A persistence flush: hands every chunk carrying unsaved
    /// mutations to the storage sink and clears the modified flag on
    /// each successful write, so an unchanged chunk is not re-flushed on
    /// the next cycle. A failed write leaves the flag set for retry and
    /// never aborts the rest of the pass; nothing is ever removed.
    /// Returns how many chunks were written; with no modified chunk at
    /// all the sink is never invoked and nothing changes.
    pub fn save_modified_chunks<S: PersistenceSink>(&mut self, sink: &mut S) -> (saved: usize)
        requires
            old(self).wf(),
        ensures
            final(self).wf(),
            Self::same_config(*old(self), *final(self)),
            flush_applied(old(self).chunks@, final(self).chunks@),
            saved as int == count_modified(old(self).chunks@) - count_modified(
                final(self).chunks@,
            ),
            count_modified(old(self).chunks@) == 0 ==> saved == 0 && final(self).chunks@ == old(
                self,
            ).chunks@,
    {
        let ghost pre = self.chunks@;
        let n = self.chunks.len();
        let mut saved: usize = 0;
        let mut i: usize = 0;
        while i < n
            invariant
                n == self.chunks@.len(),
                n == pre.len(),
                i <= n,
                saved <= i,
                chunks_wf(pre),
                coords_unique(pre),
                self.wf(),
                self.load_distance == old(self).load_distance,
                self.terrain == old(self).terrain,
                self.max_cached_chunks == old(self).max_cached_chunks,
                self.ttl_seconds == old(self).ttl_seconds,
                forall|j: int| i <= j < n ==> #[trigger] self.chunks@[j] == pre[j],
                forall|j: int|
                    0 <= j < i ==> {
                        &&& (#[trigger] self.chunks@[j]).x == pre[j].x
                        &&& self.chunks@[j].z == pre[j].z
                        &&& self.chunks@[j].blocks == pre[j].blocks
                        &&& self.chunks@[j].metadata == pre[j].metadata
                        &&& self.chunks@[j].light == pre[j].light
                        &&& self.chunks@[j].height_map == pre[j].height_map
                        &&& self.chunks@[j].is_generated == pre[j].is_generated
                        &&& self.chunks@[j].last_accessed == pre[j].last_accessed
                        &&& (self.chunks@[j].is_modified ==> pre[j].is_modified)
                        &&& (!pre[j].is_modified ==> self.chunks@[j] == pre[j])
                    },
                saved as int == count_modified(pre.subrange(0, i as int)) - count_modified(
                    self.chunks@.subrange(0, i as int),
                ),
            decreases n - i,
        {
            let ghost at_entry = self.chunks@;
            if self.chunks[i].is_modified {
                let cx = self.chunks[i].x;
                let cz = self.chunks[i].z;
                let ok = sink.save(cx, cz, &self.chunks[i]);
                if ok {
                    self.chunks[i].is_modified = false;
                    saved += 1;
                    proof {
                        assert forall|j: int| 0 <= j < self.chunks@.len() implies (
                        #[trigger] self.chunks@[j]).wf() by {
                            assert(at_entry[j].wf());
                        }
                        assert forall|j: int, k: int|
                            0 <= j < k < self.chunks@.len() implies !at_coord(
                            #[trigger] self.chunks@[j],
                            #[trigger] self.chunks@[k].x as int,
                            self.chunks@[k].z as int,
                        ) by {
                            assert(!at_coord(at_entry[j], at_entry[k].x as int,
                                at_entry[k].z as int));
                        }
                    }
                }
            }
            proof {
                lemma_count_modified_step(pre, i as int);
                lemma_count_modified_step(self.chunks@, i as int);
                lemma_count_modified_bounds(pre.subrange(0, i as int));
                lemma_count_modified_bounds(self.chunks@.subrange(0, i as int));
                assert(self.chunks@.subrange(0, i as int) =~= at_entry.subrange(0, i as int));
            }
            i += 1;
        }
        proof {
            assert(pre.subrange(0, n as int) =~= pre);
            assert(self.chunks@.subrange(0, n as int) =~= self.chunks@);
            if count_modified(pre) == 0 {
                lemma_count_modified_zero(pre);
                assert(self.chunks@ =~= pre);
            }
        }
        saved
    }

    /// A pure aggregate snapshot of the store, with no side effects: how
    /// many chunks are cached, how many carry unsaved mutations, how
    /// many have completed generation, and the capacity threshold.
    pub fn get_chunk_stats(&self) -> (stats: ChunkStats)
        ensures
            stats.total_chunks == self.chunks@.len(),
            stats.modified_chunks as int == count_modified(self.chunks@),
            stats.generated_chunks as int == count_generated(self.chunks@),
            stats.max_cached_chunks == self.max_cached_chunks,
    {
        let n = self.chunks.len();
        let mut modified: usize = 0;
        let mut generated: usize = 0;
        let mut i: usize = 0;
        while i < n
            invariant
                n == self.chunks@.len(),
                i <= n,
                modified <= i,
                generated <= i,
                modified as int == count_modified(self.chunks@.subrange(0, i as int)),
                generated as int == count_generated(self.chunks@.subrange(0, i as int)),
            decreases n - i,
        {
            proof {
                lemma_count_modified_step(self.chunks@, i as int);
                lemma_count_generated_step(self.chunks@, i as int);
            }
            if self.chunks[i].is_modified {
                modified += 1;
            }
            if self.chunks[i].is_generated {
                generated += 1;
            }
            i += 1;
        }
        proof {
            assert(self.chunks@.subrange(0, n as int) =~= self.chunks@);
        }
        ChunkStats {
            total_chunks: n,
            modified_chunks: modified,
            generated_chunks: generated,
            max_cached_chunks: self.max_cached_chunks,
        }
    }

    /// A pure block read at world position (x, y, z): nothing when the
    /// owning chunk is not cached or y is out of range, the stored byte
    /// otherwise. Never triggers generation and never touches the store.
    pub fn get_block(&self, x: i32, y: i32, z: i32) -> (r: Option<u8>)
        requires
            self.wf(),
        ensures
            r == self.read_block_spec(x as int, y as int, z as int),
    {
        if y < 0 || y >= 256 {
            return None;
        }
        let (cx, cz) = chunk_of(x, z);
        let (lx, lz) = local_of(x, z);
        match self.find_chunk(cx, cz) {
            None => None,
            Some(i) => {
                let idx = block_index(lx, y, lz);
                Some(self.chunks[i].blocks[idx])
            },
        }
    }
}

/// Every chunk the sweep's filter keeps was already in the cache.
proof fn lemma_filter_membership(s: Seq<Chunk>, pred: spec_fn(Chunk) -> bool, i: int)
    requires
        0 <= i < s.filter(pred).len(),
    ensures
        exists|j: int| 0 <= j < s.len() && #[trigger] s[j] == s.filter(pred)[i],
    decreases s.len(),
{
    reveal(Seq::filter);
    if s.len() > 0 {
        let sub = s.drop_last().filter(pred);
        if pred(s.last()) && i == sub.len() {
            assert(s.filter(pred)[i] == s.last());
            assert(s[s.len() - 1] == s.filter(pred)[i]);
        } else {
            assert(s.filter(pred)[i] == sub[i]);
            lemma_filter_membership(s.drop_last(), pred, i);
            let j = choose|j: int| 0 <= j < s.drop_last().len() && #[trigger] s.drop_last()[j] == sub[i];
            assert(s[j] == s.filter(pred)[i]);
        }
    }
}

/// Law: a block write followed immediately by a block read at the same
/// world position returns the written value, but only when the owning
/// chunk was already cached before the write. When it was not cached,
/// the write changed nothing (it neither loads nor generates, by
/// policy) and the read still answers nothing.
pub proof fn lemma_write_then_read<T: TerrainSource>(
    pre: ChunkManager<T>,
    post: ChunkManager<T>,
    x: int,
    y: int,
    z: int,
    block_id: u8,
    now: u64,
)
    requires
        pre.wf(),
        post.wf(),
        0 <= y < 256,
        ChunkManager::<T>::write_applied(pre, post, x, y, z, block_id, now),
    ensures
        pre.has_chunk(chunk_coord(x), chunk_coord(z)) ==> post.read_block_spec(x, y, z) == Some(
            block_id,
        ),
        !pre.has_chunk(chunk_coord(x), chunk_coord(z)) ==> post == pre && post.read_block_spec(
            x,
            y,
            z,
        ) is None,
{
    let cx = chunk_coord(x);
    let cz = chunk_coord(z);
    crate::coords::lemma_local_coord_range(x);
    crate::coords::lemma_local_coord_range(z);
    if pre.has_chunk(cx, cz) {
        let i = pre.chunk_index(cx, cz);
        assert(at_coord(pre.chunks@[i], cx, cz));
        assert(at_coord(post.chunks@[i], cx, cz));
        assert(post.has_chunk(cx, cz));
        let j = post.chunk_index(cx, cz);
        if j != i {
            if j < i {
                assert(!at_coord(post.chunks@[j], post.chunks@[i].x as int,
                    post.chunks@[i].z as int));
            } else {
                assert(!at_coord(post.chunks@[i], post.chunks@[j].x as int,
                    post.chunks@[j].z as int));
            }
        }
        assert(post.chunk_at(cx, cz) == post.chunks@[i]);
        assert(pre.chunks@[i].wf());
        assert(post.chunks@[i].blocks@ == pre.chunks@[i].blocks@.update(
            flat_index(local_coord(x), y, local_coord(z)),
            block_id,
        ));
    }
}

/// Law: once the cache exceeds its capacity budget, the eviction sweep
/// never removes a chunk carrying unsaved mutations, whatever its age,
/// while every unmodified chunk whose last access is older than the
/// staleness bound is removed.
pub proof fn lemma_sweep_policy(s: Seq<Chunk>, now: u64, ttl: u64, max: int, i: int)
    requires
        coords_unique(s),
        0 <= i < s.len(),
        s.len() > max,
    ensures
        s[i].is_modified ==> swept(s, now, ttl, max).contains(s[i]),
        (!s[i].is_modified && s[i].last_accessed + ttl < now) ==> !(exists|j: int|
            0 <= j < swept(s, now, ttl, max).len() && at_coord(
                #[trigger] swept(s, now, ttl, max)[j],
                s[i].x as int,
                s[i].z as int,
            )),
{
    broadcast use vstd::seq_lib::group_filter_ensures;

    let pred = |c: Chunk| keep_chunk(c, now, ttl);
    let out = swept(s, now, ttl, max);
    assert(out == s.filter(pred));
    if s[i].is_modified {
        assert(pred(s[i]));
        assert(s.filter(pred).contains(s[i]));
    }
    if !s[i].is_modified && s[i].last_accessed + ttl < now {
        assert forall|j: int|
            0 <= j < out.len() implies !at_coord(#[trigger] out[j], s[i].x as int,
        s[i].z as int) by {
            assert(pred(out[j]));
            lemma_filter_membership(s, pred, j);
            let k = choose|k: int| 0 <= k < s.len() && #[trigger] s[k] == s.filter(pred)[j];
            assert(out[j] == s[k]);
            assert(pred(s[k]));
            if k == i {
                assert(!pred(s[i]));
            } else if at_coord(s[k], s[i].x as int, s[i].z as int) {
                if k < i {
                    assert(!at_coord(s[k], s[i].x as int, s[i].z as int));
                } else {
                    assert(!at_coord(s[i], s[k].x as int, s[k].z as int));
                }
            }
        }
    }
}

} // verus!
