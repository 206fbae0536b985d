use crate::assoc::{
    assoc_find, distinct_keys, lemma_assoc_find_absent, lemma_assoc_find_at,
    lemma_assoc_find_none, lemma_assoc_find_push,
};
use crate::bitset::Bits4096;
use crate::block::{
    block_passable, block_solid, spec_opt_passable, spec_opt_solid, BlockState,
};
use crate::pos::{
    lemma_section_index_bounds, lemma_voxel_unique_in_section, section_index, BlockPos, ChunkPos,
    SectionPos,
};
use crate::world::{Chunk, WorldData};
use std::sync::Arc;
use vstd::prelude::*;

verus! {

/// Declares lock_api::RwLock (which parking_lot::RwLock is an alias of) so
/// the opaque world handle can stand in signatures and fields.
#[verifier::external_type_specification]
#[verifier::external_body]
#[verifier::reject_recursive_types(R)]
#[verifier::reject_recursive_types(T)]
pub struct ExRwLock<R, T: ?Sized>(lock_api::RwLock<R, T>);

/// Declares parking_lot::RawRwLock, the raw lock parameter of the alias
/// above.
#[verifier::external_type_specification]
#[verifier::external_body]
pub struct ExRawRwLock(parking_lot::RawRwLock);

/// Relies on lock_api::RwLock::read through the shared world handle: takes
/// the read lock once, reads the world's minimum y bound, and releases the
/// lock. What it returns depends on the live world, so nothing more is
/// promised of the result.
#[verifier::external_body]
fn read_min_y(world: &Arc<parking_lot::RwLock<WorldData>>) -> i32 {
    world.read().min_y
}

/// Relies on lock_api::RwLock::read through the shared world handle: takes
/// the read lock once, copies the guarded world value out, and releases
/// the lock. What it returns depends on the live, concurrently mutated
/// world, so nothing is promised of the result; the verified caller does
/// the chunk lookup on the copy.
#[verifier::external_body]
fn read_world(world: &Arc<parking_lot::RwLock<WorldData>>) -> WorldData {
    world.read().clone()
}

/// The tri-state cache of one section: `present` records which voxels have
/// been classified, `value` the cached answer for those that have.
pub struct CachedBlocks {
    pub present: Bits4096,
    pub value: Bits4096,
}

/// The block a context's snapshots hold at a voxel: nothing if the voxel's
/// chunk was never captured or was captured as unloaded.
pub open spec fn spec_block_of(
    snaps: Seq<(ChunkPos, Option<Chunk>)>,
    min_y: int,
    pos: BlockPos,
) -> Option<BlockState> {
    match assoc_find(snaps, pos.spec_chunk()) {
        Some(snap) => match snap {
            Some(c) => c.spec_block(min_y, pos),
            None => None,
        },
        None => None,
    }
}

/// Every voxel a section cache marks present has its chunk captured, and
/// caches exactly the classification of the snapshotted block.
pub open spec fn cache_ok(
    snaps: Seq<(ChunkPos, Option<Chunk>)>,
    min_y: int,
    sp: SectionPos,
    cb: CachedBlocks,
    for_passable: bool,
) -> bool {
    &&& cb.present.wf()
    &&& cb.value.wf()
    &&& cb.present@.len() == 4096
    &&& cb.value@.len() == 4096
    &&& forall|k: int| 0 <= k < 4096 && cb.value@[k] ==> cb.present@[k]
    &&& forall|pos: BlockPos|
        (#[trigger] pos.spec_section()) == sp && cb.present@[section_index(
            pos.x as int,
            pos.y as int,
            pos.z as int,
        )] ==> (assoc_find(snaps, pos.spec_chunk()) is Some) && cb.value@[section_index(
            pos.x as int,
            pos.y as int,
            pos.z as int,
        )] == (if for_passable {
            spec_opt_passable(spec_block_of(snaps, min_y, pos))
        } else {
            spec_opt_solid(spec_block_of(snaps, min_y, pos))
        })
}

/// The depth of the deepest voxel above the minimum y bound that a fall
/// from `y` passes, and at least the one voxel directly below.
pub open spec fn spec_fall_limit(y: int, min_y: int) -> int {
    if y - min_y >= 1 {
        y - min_y
    } else {
        1
    }
}

/// A cache entry as it stands right after one slot of an existing entry
/// was filled in.
pub open spec fn filled_entry_ok(cb: CachedBlocks, old_cb: CachedBlocks, idx: int, answer: bool) -> bool {
    &&& cb.present.wf()
    &&& cb.value.wf()
    &&& cb.present@ == old_cb.present@.update(idx, true)
    &&& cb.value@ == (if answer {
        old_cb.value@.update(idx, true)
    } else {
        old_cb.value@
    })
}

/// A cache entry as it stands right after being created with one slot
/// filled in.
pub open spec fn fresh_entry_ok(cb: CachedBlocks, idx: int, answer: bool) -> bool {
    &&& cb.present.wf()
    &&& cb.value.wf()
    &&& cb.present@.len() == 4096
    &&& cb.value@.len() == 4096
    &&& forall|k: int| 0 <= k < 4096 ==> cb.present@[k] == (k == idx)
    &&& forall|k: int| 0 <= k < 4096 ==> cb.value@[k] == (answer && k == idx)
}

/// Growing the snapshot collection never changes what an already-coherent
/// section cache promises.
proof fn lemma_cache_list_preserved(
    snaps1: Seq<(ChunkPos, Option<Chunk>)>,
    snaps2: Seq<(ChunkPos, Option<Chunk>)>,
    min_y: int,
    s: Seq<(SectionPos, CachedBlocks)>,
    for_passable: bool,
)
    requires
        forall|p: ChunkPos|
            (#[trigger] assoc_find(snaps1, p)) is Some ==> assoc_find(snaps2, p) == assoc_find(
                snaps1,
                p,
            ),
        forall|j: int|
            0 <= j < s.len() ==> cache_ok(snaps1, min_y, (#[trigger] s[j]).0, s[j].1, for_passable),
    ensures
        forall|j: int|
            0 <= j < s.len() ==> cache_ok(snaps2, min_y, (#[trigger] s[j]).0, s[j].1, for_passable),
{
    assert forall|j: int|
        0 <= j < s.len() implies cache_ok(
        snaps2,
        min_y,
        (#[trigger] s[j]).0,
        s[j].1,
        for_passable,
    ) by {
        assert(cache_ok(snaps1, min_y, s[j].0, s[j].1, for_passable));
        assert forall|pos: BlockPos|
            (#[trigger] pos.spec_section()) == s[j].0 && s[j].1.present@[section_index(
                pos.x as int,
                pos.y as int,
                pos.z as int,
            )] implies (assoc_find(snaps2, pos.spec_chunk()) is Some) && s[j].1.value@[
            section_index(pos.x as int, pos.y as int, pos.z as int)] == (if for_passable {
            spec_opt_passable(spec_block_of(snaps2, min_y, pos))
        } else {
            spec_opt_solid(spec_block_of(snaps2, min_y, pos))
        }) by {
            assert(assoc_find(snaps1, pos.spec_chunk()) is Some);
            assert(assoc_find(snaps2, pos.spec_chunk()) == assoc_find(snaps1, pos.spec_chunk()));
        }
    }
}

/// The spatial query context of one search: the minimum y bound and world
/// handle captured at construction, the per-chunk section snapshots, and
/// the two tri-state voxel predicate caches.
pub struct PathfinderCtx {
    min_y: i32,
    world: Arc<parking_lot::RwLock<WorldData>>,
    cached_chunks: Vec<(ChunkPos, Option<Chunk>)>,
    cached_block_passable: Vec<(SectionPos, CachedBlocks)>,
    cached_block_solid: Vec<(SectionPos, CachedBlocks)>,
    lock_touches: Ghost<nat>,
}

impl PathfinderCtx {
    /// The minimum y bound captured when the context was built.
    pub closed spec fn spec_min_y(self) -> int {
        self.min_y as int
    }

    /// Whether this context has captured a snapshot for a chunk (possibly
    /// the snapshot that the chunk is unloaded).
    pub closed spec fn chunk_known(self, p: ChunkPos) -> bool {
        assoc_find(self.cached_chunks@, p) is Some
    }

    /// The block this context's snapshots hold at a voxel.
    pub closed spec fn spec_block(self, pos: BlockPos) -> Option<BlockState> {
        spec_block_of(self.cached_chunks@, self.min_y as int, pos)
    }

    /// Whether the snapshots classify a voxel as passable; a voxel without
    /// data never is.
    pub closed spec fn spec_passable(self, pos: BlockPos) -> bool {
        spec_opt_passable(self.spec_block(pos))
    }

    /// Whether the snapshots classify a voxel as solid; a voxel without
    /// data never is.
    pub closed spec fn spec_solid(self, pos: BlockPos) -> bool {
        spec_opt_solid(self.spec_block(pos))
    }

    /// How many times this context has acquired the world's read lock for a
    /// chunk since it was built.
    pub closed spec fn locks(self) -> nat {
        self.lock_touches@
    }

    /// How many distinct chunks this context has captured.
    pub closed spec fn chunks_fetched(self) -> nat {
        self.cached_chunks@.len() as nat
    }

    /// Internal coherence: lookups are unambiguous, the lock was touched
    /// once per captured chunk, and both predicate caches agree with the
    /// snapshots.
    pub closed spec fn wf(self) -> bool {
        &&& distinct_keys(self.cached_chunks@)
        &&& distinct_keys(self.cached_block_passable@)
        &&& distinct_keys(self.cached_block_solid@)
        &&& self.lock_touches@ == self.cached_chunks@.len()
        &&& forall|j: int|
            0 <= j < self.cached_block_passable@.len() ==> cache_ok(
                self.cached_chunks@,
                self.min_y as int,
                (#[trigger] self.cached_block_passable@[j]).0,
                self.cached_block_passable@[j].1,
                true,
            )
        &&& forall|j: int|
            0 <= j < self.cached_block_solid@.len() ==> cache_ok(
                self.cached_chunks@,
                self.min_y as int,
                (#[trigger] self.cached_block_solid@[j]).0,
                self.cached_block_solid@[j].1,
                false,
            )
    }

    /// A later state of the same search context: the bound is unchanged and
    /// every snapshot once captured is still there, unchanged.
    pub closed spec fn extends(self, o: PathfinderCtx) -> bool {
        &&& self.min_y == o.min_y
        &&& forall|p: ChunkPos|
            (#[trigger] assoc_find(o.cached_chunks@, p)) is Some ==> assoc_find(
                self.cached_chunks@,
                p,
            ) == assoc_find(o.cached_chunks@, p)
    }

    /// Build a context over a shared world handle, reading the minimum y
    /// bound once.
    pub fn new(world: Arc<parking_lot::RwLock<WorldData>>) -> (r: PathfinderCtx)
        ensures
            r.wf(),
            r.locks() == 0,
            r.chunks_fetched() == 0,
            forall|p: ChunkPos| !r.chunk_known(p),
    {
        let min_y = read_min_y(&world);
        let r = PathfinderCtx {
            min_y,
            world,
            cached_chunks: Vec::new(),
            cached_block_passable: Vec::new(),
            cached_block_solid: Vec::new(),
            lock_touches: Ghost(0nat),
        };
        proof {
            assert forall|p: ChunkPos| !r.chunk_known(p) by {
                lemma_assoc_find_none(r.cached_chunks@, p);
            }
        }
        r
    }

    /// How many distinct chunks this context has captured so far. By
    /// lock-touch minimality this is also how many times the world's read
    /// lock has been acquired for a chunk, however many voxels were
    /// queried.
    pub fn chunks_captured(&self) -> (r: usize)
        ensures
            r == self.chunks_fetched(),
            self.wf() ==> r == self.locks(),
    {
        self.cached_chunks.len()
    }

    /// Find the snapshot entry for a chunk, scanning left to right.
    fn find_snapshot(&self, p: ChunkPos) -> (r: Option<usize>)
        ensures
            match r {
                Some(i) => i < self.cached_chunks@.len() && self.cached_chunks@[i as int].0 == p
                    && assoc_find(self.cached_chunks@, p) == Some(
                    self.cached_chunks@[i as int].1,
                ),
                None => assoc_find(self.cached_chunks@, p) is None,
            },
    {
        let n: usize = self.cached_chunks.len();
        let mut i: usize = 0;
        while i < n
            invariant
                n == self.cached_chunks@.len(),
                i <= n,
                forall|j: int| 0 <= j < i ==> self.cached_chunks@[j].0 != p,
            decreases n - i,
        {
            if self.cached_chunks[i].0 == p {
                proof {
                    lemma_assoc_find_at(self.cached_chunks@, p, i as int);
                }
                return Some(i);
            }
            i = i + 1;
        }
        proof {
            lemma_assoc_find_none(self.cached_chunks@, p);
        }
        None
    }

    /// Resolve a voxel's block through the snapshot collection, touching the
    /// world lock only if the voxel's chunk was never captured before.
    fn get_block_state(&mut self, pos: BlockPos) -> (r: Option<BlockState>)
        requires
            old(self).wf(),
        ensures
            final(self).wf(),
            final(self).extends(*old(self)),
            final(self).min_y == old(self).min_y,
            final(self).cached_block_passable@ == old(self).cached_block_passable@,
            final(self).cached_block_solid@ == old(self).cached_block_solid@,
            final(self).chunk_known(pos.spec_chunk()),
            r == final(self).spec_block(pos),
            old(self).chunk_known(pos.spec_chunk()) ==> *final(self) == *old(self),
            final(self).lock_touches@ == old(self).lock_touches@ + (if old(self).chunk_known(
                pos.spec_chunk(),
            ) {
                0nat
            } else {
                1nat
            }),
    {
        let cp = pos.chunk();
        match self.find_snapshot(cp) {
            Some(i) => {
                let r = match &self.cached_chunks[i].1 {
                    Some(c) => c.block_at(self.min_y, pos),
                    None => None,
                };
                proof {
                    assert forall|p: ChunkPos|
                        (#[trigger] assoc_find(old(self).cached_chunks@, p)) is Some implies
                        assoc_find(self.cached_chunks@, p) == assoc_find(
                        old(self).cached_chunks@,
                        p,
                    ) by {}
                }
                r
            },
            None => {
                let fetched: Option<Chunk> = read_world(&self.world).into_chunk(cp);
                let r = match &fetched {
                    Some(c) => c.block_at(self.min_y, pos),
                    None => None,
                };
                let ghost gf = fetched;
                let ghost old_snaps = self.cached_chunks@;
                self.cached_chunks.push((cp, fetched));
                self.lock_touches = Ghost(self.lock_touches@ + 1nat);
                proof {
                    lemma_assoc_find_absent(old_snaps, cp);
                    assert(self.cached_chunks@ == old_snaps.push((cp, gf)));
                    assert forall|q: ChunkPos| true implies assoc_find(
                        self.cached_chunks@,
                        q,
                    ) == (if q == cp {
                        Some(gf)
                    } else {
                        assoc_find(old_snaps, q)
                    }) by {
                        lemma_assoc_find_push(old_snaps, cp, gf, q);
                    }
                    assert forall|a: int, b: int|
                        0 <= a < b < self.cached_chunks@.len() implies self.cached_chunks@[a].0
                        != self.cached_chunks@[b].0 by {
                        if b == old_snaps.len() as int {
                            assert(self.cached_chunks@[a].0 != cp);
                        }
                    }
                    lemma_cache_list_preserved(
                        old_snaps,
                        self.cached_chunks@,
                        self.min_y as int,
                        self.cached_block_passable@,
                        true,
                    );
                    lemma_cache_list_preserved(
                        old_snaps,
                        self.cached_chunks@,
                        self.min_y as int,
                        self.cached_block_solid@,
                        false,
                    );
                }
                r
            },
        }
    }

    /// Classify a voxel as passable straight from the snapshots, without
    /// touching the predicate caches.
    fn uncached_is_block_passable(&mut self, pos: BlockPos) -> (r: bool)
        requires
            old(self).wf(),
        ensures
            final(self).wf(),
            final(self).extends(*old(self)),
            final(self).min_y == old(self).min_y,
            final(self).cached_block_passable@ == old(self).cached_block_passable@,
            final(self).cached_block_solid@ == old(self).cached_block_solid@,
            final(self).chunk_known(pos.spec_chunk()),
            r == final(self).spec_passable(pos),
            old(self).chunk_known(pos.spec_chunk()) ==> *final(self) == *old(self),
            final(self).lock_touches@ == old(self).lock_touches@ + (if old(self).chunk_known(
                pos.spec_chunk(),
            ) {
                0nat
            } else {
                1nat
            }),
    {
        match self.get_block_state(pos) {
            Some(block) => block_passable(block),
            None => false,
        }
    }

    /// Classify a voxel as solid straight from the snapshots, without
    /// touching the predicate caches.
    fn uncached_is_block_solid(&mut self, pos: BlockPos) -> (r: bool)
        requires
            old(self).wf(),
        ensures
            final(self).wf(),
            final(self).extends(*old(self)),
            final(self).min_y == old(self).min_y,
            final(self).cached_block_passable@ == old(self).cached_block_passable@,
            final(self).cached_block_solid@ == old(self).cached_block_solid@,
            final(self).chunk_known(pos.spec_chunk()),
            r == final(self).spec_solid(pos),
            old(self).chunk_known(pos.spec_chunk()) ==> *final(self) == *old(self),
            final(self).lock_touches@ == old(self).lock_touches@ + (if old(self).chunk_known(
                pos.spec_chunk(),
            ) {
                0nat
            } else {
                1nat
            }),
    {
        match self.get_block_state(pos) {
            Some(block) => block_solid(block),
            None => false,
        }
    }

    /// Whether an agent's body may occupy this voxel, memoized per voxel.
    /// A voxel in a chunk that resolves as unloaded is never passable.
    pub fn is_block_passable(&mut self, pos: BlockPos) -> (r: bool)
        requires
            old(self).wf(),
        ensures
            final(self).wf(),
            final(self).extends(*old(self)),
            final(self).spec_min_y() == old(self).spec_min_y(),
            final(self).chunk_known(pos.spec_chunk()),
            r == final(self).spec_passable(pos),
            final(self).locks() == old(self).locks() + (if old(self).chunk_known(
                pos.spec_chunk(),
            ) {
                0nat
            } else {
                1nat
            }),
    {
        let sp = pos.section();
        let idx: usize = pos.local_index();
        match find_cache(&self.cached_block_passable, sp) {
            Some(i) => {
                let hit = self.cached_block_passable[i].1.present.get_bit(idx);
                if hit {
                    let v = self.cached_block_passable[i].1.value.get_bit(idx);
                    proof {
                        assert(cache_ok(
                            self.cached_chunks@,
                            self.min_y as int,
                            sp,
                            self.cached_block_passable@[i as int].1,
                            true,
                        ));
                        assert(self.chunk_known(pos.spec_chunk()));
                    }
                    return v;
                }
                let passable = self.uncached_is_block_passable(pos);
                let ghost mid = *self;
                let ghost old_list = self.cached_block_passable@;
                {
                    let entry: &mut (SectionPos, CachedBlocks) = &mut self.cached_block_passable[i];
                    entry.1.present.set_bit(idx);
                    if passable {
                        entry.1.value.set_bit(idx);
                    }
                }
                proof {
                    self.lemma_fill_cache(mid, old_list, i as int, sp, pos, idx as int, passable, true);
                }
                passable
            },
            None => {
                let passable = self.uncached_is_block_passable(pos);
                let ghost mid = *self;
                let ghost old_list = self.cached_block_passable@;
                let mut present = Bits4096::empty();
                present.set_bit(idx);
                let mut value = Bits4096::empty();
                if passable {
                    value.set_bit(idx);
                }
                self.cached_block_passable.push((sp, CachedBlocks { present, value }));
                proof {
                    self.lemma_push_cache(mid, old_list, sp, pos, idx as int, passable, true);
                }
                passable
            },
        }
    }

    /// Whether this voxel presents a full collision surface an agent can
    /// stand on, memoized per voxel. A voxel in a chunk that resolves as
    /// unloaded is never solid.
    pub fn is_block_solid(&mut self, pos: BlockPos) -> (r: bool)
        requires
            old(self).wf(),
        ensures
            final(self).wf(),
            final(self).extends(*old(self)),
            final(self).spec_min_y() == old(self).spec_min_y(),
            final(self).chunk_known(pos.spec_chunk()),
            r == final(self).spec_solid(pos),
            final(self).locks() == old(self).locks() + (if old(self).chunk_known(
                pos.spec_chunk(),
            ) {
                0nat
            } else {
                1nat
            }),
    {
        let sp = pos.section();
        let idx: usize = pos.local_index();
        match find_cache(&self.cached_block_solid, sp) {
            Some(i) => {
                let hit = self.cached_block_solid[i].1.present.get_bit(idx);
                if hit {
                    let v = self.cached_block_solid[i].1.value.get_bit(idx);
                    proof {
                        assert(cache_ok(
                            self.cached_chunks@,
                            self.min_y as int,
                            sp,
                            self.cached_block_solid@[i as int].1,
                            false,
                        ));
                        assert(self.chunk_known(pos.spec_chunk()));
                    }
                    return v;
                }
                let solid = self.uncached_is_block_solid(pos);
                let ghost mid = *self;
                let ghost old_list = self.cached_block_solid@;
                {
                    let entry: &mut (SectionPos, CachedBlocks) = &mut self.cached_block_solid[i];
                    entry.1.present.set_bit(idx);
                    if solid {
                        entry.1.value.set_bit(idx);
                    }
                }
                proof {
                    self.lemma_fill_cache(mid, old_list, i as int, sp, pos, idx as int, solid, false);
                }
                solid
            },
            None => {
                let solid = self.uncached_is_block_solid(pos);
                let ghost mid = *self;
                let ghost old_list = self.cached_block_solid@;
                let mut present = Bits4096::empty();
                present.set_bit(idx);
                let mut value = Bits4096::empty();
                if solid {
                    value.set_bit(idx);
                }
                self.cached_block_solid.push((sp, CachedBlocks { present, value }));
                proof {
                    self.lemma_push_cache(mid, old_list, sp, pos, idx as int, solid, false);
                }
                solid
            },
        }
    }

    /// Whether an agent two voxels tall can occupy this voxel: the voxel
    /// and the voxel above it must both be passable.
    pub fn is_passable(&mut self, pos: BlockPos) -> (r: bool)
        requires
            old(self).wf(),
            pos.y < i32::MAX,
        ensures
            final(self).wf(),
            final(self).extends(*old(self)),
            final(self).spec_min_y() == old(self).spec_min_y(),
            final(self).chunk_known(pos.spec_chunk()),
            final(self).chunk_known(pos.spec_up(1).spec_chunk()),
            r == (final(self).spec_passable(pos) && final(self).spec_passable(pos.spec_up(1))),
    {
        let a = self.is_block_passable(pos);
        let ghost mid = *self;
        let b = self.is_block_passable(pos.up(1));
        proof {
            lemma_query_stable(mid, *self, pos);
            lemma_extends_trans(*old(self), mid, *self);
        }
        a && b
    }

    /// Whether an agent can stand in this voxel: solid footing directly
    /// below, plus two voxels of clearance from here up.
    pub fn is_standable(&mut self, pos: BlockPos) -> (r: bool)
        requires
            old(self).wf(),
            i32::MIN < pos.y < i32::MAX,
        ensures
            final(self).wf(),
            final(self).extends(*old(self)),
            final(self).spec_min_y() == old(self).spec_min_y(),
            final(self).chunk_known(pos.spec_chunk()),
            final(self).chunk_known(pos.spec_down(1).spec_chunk()),
            final(self).chunk_known(pos.spec_up(1).spec_chunk()),
            r == (final(self).spec_solid(pos.spec_down(1)) && final(self).spec_passable(pos)
                && final(self).spec_passable(pos.spec_up(1))),
    {
        let below = pos.down(1);
        let s = self.is_block_solid(below);
        let ghost mid = *self;
        let p = self.is_passable(pos);
        proof {
            lemma_query_stable(mid, *self, below);
            lemma_extends_trans(*old(self), mid, *self);
        }
        s && p
    }

    /// How many consecutive passable voxels lie strictly below this one,
    /// descending until a non-passable voxel is found. The sentinel
    /// `u32::MAX` means the minimum y bound was crossed before any floor
    /// was found.
    pub fn fall_distance(&mut self, pos: BlockPos) -> (r: u32)
        requires
            old(self).wf(),
            pos.y > i32::MIN,
        ensures
            final(self).wf(),
            final(self).extends(*old(self)),
            final(self).spec_min_y() == old(self).spec_min_y(),
            final(self).chunk_known(pos.spec_chunk()),
            forall|j: int| final(self).chunk_known((#[trigger] pos.spec_down(j)).spec_chunk()),
            r != u32::MAX ==> forall|j: int|
                1 <= j <= r ==> final(self).spec_passable(pos.spec_down(j)),
            r != u32::MAX ==> !final(self).spec_passable(pos.spec_down(r as int + 1)),
            r != u32::MAX && r >= 1 ==> pos.y - (r as int + 1) >= final(self).spec_min_y(),
            r == u32::MAX ==> forall|j: int|
                1 <= j <= spec_fall_limit(pos.y as int, final(self).spec_min_y())
                    ==> final(self).spec_passable(pos.spec_down(j)),
    {
        let mut distance: u32 = 0;
        let mut cy: i32 = pos.y - 1;
        loop
            invariant
                self.wf(),
                self.extends(*old(self)),
                self.spec_min_y() == old(self).spec_min_y(),
                pos.y > i32::MIN,
                i32::MIN <= cy <= pos.y - 1,
                distance as int == pos.y - 1 - cy,
                distance as int >= 1 ==> cy >= self.spec_min_y(),
                forall|j: int|
                    1 <= j <= distance ==> #[trigger] self.spec_passable(pos.spec_down(j)),
                forall|j: int|
                    1 <= j <= distance ==> #[trigger] self.chunk_known(
                        pos.spec_down(j).spec_chunk(),
                    ),
            decreases cy - i32::MIN,
        {
            let cur = BlockPos { x: pos.x, y: cy, z: pos.z };
            let ghost prev = *self;
            let passable = self.is_block_passable(cur);
            proof {
                lemma_extends_trans(*old(self), prev, *self);
                assert forall|j: int|
                    1 <= j <= distance implies #[trigger] self.spec_passable(
                    pos.spec_down(j),
                ) && self.chunk_known(pos.spec_down(j).spec_chunk()) by {
                    lemma_query_stable(prev, *self, pos.spec_down(j));
                }
                assert(cur.spec_chunk() == pos.spec_chunk());
                assert forall|j: int|
                    self.chunk_known((#[trigger] pos.spec_down(j)).spec_chunk()) by {
                    assert(pos.spec_down(j).spec_chunk() == cur.spec_chunk());
                }
            }
            if !passable {
                proof {
                    assert(cur == pos.spec_down(distance as int + 1));
                }
                return distance;
            }
            distance = distance + 1;
            proof {
                assert(cur == pos.spec_down(distance as int));
            }
            if cy == i32::MIN {
                return u32::MAX;
            }
            let next: i32 = cy - 1;
            if next < self.min_y {
                return u32::MAX;
            }
            cy = next;
        }
    }

    /// After filling one tri-state slot of an existing section entry, the
    /// whole context is coherent again.
    proof fn lemma_fill_cache(
        self,
        mid: PathfinderCtx,
        old_list: Seq<(SectionPos, CachedBlocks)>,
        i: int,
        sp: SectionPos,
        pos: BlockPos,
        idx: int,
        answer: bool,
        for_passable: bool,
    )
        requires
            mid.wf(),
            self.cached_chunks@ == mid.cached_chunks@,
            self.min_y == mid.min_y,
            self.lock_touches@ == mid.lock_touches@,
            if for_passable {
                self.cached_block_solid@ == mid.cached_block_solid@
                    && old_list == mid.cached_block_passable@ && self.cached_block_passable@
                    == old_list.update(i, (sp, self.cached_block_passable@[i].1))
            } else {
                self.cached_block_passable@ == mid.cached_block_passable@
                    && old_list == mid.cached_block_solid@ && self.cached_block_solid@
                    == old_list.update(i, (sp, self.cached_block_solid@[i].1))
            },
            0 <= i < old_list.len(),
            old_list[i].0 == sp,
            !old_list[i].1.present@[idx],
            pos.spec_section() == sp,
            idx == section_index(pos.x as int, pos.y as int, pos.z as int),
            for_passable ==> filled_entry_ok(
                self.cached_block_passable@[i].1,
                old_list[i].1,
                idx,
                answer,
            ),
            !for_passable ==> filled_entry_ok(
                self.cached_block_solid@[i].1,
                old_list[i].1,
                idx,
                answer,
            ),
            mid.chunk_known(pos.spec_chunk()),
            answer == (if for_passable {
                mid.spec_passable(pos)
            } else {
                mid.spec_solid(pos)
            }),
        ensures
            self.wf(),
            self.extends(mid),
    {
        lemma_section_index_bounds(pos.x as int, pos.y as int, pos.z as int);
        let list = if for_passable {
            self.cached_block_passable@
        } else {
            self.cached_block_solid@
        };
        let cb = list[i].1;
        assert(cache_ok(mid.cached_chunks@, mid.min_y as int, sp, old_list[i].1, for_passable));
        assert forall|a: int, b: int| 0 <= a < b < list.len() implies list[a].0 != list[b].0 by {
            assert(list[a].0 == old_list[a].0);
            assert(list[b].0 == old_list[b].0);
        }
        assert forall|k: int| 0 <= k < 4096 && cb.value@[k] implies cb.present@[k] by {
            if k != idx {
                assert(cb.value@[k] ==> old_list[i].1.value@[k]);
                assert(old_list[i].1.present@[k] ==> cb.present@[k]);
            }
        }
        assert(cb.value@[idx] == answer) by {
            if !answer {
                assert(cb.value@[idx] == old_list[i].1.value@[idx]);
                assert(!old_list[i].1.value@[idx]);
            }
        }
        assert forall|p2: BlockPos|
            (#[trigger] p2.spec_section()) == sp && cb.present@[section_index(
                p2.x as int,
                p2.y as int,
                p2.z as int,
            )] implies (assoc_find(self.cached_chunks@, p2.spec_chunk()) is Some) && cb.value@[
            section_index(p2.x as int, p2.y as int, p2.z as int)] == (if for_passable {
            spec_opt_passable(spec_block_of(self.cached_chunks@, self.min_y as int, p2))
        } else {
            spec_opt_solid(spec_block_of(self.cached_chunks@, self.min_y as int, p2))
        }) by {
            let i2 = section_index(p2.x as int, p2.y as int, p2.z as int);
            lemma_section_index_bounds(p2.x as int, p2.y as int, p2.z as int);
            if i2 == idx {
                lemma_voxel_unique_in_section(pos, p2);
            } else {
                assert(cache_ok(mid.cached_chunks@, mid.min_y as int, sp, old_list[i].1, for_passable));
            }
        }
        assert forall|j: int|
            0 <= j < list.len() implies cache_ok(
            self.cached_chunks@,
            self.min_y as int,
            (#[trigger] list[j]).0,
            list[j].1,
            for_passable,
        ) by {
            if j != i {
                assert(list[j] == old_list[j]);
                assert(cache_ok(
                    mid.cached_chunks@,
                    mid.min_y as int,
                    old_list[j].0,
                    old_list[j].1,
                    for_passable,
                ));
            }
        }
    }

    /// After appending a fresh one-slot section entry, the whole context is
    /// coherent again.
    proof fn lemma_push_cache(
        self,
        mid: PathfinderCtx,
        old_list: Seq<(SectionPos, CachedBlocks)>,
        sp: SectionPos,
        pos: BlockPos,
        idx: int,
        answer: bool,
        for_passable: bool,
    )
        requires
            mid.wf(),
            self.cached_chunks@ == mid.cached_chunks@,
            self.min_y == mid.min_y,
            self.lock_touches@ == mid.lock_touches@,
            if for_passable {
                self.cached_block_solid@ == mid.cached_block_solid@
                    && old_list == mid.cached_block_passable@ && self.cached_block_passable@
                    == old_list.push((sp, self.cached_block_passable@[old_list.len() as int].1))
            } else {
                self.cached_block_passable@ == mid.cached_block_passable@
                    && old_list == mid.cached_block_solid@ && self.cached_block_solid@
                    == old_list.push((sp, self.cached_block_solid@[old_list.len() as int].1))
            },
            assoc_find(old_list, sp) is None,
            pos.spec_section() == sp,
            idx == section_index(pos.x as int, pos.y as int, pos.z as int),
            0 <= idx < 4096,
            for_passable ==> fresh_entry_ok(
                self.cached_block_passable@[old_list.len() as int].1,
                idx,
                answer,
            ),
            !for_passable ==> fresh_entry_ok(
                self.cached_block_solid@[old_list.len() as int].1,
                idx,
                answer,
            ),
            mid.chunk_known(pos.spec_chunk()),
            answer == (if for_passable {
                mid.spec_passable(pos)
            } else {
                mid.spec_solid(pos)
            }),
        ensures
            self.wf(),
            self.extends(mid),
    {
        lemma_section_index_bounds(pos.x as int, pos.y as int, pos.z as int);
        let list = if for_passable {
            self.cached_block_passable@
        } else {
            self.cached_block_solid@
        };
        let n = old_list.len() as int;
        let cb = list[n].1;
        lemma_assoc_find_absent(old_list, sp);
        assert forall|a: int, b: int| 0 <= a < b < list.len() implies list[a].0 != list[b].0 by {
            assert(list[a].0 == old_list[a].0);
            if b < n {
                assert(list[b].0 == old_list[b].0);
            }
        }
        assert forall|p2: BlockPos|
            (#[trigger] p2.spec_section()) == sp && cb.present@[section_index(
                p2.x as int,
                p2.y as int,
                p2.z as int,
            )] implies (assoc_find(self.cached_chunks@, p2.spec_chunk()) is Some) && cb.value@[
            section_index(p2.x as int, p2.y as int, p2.z as int)] == (if for_passable {
            spec_opt_passable(spec_block_of(self.cached_chunks@, self.min_y as int, p2))
        } else {
            spec_opt_solid(spec_block_of(self.cached_chunks@, self.min_y as int, p2))
        }) by {
            let i2 = section_index(p2.x as int, p2.y as int, p2.z as int);
            lemma_section_index_bounds(p2.x as int, p2.y as int, p2.z as int);
            assert(i2 == idx);
            lemma_voxel_unique_in_section(pos, p2);
        }
        assert forall|j: int|
            0 <= j < list.len() implies cache_ok(
            self.cached_chunks@,
            self.min_y as int,
            (#[trigger] list[j]).0,
            list[j].1,
            for_passable,
        ) by {
            if j < n {
                assert(list[j] == old_list[j]);
                assert(cache_ok(
                    mid.cached_chunks@,
                    mid.min_y as int,
                    old_list[j].0,
                    old_list[j].1,
                    for_passable,
                ));
            }
        }
    }
}

/// Find the cache entry for a section, scanning left to right.
fn find_cache(s: &Vec<(SectionPos, CachedBlocks)>, sp: SectionPos) -> (r: Option<usize>)
    ensures
        match r {
            Some(i) => i < s@.len() && s@[i as int].0 == sp && assoc_find(s@, sp) == Some(
                s@[i as int].1,
            ),
            None => assoc_find(s@, sp) is None,
        },
{
    let n: usize = s.len();
    let mut i: usize = 0;
    while i < n
        invariant
            n == s@.len(),
            i <= n,
            forall|j: int| 0 <= j < i ==> s@[j].0 != sp,
        decreases n - i,
    {
        if s[i].0 == sp {
            proof {
                lemma_assoc_find_at(s@, sp, i as int);
            }
            return Some(i);
        }
        i = i + 1;
    }
    proof {
        lemma_assoc_find_none(s@, sp);
    }
    None
}

/// Later snapshots never contradict earlier ones: once a voxel's chunk has
/// been captured by a context, every later state of that context reports
/// the same block and the same predicates for the voxel.
pub proof fn lemma_query_stable(a: PathfinderCtx, b: PathfinderCtx, pos: BlockPos)
    requires
        b.extends(a),
        a.chunk_known(pos.spec_chunk()),
    ensures
        b.chunk_known(pos.spec_chunk()),
        b.spec_block(pos) == a.spec_block(pos),
        b.spec_passable(pos) == a.spec_passable(pos),
        b.spec_solid(pos) == a.spec_solid(pos),
{
}

/// How the closed predicates unfold: each is the fail-safe classification
/// of the block the snapshots hold, and a voxel with block data has its
/// chunk captured.
pub proof fn lemma_predicate_definition(c: PathfinderCtx, pos: BlockPos)
    ensures
        c.spec_passable(pos) == spec_opt_passable(c.spec_block(pos)),
        c.spec_solid(pos) == spec_opt_solid(c.spec_block(pos)),
        c.spec_block(pos) is Some ==> c.chunk_known(pos.spec_chunk()),
{
}

/// Fail-safe on absent data: a voxel whose snapshot holds no block — its
/// chunk unloaded when captured, never captured, or outside the stored
/// sections — is neither passable nor solid, so a search never routes
/// through unknown terrain.
pub proof fn lemma_fail_safe(c: PathfinderCtx, pos: BlockPos)
    requires
        c.spec_block(pos) is None,
    ensures
        !c.spec_passable(pos),
        !c.spec_solid(pos),
{
}

/// A context extends every state that an intermediate state extends.
pub proof fn lemma_extends_trans(a: PathfinderCtx, b: PathfinderCtx, c: PathfinderCtx)
    requires
        c.extends(b),
        b.extends(a),
    ensures
        c.extends(a),
{
}

/// The world's read lock is touched exactly once per distinct captured
/// chunk, however many voxel queries the search has made.
pub proof fn lemma_lock_touch_minimality(c: PathfinderCtx)
    requires
        c.wf(),
    ensures
        c.locks() == c.chunks_fetched(),
{
}

} // verus!
