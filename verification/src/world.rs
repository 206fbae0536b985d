use crate::assoc::{
    assoc_find, distinct_keys, lemma_assoc_find_absent, lemma_assoc_find_at,
    lemma_assoc_find_none, lemma_assoc_find_push, lemma_assoc_find_update,
};
use crate::block::BlockState;
use crate::pos::{
    lemma_digits_unique, lemma_section_coord_bounds, section_coord, section_index, BlockPos,
    ChunkPos,
};
use vstd::arithmetic::div_mod::{lemma_fundamental_div_mod, lemma_mod_bound};
use vstd::prelude::*;

verus! {

/// One 16 x 16 x 16 section of block states, stored row-major.
#[derive(Clone)]
pub struct Section {
    pub blocks: Vec<BlockState>,
}

/// One chunk: a vertical stack of sections, the lowest one starting at the
/// world's minimum y.
#[derive(Clone)]
pub struct Chunk {
    pub sections: Vec<Section>,
}

/// The store of loaded chunks that a search reads through its world handle:
/// a minimum y bound and the loaded chunks, keyed by chunk coordinate.
#[derive(Clone)]
pub struct WorldData {
    pub min_y: i32,
    pub chunks: Vec<(ChunkPos, Chunk)>,
}

impl Section {
    /// The block at a row-major index, if the index is within the stored
    /// data.
    pub open spec fn spec_block_at(self, idx: int) -> Option<BlockState> {
        if 0 <= idx < self.blocks@.len() {
            Some(self.blocks@[idx])
        } else {
            None
        }
    }

    /// A section holding nothing but air.
    pub fn all_air() -> (r: Section)
        ensures
            r.blocks@.len() == 4096,
            forall|i: int| 0 <= i < 4096 ==> r.blocks@[i] == BlockState::spec_air(),
    {
        let mut blocks: Vec<BlockState> = Vec::new();
        let mut n: usize = 0;
        while n < 4096
            invariant
                blocks@.len() == n as int,
                n <= 4096,
                forall|j: int| 0 <= j < n ==> blocks@[j] == BlockState::spec_air(),
            decreases 4096 - n,
        {
            blocks.push(BlockState::air());
            n = n + 1;
        }
        Section { blocks }
    }
}

impl Chunk {
    /// The block this chunk holds at a world position, given the world's
    /// minimum y. Positions outside the stored sections have no data.
    pub open spec fn spec_block(self, min_y: int, pos: BlockPos) -> Option<BlockState> {
        if pos.y < min_y || (pos.y - min_y) / 16 >= self.sections@.len() {
            None
        } else {
            self.sections@[(pos.y - min_y) / 16].spec_block_at(
                section_index(pos.x as int, pos.y as int, pos.z as int),
            )
        }
    }

    /// A chunk of `n` sections holding nothing but air.
    pub fn all_air(n: usize) -> (r: Chunk)
        ensures
            r.sections@.len() == n as int,
            forall|s: int|
                0 <= s < n ==> r.sections@[s].blocks@.len() == 4096 && forall|i: int|
                    0 <= i < 4096 ==> #[trigger] r.sections@[s].blocks@[i]
                        == BlockState::spec_air(),
    {
        let mut sections: Vec<Section> = Vec::new();
        let mut k: usize = 0;
        while k < n
            invariant
                sections@.len() == k as int,
                k <= n,
                forall|s: int|
                    0 <= s < k ==> sections@[s].blocks@.len() == 4096 && forall|i: int|
                        0 <= i < 4096 ==> #[trigger] sections@[s].blocks@[i]
                            == BlockState::spec_air(),
            decreases n - k,
        {
            sections.push(Section::all_air());
            k = k + 1;
        }
        Chunk { sections }
    }

    /// Read the block at a world position from this chunk's sections.
    pub fn block_at(&self, min_y: i32, pos: BlockPos) -> (r: Option<BlockState>)
        ensures
            r == self.spec_block(min_y as int, pos),
    {
        if pos.y < min_y {
            return None;
        }
        let dy: u64 = ((pos.y as i64) - (min_y as i64)) as u64;
        let si: u64 = dy / 16;
        if si >= self.sections.len() as u64 {
            return None;
        }
        let idx: usize = pos.local_index();
        let s: &Section = &self.sections[si as usize];
        if idx < s.blocks.len() {
            Some(s.blocks[idx])
        } else {
            None
        }
    }
}

impl WorldData {
    /// Chunk keys are unique, so a lookup is unambiguous.
    pub open spec fn wf(self) -> bool {
        distinct_keys(self.chunks@)
    }

    /// The loaded chunk at a chunk coordinate, if any.
    pub open spec fn spec_chunk_at(self, p: ChunkPos) -> Option<Chunk> {
        assoc_find(self.chunks@, p)
    }

    /// The block at a voxel, if its chunk is loaded and stores data there.
    pub open spec fn spec_block(self, pos: BlockPos) -> Option<BlockState> {
        match self.spec_chunk_at(pos.spec_chunk()) {
            Some(c) => c.spec_block(self.min_y as int, pos),
            None => None,
        }
    }

    /// An empty world with the given minimum y bound.
    pub fn new(min_y: i32) -> (r: WorldData)
        ensures
            r.wf(),
            r.min_y == min_y,
            r.chunks@.len() == 0,
            forall|p: ChunkPos| r.spec_chunk_at(p) is None,
            forall|pos: BlockPos| r.spec_block(pos) is None,
    {
        let r = WorldData { min_y, chunks: Vec::new() };
        proof {
            assert forall|p: ChunkPos| r.spec_chunk_at(p) is None by {
                lemma_assoc_find_none(r.chunks@, p);
            }
        }
        r
    }

    /// Find the index of a chunk's entry, scanning left to right.
    fn find_chunk(&self, p: ChunkPos) -> (r: Option<usize>)
        ensures
            match r {
                Some(i) => i < self.chunks@.len() && self.chunks@[i as int].0 == p
                    && self.spec_chunk_at(p) == Some(self.chunks@[i as int].1),
                None => self.spec_chunk_at(p) is None,
            },
    {
        let n: usize = self.chunks.len();
        let mut i: usize = 0;
        while i < n
            invariant
                n == self.chunks@.len(),
                i <= n,
                forall|j: int| 0 <= j < i ==> self.chunks@[j].0 != p,
            decreases n - i,
        {
            if self.chunks[i].0 == p {
                proof {
                    lemma_assoc_find_at(self.chunks@, p, i as int);
                }
                return Some(i);
            }
            i = i + 1;
        }
        proof {
            lemma_assoc_find_none(self.chunks@, p);
        }
        None
    }

    /// The loaded chunk at a coordinate, if any.
    pub fn chunk_ref(&self, p: ChunkPos) -> (r: Option<&Chunk>)
        ensures
            match r {
                Some(c) => self.spec_chunk_at(p) == Some(*c),
                None => self.spec_chunk_at(p) is None,
            },
    {
        match self.find_chunk(p) {
            Some(i) => Some(&self.chunks[i].1),
            None => None,
        }
    }

    /// Take the loaded chunk at a coordinate out of this world value, if
    /// any.
    pub fn into_chunk(self, p: ChunkPos) -> (r: Option<Chunk>)
        ensures
            r == self.spec_chunk_at(p),
    {
        match self.find_chunk(p) {
            Some(i) => {
                let mut this = self;
                let entry = this.chunks.remove(i);
                Some(entry.1)
            },
            None => None,
        }
    }

    /// Add a chunk under a coordinate no chunk holds yet. Returns false and
    /// leaves the world unchanged if the coordinate is already taken.
    pub fn insert_chunk(&mut self, p: ChunkPos, c: Chunk) -> (r: bool)
        requires
            old(self).wf(),
        ensures
            final(self).wf(),
            final(self).min_y == old(self).min_y,
            r == (old(self).spec_chunk_at(p) is None),
            !r ==> *final(self) == *old(self),
            r ==> forall|q: ChunkPos| final(self).spec_chunk_at(q) == (if q == p {
                Some(c)
            } else {
                old(self).spec_chunk_at(q)
            }),
    {
        match self.find_chunk(p) {
            Some(_) => false,
            None => {
                proof {
                    lemma_assoc_find_absent(self.chunks@, p);
                }
                let ghost old_chunks = self.chunks@;
                self.chunks.push((p, c));
                proof {
                    assert forall|q: ChunkPos| self.spec_chunk_at(q) == (if q == p {
                        Some(c)
                    } else {
                        assoc_find(old_chunks, q)
                    }) by {
                        lemma_assoc_find_push(old_chunks, p, c, q);
                        if q != p && assoc_find(old_chunks, q) is None {
                        }
                    }
                    assert forall|a: int, b: int|
                        0 <= a < b < self.chunks@.len() implies self.chunks@[a].0
                        != self.chunks@[b].0 by {
                        if b == old_chunks.len() as int {
                            assert(self.chunks@[a].0 != p);
                        }
                    }
                }
                true
            },
        }
    }

    /// Overwrite one voxel's block state. Returns false and leaves the world
    /// unchanged if the voxel's chunk is not loaded or stores no data there.
    pub fn set_block_state(&mut self, pos: BlockPos, b: BlockState) -> (r: bool)
        requires
            old(self).wf(),
        ensures
            final(self).wf(),
            final(self).min_y == old(self).min_y,
            r == (old(self).spec_block(pos) is Some),
            !r ==> *final(self) == *old(self),
            r ==> final(self).spec_block(pos) == Some(b),
            r ==> forall|q: BlockPos|
                q != pos ==> final(self).spec_block(q) == old(self).spec_block(q),
    {
        let cp = pos.chunk();
        let i: usize = match self.find_chunk(cp) {
            Some(i) => i,
            None => {
                return false;
            },
        };
        let min_y = self.min_y;
        if pos.y < min_y {
            return false;
        }
        let dy: u64 = ((pos.y as i64) - (min_y as i64)) as u64;
        let si: u64 = dy / 16;
        if si >= self.chunks[i].1.sections.len() as u64 {
            return false;
        }
        let idx: usize = pos.local_index();
        if idx >= self.chunks[i].1.sections[si as usize].blocks.len() {
            return false;
        }
        let ghost old_chunks = self.chunks@;
        let ghost old_chunk = self.chunks@[i as int].1;
        {
            let entry: &mut (ChunkPos, Chunk) = &mut self.chunks[i];
            let sec: &mut Section = &mut entry.1.sections[si as usize];
            let slot: &mut BlockState = &mut sec.blocks[idx];
            *slot = b;
        }
        proof {
            let ip = i as int;
            let sip = si as int;
            let idxp = idx as int;
            let my = min_y as int;
            let nc = self.chunks@[ip].1;
            assert(self.chunks@ =~= old_chunks.update(ip, (cp, nc)));
            assert(nc.sections@ =~= old_chunk.sections@.update(sip, nc.sections@[sip]));
            let ns = nc.sections@[sip];
            assert(ns.blocks@ =~= old_chunk.sections@[sip].blocks@.update(idxp, b));
            assert forall|a: int, c: int|
                0 <= a < c < self.chunks@.len() implies self.chunks@[a].0
                != self.chunks@[c].0 by {
                assert(self.chunks@[a].0 == old_chunks[a].0);
                assert(self.chunks@[c].0 == old_chunks[c].0);
            }
            lemma_assoc_find_update(old_chunks, ip, cp, nc, cp);
            assert(self.spec_chunk_at(cp) == Some(nc));
            assert(nc.spec_block(my, pos) == Some(b));
            assert forall|q: BlockPos| q != pos implies self.spec_block(q) == old(
                self,
            ).spec_block(q) by {
                lemma_assoc_find_update(old_chunks, ip, cp, nc, q.spec_chunk());
                if q.spec_chunk() == cp {
                    if q.y >= my && (q.y - my) / 16 < old_chunk.sections@.len() {
                        let qs = (q.y - my) / 16;
                        if qs == sip {
                            let qi = section_index(q.x as int, q.y as int, q.z as int);
                            if qi == idxp {
                                lemma_voxel_unique(pos, q, my);
                                assert(false);
                            }
                        }
                    }
                }
            }
        }
        true
    }
}

/// Two voxels in the same chunk, the same section row and the same
/// row-major slot are the same voxel.
proof fn lemma_voxel_unique(p: BlockPos, q: BlockPos, min_y: int)
    requires
        p.spec_chunk() == q.spec_chunk(),
        (p.y - min_y) / 16 == (q.y - min_y) / 16,
        section_index(p.x as int, p.y as int, p.z as int) == section_index(
            q.x as int,
            q.y as int,
            q.z as int,
        ),
    ensures
        p == q,
{
    lemma_section_coord_bounds(p.x as int);
    lemma_section_coord_bounds(q.x as int);
    lemma_section_coord_bounds(p.z as int);
    lemma_section_coord_bounds(q.z as int);
    lemma_section_coord_bounds(p.y as int);
    lemma_section_coord_bounds(q.y as int);
    lemma_digits_unique(
        (p.y as int) % 16,
        (p.z as int) % 16,
        (p.x as int) % 16,
        (q.y as int) % 16,
        (q.z as int) % 16,
        (q.x as int) % 16,
    );
    assert(section_coord(p.x as int) == section_coord(q.x as int));
    assert(section_coord(p.z as int) == section_coord(q.z as int));
    assert(p.x == q.x);
    assert(p.z == q.z);
    lemma_fundamental_div_mod(p.y - min_y, 16);
    lemma_fundamental_div_mod(q.y - min_y, 16);
    lemma_mod_bound(p.y - min_y, 16);
    lemma_mod_bound(q.y - min_y, 16);
    assert(p.y - q.y == (p.y - min_y) % 16 - (q.y - min_y) % 16);
    assert(p.y - q.y == 16 * ((p.y as int) / 16) - 16 * ((q.y as int) / 16));
    assert(p.y == q.y);
}

} // verus!
