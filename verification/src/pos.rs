use vstd::arithmetic::div_mod::{
    lemma_fundamental_div_mod, lemma_fundamental_div_mod_converse_div,
    lemma_fundamental_div_mod_converse_mod,
};
use vstd::prelude::*;

verus! {

/// Section coordinate of a voxel coordinate: the coordinate divided by 16,
/// rounded toward negative infinity.
pub open spec fn section_coord(v: int) -> int {
    v / 16
}

/// Offset of a voxel coordinate inside its 16-block section, always in 0..16.
pub open spec fn section_offset(v: int) -> int {
    v % 16
}

/// The row-major index of a voxel inside its 16 x 16 x 16 section, in 0..4096.
pub open spec fn section_index(x: int, y: int, z: int) -> int {
    section_offset(y) * 256 + section_offset(z) * 16 + section_offset(x)
}

/// A voxel position, identified by integer block coordinates.
#[derive(Clone, Copy, PartialEq, Eq, Structural, Debug)]
pub struct BlockPos {
    pub x: i32,
    pub y: i32,
    pub z: i32,
}

/// The horizontal coordinate of one chunk (a vertical stack of sections).
#[derive(Clone, Copy, PartialEq, Eq, Structural, Debug)]
pub struct ChunkPos {
    pub x: i32,
    pub z: i32,
}

/// The coordinate of one 16 x 16 x 16 section of the world.
#[derive(Clone, Copy, PartialEq, Eq, Structural, Debug)]
pub struct SectionPos {
    pub x: i32,
    pub y: i32,
    pub z: i32,
}

impl BlockPos {
    pub fn new(x: i32, y: i32, z: i32) -> (r: BlockPos)
        ensures
            r == (BlockPos { x, y, z }),
    {
        BlockPos { x, y, z }
    }

    /// The spec-level position `n` blocks above this one.
    pub open spec fn spec_up(self, n: int) -> BlockPos {
        BlockPos { x: self.x, y: (self.y + n) as i32, z: self.z }
    }

    /// The spec-level position `n` blocks below this one.
    pub open spec fn spec_down(self, n: int) -> BlockPos {
        BlockPos { x: self.x, y: (self.y - n) as i32, z: self.z }
    }

    /// The position `n` blocks above this one.
    pub fn up(self, n: i32) -> (r: BlockPos)
        requires
            self.y + n <= i32::MAX,
            i32::MIN <= self.y + n,
        ensures
            r == self.spec_up(n as int),
            r.y == self.y + n,
    {
        BlockPos { x: self.x, y: self.y + n, z: self.z }
    }

    /// The position `n` blocks below this one.
    pub fn down(self, n: i32) -> (r: BlockPos)
        requires
            i32::MIN <= self.y - n,
            self.y - n <= i32::MAX,
        ensures
            r == self.spec_down(n as int),
            r.y == self.y - n,
    {
        BlockPos { x: self.x, y: self.y - n, z: self.z }
    }

    /// The coordinate of the chunk that contains this voxel.
    pub open spec fn spec_chunk(self) -> ChunkPos {
        ChunkPos { x: section_coord(self.x as int) as i32, z: section_coord(self.z as int) as i32 }
    }

    /// The coordinate of the section that contains this voxel.
    pub open spec fn spec_section(self) -> SectionPos {
        SectionPos {
            x: section_coord(self.x as int) as i32,
            y: section_coord(self.y as int) as i32,
            z: section_coord(self.z as int) as i32,
        }
    }

    pub fn chunk(self) -> (r: ChunkPos)
        ensures
            r == self.spec_chunk(),
    {
        ChunkPos { x: floor_div_16(self.x), z: floor_div_16(self.z) }
    }

    pub fn section(self) -> (r: SectionPos)
        ensures
            r == self.spec_section(),
    {
        SectionPos { x: floor_div_16(self.x), y: floor_div_16(self.y), z: floor_div_16(self.z) }
    }

    /// The row-major index of this voxel inside its section.
    pub fn local_index(self) -> (r: usize)
        ensures
            r == section_index(self.x as int, self.y as int, self.z as int),
            r < 4096,
    {
        let lx = section_rem_16(self.x);
        let ly = section_rem_16(self.y);
        let lz = section_rem_16(self.z);
        (ly as usize) * 256 + (lz as usize) * 16 + (lx as usize)
    }
}

/// Bounds of the section coordinate: dividing an `i32` by 16 stays well
/// within `i32` range.
pub proof fn lemma_section_coord_bounds(v: int)
    requires
        i32::MIN <= v <= i32::MAX,
    ensures
        i32::MIN <= section_coord(v) <= i32::MAX,
        0 <= section_offset(v) < 16,
        v == 16 * section_coord(v) + section_offset(v),
{
    lemma_fundamental_div_mod(v, 16);
    assert(0 <= v % 16 < 16) by {
        vstd::arithmetic::div_mod::lemma_mod_bound(v, 16);
    }
}

/// A section index always lies in 0..4096.
pub proof fn lemma_section_index_bounds(x: int, y: int, z: int)
    ensures
        0 <= section_index(x, y, z) < 4096,
{
    vstd::arithmetic::div_mod::lemma_mod_bound(x, 16);
    vstd::arithmetic::div_mod::lemma_mod_bound(y, 16);
    vstd::arithmetic::div_mod::lemma_mod_bound(z, 16);
}

/// Three base-16 digits determine their packed index and are determined
/// by it.
pub proof fn lemma_digits_unique(a1: int, b1: int, c1: int, a2: int, b2: int, c2: int)
    requires
        0 <= a1 < 16,
        0 <= b1 < 16,
        0 <= c1 < 16,
        0 <= a2 < 16,
        0 <= b2 < 16,
        0 <= c2 < 16,
        a1 * 256 + b1 * 16 + c1 == a2 * 256 + b2 * 16 + c2,
    ensures
        a1 == a2,
        b1 == b2,
        c1 == c2,
{
}

/// Two voxels in the same section with the same row-major index are the
/// same voxel.
pub proof fn lemma_voxel_unique_in_section(p: BlockPos, q: BlockPos)
    requires
        p.spec_section() == q.spec_section(),
        section_index(p.x as int, p.y as int, p.z as int) == section_index(
            q.x as int,
            q.y as int,
            q.z as int,
        ),
    ensures
        p == q,
{
    lemma_section_coord_bounds(p.x as int);
    lemma_section_coord_bounds(q.x as int);
    lemma_section_coord_bounds(p.y as int);
    lemma_section_coord_bounds(q.y as int);
    lemma_section_coord_bounds(p.z as int);
    lemma_section_coord_bounds(q.z as int);
    lemma_digits_unique(
        (p.y as int) % 16,
        (p.z as int) % 16,
        (p.x as int) % 16,
        (q.y as int) % 16,
        (q.z as int) % 16,
        (q.x as int) % 16,
    );
    assert(section_coord(p.x as int) == section_coord(q.x as int));
    assert(section_coord(p.y as int) == section_coord(q.y as int));
    assert(section_coord(p.z as int) == section_coord(q.z as int));
}

/// The coordinate divided by 16, rounded toward negative infinity.
pub fn floor_div_16(v: i32) -> (r: i32)
    ensures
        r as int == section_coord(v as int),
{
    proof {
        lemma_section_coord_bounds(v as int);
    }
    if v >= 0 {
        let q: u32 = (v as u32) / 16;
        proof {
            lemma_fundamental_div_mod_converse_div(v as int, 16, q as int, v as int % 16);
        }
        q as i32
    } else {
        let m: u64 = (-(v as i64)) as u64;
        let q: u64 = (m + 15) / 16;
        proof {
            let s = section_offset(v as int);
            let d = section_coord(v as int);
            // m + 15 == 16 * (-d) + (15 - s), with 0 <= 15 - s < 16
            assert(m as int == 16 * (-d) + (0 - s)) by {
                lemma_fundamental_div_mod(v as int, 16);
            }
            assert((m + 15) as int == (-d) * 16 + (15 - s));
            lemma_fundamental_div_mod_converse_div((m + 15) as int, 16, -d, 15 - s);
        }
        -(q as i32)
    }
}

/// The offset of the coordinate inside its section, always in 0..16.
pub fn section_rem_16(v: i32) -> (r: u8)
    ensures
        r as int == section_offset(v as int),
        r < 16,
{
    let d = floor_div_16(v);
    proof {
        lemma_section_coord_bounds(v as int);
    }
    ((v as i64) - 16 * (d as i64)) as u8
}

} // verus!
