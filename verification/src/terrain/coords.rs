//! Coordinates: voxels of the world, chunks, and voxels within a chunk.

use vstd::prelude::*;
use vstd::std_specs::convert::FromSpecImpl;

verus! {

/// The number of voxels of a chunk along each axis of chunk space.
pub const CHUNK_LEN: i32 = 64;

/// The place of a voxel in the world.
#[derive(Clone, Copy, Debug, PartialEq, Eq, Hash, Structural)]
pub struct VoxelPos {
    pub x: i32,
    pub y: i32,
    pub z: i32,
}

/// The place of a chunk among the chunks: its first voxel lies at
/// `CHUNK_LEN` times as much.
#[derive(Clone, Copy, Debug, PartialEq, Eq, Hash, Structural)]
pub struct ChunkPos {
    pub x: i32,
    pub y: i32,
    pub z: i32,
}

/// The place of a voxel within its chunk, from 0 to `CHUNK_LEN - 1` along
/// each axis.
#[derive(Clone, Copy, Debug, PartialEq, Eq, Hash, Structural)]
pub struct LocalPos {
    pub x: u8,
    pub y: u8,
    pub z: u8,
}

/// `a / b` rounded towards zero, for a positive `b`.
pub open spec fn trunc_div(a: int, b: int) -> int {
    if a >= 0 {
        a / b
    } else {
        -((-a) / b)
    }
}

/// Whether `c` is the coordinate of the chunk that holds the voxel
/// coordinate `v`.
pub open spec fn holds(c: int, v: int) -> bool {
    0 <= v - c * CHUNK_LEN < CHUNK_LEN
}

/// The first voxel of the chunk at `pos`: `CHUNK_LEN` times the chunk's
/// coordinates, each wrapped around where it does not fit in thirty-two bits.
pub open spec fn first_voxel(pos: ChunkPos) -> VoxelPos {
    VoxelPos {
        x: pos.x.wrapping_mul(CHUNK_LEN),
        y: pos.y.wrapping_mul(CHUNK_LEN),
        z: pos.z.wrapping_mul(CHUNK_LEN),
    }
}

/// The voxel's coordinates divided by `CHUNK_LEN`, rounded towards zero.
pub open spec fn chunk_towards_zero(pos: VoxelPos) -> ChunkPos {
    ChunkPos {
        x: trunc_div(pos.x as int, CHUNK_LEN as int) as i32,
        y: trunc_div(pos.y as int, CHUNK_LEN as int) as i32,
        z: trunc_div(pos.z as int, CHUNK_LEN as int) as i32,
    }
}

impl VoxelPos {
    /// Whether the voxel lies in the chunk at `pos`.
    pub open spec fn belongs_to(self, pos: ChunkPos) -> bool {
        &&& holds(pos.x as int, self.x as int)
        &&& holds(pos.y as int, self.y as int)
        &&& holds(pos.z as int, self.z as int)
    }

    /// The place of the voxel within the chunk at `pos`.
    pub open spec fn local_in(self, pos: ChunkPos) -> LocalPos {
        LocalPos {
            x: (self.x - pos.x * CHUNK_LEN) as u8,
            y: (self.y - pos.y * CHUNK_LEN) as u8,
            z: (self.z - pos.z * CHUNK_LEN) as u8,
        }
    }

    /// The chunk that holds the voxel.
    pub open spec fn chunk(self) -> ChunkPos {
        ChunkPos {
            x: (self.x as int / CHUNK_LEN as int) as i32,
            y: (self.y as int / CHUNK_LEN as int) as i32,
            z: (self.z as int / CHUNK_LEN as int) as i32,
        }
    }

    /// Whether the voxel lies in the chunk at `pos`.
    pub fn in_chunk(self, pos: ChunkPos) -> (r: bool)
        ensures
            r == self.belongs_to(pos),
    {
        let dx = self.x as i64 - (pos.x as i64) * 64;
        let dy = self.y as i64 - (pos.y as i64) * 64;
        let dz = self.z as i64 - (pos.z as i64) * 64;
        0 <= dx && dx < 64 && 0 <= dy && dy < 64 && 0 <= dz && dz < 64
    }

    /// The place of the voxel within the chunk at `pos`, which must be the
    /// chunk that holds it.
    pub fn as_local(self, pos: ChunkPos) -> (local: LocalPos)
        requires
            self.belongs_to(pos),
        ensures
            local == self.local_in(pos),
            local.x < CHUNK_LEN,
            local.y < CHUNK_LEN,
            local.z < CHUNK_LEN,
    {
        let base = VoxelPos::from(pos);
        LocalPos {
            x: (self.x - base.x) as u8,
            y: (self.y - base.y) as u8,
            z: (self.z - base.z) as u8,
        }
    }
}

impl LocalPos {
    /// The place in the world of the voxel at this place within the chunk at
    /// `pos`.
    pub open spec fn voxel_in(self, pos: ChunkPos) -> VoxelPos {
        VoxelPos {
            x: (pos.x * CHUNK_LEN + self.x) as i32,
            y: (pos.y * CHUNK_LEN + self.y) as i32,
            z: (pos.z * CHUNK_LEN + self.z) as i32,
        }
    }

    /// Whether the voxel at this place within the chunk at `pos` has a place
    /// in the world: its coordinates fit in thirty-two bits.
    pub open spec fn fits_in(self, pos: ChunkPos) -> bool {
        &&& i32::MIN <= pos.x * CHUNK_LEN && pos.x * CHUNK_LEN + self.x <= i32::MAX
        &&& i32::MIN <= pos.y * CHUNK_LEN && pos.y * CHUNK_LEN + self.y <= i32::MAX
        &&& i32::MIN <= pos.z * CHUNK_LEN && pos.z * CHUNK_LEN + self.z <= i32::MAX
    }

    /// The place in the world of the voxel at this place within the chunk at
    /// `pos`.
    pub fn as_voxel(self, pos: ChunkPos) -> (voxel: VoxelPos)
        requires
            self.fits_in(pos),
        ensures
            voxel == self.voxel_in(pos),
    {
        let base = VoxelPos::from(pos);
        VoxelPos {
            x: self.x as i32 + base.x,
            y: self.y as i32 + base.y,
            z: self.z as i32 + base.z,
        }
    }
}

impl From<ChunkPos> for VoxelPos {
    /// The first voxel of the chunk. A coordinate that does not fit in
    /// thirty-two bits wraps around.
    fn from(pos: ChunkPos) -> (voxel: VoxelPos) {
        VoxelPos {
            x: pos.x.wrapping_mul(CHUNK_LEN),
            y: pos.y.wrapping_mul(CHUNK_LEN),
            z: pos.z.wrapping_mul(CHUNK_LEN),
        }
    }
}

impl FromSpecImpl<ChunkPos> for VoxelPos {
    open spec fn obeys_from_spec() -> bool {
        true
    }

    open spec fn from_spec(pos: ChunkPos) -> VoxelPos {
        first_voxel(pos)
    }
}

impl From<VoxelPos> for ChunkPos {
    /// The voxel's coordinates divided by `CHUNK_LEN`, rounded towards zero.
    /// For a voxel with no negative coordinate this is the chunk that holds
    /// it.
    fn from(pos: VoxelPos) -> (chunk: ChunkPos) {
        ChunkPos { x: trunc_div_exec(pos.x), y: trunc_div_exec(pos.y), z: trunc_div_exec(pos.z) }
    }
}

impl FromSpecImpl<VoxelPos> for ChunkPos {
    open spec fn obeys_from_spec() -> bool {
        true
    }

    open spec fn from_spec(pos: VoxelPos) -> ChunkPos {
        chunk_towards_zero(pos)
    }
}

/// `v / CHUNK_LEN`, rounded towards zero.
fn trunc_div_exec(v: i32) -> (q: i32)
    ensures
        q == trunc_div(v as int, CHUNK_LEN as int),
{
    if v >= 0 {
        v / 64
    } else {
        let up: i64 = -(v as i64);
        (-(up / 64)) as i32
    }
}

/// Where the product fits, the first voxel of a chunk lies at `CHUNK_LEN`
/// times the chunk's coordinates.
pub proof fn lemma_first_voxel(pos: ChunkPos)
    requires
        i32::MIN <= pos.x * CHUNK_LEN <= i32::MAX,
        i32::MIN <= pos.y * CHUNK_LEN <= i32::MAX,
        i32::MIN <= pos.z * CHUNK_LEN <= i32::MAX,
    ensures
        first_voxel(pos) == (VoxelPos {
            x: (pos.x * CHUNK_LEN) as i32,
            y: (pos.y * CHUNK_LEN) as i32,
            z: (pos.z * CHUNK_LEN) as i32,
        }),
{
}

/// Local and world coordinates are inverses of each other: a voxel of the
/// chunk at `pos`, taken to its place within the chunk and back, is where
/// it was.
pub proof fn lemma_voxel_round_trip(voxel: VoxelPos, pos: ChunkPos)
    requires
        voxel.belongs_to(pos),
    ensures
        voxel.local_in(pos).fits_in(pos),
        voxel.local_in(pos).voxel_in(pos) == voxel,
{
}

/// And the other way round: a place within the chunk at `pos`, taken to the
/// world and back, is where it was.
pub proof fn lemma_local_round_trip(local: LocalPos, pos: ChunkPos)
    requires
        local.x < CHUNK_LEN,
        local.y < CHUNK_LEN,
        local.z < CHUNK_LEN,
        local.fits_in(pos),
    ensures
        local.voxel_in(pos).belongs_to(pos),
        local.voxel_in(pos).local_in(pos) == local,
{
}

/// Every voxel lies in exactly one chunk. For a voxel with no negative
/// coordinate that is the chunk that rounding towards zero gives.
pub proof fn lemma_one_chunk(voxel: VoxelPos, pos: ChunkPos)
    ensures
        voxel.belongs_to(voxel.chunk()),
        voxel.belongs_to(pos) ==> pos == voxel.chunk(),
        voxel.x >= 0 && voxel.y >= 0 && voxel.z >= 0 ==> chunk_towards_zero(voxel) == voxel.chunk(),
{
}

} // verus!
