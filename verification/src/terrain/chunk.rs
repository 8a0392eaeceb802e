//! Chunks: the density volume of one tile of the world.

use crate::config::generator::GeneratorConfig;
use crate::terrain::cache::{cache_contains, cache_get, cache_insert, cache_new, cached_states};
use crate::terrain::coords::{ChunkPos, VoxelPos};
use crate::terrain::grid::{
    box_of, density_cells, density_clone, density_dim, density_dim_of, density_from_shape_vec,
    density_get, in_box, nonzero_product, DensityArray,
};
use crate::terrain::mesh::{mesh_of, Mesh, MeshError, MeshView, MAX_VERTICES};
use crate::terrain::surface_net::{field_lattice, Lattice, SurfaceNet};
use crate::terrain::terrain_gen::{
    generated_chunk, heightmap_len, noise_request_of, NoiseRequest, TerrainGenerator, DEPTH,
    HEIGHT, WIDTH,
};
use vstd::prelude::*;

verus! {

/// The most samples that a chunk may hold along one axis.
pub const MAX_DIM: usize = 1024;

/// The density volume of one column of the world: a dense array of signed
/// samples, positive inside the solid and zero or negative outside it.
pub struct Chunk {
    x: i32,
    z: i32,
    data: DensityArray,
}

/// What a chunk is: its column and its samples.
pub struct ChunkView {
    pub x: i32,
    pub z: i32,
    /// The number of samples along x, y and z.
    pub dim: (nat, nat, nat),
    /// The sample at each index inside `dim`.
    pub cells: Map<(int, int, int), i64>,
}

impl View for Chunk {
    type V = ChunkView;

    closed spec fn view(&self) -> ChunkView {
        ChunkView {
            x: self.x,
            z: self.z,
            dim: density_dim(&self.data),
            cells: density_cells(&self.data),
        }
    }
}

impl Clone for Chunk {
    fn clone(&self) -> (copy: Chunk)
        ensures
            copy@ == self@,
    {
        Chunk { x: self.x, z: self.z, data: density_clone(&self.data) }
    }
}

/// The first `n` samples of the line `(x, y)`, each with its index.
pub open spec fn line_cells(chunk: ChunkView, x: int, y: int, n: int) -> Seq<
    ((usize, usize, usize), i64),
>
    decreases n,
{
    if n <= 0 {
        Seq::empty()
    } else {
        line_cells(chunk, x, y, n - 1).push(
            ((x as usize, y as usize, (n - 1) as usize), chunk.cells[(x, y, n - 1)]),
        )
    }
}

/// The samples of the first `n` lines of the plane `x`.
pub open spec fn plane_cells(chunk: ChunkView, x: int, n: int) -> Seq<((usize, usize, usize), i64)>
    decreases n,
{
    if n <= 0 {
        Seq::empty()
    } else {
        plane_cells(chunk, x, n - 1) + line_cells(chunk, x, n - 1, chunk.dim.2 as int)
    }
}

/// The samples of the first `n` planes.
pub open spec fn volume_cells(chunk: ChunkView, n: int) -> Seq<((usize, usize, usize), i64)>
    decreases n,
{
    if n <= 0 {
        Seq::empty()
    } else {
        volume_cells(chunk, n - 1) + plane_cells(chunk, n - 1, chunk.dim.1 as int)
    }
}

proof fn lemma_volume_fits(w: int, h: int, d: int)
    requires
        0 <= w <= MAX_DIM,
        0 <= h <= MAX_DIM,
        0 <= d <= MAX_DIM,
    ensures
        0 <= w * h * d <= 0x4000_0000,
        0 <= nonzero_product(w, h, d) <= 0x4000_0000,
{
    let a = if w == 0 { 1 } else { w };
    let b = if h == 0 { 1 } else { h };
    let c = if d == 0 { 1 } else { d };
    assert(0 <= a * b * c <= 0x4000_0000 && 0 <= w * h * d <= 0x4000_0000) by (nonlinear_arith)
        requires
            0 <= w <= a <= 1024,
            0 <= h <= b <= 1024,
            0 <= d <= c <= 1024,
    ;
}

impl Chunk {
    /// No axis is longer than `MAX_DIM`, and there is a sample at every
    /// index.
    pub open spec fn wf(&self) -> bool {
        &&& self@.dim.0 <= MAX_DIM
        &&& self@.dim.1 <= MAX_DIM
        &&& self@.dim.2 <= MAX_DIM
        &&& self@.cells.dom() == box_of(self@.dim)
    }

    /// Makes the chunk of column `(x, z)` from its samples in row-major
    /// order: the sample at `(i, j, k)` is `data[(i * dim.1 + j) * dim.2 + k]`.
    ///
    /// Fails where an axis is longer than `MAX_DIM` or `data` does not hold
    /// one sample for each index.
    pub fn new(x: i32, z: i32, dim: (usize, usize, usize), data: Vec<i64>) -> (r: Option<Chunk>)
        ensures
            r is Some <==> dim.0 <= MAX_DIM && dim.1 <= MAX_DIM && dim.2 <= MAX_DIM && dim.0
                * dim.1 * dim.2 == data@.len(),
            r matches Some(chunk) ==> {
                &&& chunk.wf()
                &&& chunk@.x == x
                &&& chunk@.z == z
                &&& chunk@.dim == (dim.0 as nat, dim.1 as nat, dim.2 as nat)
                &&& forall|i: int, j: int, k: int|
                    0 <= i < dim.0 && 0 <= j < dim.1 && 0 <= k < dim.2 ==> #[trigger] chunk@.cells[(
                        i,
                        j,
                        k,
                    )] == data@[(i * dim.1 + j) * dim.2 + k]
            },
    {
        if dim.0 > MAX_DIM || dim.1 > MAX_DIM || dim.2 > MAX_DIM {
            return None;
        }
        proof {
            lemma_volume_fits(dim.0 as int, dim.1 as int, dim.2 as int);
        }
        match density_from_shape_vec(dim.0, dim.1, dim.2, data) {
            Ok(data) => Some(Chunk { x, z, data }),
            Err(_) => None,
        }
    }

    /// The number of samples along x, y and z.
    pub fn dim(&self) -> (r: (usize, usize, usize))
        ensures
            (r.0 as nat, r.1 as nat, r.2 as nat) == self@.dim,
    {
        density_dim_of(&self.data)
    }

    /// The column of the world that the chunk covers.
    pub fn column(&self) -> (r: (i32, i32))
        ensures
            r == (self@.x, self@.z),
    {
        (self.x, self.z)
    }

    /// The samples with their indices, in the array's order: the last axis
    /// runs fastest.
    pub fn iter(&self) -> (cells: Vec<((usize, usize, usize), i64)>)
        ensures
            cells@ == volume_cells(self@, self@.dim.0 as int),
    {
        let (width, height, depth) = self.dim();
        let mut cells: Vec<((usize, usize, usize), i64)> = Vec::new();
        let mut x: usize = 0;
        while x < width
            invariant
                (width as nat, height as nat, depth as nat) == self@.dim,
                x <= width,
                cells@ == volume_cells(self@, x as int),
            decreases width - x,
        {
            let mut y: usize = 0;
            assert(cells@ =~= volume_cells(self@, x as int) + plane_cells(self@, x as int, 0));
            while y < height
                invariant
                    (width as nat, height as nat, depth as nat) == self@.dim,
                    x < width,
                    y <= height,
                    cells@ == volume_cells(self@, x as int) + plane_cells(self@, x as int, y as int),
                decreases height - y,
            {
                let mut z: usize = 0;
                assert(cells@ =~= volume_cells(self@, x as int) + plane_cells(
                    self@,
                    x as int,
                    y as int,
                ) + line_cells(self@, x as int, y as int, 0));
                while z < depth
                    invariant
                        (width as nat, height as nat, depth as nat) == self@.dim,
                        x < width,
                        y < height,
                        z <= depth,
                        cells@ == volume_cells(self@, x as int) + plane_cells(
                            self@,
                            x as int,
                            y as int,
                        ) + line_cells(self@, x as int, y as int, z as int),
                    decreases depth - z,
                {
                    let value = self.get((x, y, z)).unwrap();
                    cells.push(((x, y, z), value));
                    assert(cells@ =~= volume_cells(self@, x as int) + plane_cells(
                        self@,
                        x as int,
                        y as int,
                    ) + line_cells(self@, x as int, y as int, z + 1));
                    z += 1;
                }
                assert(cells@ =~= volume_cells(self@, x as int) + plane_cells(
                    self@,
                    x as int,
                    y + 1,
                ));
                y += 1;
            }
            assert(cells@ =~= volume_cells(self@, x + 1));
            x += 1;
        }
        cells
    }

    /// The sample at `idx`, or `None` where `idx` lies outside the chunk.
    pub fn get(&self, idx: (usize, usize, usize)) -> (r: Option<i64>)
        ensures
            r == (if in_box(self@.dim, idx.0 as int, idx.1 as int, idx.2 as int) {
                Some(self@.cells[(idx.0 as int, idx.1 as int, idx.2 as int)])
            } else {
                None
            }),
    {
        density_get(&self.data, idx.0, idx.1, idx.2)
    }
}

/// A chunk with the mesh drawn from it.
pub struct ChunkState {
    pub chunk: Chunk,
    pub mesh: Mesh,
}

/// What a chunk state is: the chunk and the mesh.
pub struct ChunkStateView {
    pub chunk: ChunkView,
    pub mesh: MeshView,
}

impl View for ChunkState {
    type V = ChunkStateView;

    open spec fn view(&self) -> ChunkStateView {
        ChunkStateView { chunk: self.chunk@, mesh: self.mesh@ }
    }
}

impl Clone for ChunkState {
    fn clone(&self) -> (copy: ChunkState)
        ensures
            copy@ == self@,
    {
        ChunkState { chunk: self.chunk.clone(), mesh: self.mesh.clone() }
    }
}

/// A change to the terrain.
#[derive(Clone, Copy, Debug, PartialEq, Eq, Structural)]
pub enum ChunkEvent {
    /// A new density for one voxel.
    Write(VoxelPos, i64),
}

/// The lattice of cubes of a chunk.
pub open spec fn lattice_of(chunk: ChunkView) -> Lattice {
    field_lattice(chunk.cells, ((WIDTH + 2) as nat, (HEIGHT + 2) as nat, (DEPTH + 2) as nat))
}

/// The state of the chunk of column `(x, z)`, generated from `noise` under
/// `config`: the chunk and its mesh.
pub open spec fn state_of(x: i32, z: i32, noise: Seq<i64>, config: GeneratorConfig)
    -> ChunkStateView {
    let chunk = generated_chunk(x, z, noise, config);
    ChunkStateView { chunk, mesh: mesh_of(lattice_of(chunk)) }
}

/// Keeps the chunks that have been loaded, each with its mesh, by the place
/// of the chunk.
pub struct ChunkManager {
    loaded: dashmap::DashMap<(i32, i32, i32), ChunkState>,
    terrain_gen: TerrainGenerator,
    surface_net: SurfaceNet,
}

/// The key under which the chunk at `pos` is kept.
pub open spec fn key_of(pos: ChunkPos) -> (i32, i32, i32) {
    (pos.x, pos.y, pos.z)
}

impl ChunkManager {
    /// The states of the loaded chunks, by `key_of` their places.
    pub closed spec fn loaded(&self) -> Map<(i32, i32, i32), ChunkStateView> {
        cached_states(&self.loaded)
    }

    /// The parameters that chunks are generated with.
    pub closed spec fn config(&self) -> GeneratorConfig {
        self.terrain_gen.config()
    }

    /// The extractor's tables are in order.
    pub closed spec fn wf(&self) -> bool {
        self.surface_net.wf()
    }

    /// A manager with no chunk loaded.
    pub fn new(terrain_gen: TerrainGenerator, surface_net: SurfaceNet) -> (manager: ChunkManager)
        requires
            surface_net.wf(),
        ensures
            manager.wf(),
            manager.config() == terrain_gen.config(),
            forall|key: (i32, i32, i32)| !manager.loaded().dom().contains(key),
    {
        ChunkManager { loaded: cache_new(), terrain_gen, surface_net }
    }

    /// What to ask of the noise source before the chunk at `chunk_pos` is
    /// loaded.
    pub fn noise_request(&self, chunk_pos: ChunkPos) -> (request: NoiseRequest)
        ensures
            request == noise_request_of(self.config(), chunk_pos.x, chunk_pos.z),
    {
        self.terrain_gen.noise_request(chunk_pos.x, chunk_pos.z)
    }

    /// Whether the chunk at `chunk_pos` has been loaded.
    pub fn is_loaded(&self, chunk_pos: ChunkPos) -> (r: bool)
        ensures
            r == self.loaded().dom().contains(key_of(chunk_pos)),
    {
        cache_contains(&self.loaded, (chunk_pos.x, chunk_pos.y, chunk_pos.z))
    }

    /// Loads the chunk at `chunk_pos`: generates its column from `noise`,
    /// draws its mesh and keeps both. A chunk that has been loaded before is
    /// left as it is, and nothing is generated. Where the mesh has too many
    /// vertices, nothing is kept.
    pub fn load_chunk(&mut self, chunk_pos: ChunkPos, noise: &[i64]) -> (r: Result<(), MeshError>)
        requires
            old(self).wf(),
            noise@.len() == heightmap_len(),
        ensures
            final(self).wf(),
            final(self).config() == old(self).config(),
            ({
                let state = state_of(chunk_pos.x, chunk_pos.z, noise@, old(self).config());
                if old(self).loaded().dom().contains(key_of(chunk_pos)) {
                    r is Ok && final(self).loaded() == old(self).loaded()
                } else if state.mesh.positions.len() <= MAX_VERTICES {
                    r is Ok && final(self).loaded() == old(self).loaded().insert(
                        key_of(chunk_pos),
                        state,
                    )
                } else {
                    r == Err::<(), MeshError>(MeshError::TooManyVertices) && final(self).loaded()
                        == old(self).loaded()
                }
            }),
    {
        let key = (chunk_pos.x, chunk_pos.y, chunk_pos.z);
        if cache_contains(&self.loaded, key) {
            return Ok(());
        }
        let chunk = self.terrain_gen.generate_chunk(chunk_pos.x, chunk_pos.z, noise);
        let cubes = self.surface_net.mk_cubes(&chunk);
        match self.surface_net.mk_mesh(cubes) {
            Ok(mesh) => {
                cache_insert(&mut self.loaded, key, ChunkState { chunk, mesh });
                Ok(())
            },
            Err(e) => Err(e),
        }
    }

    /// The state of the chunk at `chunk_pos`, or `None` where it has not
    /// been loaded.
    pub fn get_chunk(&self, chunk_pos: ChunkPos) -> (r: Option<ChunkState>)
        ensures
            r is Some == self.loaded().dom().contains(key_of(chunk_pos)),
            r matches Some(state) ==> state@ == self.loaded()[key_of(chunk_pos)],
    {
        cache_get(&self.loaded, (chunk_pos.x, chunk_pos.y, chunk_pos.z))
    }
}

} // verus!
