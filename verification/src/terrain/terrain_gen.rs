//! Terrain generation: from a heightmap of noise to the density volume of a
//! chunk.

use crate::config::generator::GeneratorConfig;
use crate::fixed::{clamp, clamp_exec, fixed_mul, fixed_mul_exec, floor_unit, UNIT};
use crate::terrain::chunk::{Chunk, ChunkView};
use crate::terrain::grid::{
    height_cells, height_dim, heights_from_shape_vec, heights_get, in_box, nonzero_product,
};
use vstd::prelude::*;

verus! {

/// The number of voxels of a chunk along x.
pub const WIDTH: usize = 64;

/// The number of voxels of a chunk along z.
pub const DEPTH: usize = 64;

/// The number of voxels of a chunk along y.
pub const HEIGHT: usize = 256;

/// The number of samples beyond the voxels along each axis, so that every
/// cube at the chunk's boundary has its eight corners.
pub const PADDING: usize = 3;

/// What the generator asks of the noise source for one chunk: a heightmap of
/// ridged multi-octave noise, `depth` rows of `width` samples, row `k` at
/// `z_offset + k` and column `i` at `x_offset + i`.
#[derive(Clone, Copy, Debug, PartialEq, Eq, Structural)]
pub struct NoiseRequest {
    pub seed: i32,
    pub lacunarity: i64,
    pub freq: i64,
    pub gain: i64,
    pub octaves: u8,
    pub x_offset: i64,
    pub z_offset: i64,
    pub width: usize,
    pub depth: usize,
}

/// The request for the noise behind the chunk of column `(x, z)` under
/// `config`: the noise's parameters, and a window of the chunk's width and
/// depth with its padding that starts 64 samples further for each chunk.
pub open spec fn noise_request_of(config: GeneratorConfig, x: i32, z: i32) -> NoiseRequest {
    NoiseRequest {
        seed: config.seed,
        lacunarity: config.lacunarity,
        freq: config.freq,
        gain: config.gain,
        octaves: config.octaves,
        x_offset: (64 * x) as i64,
        z_offset: (64 * z) as i64,
        width: (WIDTH + PADDING) as usize,
        depth: (DEPTH + PADDING) as usize,
    }
}

/// Makes the density volumes of chunks.
pub struct TerrainGenerator {
    config: GeneratorConfig,
}

/// The height that belongs to a noise sample: the sample times `scaling`,
/// rounded down.
pub open spec fn scale_height(noise: i64, scaling: i64) -> i64 {
    fixed_mul(noise, scaling)
}

/// The density at height `y` of a column whose ground lies at `h`: one unit
/// deep in the ground, where `floor(h) > y`; above that nothing where
/// `cutoff` is set, else the height left up to the ground, `h - y`.
pub open spec fn density_at(h: i64, y: int, cutoff: bool) -> i64 {
    if h as int / (UNIT as int) > y {
        UNIT
    } else if cutoff {
        0
    } else {
        clamp(h - y * UNIT)
    }
}

/// The number of samples of a heightmap.
pub open spec fn heightmap_len() -> int {
    (DEPTH + PADDING) * (WIDTH + PADDING)
}

/// The density of the sample `(x, y, z)` of a chunk generated from `noise`:
/// the heightmap has one row for each z, and in it one sample for each x.
pub open spec fn chunk_density(
    noise: Seq<i64>,
    config: GeneratorConfig,
    x: int,
    y: int,
    z: int,
) -> i64 {
    density_at(scale_height(noise[z * (WIDTH + PADDING) + x], config.scaling), y, config.cutoff)
}

/// The chunk of column `(x, z)`, generated from `noise` under `config`: the
/// volume of the chunk's voxels and its padding, filled with `chunk_density`.
pub open spec fn generated_chunk(x: i32, z: i32, noise: Seq<i64>, config: GeneratorConfig)
    -> ChunkView {
    let dim = ((WIDTH + PADDING) as nat, (HEIGHT + PADDING) as nat, (DEPTH + PADDING) as nat);
    ChunkView {
        x,
        z,
        dim,
        cells: Map::new(
            |p: (int, int, int)| in_box(dim, p.0, p.1, p.2),
            |p: (int, int, int)| chunk_density(noise, config, p.0, p.1, p.2),
        ),
    }
}

/// Generation is a function of the column, the noise and the parameters: two
/// chunks generated from the same of these are the same, sample for sample.
pub proof fn lemma_generation_deterministic(
    a: Chunk,
    b: Chunk,
    x: i32,
    z: i32,
    noise: Seq<i64>,
    config: GeneratorConfig,
)
    requires
        a@ == generated_chunk(x, z, noise, config),
        b@ == generated_chunk(x, z, noise, config),
    ensures
        a@.dim == b@.dim,
        forall|i: int, j: int, k: int|
            in_box(a@.dim, i, j, k) ==> #[trigger] a@.cells[(i, j, k)] == b@.cells[(i, j, k)],
{
}

/// With the cutoff, every density is zero or one unit. Without it, the
/// density is one unit in the same places, deep in the ground, and
/// elsewhere the height left up to the ground, which is less than one unit.
pub proof fn lemma_cutoff_values(noise: Seq<i64>, config: GeneratorConfig, x: int, y: int, z: int)
    requires
        0 <= y <= HEIGHT + PADDING,
    ensures
        ({
            let h = scale_height(noise[z * (WIDTH + PADDING) + x], config.scaling);
            let sharp = chunk_density(noise, (GeneratorConfig { cutoff: true, ..config }), x, y, z);
            let smooth = chunk_density(
                noise,
                (GeneratorConfig { cutoff: false, ..config }),
                x,
                y,
                z,
            );
            &&& sharp == 0 || sharp == UNIT
            &&& sharp == UNIT <==> h as int / (UNIT as int) > y
            &&& sharp == UNIT <==> smooth == UNIT
            &&& sharp == 0 ==> smooth == clamp(h - y * UNIT) && smooth < UNIT
        }),
{
}

fn density_at_exec(h: i64, y: usize, cutoff: bool) -> (density: i64)
    requires
        y <= 0xffff,
    ensures
        density == density_at(h, y as int, cutoff),
{
    let ground = floor_unit(h as i128);
    if ground > y as i128 {
        UNIT
    } else if cutoff {
        0
    } else {
        clamp_exec(h as i128 - (y as i128) * 1_000_000)
    }
}

impl TerrainGenerator {
    /// The parameters that the generator works with.
    pub closed spec fn config(&self) -> GeneratorConfig {
        self.config
    }

    pub fn new(config: GeneratorConfig) -> (generator: TerrainGenerator)
        ensures
            generator.config() == config,
    {
        TerrainGenerator { config }
    }

    /// What to ask of the noise source for the chunk of column `(x, z)`: the
    /// chunk's voxels and its padding, from the chunk's corner on.
    pub fn noise_request(&self, x: i32, z: i32) -> (request: NoiseRequest)
        ensures
            request == noise_request_of(self.config(), x, z),
    {
        NoiseRequest {
            seed: self.config.seed,
            lacunarity: self.config.lacunarity,
            freq: self.config.freq,
            gain: self.config.gain,
            octaves: self.config.octaves,
            x_offset: 64 * (x as i64),
            z_offset: 64 * (z as i64),
            width: WIDTH + PADDING,
            depth: DEPTH + PADDING,
        }
    }

    /// Makes the chunk of column `(x, z)` from the heightmap of noise that
    /// `noise_request` asks for.
    ///
    /// Every noise sample is scaled to a height, and every column of the
    /// volume is filled from its height: one unit deep in the ground, and
    /// above that zero or the height left up to the ground (see
    /// `density_at`). The volume holds the chunk's voxels and its padding.
    pub fn generate_chunk(&self, x: i32, z: i32, noise: &[i64]) -> (chunk: Chunk)
        requires
            noise@.len() == heightmap_len(),
        ensures
            chunk.wf(),
            chunk@ == generated_chunk(x, z, noise@, self.config()),
    {
        let width = WIDTH + PADDING;
        let height = HEIGHT + PADDING;
        let depth = DEPTH + PADDING;
        let mut height_map: Vec<i64> = Vec::new();
        let mut n: usize = 0;
        while n < depth * width
            invariant
                width == 67,
                depth == 67,
                n <= depth * width,
                noise@.len() == 67 * 67,
                height_map@.len() == n,
                forall|m: int|
                    0 <= m < n ==> (#[trigger] height_map@[m]) == scale_height(
                        noise@[m],
                        self.config.scaling,
                    ),
            decreases depth * width - n,
        {
            height_map.push(fixed_mul_exec(noise[n], self.config.scaling));
            n += 1;
        }
        assert(height_map@.len() == 67 * 67);
        assert(nonzero_product(67, 67, 1) == 67 * 67) by (nonlinear_arith)
            requires
                nonzero_product(67, 67, 1) == 67 * 67 * 1,
        ;
        let height_map = match heights_from_shape_vec(depth, width, height_map) {
            Ok(height_map) => height_map,
            Err(_) => {
                proof {
                    assert(false);
                }
                unreached()
            },
        };
        let mut data: Vec<i64> = Vec::new();
        let mut i: usize = 0;
        while i < width
            invariant
                width == 67,
                height == 259,
                depth == 67,
                i <= width,
                noise@.len() == 67 * 67,
                height_dim(&height_map) == (67nat, 67nat),
forall|a: int, c: int|
    0 <= a < 67 && 0 <= c < 67 ==> #[trigger] height_cells(&height_map)[(c, a)] == scale_height(
        noise@[c * 67 + a],
        self.config.scaling,
    ),
                data@.len() == i * 259 * 67,
                forall|a: int, b: int, c: int|
                    0 <= a < i && 0 <= b < 259 && 0 <= c < 67 ==> #[trigger] data@[(a * 259 + b)
                        * 67 + c] == chunk_density(noise@, self.config, a, b, c),
            decreases width - i,
        {
            let mut j: usize = 0;
            while j < height
                invariant
                    width == 67,
                    height == 259,
                    depth == 67,
                    i < width,
                    j <= height,
                    noise@.len() == 67 * 67,
                    height_dim(&height_map) == (67nat, 67nat),
forall|a: int, c: int|
    0 <= a < 67 && 0 <= c < 67 ==> #[trigger] height_cells(&height_map)[(c, a)] == scale_height(
        noise@[c * 67 + a],
        self.config.scaling,
    ),
                    data@.len() == (i * 259 + j) * 67,
                    forall|a: int, b: int, c: int|
                        0 <= a < i && 0 <= b < 259 && 0 <= c < 67 ==> #[trigger] data@[(a * 259
                            + b) * 67 + c] == chunk_density(noise@, self.config, a, b, c),
                    forall|b: int, c: int|
                        0 <= b < j && 0 <= c < 67 ==> #[trigger] data@[(i * 259 + b) * 67 + c]
                            == chunk_density(noise@, self.config, i as int, b, c),
                decreases height - j,
            {
                let mut k: usize = 0;
                while k < depth
                    invariant
                        width == 67,
                        height == 259,
                        depth == 67,
                        i < width,
                        j < height,
                        k <= depth,
                        noise@.len() == 67 * 67,
                        height_dim(&height_map) == (67nat, 67nat),
forall|a: int, c: int|
    0 <= a < 67 && 0 <= c < 67 ==> #[trigger] height_cells(&height_map)[(c, a)] == scale_height(
        noise@[c * 67 + a],
        self.config.scaling,
    ),
                        data@.len() == (i * 259 + j) * 67 + k,
                        forall|a: int, b: int, c: int|
                            0 <= a < i && 0 <= b < 259 && 0 <= c < 67 ==> #[trigger] data@[(a
                                * 259 + b) * 67 + c] == chunk_density(
                                noise@,
                                self.config,
                                a,
                                b,
                                c,
                            ),
                        forall|b: int, c: int|
                            0 <= b < j && 0 <= c < 67 ==> #[trigger] data@[(i * 259 + b) * 67
                                + c] == chunk_density(noise@, self.config, i as int, b, c),
                        forall|c: int|
                            0 <= c < k ==> #[trigger] data@[(i * 259 + j) * 67 + c]
                                == chunk_density(noise@, self.config, i as int, j as int, c),
                    decreases depth - k,
                {
                    let h = heights_get(&height_map, k, i).unwrap();
                    data.push(density_at_exec(h, j, self.config.cutoff));
                    k += 1;
                }
                j += 1;
            }
            i += 1;
        }
        match Chunk::new(x, z, (width, height, depth), data) {
            Some(chunk) => {
                assert(chunk@.cells =~= generated_chunk(x, z, noise@, self.config()).cells);
                chunk
            },
            None => {
                proof {
                    assert(false);
                }
                unreached()
            },
        }
    }
}

} // verus!
