//! The parameters of terrain generation.

use vstd::prelude::*;

verus! {

/// The parameters of one generation run. The four fractional ones count
/// millionths, like every number of this crate.
#[derive(Clone, Copy, Debug, PartialEq, Eq, Structural)]
pub struct GeneratorConfig {
    /// The seed of the noise.
    pub seed: i32,
    /// How the frequency changes from one octave to the next.
    pub lacunarity: i64,
    /// The frequency of the first octave.
    pub freq: i64,
    /// How the amplitude changes from one octave to the next.
    pub gain: i64,
    /// The number of octaves.
    pub octaves: u8,
    /// The factor from noise to height.
    pub scaling: i64,
    /// Whether the density above the ground is cut off at zero (terraces)
    /// instead of falling with the height (slopes).
    pub cutoff: bool,
}

impl Default for GeneratorConfig {
    fn default() -> (config: GeneratorConfig)
        ensures
            config == (GeneratorConfig {
                seed: 25565,
                lacunarity: 500_000,
                freq: 40_000,
                gain: 4_000_000,
                octaves: 4,
                scaling: 25_000_000,
                cutoff: false,
            }),
    {
        GeneratorConfig {
            seed: 25565,
            lacunarity: 500_000,
            freq: 40_000,
            gain: 4_000_000,
            octaves: 4,
            scaling: 25_000_000,
            cutoff: false,
        }
    }
}

} // verus!
