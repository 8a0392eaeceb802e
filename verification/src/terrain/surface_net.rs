//! Surface nets: one vertex for every unit cube that straddles the surface,
//! joined into quads across the lattice edges that cross it.

use crate::fixed::{Vector3, UNIT};
use crate::terrain::chunk::{Chunk, MAX_DIM};
use crate::terrain::grid::{
    box_of, cube_cells, cube_dim, cubes_dim_of, cubes_from_elem, cubes_get, cubes_set, in_box,
    nonzero_product, CubeArray,
};
use crate::terrain::terrain_gen::{DEPTH, HEIGHT, PADDING, WIDTH};
use crate::util::{within_limit, COORD_LIMIT};
use vstd::prelude::*;

verus! {

/// What one unit cube of the lattice contributes to the surface.
#[derive(Clone, Copy, Debug, PartialEq, Eq, Structural)]
pub struct SurfaceNetCube {
    /// The cube's vertex; it means something only where `on_surface` holds.
    pub position: Vector3,
    /// Whether the surface passes through the cube.
    pub on_surface: bool,
    /// Bit `c` is set exactly when the density at corner `c` is positive.
    pub corner_mask: u8,
}

impl Default for SurfaceNetCube {
    fn default() -> (cube: SurfaceNetCube)
        ensures
            cube == (SurfaceNetCube {
                position: Vector3 { x: 0, y: 0, z: 0 },
                on_surface: false,
                corner_mask: 0,
            }),
    {
        SurfaceNetCube { position: Vector3::zero(), on_surface: false, corner_mask: 0 }
    }
}

/// The tables of the extractor: the corners of the unit cube, its edges, and
/// for each corner mask the edges that the surface crosses.
pub struct SurfaceNet {
    voxel_corner_offsets: [(usize, usize, usize); 8],
    cube_edges: [u32; 24],
    intersection_table: [u32; 256],
}

/// The coordinate (0 or 1) of corner `c` of the unit cube along `axis`: bit 0
/// of `c` is its x, bit 1 its y and bit 2 its z.
pub open spec fn corner_coord(c: int, axis: int) -> int {
    if axis == 0 {
        c % 2
    } else if axis == 1 {
        (c / 2) % 2
    } else {
        (c / 4) % 2
    }
}

/// The twelve edges of the unit cube as pairs of corner numbers, lower corner
/// first. Corner `c` sits at `(c & 1, (c >> 1) & 1, (c >> 2) & 1)`; the first
/// three edges leave corner 0 along x, y and z.
pub open spec fn cube_edge_table() -> Seq<u32> {
    seq![0u32, 1, 0, 2, 0, 4, 1, 3, 1, 5, 2, 3, 2, 6, 3, 7, 4, 5, 4, 6, 5, 7, 6, 7]
}

/// How many edges have a lower corner below `i`.
spec fn edges_before(i: int) -> int {
    if i <= 0 {
        0
    } else if i == 1 {
        3
    } else if i == 2 {
        5
    } else if i == 3 {
        7
    } else if i == 4 {
        8
    } else if i == 5 {
        10
    } else if i == 6 {
        11
    } else {
        12
    }
}

/// How many edges lead from corner `i` upwards along an axis below that of
/// the step `j` (1, 2, 4 or 8).
spec fn edges_below_step(i: int, j: int) -> int {
    (if j > 1 && i % 2 == 0 { 1int } else { 0 })
    + (if j > 2 && (i / 2) % 2 == 0 { 1int } else { 0 })
    + (if j > 4 && i < 4 { 1int } else { 0 })
}

proof fn lemma_corner_step(i: u32, j: u32)
    requires
        i < 8,
        j == 1 || j == 2 || j == 4,
    ensures
        j == 1 ==> ((i <= (i ^ j)) <==> i % 2 == 0),
        j == 2 ==> ((i <= (i ^ j)) <==> (i / 2) % 2 == 0),
        j == 4 ==> ((i <= (i ^ j)) <==> i < 4),
        i <= (i ^ j) ==> (i ^ j) == i + j,
        (j << 1) == 2 * j,
{
    assert(i < 8 && (j == 1 || j == 2 || j == 4) ==> {
        &&& (j == 1 ==> ((i <= (i ^ j)) <==> i % 2 == 0))
        &&& (j == 2 ==> ((i <= (i ^ j)) <==> (i / 2) % 2 == 0))
        &&& (j == 4 ==> ((i <= (i ^ j)) <==> i < 4))
        &&& (i <= (i ^ j) ==> (i ^ j) == i + j)
        &&& (j << 1) == 2 * j
    }) by (bit_vector);
}

/// Lists the cube's edges: for each corner in turn, the edges that lead from
/// it to a higher corner along x, y and z.
pub fn mk_cube_edges() -> (cube_edges: [u32; 24])
    ensures
        cube_edges@ == cube_edge_table(),
{
    let mut cube_edges = [0u32; 24];
    let mut k: usize = 0;
    let mut i: u32 = 0;
    while i < 8
        invariant
            i <= 8,
            k == 2 * edges_before(i as int),
            forall|m: int| 0 <= m < k ==> cube_edges@[m] == cube_edge_table()[m],
        decreases 8 - i,
    {
        let mut j: u32 = 1;
        while j <= 4
            invariant
                i < 8,
                j == 1 || j == 2 || j == 4 || j == 8,
                k == 2 * (edges_before(i as int) + edges_below_step(i as int, j as int)),
                forall|m: int| 0 <= m < k ==> cube_edges@[m] == cube_edge_table()[m],
            decreases 8 - j,
        {
            proof {
                lemma_corner_step(i, j);
            }
            let p = i ^ j;
            if i <= p {
                cube_edges[k] = i;
                k += 1;
                cube_edges[k] = p;
                k += 1;
            }
            j <<= 1;
        }
        i += 1;
    }
    assert(cube_edges@ =~= cube_edge_table());
    cube_edges
}

/// Whether corner `c` counts as solid under the corner mask `mask`.
pub open spec fn corner_solid(mask: u32, c: u32) -> bool {
    mask & (1u32 << c) != 0
}

/// The lower corner of edge `k`.
pub open spec fn edge_lo(k: int) -> u32 {
    cube_edge_table()[2 * k]
}

/// The upper corner of edge `k`.
pub open spec fn edge_hi(k: int) -> u32 {
    cube_edge_table()[2 * k + 1]
}

/// Whether the surface crosses edge `k`: exactly one of its two corners is
/// solid.
pub open spec fn edge_crossed(mask: u32, k: int) -> bool {
    corner_solid(mask, edge_lo(k)) != corner_solid(mask, edge_hi(k))
}

/// The number whose bit `k`, for each `k` below `n`, is set exactly when
/// `set(k)` holds.
pub open spec fn pack_bits(set: spec_fn(int) -> bool, n: int) -> u32
    decreases n,
{
    if n <= 0 {
        0
    } else {
        pack_bits(set, n - 1) | (if set(n - 1) {
            1u32 << ((n - 1) as u32)
        } else {
            0u32
        })
    }
}

/// The crossings of the cube's edges under `mask`, as a predicate on the
/// edge number.
pub open spec fn crossings(mask: u32) -> spec_fn(int) -> bool {
    |k: int| edge_crossed(mask, k)
}

/// The entry of the intersection table for `mask`: bit `k` is set exactly
/// when the surface crosses edge `k`.
pub open spec fn edge_mask(mask: u32) -> u32 {
    pack_bits(crossings(mask), 12)
}

proof fn lemma_or_bit(a: u32, n: u32, k: u32, set: bool)
    requires
        n < 31,
        k <= n,
        a < (1u32 << n),
    ensures
        ({
            let b = a | (if set { 1u32 << n } else { 0u32 });
            &&& b < (1u32 << ((n + 1) as u32))
            &&& (k < n ==> (b & (1u32 << k) != 0) == (a & (1u32 << k) != 0))
            &&& (k == n ==> (b & (1u32 << k) != 0) == set)
        }),
{
    let bit = if set { 1u32 << n } else { 0u32 };
    assert(n < 31 && k <= n && a < (1u32 << n) && (bit == 0 || bit == (1u32 << n)) ==> {
        let b = a | bit;
        &&& b < (1u32 << ((n + 1) as u32))
        &&& (k < n ==> (b & (1u32 << k) != 0) == (a & (1u32 << k) != 0))
        &&& (k == n ==> (b & (1u32 << k) != 0) == (bit != 0))
    }) by (bit_vector);
    assert(n < 31 ==> (1u32 << n) != 0) by (bit_vector);
}

/// Bit `k` of `pack_bits(set, n)` tells whether `set(k)` holds, and no bit
/// from `n` on is set.
pub proof fn lemma_pack_bits(set: spec_fn(int) -> bool, n: int, k: int)
    requires
        0 <= k < n <= 16,
    ensures
        pack_bits(set, n) < (1u32 << (n as u32)),
        (pack_bits(set, n) & (1u32 << (k as u32)) != 0) == set(k),
    decreases n,
{
    let a = pack_bits(set, n - 1);
    if n == 1 {
        assert(pack_bits(set, 0) == 0);
        assert(0u32 < (1u32 << 0u32)) by (bit_vector);
    } else if k < n - 1 {
        lemma_pack_bits(set, n - 1, k);
    } else {
        lemma_pack_bits(set, n - 1, 0);
    }
    lemma_or_bit(a, (n - 1) as u32, k as u32, set(n - 1));
}

/// Builds the intersection table: for each of the 256 corner masks, the set
/// of edges that the surface crosses.
pub fn mk_intersection_table(cube_edges: &[u32; 24]) -> (edge_table: [u32; 256])
    requires
        cube_edges@ == cube_edge_table(),
    ensures
        forall|m: int| 0 <= m < 256 ==> edge_table@[m] == edge_mask(m as u32),
{
    let mut edge_table = [0u32; 256];
    let mut i: u32 = 0;
    while i < 256
        invariant
            i <= 256,
            cube_edges@ == cube_edge_table(),
            forall|m: int| 0 <= m < i ==> edge_table@[m] == edge_mask(m as u32),
        decreases 256 - i,
    {
        let mut em: u32 = 0;
        let mut j: usize = 0;
        while j < 24
            invariant
                j <= 24,
                j % 2 == 0,
                cube_edges@ == cube_edge_table(),
                em == pack_bits(crossings(i), j as int / 2),
            decreases 24 - j,
        {
            let c0 = cube_edges[j];
            let c1 = cube_edges[j + 1];
            assert(c0 == edge_lo(j as int / 2) && c1 == edge_hi(j as int / 2));
            assert(c0 < 8 && c1 < 8);
            let a = (i & (1u32 << c0)) != 0;
            let b = (i & (1u32 << c1)) != 0;
            let e: u32 = (j >> 1) as u32;
            assert(e == j / 2) by (bit_vector)
                requires
                    e == (j >> 1) as u32,
                    j < 24,
            ;
            em |= if a != b {
                1u32 << e
            } else {
                0
            };
            j += 2;
        }
        edge_table[i as usize] = em;
        i += 1;
    }
    edge_table
}

/// Which samples are solid, as a predicate on the corner number.
pub open spec fn solidity(s: Seq<i64>) -> spec_fn(int) -> bool {
    |c: int| s[c] > 0
}

/// The corner mask of a cube with corner samples `s`: bit `c` is set exactly
/// when `s[c]` is positive.
pub open spec fn corner_mask_of(s: Seq<i64>) -> u32 {
    pack_bits(solidity(s), 8)
}

/// Whether the two ends of edge `k` lie on different sides of the surface.
pub open spec fn edge_straddles(s: Seq<i64>, k: int) -> bool {
    (s[edge_lo(k) as int] > 0) != (s[edge_hi(k) as int] > 0)
}

/// The magnitude of `v`.
pub open spec fn abs(v: int) -> int {
    if v < 0 {
        -v
    } else {
        v
    }
}

/// How far along the way from a corner with density `g0` to one with density
/// `g1` the density reaches zero, in millionths of the way, rounded down.
pub open spec fn crossing_fraction(g0: i64, g1: i64) -> int {
    (abs(g0 as int) * UNIT) / abs(g0 - g1)
}

/// Whether the densities at the two ends of an edge lie too close together
/// to divide by their difference: no more than one millionth apart.
pub open spec fn edge_degenerate(g0: i64, g1: i64) -> bool {
    abs(g0 - g1) <= 1
}

/// The point between the coordinates `a` and `b` at the fraction `t`, where
/// `t` counts millionths and so does the result.
pub open spec fn lerp(a: int, b: int, t: int) -> int {
    a * (UNIT - t) + b * t
}

/// What edge `k` adds to the vertex along `axis`: the point where the density
/// crosses zero, or nothing where the edge is not crossed or is degenerate.
pub open spec fn edge_coord(s: Seq<i64>, k: int, axis: int) -> int {
    let lo = edge_lo(k) as int;
    let hi = edge_hi(k) as int;
    if !edge_straddles(s, k) || edge_degenerate(s[lo], s[hi]) {
        0
    } else {
        lerp(corner_coord(lo, axis), corner_coord(hi, axis), crossing_fraction(s[lo], s[hi]))
    }
}

/// The sum of `edge_coord` over the first `n` edges.
pub open spec fn edge_sum(s: Seq<i64>, n: int, axis: int) -> int
    decreases n,
{
    if n <= 0 {
        0
    } else {
        edge_sum(s, n - 1, axis) + edge_coord(s, n - 1, axis)
    }
}

/// How many of the first `n` edges the surface crosses.
pub open spec fn crossing_count(s: Seq<i64>, n: int) -> int
    decreases n,
{
    if n <= 0 {
        0
    } else {
        crossing_count(s, n - 1) + (if edge_straddles(s, n - 1) {
            1int
        } else {
            0
        })
    }
}

/// The vertex of a cube along `axis`, relative to the cube's corner 0: the
/// mean over the crossed edges of the points where the density crosses zero.
pub open spec fn vertex_coord(s: Seq<i64>, axis: int) -> int {
    edge_sum(s, 12, axis) / crossing_count(s, 12)
}

/// The vertex of a cube with corner samples `s`, relative to its corner 0.
pub open spec fn cube_vertex(s: Seq<i64>) -> Vector3 {
    Vector3 {
        x: vertex_coord(s, 0) as i64,
        y: vertex_coord(s, 1) as i64,
        z: vertex_coord(s, 2) as i64,
    }
}

/// The record of a cube with corner samples `s`, before it is moved to its
/// place in the lattice.
pub open spec fn classify(s: Seq<i64>) -> SurfaceNetCube {
    let mask = corner_mask_of(s);
    if mask == 0 || mask == 0xff {
        SurfaceNetCube {
            position: Vector3 { x: 0, y: 0, z: 0 },
            on_surface: false,
            corner_mask: mask as u8,
        }
    } else {
        SurfaceNetCube { position: cube_vertex(s), on_surface: true, corner_mask: mask as u8 }
    }
}

/// The corner mask fits in eight bits, and its bit `c` tells whether sample
/// `c` is positive.
pub proof fn lemma_mask_tells(s: Seq<i64>, c: int)
    requires
        0 <= c < 8,
    ensures
        corner_mask_of(s) < 256,
        corner_solid(corner_mask_of(s), c as u32) == (s[c] > 0),
{
    lemma_pack_bits(solidity(s), 8, c);
    assert((1u32 << 8u32) == 256) by (bit_vector);
}

/// Bit `k` of the intersection-table entry for a cube's mask tells whether
/// edge `k` has its two ends on different sides of the surface.
pub proof fn lemma_edge_tells(s: Seq<i64>, k: int)
    requires
        0 <= k < 12,
    ensures
        edge_mask(corner_mask_of(s)) < 4096,
        (edge_mask(corner_mask_of(s)) & (1u32 << (k as u32)) != 0) == edge_straddles(s, k),
{
    let mask = corner_mask_of(s);
    lemma_pack_bits(crossings(mask), 12, k);
    assert((1u32 << 12u32) == 4096) by (bit_vector);
    lemma_mask_tells(s, edge_lo(k) as int);
    lemma_mask_tells(s, edge_hi(k) as int);
}

/// A cube with both solid and empty corners has a crossed edge.
pub proof fn lemma_mixed_cube_straddles(s: Seq<i64>) -> (k: int)
    requires
        corner_mask_of(s) != 0,
        corner_mask_of(s) != 0xff,
    ensures
        0 <= k < 12,
        edge_straddles(s, k),
{
    let m = corner_mask_of(s);
    lemma_mask_tells(s, 0);
    lemma_mask_tells(s, 1);
    lemma_mask_tells(s, 2);
    lemma_mask_tells(s, 3);
    lemma_mask_tells(s, 4);
    lemma_mask_tells(s, 5);
    lemma_mask_tells(s, 6);
    lemma_mask_tells(s, 7);
    assert(m < 256 && m != 0 && m != 0xff ==> !({
        &&& (m & (1u32 << 0u32) != 0) == (m & (1u32 << 1u32) != 0)
        &&& (m & (1u32 << 1u32) != 0) == (m & (1u32 << 3u32) != 0)
        &&& (m & (1u32 << 3u32) != 0) == (m & (1u32 << 2u32) != 0)
        &&& (m & (1u32 << 2u32) != 0) == (m & (1u32 << 6u32) != 0)
        &&& (m & (1u32 << 6u32) != 0) == (m & (1u32 << 7u32) != 0)
        &&& (m & (1u32 << 7u32) != 0) == (m & (1u32 << 5u32) != 0)
        &&& (m & (1u32 << 5u32) != 0) == (m & (1u32 << 4u32) != 0)
    })) by (bit_vector);
    if edge_straddles(s, 0) {
        0
    } else if edge_straddles(s, 3) {
        3
    } else if edge_straddles(s, 5) {
        5
    } else if edge_straddles(s, 6) {
        6
    } else if edge_straddles(s, 11) {
        11
    } else if edge_straddles(s, 10) {
        10
    } else {
        assert(edge_straddles(s, 8));
        8
    }
}

/// The crossing count never falls as more edges are counted.
pub proof fn lemma_count_grows(s: Seq<i64>, k: int, n: int)
    requires
        0 <= k < n,
        edge_straddles(s, k),
    ensures
        crossing_count(s, n) >= 1,
        crossing_count(s, n) >= crossing_count(s, k),
        crossing_count(s, k) >= 0,
    decreases n,
{
    if n > k + 1 {
        lemma_count_grows(s, k, n - 1);
    } else {
        lemma_count_nonnegative(s, k);
    }
}

proof fn lemma_count_nonnegative(s: Seq<i64>, n: int)
    ensures
        0 <= crossing_count(s, n),
        n >= 0 ==> crossing_count(s, n) <= n,
    decreases n,
{
    if n > 0 {
        lemma_count_nonnegative(s, n - 1);
    }
}

/// Where an edge is crossed, the crossing lies between its two ends.
pub proof fn lemma_fraction_bounds(g0: i64, g1: i64)
    requires
        (g0 > 0) != (g1 > 0),
    ensures
        abs(g0 as int) <= abs(g0 - g1),
        abs(g0 - g1) >= 1,
        0 <= crossing_fraction(g0, g1) <= UNIT,
{
    let reach = abs(g0 as int);
    let span = abs(g0 - g1);
    assert(reach <= span);
    assert(0 <= (reach * UNIT) / span <= UNIT) by (nonlinear_arith)
        requires
            0 <= reach <= span,
            span >= 1,
            UNIT == 1_000_000,
    ;
}

/// What an edge adds to the vertex lies inside the unit cube.
pub proof fn lemma_edge_coord_bounds(s: Seq<i64>, k: int, axis: int)
    requires
        0 <= k < 12,
    ensures
        0 <= edge_coord(s, k, axis) <= UNIT,
        !edge_straddles(s, k) ==> edge_coord(s, k, axis) == 0,
{
    let lo = edge_lo(k) as int;
    let hi = edge_hi(k) as int;
    if edge_straddles(s, k) && !edge_degenerate(s[lo], s[hi]) {
        lemma_fraction_bounds(s[lo], s[hi]);
        let t = crossing_fraction(s[lo], s[hi]);
        let a = corner_coord(lo, axis);
        let b = corner_coord(hi, axis);
        assert(0 <= a <= 1 && 0 <= b <= 1);
        assert(0 <= lerp(a, b, t) <= UNIT) by (nonlinear_arith)
            requires
                0 <= a <= 1,
                0 <= b <= 1,
                0 <= t <= UNIT,
                lerp(a, b, t) == a * (UNIT - t) + b * t,
        ;
    }
}

/// The sum over the first `n` edges is at most one unit for each crossed
/// edge among them.
pub proof fn lemma_edge_sum_bounds(s: Seq<i64>, n: int, axis: int)
    requires
        0 <= n <= 12,
    ensures
        0 <= edge_sum(s, n, axis) <= crossing_count(s, n) * UNIT,
    decreases n,
{
    if n > 0 {
        lemma_edge_sum_bounds(s, n - 1, axis);
        lemma_edge_coord_bounds(s, n - 1, axis);
    }
}

/// The densities at the eight corners of the unit cube whose corner 0 is the
/// sample at `(x, y, z)`.
pub open spec fn corner_samples(field: Map<(int, int, int), i64>, x: int, y: int, z: int) -> Seq<
    i64,
> {
    Seq::new(
        8,
        |c: int| field[(x + corner_coord(c, 0), y + corner_coord(c, 1), z + corner_coord(c, 2))],
    )
}

/// A cube record moved from the unit cube at the origin to the cube at
/// `(x, y, z)`.
pub open spec fn place(cube: SurfaceNetCube, x: int, y: int, z: int) -> SurfaceNetCube {
    SurfaceNetCube {
        position: Vector3 {
            x: (cube.position.x + x * UNIT) as i64,
            y: (cube.position.y + y * UNIT) as i64,
            z: (cube.position.z + z * UNIT) as i64,
        },
        on_surface: cube.on_surface,
        corner_mask: cube.corner_mask,
    }
}

/// The record of the cube at `(x, y, z)` of the density field `field`.
pub open spec fn cube_at(field: Map<(int, int, int), i64>, x: int, y: int, z: int)
    -> SurfaceNetCube {
    place(classify(corner_samples(field, x, y, z)), x, y, z)
}

/// A lattice of cubes: the number of its cubes along each axis and the record
/// of each cube.
pub struct Lattice {
    /// The number of cubes along x, y and z.
    pub size: (nat, nat, nat),
    /// The record of the cube at each index inside `size`.
    pub cubes: Map<(int, int, int), SurfaceNetCube>,
}

/// Whether the mesh's walk visits the cube at `p`: it leaves out the last
/// cube along each axis.
pub open spec fn in_scan(g: Lattice, p: (int, int, int)) -> bool {
    &&& 0 <= p.0 < pred(g.size.0)
    &&& 0 <= p.1 < pred(g.size.1)
    &&& 0 <= p.2 < pred(g.size.2)
}

impl Lattice {
    /// The number of cubes along x, y and z.
    pub open spec fn dim(self) -> (nat, nat, nat) {
        self.size
    }

    /// The record of the cube at `(x, y, z)`.
    pub open spec fn cube(self, x: int, y: int, z: int) -> SurfaceNetCube {
        self.cubes[(x, y, z)]
    }

    /// The cube at `p`, if the walk visits it and it lies on the surface, has
    /// its vertex within the limit on coordinates.
    pub open spec fn vertex_fits(self, p: (int, int, int)) -> bool {
        in_scan(self, p) && self.cube(p.0, p.1, p.2).on_surface ==> within_limit(
            self.cube(p.0, p.1, p.2).position,
        )
    }

    /// Whether the quad around the edge that leaves corner 0 of the cube at
    /// `p` along `axis` is owed: the walk visits the cube, the cube lies on
    /// the surface, the surface crosses the edge, and the cube does not lie
    /// at the lattice's lower boundary across the edge.
    pub open spec fn quad_owed(self, p: (int, int, int), axis: int) -> bool {
        &&& in_scan(self, p)
        &&& 0 <= axis < 3
        &&& self.cube(p.0, p.1, p.2).on_surface
        &&& edge_crossed(self.cube(p.0, p.1, p.2).corner_mask as u32, axis)
        &&& coord_of(p, (axis + 1) % 3) > 0
        &&& coord_of(p, (axis + 2) % 3) > 0
    }

    /// Whether the three other cubes around the edge that leaves corner 0 of
    /// the cube at `p` along `axis` lie on the surface.
    pub open spec fn quad_closes(self, p: (int, int, int), axis: int) -> bool {
        let b = back(p, (axis + 1) % 3);
        let d = back(p, (axis + 2) % 3);
        let c = back(b, (axis + 2) % 3);
        &&& self.cube(b.0, b.1, b.2).on_surface
        &&& self.cube(c.0, c.1, c.2).on_surface
        &&& self.cube(d.0, d.1, d.2).on_surface
    }

    /// Every quad that is owed can be closed: the three cubes that give its
    /// other corners lie on the surface.
    pub open spec fn quad_closed(self, p: (int, int, int), axis: int) -> bool {
        self.quad_owed(p, axis) ==> self.quad_closes(p, axis)
    }

    /// The cube at `p` is in order: its vertex lies within the limit on
    /// coordinates, and each of its quads that is owed can be closed.
    pub open spec fn cube_in_order(self, p: (int, int, int)) -> bool {
        &&& self.vertex_fits(p)
        &&& forall|axis: int| #[trigger] self.quad_closed(p, axis)
    }

    /// A mesh can be drawn from the lattice: no axis has `MAX_DIM` cubes or
    /// more, and every cube is in order.
    pub open spec fn wf(self) -> bool {
        &&& self.size.0 < MAX_DIM
        &&& self.size.1 < MAX_DIM
        &&& self.size.2 < MAX_DIM
        &&& forall|p: (int, int, int)| #[trigger] self.cube_in_order(p)
    }
}

/// The lattice of `size` cubes of the density field `field`: the cube at
/// `(x, y, z)` has the sample at `(x, y, z)` for its corner 0.
pub open spec fn field_lattice(field: Map<(int, int, int), i64>, size: (nat, nat, nat)) -> Lattice {
    Lattice {
        size,
        cubes: Map::new(
            |p: (int, int, int)| in_box(size, p.0, p.1, p.2),
            |p: (int, int, int)| cube_at(field, p.0, p.1, p.2),
        ),
    }
}

/// The lattice whose records are those of `records` in row-major order: the
/// record of the cube at `(x, y, z)` is `records[(x * size.1 + y) * size.2 + z]`.
pub open spec fn record_lattice(size: (nat, nat, nat), records: Seq<SurfaceNetCube>) -> Lattice {
    Lattice {
        size,
        cubes: Map::new(
            |p: (int, int, int)| in_box(size, p.0, p.1, p.2),
            |p: (int, int, int)| records[(p.0 * size.1 + p.1) * size.2 + p.2],
        ),
    }
}

/// The vertex of the cube at `(x, y, z)` of a field lies in that cube.
pub proof fn lemma_cube_in_place(field: Map<(int, int, int), i64>, x: int, y: int, z: int)
    requires
        0 <= x < MAX_DIM,
        0 <= y < MAX_DIM,
        0 <= z < MAX_DIM,
        cube_at(field, x, y, z).on_surface,
    ensures
        within_limit(cube_at(field, x, y, z).position),
        x * UNIT <= cube_at(field, x, y, z).position.x <= (x + 1) * UNIT,
        y * UNIT <= cube_at(field, x, y, z).position.y <= (y + 1) * UNIT,
        z * UNIT <= cube_at(field, x, y, z).position.z <= (z + 1) * UNIT,
{
    lemma_vertex_in_cube(corner_samples(field, x, y, z));
    assert(0 <= x * UNIT <= 1023 * UNIT && 0 <= y * UNIT <= 1023 * UNIT && 0 <= z * UNIT <= 1023
        * UNIT) by (nonlinear_arith)
        requires
            0 <= x < 1024,
            0 <= y < 1024,
            0 <= z < 1024,
            UNIT == 1_000_000,
    ;
}

/// A mesh can be drawn from the lattice of any field: its vertices lie in
/// their cubes, and the cubes around a crossed edge all lie on the surface.
pub proof fn lemma_field_lattice_wf(field: Map<(int, int, int), i64>, size: (nat, nat, nat))
    requires
        size.0 < MAX_DIM,
        size.1 < MAX_DIM,
        size.2 < MAX_DIM,
    ensures
        field_lattice(field, size).wf(),
{
    let g = field_lattice(field, size);
    assert forall|p: (int, int, int)| #[trigger] g.cube_in_order(p) by {
        if in_scan(g, p) && g.cube(p.0, p.1, p.2).on_surface {
            assert(in_box(size, p.0, p.1, p.2));
            lemma_cube_in_place(field, p.0, p.1, p.2);
        }
        assert forall|axis: int| #[trigger] g.quad_closed(p, axis) by {
            if g.quad_owed(p, axis) {
                let b = back(p, (axis + 1) % 3);
                let d = back(p, (axis + 2) % 3);
                let c = back(b, (axis + 2) % 3);
                assert(in_box(size, p.0, p.1, p.2));
                assert(in_box(size, b.0, b.1, b.2));
                assert(in_box(size, c.0, c.1, c.2));
                assert(in_box(size, d.0, d.1, d.2));
                lemma_cubes_around_edge(field, p, axis);
            }
        }
    }
}

/// A lattice of cubes, from which a mesh can be drawn.
pub struct CubeGrid {
    cells: CubeArray,
}

impl View for CubeGrid {
    type V = Lattice;

    closed spec fn view(&self) -> Lattice {
        Lattice { size: cube_dim(&self.cells), cubes: cube_cells(&self.cells) }
    }
}

/// Whether the surface crosses the edge that leaves corner 0 along `axis`.
fn edge_crossed_exec(corner_mask: u8, axis: usize) -> (r: bool)
    requires
        axis < 3,
    ensures
        r == edge_crossed(corner_mask as u32, axis as int),
{
    let mask = corner_mask as u32;
    let far: u32 = if axis == 0 {
        1
    } else if axis == 1 {
        2
    } else {
        4
    };
    assert(edge_lo(axis as int) == 0 && edge_hi(axis as int) == far);
    (mask & (1u32 << 0u32) != 0) != (mask & (1u32 << far) != 0)
}

impl CubeGrid {
    /// A mesh can be drawn from the lattice (see `Lattice::wf`), and there is
    /// a record for each of its cubes.
    pub closed spec fn wf(&self) -> bool {
        &&& self@.wf()
        &&& self@.cubes.dom() == box_of(self@.size)
    }

    /// What `wf` says.
    pub proof fn lemma_wf(&self)
        requires
            self.wf(),
        ensures
            self@.wf(),
            self@.cubes.dom() == box_of(self@.size),
    {
    }

    /// The number of cubes along x, y and z.
    pub fn dims(&self) -> (r: (usize, usize, usize))
        ensures
            (r.0 as nat, r.1 as nat, r.2 as nat) == self@.size,
    {
        cubes_dim_of(&self.cells)
    }

    /// The record of the cube at `idx`, or `None` where `idx` lies outside
    /// the lattice.
    pub fn get(&self, idx: (usize, usize, usize)) -> (r: Option<SurfaceNetCube>)
        ensures
            r == (if in_box(self@.size, idx.0 as int, idx.1 as int, idx.2 as int) {
                Some(self@.cube(idx.0 as int, idx.1 as int, idx.2 as int))
            } else {
                None
            }),
    {
        cubes_get(&self.cells, idx.0, idx.1, idx.2)
    }

    /// Whether the cube at `(x, y, z)`, which the walk visits, has its vertex
    /// within the limit and all its owed quads closed.
    fn cube_in_order(cells: &CubeArray, x: usize, y: usize, z: usize) -> (r: bool)
        requires
            x + 1 < cube_dim(cells).0,
            y + 1 < cube_dim(cells).1,
            z + 1 < cube_dim(cells).2,
        ensures
            ({
                let g = Lattice { size: cube_dim(cells), cubes: cube_cells(cells) };
                let p = (x as int, y as int, z as int);
                r == g.cube_in_order(p)
            }),
    {
        let ghost g = Lattice { size: cube_dim(cells), cubes: cube_cells(cells) };
        let ghost p = (x as int, y as int, z as int);
        let cube = cubes_get(cells, x, y, z).unwrap();
        if !cube.on_surface {
            assert forall|axis: int| #[trigger] g.quad_closed(p, axis) by {}
            return true;
        }
        assert(in_scan(g, p));
        let q = cube.position;
        let limit = COORD_LIMIT;
        if q.x < -limit || q.x > limit || q.y < -limit || q.y > limit || q.z < -limit || q.z
            > limit {
            return false;
        }
        let pos = [x, y, z];
        let mut axis: usize = 0;
        while axis < 3
            invariant
                axis <= 3,
                g == (Lattice { size: cube_dim(cells), cubes: cube_cells(cells) }),
                p == (x as int, y as int, z as int),
                pos@ == seq![x, y, z],
                x + 1 < cube_dim(cells).0,
                y + 1 < cube_dim(cells).1,
                z + 1 < cube_dim(cells).2,
                cube == g.cube(p.0, p.1, p.2),
                cube.on_surface,
                g.vertex_fits(p),
                forall|a: int| 0 <= a < axis ==> #[trigger] g.quad_closed(p, a),
            decreases 3 - axis,
        {
            let iu = (axis + 1) % 3;
            let iv = (axis + 2) % 3;
            if edge_crossed_exec(cube.corner_mask, axis) && pos[iu] != 0 && pos[iv] != 0 {
                let mut b = [x, y, z];
                b[iu] = b[iu] - 1;
                let mut d = [x, y, z];
                d[iv] = d[iv] - 1;
                let mut c = b;
                c[iv] = c[iv] - 1;
                assert((b@[0] as int, b@[1] as int, b@[2] as int) == back(p, iu as int));
                assert((d@[0] as int, d@[1] as int, d@[2] as int) == back(p, iv as int));
                assert((c@[0] as int, c@[1] as int, c@[2] as int) == back(
                    back(p, iu as int),
                    iv as int,
                ));
                let cb = cubes_get(cells, b[0], b[1], b[2]).unwrap();
                let cc = cubes_get(cells, c[0], c[1], c[2]).unwrap();
                let cd = cubes_get(cells, d[0], d[1], d[2]).unwrap();
                if !(cb.on_surface && cc.on_surface && cd.on_surface) {
                    assert(g.quad_owed(p, axis as int));
                    assert(!g.quad_closed(p, axis as int));
                    return false;
                }
                assert(g.quad_closes(p, axis as int));
            }
            axis += 1;
        }
        assert forall|a: int| #[trigger] g.quad_closed(p, a) by {
            if 0 <= a < 3 {
                assert(g.quad_closed(p, a));
            }
        }
        true
    }

    /// Whether a mesh can be drawn from the lattice that `cells` holds.
    fn in_order(cells: &CubeArray) -> (r: bool)
        requires
            cube_dim(cells).0 < MAX_DIM,
            cube_dim(cells).1 < MAX_DIM,
            cube_dim(cells).2 < MAX_DIM,
        ensures
            r == (Lattice { size: cube_dim(cells), cubes: cube_cells(cells) }).wf(),
    {
        let ghost g = Lattice { size: cube_dim(cells), cubes: cube_cells(cells) };
        let (width, height, depth) = cubes_dim_of(cells);
        let mut z: usize = 0;
        while z + 1 < depth
            invariant
                g == (Lattice { size: cube_dim(cells), cubes: cube_cells(cells) }),
                (width as nat, height as nat, depth as nat) == cube_dim(cells),
                width < MAX_DIM,
                height < MAX_DIM,
                depth < MAX_DIM,
                z <= depth,
                forall|p: (int, int, int)| p.2 < z ==> #[trigger] g.cube_in_order(p),
            decreases depth - z,
        {
            let mut y: usize = 0;
            while y + 1 < height
                invariant
                    g == (Lattice { size: cube_dim(cells), cubes: cube_cells(cells) }),
                    (width as nat, height as nat, depth as nat) == cube_dim(cells),
                    width < MAX_DIM,
                    height < MAX_DIM,
                    depth < MAX_DIM,
                    z + 1 < depth,
                    y <= height,
                    forall|p: (int, int, int)| p.2 < z ==> #[trigger] g.cube_in_order(p),
                    forall|p: (int, int, int)|
                        p.2 == z && p.1 < y ==> #[trigger] g.cube_in_order(p),
                decreases height - y,
            {
                let mut x: usize = 0;
                while x + 1 < width
                    invariant
                        g == (Lattice { size: cube_dim(cells), cubes: cube_cells(cells) }),
                        (width as nat, height as nat, depth as nat) == cube_dim(cells),
                        width < MAX_DIM,
                        height < MAX_DIM,
                        depth < MAX_DIM,
                        z + 1 < depth,
                        y + 1 < height,
                        x <= width,
                        forall|p: (int, int, int)| p.2 < z ==> #[trigger] g.cube_in_order(p),
                        forall|p: (int, int, int)|
                            p.2 == z && p.1 < y ==> #[trigger] g.cube_in_order(p),
                        forall|p: (int, int, int)|
                            p.2 == z && p.1 == y && p.0 < x ==> #[trigger] g.cube_in_order(p),
                    decreases width - x,
                {
                    if !Self::cube_in_order(cells, x, y, z) {
                        assert(!g.cube_in_order((x as int, y as int, z as int)));
                        return false;
                    }
                    assert forall|p: (int, int, int)|
                        p.2 == z && p.1 == y && p.0 < x + 1 implies #[trigger] g.cube_in_order(
                        p,
                    ) by {
                        if p.0 == x {
                            assert(p == (x as int, y as int, z as int));
                        }
                    }
                    x += 1;
                }
                assert forall|p: (int, int, int)|
                    p.2 == z && p.1 < y + 1 implies #[trigger] g.cube_in_order(p) by {
                    if p.1 == y && p.0 >= x {
                        assert(!in_scan(g, p));
                        assert forall|axis: int| #[trigger] g.quad_closed(p, axis) by {}
                    }
                }
                y += 1;
            }
            assert forall|p: (int, int, int)| p.2 < z + 1 implies #[trigger] g.cube_in_order(p) by {
                if p.2 == z && p.1 >= y {
                    assert(!in_scan(g, p));
                    assert forall|axis: int| #[trigger] g.quad_closed(p, axis) by {}
                }
            }
            z += 1;
        }
        assert forall|p: (int, int, int)| #[trigger] g.cube_in_order(p) by {
            if p.2 >= z {
                assert(!in_scan(g, p));
                assert forall|axis: int| #[trigger] g.quad_closed(p, axis) by {}
            }
        }
        true
    }

    /// Makes a lattice from the records of its cubes in row-major order: the
    /// record of the cube at `(x, y, z)` is
    /// `records[(x * dim.1 + y) * dim.2 + z]`.
    ///
    /// Fails where an axis has `MAX_DIM` cubes or more, where `records` does
    /// not hold one record for each cube, or where no mesh can be drawn from
    /// the records: a vertex lies beyond the limit on coordinates, or a quad
    /// that is owed cannot be closed (see `Lattice::wf`).
    pub fn new(dim: (usize, usize, usize), records: Vec<SurfaceNetCube>) -> (r: Option<CubeGrid>)
        ensures
            r is Some <==> dim.0 < MAX_DIM && dim.1 < MAX_DIM && dim.2 < MAX_DIM && dim.0 * dim.1
                * dim.2 == records@.len() && record_lattice(
                (dim.0 as nat, dim.1 as nat, dim.2 as nat),
                records@,
            ).wf(),
            r matches Some(grid) ==> grid.wf() && grid@ == record_lattice(
                (dim.0 as nat, dim.1 as nat, dim.2 as nat),
                records@,
            ),
    {
        let (width, height, depth) = dim;
        if width >= MAX_DIM || height >= MAX_DIM || depth >= MAX_DIM {
            return None;
        }
        proof {
            lemma_lattice_fits(width as int, height as int, depth as int);
            lemma_row_major(width as int, height as int, depth as int, 0, 0, 0);
        }
        if width * height * depth != records.len() {
            return None;
        }
        let ghost size = (width as nat, height as nat, depth as nat);
        let mut cells = cubes_from_elem(width, height, depth, SurfaceNetCube::default());
        let mut x: usize = 0;
        while x < width
            invariant
                x <= width,
                width < MAX_DIM,
                height < MAX_DIM,
                depth < MAX_DIM,
                size == (width as nat, height as nat, depth as nat),
                width * height * depth == records@.len(),
                cube_dim(&cells) == size,
                cube_cells(&cells).dom() == box_of(size),
                forall|i: int, j: int, k: int|
                    0 <= i < x && 0 <= j < height && 0 <= k < depth ==> #[trigger] cube_cells(
                        &cells,
                    )[(i, j, k)] == records@[(i * height + j) * depth + k],
            decreases width - x,
        {
            let mut y: usize = 0;
            while y < height
                invariant
                    x < width,
                    y <= height,
                    width < MAX_DIM,
                    height < MAX_DIM,
                    depth < MAX_DIM,
                    size == (width as nat, height as nat, depth as nat),
                    width * height * depth == records@.len(),
                    cube_dim(&cells) == size,
                    cube_cells(&cells).dom() == box_of(size),
                    forall|i: int, j: int, k: int|
                        0 <= i < x && 0 <= j < height && 0 <= k < depth ==> #[trigger] cube_cells(
                            &cells,
                        )[(i, j, k)] == records@[(i * height + j) * depth + k],
                    forall|j: int, k: int|
                        0 <= j < y && 0 <= k < depth ==> #[trigger] cube_cells(&cells)[(
                            x as int,
                            j,
                            k,
                        )] == records@[(x * height + j) * depth + k],
                decreases height - y,
            {
                let mut z: usize = 0;
                while z < depth
                    invariant
                        x < width,
                        y < height,
                        z <= depth,
                        width < MAX_DIM,
                        height < MAX_DIM,
                        depth < MAX_DIM,
                        size == (width as nat, height as nat, depth as nat),
                        width * height * depth == records@.len(),
                        cube_dim(&cells) == size,
                        cube_cells(&cells).dom() == box_of(size),
                        forall|i: int, j: int, k: int|
                            0 <= i < x && 0 <= j < height && 0 <= k < depth
                                ==> #[trigger] cube_cells(&cells)[(i, j, k)] == records@[(i
                                * height + j) * depth + k],
                        forall|j: int, k: int|
                            0 <= j < y && 0 <= k < depth ==> #[trigger] cube_cells(&cells)[(
                                x as int,
                                j,
                                k,
                            )] == records@[(x * height + j) * depth + k],
                        forall|k: int|
                            0 <= k < z ==> #[trigger] cube_cells(&cells)[(x as int, y as int, k)]
                                == records@[(x * height + y) * depth + k],
                    decreases depth - z,
                {
                    proof {
                        lemma_row_major(
                            width as int,
                            height as int,
                            depth as int,
                            x as int,
                            y as int,
                            z as int,
                        );
                    }
                    let record = records[(x * height + y) * depth + z];
                    cubes_set(&mut cells, x, y, z, record);
                    assert(cube_cells(&cells).dom() =~= box_of(size));
                    z += 1;
                }
                y += 1;
            }
            x += 1;
        }
        assert(cube_cells(&cells) =~= record_lattice(size, records@).cubes);
        if Self::in_order(&cells) {
            Some(CubeGrid { cells })
        } else {
            None
        }
    }
}

/// The place of `(x, y, z)` in row-major order lies within the volume.
proof fn lemma_row_major(w: int, h: int, d: int, x: int, y: int, z: int)
    requires
        0 <= w <= MAX_DIM,
        0 <= h <= MAX_DIM,
        0 <= d <= MAX_DIM,
        0 <= x,
        0 <= y,
        0 <= z,
    ensures
        0 <= w * h * d <= 0x4000_0000,
        0 <= w * h <= 0x10_0000,
        x < w && y < h && z < d ==> 0 <= x * h <= x * h + y < w * h && 0 <= (x * h + y) * d + z < w
            * h * d,
{
    assert(0 <= w * h * d <= 0x4000_0000 && 0 <= w * h <= 0x10_0000) by (nonlinear_arith)
        requires
            0 <= w <= 1024,
            0 <= h <= 1024,
            0 <= d <= 1024,
    ;
    if x < w && y < h && z < d {
        assert(0 <= x * h <= x * h + y < w * h && 0 <= (x * h + y) * d + z < w * h * d)
            by (nonlinear_arith)
            requires
                0 <= x < w,
                0 <= y < h,
                0 <= z < d,
        {
            assert(x * h + y <= (w - 1) * h + (h - 1));
            assert((w - 1) * h + h == w * h);
            assert((x * h + y) * d <= (w * h - 1) * d);
            assert((w * h - 1) * d + d == w * h * d);
        }
    }
}

/// One less than `n`, or zero.
pub open spec fn pred(n: nat) -> nat {
    if n == 0 {
        0
    } else {
        (n - 1) as nat
    }
}

/// The vertex of a cube on the surface lies inside the cube.
pub proof fn lemma_vertex_in_cube(s: Seq<i64>)
    requires
        classify(s).on_surface,
    ensures
        0 <= classify(s).position.x <= UNIT,
        0 <= classify(s).position.y <= UNIT,
        0 <= classify(s).position.z <= UNIT,
        classify(s).position.x == vertex_coord(s, 0),
        classify(s).position.y == vertex_coord(s, 1),
        classify(s).position.z == vertex_coord(s, 2),
{
    let k = lemma_mixed_cube_straddles(s);
    lemma_count_grows(s, k, 12);
    lemma_edge_sum_bounds(s, 12, 0);
    lemma_edge_sum_bounds(s, 12, 1);
    lemma_edge_sum_bounds(s, 12, 2);
    lemma_mean_bounds(edge_sum(s, 12, 0), crossing_count(s, 12));
    lemma_mean_bounds(edge_sum(s, 12, 1), crossing_count(s, 12));
    lemma_mean_bounds(edge_sum(s, 12, 2), crossing_count(s, 12));
}

/// A cube lies on the surface exactly when its corner mask is neither empty
/// nor full.
pub proof fn lemma_mask_consistency(s: Seq<i64>)
    ensures
        classify(s).on_surface <==> classify(s).corner_mask != 0 && classify(s).corner_mask
            != 0xff,
        classify(s).corner_mask == corner_mask_of(s),
{
    lemma_mask_tells(s, 0);
}

/// A cube with a solid and an empty corner lies on the surface.
pub proof fn lemma_mixed_corners(s: Seq<i64>, c1: int, c2: int)
    requires
        0 <= c1 < 8,
        0 <= c2 < 8,
        (s[c1] > 0) != (s[c2] > 0),
    ensures
        classify(s).on_surface,
{
    let m = corner_mask_of(s);
    lemma_mask_tells(s, c1);
    lemma_mask_tells(s, c2);
    let a = c1 as u32;
    let b = c2 as u32;
    assert(a < 8 && b < 8 && (m == 0 || m == 0xff) ==> ((m & (1u32 << a) != 0) == (m & (1u32 << b)
        != 0))) by (bit_vector);
}

/// A cube whose corners are all solid, or all empty, does not lie on the
/// surface.
pub proof fn lemma_uniform_cube(s: Seq<i64>)
    requires
        (forall|c: int| 0 <= c < 8 ==> s[c] > 0) || (forall|c: int| 0 <= c < 8 ==> s[c] <= 0),
    ensures
        !classify(s).on_surface,
        classify(s).corner_mask == (if s[0] > 0 { 0xffu8 } else { 0u8 }),
{
    let m = corner_mask_of(s);
    lemma_mask_tells(s, 0);
    lemma_mask_tells(s, 1);
    lemma_mask_tells(s, 2);
    lemma_mask_tells(s, 3);
    lemma_mask_tells(s, 4);
    lemma_mask_tells(s, 5);
    lemma_mask_tells(s, 6);
    lemma_mask_tells(s, 7);
    assert(m < 256 && m != 0 && m != 0xff ==> {
        ||| (m & (1u32 << 0u32) != 0) != (m & (1u32 << 1u32) != 0)
        ||| (m & (1u32 << 0u32) != 0) != (m & (1u32 << 2u32) != 0)
        ||| (m & (1u32 << 0u32) != 0) != (m & (1u32 << 3u32) != 0)
        ||| (m & (1u32 << 0u32) != 0) != (m & (1u32 << 4u32) != 0)
        ||| (m & (1u32 << 0u32) != 0) != (m & (1u32 << 5u32) != 0)
        ||| (m & (1u32 << 0u32) != 0) != (m & (1u32 << 6u32) != 0)
        ||| (m & (1u32 << 0u32) != 0) != (m & (1u32 << 7u32) != 0)
    }) by (bit_vector);
    assert((0u32 & (1u32 << 0u32) == 0) && (0xffu32 & (1u32 << 0u32) != 0)) by (bit_vector);
}

/// Two predicates that agree below `n` pack to the same number.
pub proof fn lemma_pack_bits_agree(f: spec_fn(int) -> bool, g: spec_fn(int) -> bool, n: int)
    requires
        forall|i: int| 0 <= i < n ==> #[trigger] f(i) == g(i),
    ensures
        pack_bits(f, n) == pack_bits(g, n),
    decreases n,
{
    if n > 0 {
        lemma_pack_bits_agree(f, g, n - 1);
    }
}

/// Whether `t` holds the samples of `s`, each times `k`.
pub open spec fn scaled_by(s: Seq<i64>, k: int, t: Seq<i64>) -> bool {
    &&& s.len() == 8
    &&& t.len() == 8
    &&& forall|c: int| 0 <= c < 8 ==> #[trigger] t[c] == k * s[c]
}

/// Whether edge `e` is crossed and degenerate, and would add to the vertex
/// were it not degenerate: every such edge would, but one that leaves corner
/// 0 with a density of zero there, whose crossing lies at corner 0 itself.
pub open spec fn skipped_edge_counts(s: Seq<i64>, e: int) -> bool {
    &&& edge_straddles(s, e)
    &&& edge_degenerate(s[edge_lo(e) as int], s[edge_hi(e) as int])
    &&& !(edge_lo(e) == 0 && s[0] == 0)
}

/// Whether scaling the samples `s` by `k` leaves the vertex where it is: it
/// does unless `k` is two or more and lifts an edge that counts out of
/// degeneracy.
pub open spec fn scaling_keeps_vertex(s: Seq<i64>, k: int) -> bool {
    k == 1 || forall|e: int| 0 <= e < 12 ==> !#[trigger] skipped_edge_counts(s, e)
}

proof fn lemma_scaled_sign(a: int, k: int)
    requires
        k >= 1,
    ensures
        (k * a > 0) == (a > 0),
        abs(k * a) == k * abs(a),
{
    assert((k * a > 0) == (a > 0) && (k * a < 0) == (a < 0) && k * (-a) == -(k * a))
        by (nonlinear_arith)
        requires
            k >= 1,
    ;
}

proof fn lemma_scaled_edge(s: Seq<i64>, k: int, t: Seq<i64>, e: int, axis: int)
    requires
        scaled_by(s, k, t),
        k >= 2,
        0 <= e < 12,
        0 <= axis < 3,
        !skipped_edge_counts(s, e),
    ensures
        edge_straddles(t, e) == edge_straddles(s, e),
        edge_coord(t, e, axis) == edge_coord(s, e, axis),
{
    let lo = edge_lo(e) as int;
    let hi = edge_hi(e) as int;
    assert(0 <= lo < 8 && 0 <= hi < 8);
    let g0 = s[lo] as int;
    let g1 = s[hi] as int;
    assert(t[lo] == k * g0 && t[hi] == k * g1);
    lemma_scaled_sign(g0, k);
    lemma_scaled_sign(g1, k);
    lemma_scaled_sign(g0 - g1, k);
    assert(k * g0 - k * g1 == k * (g0 - g1)) by (nonlinear_arith);
    if edge_straddles(s, e) {
        let span = abs(g0 - g1);
        let reach = abs(g0);
        assert(k * span >= 2 * span) by (nonlinear_arith)
            requires
                k >= 2,
                span >= 0,
        ;
        vstd::arithmetic::div_mod::lemma_div_multiples_vanish_quotient(k, reach * UNIT, span);
        assert(k * (reach * UNIT) == (k * reach) * UNIT) by (nonlinear_arith);
        assert(crossing_fraction(t[lo], t[hi]) == crossing_fraction(s[lo], s[hi]));
        if edge_degenerate(s[lo], s[hi]) {
            // The edge leaves corner 0, where the density is zero: its
            // crossing lies at corner 0, which adds nothing.
            assert(lo == 0 && g0 == 0);
            assert(reach * UNIT == 0);
            assert(crossing_fraction(s[lo], s[hi]) == 0);
            assert(corner_coord(0, axis) == 0);
            assert(lerp(0, corner_coord(hi, axis), 0) == 0) by (nonlinear_arith)
                requires
                    lerp(0, corner_coord(hi, axis), 0) == 0 * (UNIT - 0) + corner_coord(hi, axis)
                        * 0,
            ;
        }
    }
}

proof fn lemma_scaled_sums(s: Seq<i64>, k: int, t: Seq<i64>, n: int, axis: int)
    requires
        scaled_by(s, k, t),
        k >= 2,
        0 <= n <= 12,
        0 <= axis < 3,
        scaling_keeps_vertex(s, k),
    ensures
        edge_sum(t, n, axis) == edge_sum(s, n, axis),
        crossing_count(t, n) == crossing_count(s, n),
    decreases n,
{
    if n > 0 {
        lemma_scaled_sums(s, k, t, n - 1, axis);
        assert(!skipped_edge_counts(s, n - 1));
        lemma_scaled_edge(s, k, t, n - 1, axis);
    }
}

/// Scaling the eight corner samples of a cube by the same positive factor
/// changes neither its corner mask nor its vertex: only the signs of the
/// samples and the ratios between them count. The one exception is a factor
/// that lifts the two densities of a crossed edge out of degeneracy, so that
/// the edge begins to count (see `scaling_keeps_vertex`).
pub proof fn lemma_scale_invariance(s: Seq<i64>, k: int, t: Seq<i64>)
    requires
        scaled_by(s, k, t),
        k >= 1,
        scaling_keeps_vertex(s, k),
    ensures
        corner_mask_of(t) == corner_mask_of(s),
        classify(t) == classify(s),
{
    assert forall|c: int| 0 <= c < 8 implies #[trigger] solidity(t)(c) == solidity(s)(c) by {
        lemma_scaled_sign(s[c] as int, k);
    }
    lemma_pack_bits_agree(solidity(t), solidity(s), 8);
    if k == 1 {
        assert(t =~= s);
    } else {
        lemma_scaled_sums(s, k, t, 12, 0);
        lemma_scaled_sums(s, k, t, 12, 1);
        lemma_scaled_sums(s, k, t, 12, 2);
    }
}

/// The corner mask never changes under scaling by a positive factor.
pub proof fn lemma_scale_keeps_mask(s: Seq<i64>, k: int, t: Seq<i64>)
    requires
        scaled_by(s, k, t),
        k >= 1,
    ensures
        corner_mask_of(t) == corner_mask_of(s),
        classify(t).on_surface == classify(s).on_surface,
{
    assert forall|c: int| 0 <= c < 8 implies #[trigger] solidity(t)(c) == solidity(s)(c) by {
        lemma_scaled_sign(s[c] as int, k);
    }
    lemma_pack_bits_agree(solidity(t), solidity(s), 8);
}

/// The cube next to `p` against the direction of `axis`.
pub open spec fn back(p: (int, int, int), axis: int) -> (int, int, int) {
    if axis == 0 {
        (p.0 - 1, p.1, p.2)
    } else if axis == 1 {
        (p.0, p.1 - 1, p.2)
    } else {
        (p.0, p.1, p.2 - 1)
    }
}

/// The coordinate of `p` along `axis`.
pub open spec fn coord_of(p: (int, int, int), axis: int) -> int {
    if axis == 0 {
        p.0
    } else if axis == 1 {
        p.1
    } else {
        p.2
    }
}

/// Where the surface crosses the edge that leaves corner 0 of the cube at
/// `p` along `axis`, the three other cubes around that edge lie on the
/// surface too.
pub proof fn lemma_cubes_around_edge(field: Map<(int, int, int), i64>, p: (int, int, int), axis: int)
    requires
        0 <= axis < 3,
        edge_crossed(cube_at(field, p.0, p.1, p.2).corner_mask as u32, axis),
    ensures
        ({
            let b = back(p, (axis + 1) % 3);
            let d = back(p, (axis + 2) % 3);
            let c = back(b, (axis + 2) % 3);
            &&& cube_at(field, b.0, b.1, b.2).on_surface
            &&& cube_at(field, c.0, c.1, c.2).on_surface
            &&& cube_at(field, d.0, d.1, d.2).on_surface
        }),
{
    let s = corner_samples(field, p.0, p.1, p.2);
    lemma_mask_consistency(s);
    lemma_mask_tells(s, 0);
    lemma_mask_tells(s, 1);
    lemma_mask_tells(s, 2);
    lemma_mask_tells(s, 4);
    let u = (axis + 1) % 3;
    let v = (axis + 2) % 3;
    let b = back(p, u);
    let d = back(p, v);
    let c = back(b, v);
    let far: int = if axis == 0 { 1 } else if axis == 1 { 2 } else { 4 };
    let eu: int = if u == 0 { 1 } else if u == 1 { 2 } else { 4 };
    let ev: int = if v == 0 { 1 } else if v == 1 { 2 } else { 4 };
    assert(edge_lo(axis) == 0 && edge_hi(axis) == far);
    assert((s[0] > 0) != (s[far] > 0));
    let sb = corner_samples(field, b.0, b.1, b.2);
    let sc = corner_samples(field, c.0, c.1, c.2);
    let sd = corner_samples(field, d.0, d.1, d.2);
    assert(sb[eu] == s[0] && sb[eu + far] == s[far]);
    assert(sd[ev] == s[0] && sd[ev + far] == s[far]);
    assert(sc[eu + ev] == s[0] && sc[eu + ev + far] == s[far]);
    lemma_mixed_corners(sb, eu, eu + far);
    lemma_mixed_corners(sd, ev, ev + far);
    lemma_mixed_corners(sc, eu + ev, eu + ev + far);
}

impl SurfaceNet {
    /// Whether the tables hold what they are meant to hold.
    pub closed spec fn wf(&self) -> bool {
        &&& forall|c: int|
            0 <= c < 8 ==> (#[trigger] self.voxel_corner_offsets@[c]) == (
                corner_coord(c, 0) as usize,
                corner_coord(c, 1) as usize,
                corner_coord(c, 2) as usize,
            )
        &&& self.cube_edges@ == cube_edge_table()
        &&& forall|m: int|
            0 <= m < 256 ==> (#[trigger] self.intersection_table@[m]) == edge_mask(m as u32)
    }

    /// Builds the extractor's tables.
    pub fn new() -> (net: SurfaceNet)
        ensures
            net.wf(),
    {
        let voxel_corner_offsets: [(usize, usize, usize); 8] = [
            (0, 0, 0),
            (1, 0, 0),
            (0, 1, 0),
            (1, 1, 0),
            (0, 0, 1),
            (1, 0, 1),
            (0, 1, 1),
            (1, 1, 1),
        ];
        let cube_edges = mk_cube_edges();
        let intersection_table = mk_intersection_table(&cube_edges);
        SurfaceNet { voxel_corner_offsets, cube_edges, intersection_table }
    }

    /// The entry of the intersection table for a corner mask.
    pub fn crossed_edges(&self, corner_mask: u8) -> (crossed: u32)
        requires
            self.wf(),
        ensures
            crossed == edge_mask(corner_mask as u32),
    {
        self.intersection_table[corner_mask as usize]
    }

    /// Classifies the unit cubes of a chunk: `WIDTH + 2` by `HEIGHT + 2` by
    /// `DEPTH + 2` of them, the cube at `(x, y, z)` with the sample at
    /// `(x, y, z)` for its corner 0. Each vertex is moved to its cube's place
    /// in the lattice.
    ///
    /// The chunk must hold its padding: a sample for every corner of every
    /// cube.
    pub fn mk_cubes(&self, chunk: &Chunk) -> (cubes: CubeGrid)
        requires
            self.wf(),
            chunk.wf(),
            chunk@.dim.0 >= WIDTH + PADDING,
            chunk@.dim.1 >= HEIGHT + PADDING,
            chunk@.dim.2 >= DEPTH + PADDING,
        ensures
            cubes.wf(),
            cubes@ == field_lattice(
                chunk@.cells,
                ((WIDTH + 2) as nat, (HEIGHT + 2) as nat, (DEPTH + 2) as nat),
            ),
    {
        let (sw, sh, sd) = chunk.dim();
        let width = WIDTH + 2;
        let height = HEIGHT + 2;
        let depth = DEPTH + 2;
        let ghost field = chunk@.cells;
        let ghost size = (width as nat, height as nat, depth as nat);
        proof {
            lemma_lattice_fits(width as int, height as int, depth as int);
        }
        let mut cells = cubes_from_elem(width, height, depth, SurfaceNetCube::default());
        let mut x: usize = 0;
        while x < width
            invariant
                self.wf(),
                chunk.wf(),
                field == chunk@.cells,
                chunk@.dim == (sw as nat, sh as nat, sd as nat),
                width == WIDTH + 2,
sw >= WIDTH + PADDING,
                height == HEIGHT + 2,
sh >= HEIGHT + PADDING,
                depth == DEPTH + 2,
sd >= DEPTH + PADDING,
cube_cells(&cells).dom() == box_of((width as nat, height as nat, depth as nat)),
                x <= width,
                cube_dim(&cells) == (width as nat, height as nat, depth as nat),
                forall|i: int, j: int, k: int|
                    0 <= i < x && 0 <= j < height && 0 <= k < depth ==> #[trigger] cube_cells(
                        &cells,
                    )[(i, j, k)] == cube_at(field, i, j, k),
            decreases width - x,
        {
            let mut y: usize = 0;
            while y < height
                invariant
                    self.wf(),
                    chunk.wf(),
                    field == chunk@.cells,
                    chunk@.dim == (sw as nat, sh as nat, sd as nat),
                    width == WIDTH + 2,
sw >= WIDTH + PADDING,
                    height == HEIGHT + 2,
sh >= HEIGHT + PADDING,
                    depth == DEPTH + 2,
sd >= DEPTH + PADDING,
cube_cells(&cells).dom() == box_of((width as nat, height as nat, depth as nat)),
                    x < width,
                    y <= height,
                    cube_dim(&cells) == (width as nat, height as nat, depth as nat),
                    forall|i: int, j: int, k: int|
                        0 <= i < x && 0 <= j < height && 0 <= k < depth ==> #[trigger] cube_cells(
                            &cells,
                        )[(i, j, k)] == cube_at(field, i, j, k),
                    forall|j: int, k: int|
                        0 <= j < y && 0 <= k < depth ==> #[trigger] cube_cells(&cells)[(
                            x as int,
                            j,
                            k,
                        )] == cube_at(field, x as int, j, k),
                decreases height - y,
            {
                let mut z: usize = 0;
                while z < depth
                    invariant
                        self.wf(),
                        chunk.wf(),
                        field == chunk@.cells,
                        chunk@.dim == (sw as nat, sh as nat, sd as nat),
                        width == WIDTH + 2,
sw >= WIDTH + PADDING,
                        height == HEIGHT + 2,
sh >= HEIGHT + PADDING,
                        depth == DEPTH + 2,
sd >= DEPTH + PADDING,
cube_cells(&cells).dom() == box_of((width as nat, height as nat, depth as nat)),
                        x < width,
                        y < height,
                        z <= depth,
                        cube_dim(&cells) == (width as nat, height as nat, depth as nat),
                        forall|i: int, j: int, k: int|
                            0 <= i < x && 0 <= j < height && 0 <= k < depth
                                ==> #[trigger] cube_cells(&cells)[(i, j, k)] == cube_at(
                                field,
                                i,
                                j,
                                k,
                            ),
                        forall|j: int, k: int|
                            0 <= j < y && 0 <= k < depth ==> #[trigger] cube_cells(&cells)[(
                                x as int,
                                j,
                                k,
                            )] == cube_at(field, x as int, j, k),
                        forall|k: int|
                            0 <= k < z ==> #[trigger] cube_cells(&cells)[(x as int, y as int, k)]
                                == cube_at(field, x as int, y as int, k),
                    decreases depth - z,
                {
                    let mut sample = [0i64; 8];
                    let mut i: usize = 0;
                    while i < 8
                        invariant
                            self.wf(),
                            chunk.wf(),
                            field == chunk@.cells,
                            chunk@.dim == (sw as nat, sh as nat, sd as nat),
                            x + 1 < sw,
                            y + 1 < sh,
                            z + 1 < sd,
                            i <= 8,
                            forall|c: int|
                                0 <= c < i ==> sample@[c] == #[trigger] corner_samples(
                                    field,
                                    x as int,
                                    y as int,
                                    z as int,
                                )[c],
                        decreases 8 - i,
                    {
                        let offset = self.voxel_corner_offsets[i];
                        assert(offset == (
                            corner_coord(i as int, 0) as usize,
                            corner_coord(i as int, 1) as usize,
                            corner_coord(i as int, 2) as usize,
                        ));
                        let value = chunk.get((x + offset.0, y + offset.1, z + offset.2)).unwrap();
                        sample[i] = value;
                        i += 1;
                    }
                    assert(sample@ =~= corner_samples(field, x as int, y as int, z as int));
                    let SurfaceNetCube { position, corner_mask, on_surface } =
                        self.mk_surface_net_cube(sample);
                    assert(UNIT * MAX_DIM <= 0x4_0000_0000) by (nonlinear_arith)
                        requires
                            UNIT == 1_000_000,
                            MAX_DIM == 1024,
                    ;
                    assert(x * UNIT <= MAX_DIM * UNIT && y * UNIT <= MAX_DIM * UNIT && z * UNIT
                        <= MAX_DIM * UNIT) by (nonlinear_arith)
                        requires
                            x <= MAX_DIM,
                            y <= MAX_DIM,
                            z <= MAX_DIM,
                            UNIT == 1_000_000,
                    ;
                    let cube = SurfaceNetCube {
                        position: Vector3::new(
                            position.x + (x as i64) * UNIT,
                            position.y + (y as i64) * UNIT,
                            position.z + (z as i64) * UNIT,
                        ),
                        corner_mask,
                        on_surface,
                    };
                    assert(cube == cube_at(field, x as int, y as int, z as int));
                    cubes_set(&mut cells, x, y, z, cube);
                    assert(cube_cells(&cells).dom() =~= box_of(
                        (width as nat, height as nat, depth as nat),
                    ));
                    z += 1;
                }
                y += 1;
            }
            x += 1;
        }
        proof {
            lemma_field_lattice_wf(field, size);
            assert(cube_cells(&cells) =~= field_lattice(field, size).cubes);
        }
        CubeGrid { cells }
    }

    /// Classifies one unit cube from the densities at its eight corners.
    ///
    /// The cube lies on the surface exactly when some corner is solid and
    /// some corner is not. Its vertex is then the mean, over the crossed
    /// edges, of the points where the density crosses zero; an edge whose
    /// two densities lie within a millionth of each other counts as crossed
    /// but adds nothing.
    pub fn mk_surface_net_cube(&self, sample: [i64; 8]) -> (cube: SurfaceNetCube)
        requires
            self.wf(),
        ensures
            cube == classify(sample@),
            cube.corner_mask == corner_mask_of(sample@),
            cube.on_surface <==> cube.corner_mask != 0 && cube.corner_mask != 0xff,
            0 <= cube.position.x <= UNIT,
            0 <= cube.position.y <= UNIT,
            0 <= cube.position.z <= UNIT,
    {
        let ghost s = sample@;
        let mut corner_mask: u32 = 0;
        let mut i: usize = 0;
        while i < 8
            invariant
                i <= 8,
                s == sample@,
                corner_mask == pack_bits(solidity(s), i as int),
            decreases 8 - i,
        {
            corner_mask |= if sample[i] > 0 {
                1u32 << (i as u32)
            } else {
                0
            };
            i += 1;
        }
        proof {
            lemma_mask_tells(s, 0);
        }
        if corner_mask == 0 || corner_mask == 0xff {
            return SurfaceNetCube {
                position: Vector3::zero(),
                on_surface: false,
                corner_mask: corner_mask as u8,
            };
        }
        let crossed = self.intersection_table[corner_mask as usize];
        let mut edge_crossings: i64 = 0;
        let mut sum_x: i64 = 0;
        let mut sum_y: i64 = 0;
        let mut sum_z: i64 = 0;
        let mut i: usize = 0;
        while i < 12
            invariant
                i <= 12,
                s == sample@,
                self.wf(),
                crossed == edge_mask(corner_mask_of(s)),
                edge_crossings == crossing_count(s, i as int),
                sum_x == edge_sum(s, i as int, 0),
                sum_y == edge_sum(s, i as int, 1),
                sum_z == edge_sum(s, i as int, 2),
            decreases 12 - i,
        {
            proof {
                lemma_edge_tells(s, i as int);
                lemma_count_nonnegative(s, i as int);
                lemma_edge_sum_bounds(s, i as int, 0);
                lemma_edge_sum_bounds(s, i as int, 1);
                lemma_edge_sum_bounds(s, i as int, 2);
                lemma_edge_coord_bounds(s, i as int, 0);
                lemma_edge_coord_bounds(s, i as int, 1);
                lemma_edge_coord_bounds(s, i as int, 2);
            }
            if crossed & (1u32 << (i as u32)) != 0 {
                edge_crossings += 1;
                let e0 = self.cube_edges[2 * i] as usize;
                let e1 = self.cube_edges[2 * i + 1] as usize;
                assert(e0 == edge_lo(i as int) && e1 == edge_hi(i as int));
                assert(e0 < 8 && e1 < 8);
                let g0 = sample[e0];
                let g1 = sample[e1];
                let diff: i128 = g0 as i128 - g1 as i128;
                let span: i128 = if diff < 0 {
                    -diff
                } else {
                    diff
                };
                if span > 1 {
                    let reach: i128 = if g0 < 0 {
                        -(g0 as i128)
                    } else {
                        g0 as i128
                    };
                    proof {
                        lemma_fraction_bounds(g0, g1);
                    }
                    let t = ((reach * (UNIT as i128)) / span) as i64;
                    let (ax, ay, az) = self.voxel_corner_offsets[e0];
                    let (bx, by, bz) = self.voxel_corner_offsets[e1];
                    sum_x += lerp_corner(ax, bx, t);
                    sum_y += lerp_corner(ay, by, t);
                    sum_z += lerp_corner(az, bz, t);
                }
            }
            i += 1;
        }
        proof {
            let k = lemma_mixed_cube_straddles(s);
            lemma_count_grows(s, k, 12);
            lemma_count_nonnegative(s, 12);
            lemma_edge_sum_bounds(s, 12, 0);
            lemma_edge_sum_bounds(s, 12, 1);
            lemma_edge_sum_bounds(s, 12, 2);
            lemma_mean_bounds(sum_x as int, edge_crossings as int);
            lemma_mean_bounds(sum_y as int, edge_crossings as int);
            lemma_mean_bounds(sum_z as int, edge_crossings as int);
        }
        SurfaceNetCube {
            position: Vector3::new(
                sum_x / edge_crossings,
                sum_y / edge_crossings,
                sum_z / edge_crossings,
            ),
            on_surface: true,
            corner_mask: corner_mask as u8,
        }
    }
}

proof fn lemma_lattice_fits(w: int, h: int, d: int)
    requires
        0 <= w < MAX_DIM,
        0 <= h < MAX_DIM,
        0 <= d < MAX_DIM,
    ensures
        0 <= nonzero_product(w, h, d) <= 0x4000_0000,
{
    let a = if w == 0 { 1 } else { w };
    let b = if h == 0 { 1 } else { h };
    let c = if d == 0 { 1 } else { d };
    assert(0 <= a * b * c <= 0x4000_0000) by (nonlinear_arith)
        requires
            0 < a <= 1024,
            0 < b <= 1024,
            0 < c <= 1024,
    ;
}

proof fn lemma_mean_bounds(sum: int, count: int)
    requires
        count >= 1,
        0 <= sum <= count * UNIT,
    ensures
        0 <= sum / count <= UNIT,
{
    assert(0 <= sum / count <= UNIT) by (nonlinear_arith)
        requires
            count >= 1,
            0 <= sum <= count * UNIT,
    ;
}

/// Interpolates between two corner coordinates (each 0 or 1) at the fraction
/// `t`.
fn lerp_corner(a: usize, b: usize, t: i64) -> (r: i64)
    requires
        a <= 1,
        b <= 1,
        0 <= t <= UNIT,
    ensures
        r == lerp(a as int, b as int, t as int),
        0 <= r <= UNIT,
{
    let a = a as i64;
    let b = b as i64;
    assert(0 <= a * (UNIT - t) <= UNIT && 0 <= b * t <= UNIT && 0 <= a * (UNIT - t) + b * t
        <= UNIT) by (nonlinear_arith)
        requires
            0 <= a <= 1,
            0 <= b <= 1,
            0 <= t <= UNIT,
    ;
    a * (UNIT - t) + b * t
}

} // verus!
