//! The triangle mesh of a lattice of cubes.
//!
//! The lattice is walked slice by slice along z, row by row along y, cube by
//! cube along x. Each cube on the surface gives one vertex. Where the surface
//! crosses one of the three edges that leave a cube's corner 0, the four
//! cubes around that edge give one quad, split into two triangles.

use crate::fixed::{Vector3, UNIT};
use crate::terrain::chunk::MAX_DIM;
use crate::terrain::grid::in_box;
use crate::terrain::surface_net::{
    back, coord_of, corner_coord, corner_samples, corner_solid, crossings, cube_at, edge_crossed,
    edge_mask, field_lattice, in_scan, lemma_pack_bits, lemma_uniform_cube, pred, CubeGrid,
    Lattice, SurfaceNet, SurfaceNetCube,
};
use crate::util::{calculate_normals, vertex_normal, within_limit};
use vstd::prelude::*;

verus! {

/// The most vertices that a mesh can hold: its indices are sixteen bits wide.
pub const MAX_VERTICES: usize = 65536;

/// A texture coordinate.
#[derive(Clone, Copy, Debug, PartialEq, Eq, Structural)]
pub struct TexCoord {
    pub u: i64,
    pub v: i64,
}

/// A triangle mesh: one position, normal and texture coordinate for each
/// vertex, and three indices for each triangle.
#[derive(Debug)]
pub struct Mesh {
    pub positions: Vec<Vector3>,
    pub normals: Vec<Vector3>,
    pub tex_coords: Vec<TexCoord>,
    pub indices: Vec<u16>,
}

/// What a mesh is: its four lists.
pub struct MeshView {
    pub positions: Seq<Vector3>,
    pub normals: Seq<Vector3>,
    pub tex_coords: Seq<TexCoord>,
    pub indices: Seq<u16>,
}

impl View for Mesh {
    type V = MeshView;

    open spec fn view(&self) -> MeshView {
        MeshView {
            positions: self.positions@,
            normals: self.normals@,
            tex_coords: self.tex_coords@,
            indices: self.indices@,
        }
    }
}

impl Clone for Mesh {
    fn clone(&self) -> (copy: Mesh)
        ensures
            copy@ == self@,
    {
        let copy = Mesh {
            positions: self.positions.clone(),
            normals: self.normals.clone(),
            tex_coords: self.tex_coords.clone(),
            indices: self.indices.clone(),
        };
        assert(copy.positions@ =~= self.positions@);
        assert(copy.normals@ =~= self.normals@);
        assert(copy.tex_coords@ =~= self.tex_coords@);
        assert(copy.indices@ =~= self.indices@);
        copy
    }
}

/// Why no mesh could be made.
#[derive(Clone, Copy, Debug, PartialEq, Eq, Structural)]
pub enum MeshError {
    /// The surface has more than `MAX_VERTICES` vertices.
    TooManyVertices,
}

/// A vertex as the quads see it: its index in the mesh and its position.
#[derive(Clone, Copy, Debug, PartialEq, Eq, Structural)]
pub struct MeshVertex {
    pub index: u16,
    pub position: Vector3,
}

/// The texture coordinate that every vertex gets.
pub open spec fn plain_tex_coord() -> TexCoord {
    TexCoord { u: UNIT, v: 0 }
}

/// The record of the cube at `p`.
pub open spec fn cube_of(g: Lattice, p: (int, int, int)) -> SurfaceNetCube {
    g.cube(p.0, p.1, p.2)
}

/// The vertices of the first `x` cubes of row `(y, z)`, in the order of the
/// walk.
pub open spec fn row_vertices(g: Lattice, x: int, y: int, z: int) -> Seq<Vector3>
    decreases x,
{
    if x <= 0 {
        Seq::empty()
    } else if g.cube(x - 1, y, z).on_surface {
        row_vertices(g, x - 1, y, z).push(g.cube(x - 1, y, z).position)
    } else {
        row_vertices(g, x - 1, y, z)
    }
}

/// The vertices of the first `y` rows of slice `z`.
pub open spec fn slice_vertices(g: Lattice, y: int, z: int) -> Seq<Vector3>
    decreases y,
{
    if y <= 0 {
        Seq::empty()
    } else {
        slice_vertices(g, y - 1, z) + row_vertices(g, pred(g.dim().0) as int, y - 1, z)
    }
}

/// The vertices of the first `z` slices.
pub open spec fn volume_vertices(g: Lattice, z: int) -> Seq<Vector3>
    decreases z,
{
    if z <= 0 {
        Seq::empty()
    } else {
        volume_vertices(g, z - 1) + slice_vertices(g, pred(g.dim().1) as int, z - 1)
    }
}

/// The vertices of the mesh: the positions of the cubes on the surface, in
/// the order of the walk.
pub open spec fn surface_vertices(g: Lattice) -> Seq<Vector3> {
    volume_vertices(g, pred(g.dim().2) as int)
}

/// How many vertices the walk has made when it reaches the cube at `p`: the
/// index of that cube's vertex, if it has one.
pub open spec fn vertex_index(g: Lattice, p: (int, int, int)) -> int {
    (volume_vertices(g, p.2).len() + slice_vertices(g, p.1, p.2).len() + row_vertices(
        g,
        p.0,
        p.1,
        p.2,
    ).len()) as int
}

/// The vertex of the cube at `p` as the quads see it.
pub open spec fn corner_of(g: Lattice, p: (int, int, int)) -> MeshVertex {
    MeshVertex { index: vertex_index(g, p) as u16, position: cube_of(g, p).position }
}

/// The squared distance between two points.
pub open spec fn dist2(a: Vector3, b: Vector3) -> int {
    a.ints().minus(b.ints()).norm_squared()
}

/// The two triangles of the quad `a b c d`, which share the longer of its two
/// diagonals: `a b c` and `a c d` where `a c` is at least as long as `b d`,
/// else `a b d` and `d b c`.
pub open spec fn quad_indices(a: MeshVertex, b: MeshVertex, c: MeshVertex, d: MeshVertex) -> Seq<
    u16,
> {
    if dist2(a.position, c.position) >= dist2(b.position, d.position) {
        seq![a.index, b.index, c.index, a.index, c.index, d.index]
    } else {
        seq![a.index, b.index, d.index, d.index, b.index, c.index]
    }
}

/// The quad around the edge that leaves corner 0 of the cube at `p` along
/// `axis`, or nothing where the surface does not cross that edge or the cube
/// lies at the lattice's lower boundary across the edge. The quad's
/// orientation follows the sign of the density at corner 0.
pub open spec fn axis_quad(g: Lattice, p: (int, int, int), axis: int) -> Seq<u16> {
    let u = (axis + 1) % 3;
    let v = (axis + 2) % 3;
    let mask = cube_of(g, p).corner_mask as u32;
    if !edge_crossed(mask, axis) || coord_of(p, u) == 0 || coord_of(p, v) == 0 {
        Seq::empty()
    } else {
        let a = corner_of(g, p);
        let b = corner_of(g, back(p, u));
        let c = corner_of(g, back(back(p, u), v));
        let d = corner_of(g, back(p, v));
        if corner_solid(mask, 0) {
            quad_indices(a, b, c, d)
        } else {
            quad_indices(a, d, c, b)
        }
    }
}

/// The quads of the cube at `p` around its first `n` axes.
pub open spec fn axis_quads(g: Lattice, p: (int, int, int), n: int) -> Seq<u16>
    decreases n,
{
    if n <= 0 {
        Seq::empty()
    } else {
        axis_quads(g, p, n - 1) + axis_quad(g, p, n - 1)
    }
}

/// The indices that the cube at `p` adds to the mesh.
pub open spec fn cube_indices(g: Lattice, p: (int, int, int)) -> Seq<u16> {
    if cube_of(g, p).on_surface {
        axis_quads(g, p, 3)
    } else {
        Seq::empty()
    }
}

/// The indices of the first `x` cubes of row `(y, z)`.
pub open spec fn row_indices(g: Lattice, x: int, y: int, z: int) -> Seq<u16>
    decreases x,
{
    if x <= 0 {
        Seq::empty()
    } else {
        row_indices(g, x - 1, y, z) + cube_indices(g, (x - 1, y, z))
    }
}

/// The indices of the first `y` rows of slice `z`.
pub open spec fn slice_indices(g: Lattice, y: int, z: int) -> Seq<u16>
    decreases y,
{
    if y <= 0 {
        Seq::empty()
    } else {
        slice_indices(g, y - 1, z) + row_indices(g, pred(g.dim().0) as int, y - 1, z)
    }
}

/// The indices of the first `z` slices.
pub open spec fn volume_indices(g: Lattice, z: int) -> Seq<u16>
    decreases z,
{
    if z <= 0 {
        Seq::empty()
    } else {
        volume_indices(g, z - 1) + slice_indices(g, pred(g.dim().1) as int, z - 1)
    }
}

/// The triangles of the mesh, three indices each, in the order of the walk.
pub open spec fn surface_indices(g: Lattice) -> Seq<u16> {
    volume_indices(g, pred(g.dim().2) as int)
}

/// The mesh of a lattice: its vertices and triangles, the same texture
/// coordinate for every vertex, and the normals of the vertices.
pub open spec fn mesh_of(g: Lattice) -> MeshView {
    let positions = surface_vertices(g);
    let indices = surface_indices(g);
    MeshView {
        positions,
        normals: Seq::new(positions.len(), |v: int| vertex_normal(positions, indices, v)),
        tex_coords: Seq::new(positions.len(), |i: int| plain_tex_coord()),
        indices,
    }
}

/// Where the vertex of the cube at `p` is kept while the walk may still need
/// it, in a buffer of two slices: slices take turns in the two halves.
pub open spec fn slot_of(w: int, h: int, p: (int, int, int)) -> int {
    1 + p.0 + (w + 1) * (1 + p.1) + ((p.2 + 1) % 2) * ((w + 1) * (h + 1))
}

/// How far back in the buffer the cube before the one at height `z` lies
/// along each axis.
pub open spec fn strides(w: int, h: int, z: int) -> Seq<i64> {
    seq![
        1i64,
        (w + 1) as i64,
        (if z % 2 == 0 {
            (w + 1) * (h + 1)
        } else {
            -((w + 1) * (h + 1))
        }) as i64,
    ]
}

/// Whether the walk, when it stands at `p`, has passed `q` in the slice of
/// `p` or in the slice before.
pub open spec fn passed(p: (int, int, int), q: (int, int, int)) -> bool {
    (q.2 == p.2 && (q.1 < p.1 || (q.1 == p.1 && q.0 < p.0))) || q.2 == p.2 - 1
}

/// The buffer holds the vertex of every cube on the surface that the walk
/// has passed when it stands at `p`, and each of them has an index below
/// `count`.
#[verifier::opaque]
pub open spec fn buffer_holds(
    g: Lattice,
    buffer: Seq<MeshVertex>,
    p: (int, int, int),
    count: int,
) -> bool {
    forall|q: (int, int, int)|
        in_scan(g, q) && passed(p, q) && cube_of(g, q).on_surface ==> {
            &&& buffer[slot_of(g.dim().0 as int, g.dim().1 as int, q)] == #[trigger] corner_of(g, q)
            &&& 0 <= vertex_index(g, q) < count
        }
}

proof fn lemma_slot_bounds(w: int, h: int, p: (int, int, int))
    requires
        0 <= p.0 < w,
        0 <= p.1 < h,
        0 <= p.2,
    ensures
        0 <= slot_of(w, h, p) < 2 * ((w + 1) * (h + 1)),
        (p.2 + 1) % 2 == 0 ==> slot_of(w, h, p) < (w + 1) * (h + 1),
        (p.2 + 1) % 2 == 1 ==> slot_of(w, h, p) >= (w + 1) * (h + 1),
{
    let r1 = w + 1;
    let r2 = (w + 1) * (h + 1);
    let row = r1 * (1 + p.1);
    let b = (p.2 + 1) % 2;
    assert(r1 <= row <= r1 * h && r2 == r1 * h + r1) by (nonlinear_arith)
        requires
            row == r1 * (1 + p.1),
            0 <= p.1 < h,
            r1 > 0,
            r2 == r1 * (h + 1),
    ;
    assert(b * r2 == 0 || b * r2 == r2) by (nonlinear_arith)
        requires
            b == 0 || b == 1,
    ;
}

proof fn lemma_slot_distinct(w: int, h: int, p: (int, int, int), q: (int, int, int))
    requires
        0 <= p.0 < w,
        0 <= p.1 < h,
        0 <= p.2,
        0 <= q.0 < w,
        0 <= q.1 < h,
        0 <= q.2,
        p.2 == q.2 || p.2 == q.2 + 1 || q.2 == p.2 + 1,
        p != q,
    ensures
        slot_of(w, h, p) != slot_of(w, h, q),
{
    lemma_slot_bounds(w, h, p);
    lemma_slot_bounds(w, h, q);
    if p.2 == q.2 {
        let r1 = w + 1;
        assert(p.1 != q.1 ==> 1 + p.0 + r1 * (1 + p.1) != 1 + q.0 + r1 * (1 + q.1))
            by (nonlinear_arith)
            requires
                0 <= p.0 < w,
                0 <= q.0 < w,
                r1 == w + 1,
        {
            if p.1 < q.1 {
                assert(r1 * (1 + q.1) >= r1 * (1 + p.1) + r1);
            } else if q.1 < p.1 {
                assert(r1 * (1 + p.1) >= r1 * (1 + q.1) + r1);
            }
        }
    }
}

proof fn lemma_slot_back(w: int, h: int, p: (int, int, int), axis: int)
    requires
        0 <= axis < 3,
        0 <= p.2,
        axis == 2 ==> p.2 >= 1,
        0 <= w < MAX_DIM,
        0 <= h < MAX_DIM,
    ensures
        slot_of(w, h, back(p, axis)) == slot_of(w, h, p) - strides(w, h, p.2)[axis],
        strides(w, h, p.2).len() == 3,
{
    let r1 = w + 1;
    let r2 = (w + 1) * (h + 1);
    assert(0 < r2 <= 1024 * 1024) by (nonlinear_arith)
        requires
            r2 == (w + 1) * (h + 1),
            0 <= w < 1024,
            0 <= h < 1024,
    ;
    if axis == 1 {
        assert(r1 * (1 + (p.1 - 1)) == r1 * (1 + p.1) - r1) by (nonlinear_arith);
    } else if axis == 2 {
        let b = (p.2 + 1) % 2;
        let b0 = (p.2 - 1 + 1) % 2;
        assert(b0 * r2 == b * r2 - (if p.2 % 2 == 0 { r2 } else { -r2 })) by (nonlinear_arith)
            requires
                (p.2 % 2 == 0 && b == 1 && b0 == 0) || (p.2 % 2 == 1 && b == 0 && b0 == 1),
        ;
    }
}

/// The vertex of a cube on the surface that the walk visits lies within the
/// limit on coordinates.
pub proof fn lemma_cube_within(g: Lattice, p: (int, int, int))
    requires
        g.wf(),
        in_scan(g, p),
        cube_of(g, p).on_surface,
    ensures
        within_limit(cube_of(g, p).position),
{
    assert(g.cube_in_order(p));
}

/// What the walk finds in the buffer for the four cubes around a crossed
/// edge.
proof fn lemma_quad_corners(
    g: Lattice,
    buffer: Seq<MeshVertex>,
    p: (int, int, int),
    axis: int,
    count: int,
)
    requires
        g.wf(),
        in_scan(g, p),
        0 <= axis < 3,
        cube_of(g, p).on_surface,
        edge_crossed(cube_of(g, p).corner_mask as u32, axis),
        coord_of(p, (axis + 1) % 3) > 0,
        coord_of(p, (axis + 2) % 3) > 0,
        buffer_holds(g, buffer, (p.0 + 1, p.1, p.2), count),
    ensures
        ({
            let w = g.dim().0 as int;
            let h = g.dim().1 as int;
            let u = (axis + 1) % 3;
            let v = (axis + 2) % 3;
            let b = back(p, u);
            let c = back(back(p, u), v);
            let d = back(p, v);
            let r = strides(w, h, p.2);
            let here = slot_of(w, h, p);
            let full = 2 * ((w + 1) * (h + 1));
            &&& full <= 2_097_152
            &&& 0 <= here < full
            &&& 0 <= here - r[u] < full
            &&& 0 <= here - r[u] - r[v] < full
            &&& 0 <= here - r[v] < full
            &&& buffer[here] == corner_of(g, p)
            &&& buffer[here - r[u]] == corner_of(g, b)
            &&& buffer[here - r[u] - r[v]] == corner_of(g, c)
            &&& buffer[here - r[v]] == corner_of(g, d)
            &&& within_limit(corner_of(g, p).position)
            &&& within_limit(corner_of(g, b).position)
            &&& within_limit(corner_of(g, c).position)
            &&& within_limit(corner_of(g, d).position)
            &&& 0 <= vertex_index(g, p) < count
            &&& 0 <= vertex_index(g, b) < count
            &&& 0 <= vertex_index(g, c) < count
            &&& 0 <= vertex_index(g, d) < count
        }),
{
    let w = g.dim().0 as int;
    let h = g.dim().1 as int;
    let u = (axis + 1) % 3;
    let v = (axis + 2) % 3;
    let b = back(p, u);
    let c = back(back(p, u), v);
    let d = back(p, v);
    let next = (p.0 + 1, p.1, p.2);
    reveal(buffer_holds);
    assert(g.cube_in_order(p));
    assert(g.quad_owed(p, axis));
    assert(g.quad_closed(p, axis));
    assert(in_scan(g, b) && in_scan(g, c) && in_scan(g, d));
    assert(passed(next, p) && passed(next, b) && passed(next, c) && passed(next, d));
    assert(buffer[slot_of(w, h, p)] == corner_of(g, p));
    assert(buffer[slot_of(w, h, b)] == corner_of(g, b));
    assert(buffer[slot_of(w, h, c)] == corner_of(g, c));
    assert(buffer[slot_of(w, h, d)] == corner_of(g, d));
    assert((w + 1) * (h + 1) <= 1024 * 1024) by (nonlinear_arith)
        requires
            0 <= w < 1024,
            0 <= h < 1024,
    ;
    lemma_slot_back(w, h, p, u);
    lemma_slot_back(w, h, p, v);
    lemma_slot_back(w, h, b, v);
    assert(strides(w, h, b.2)[v] == strides(w, h, p.2)[v]);
    lemma_slot_bounds(w, h, p);
    lemma_slot_bounds(w, h, b);
    lemma_slot_bounds(w, h, c);
    lemma_slot_bounds(w, h, d);
    lemma_cube_within(g, p);
    lemma_cube_within(g, b);
    lemma_cube_within(g, c);
    lemma_cube_within(g, d);
}

/// Before the walk starts, the buffer has nothing to hold.
proof fn lemma_buffer_start(g: Lattice, buffer: Seq<MeshVertex>)
    ensures
        buffer_holds(g, buffer, (0, 0, 0), 0),
{
    reveal(buffer_holds);
}

/// Passing a cube that is not on the surface leaves the buffer as it must
/// be.
proof fn lemma_buffer_skip(g: Lattice, buffer: Seq<MeshVertex>, p: (int, int, int), count: int)
    requires
        buffer_holds(g, buffer, p, count),
        !cube_of(g, p).on_surface,
    ensures
        buffer_holds(g, buffer, (p.0 + 1, p.1, p.2), count),
{
    reveal(buffer_holds);
    let next = (p.0 + 1, p.1, p.2);
    assert forall|q: (int, int, int)|
        in_scan(g, q) && passed(next, q) && cube_of(g, q).on_surface implies {
        &&& buffer[slot_of(g.dim().0 as int, g.dim().1 as int, q)] == #[trigger] corner_of(g, q)
        &&& 0 <= vertex_index(g, q) < count
    } by {
        assert(q != p);
        assert(passed(p, q));
        assert(buffer[slot_of(g.dim().0 as int, g.dim().1 as int, q)] == corner_of(g, q));
    }
}

/// Writing the vertex of a cube on the surface into its slot makes the
/// buffer what it must be when the walk moves on.
proof fn lemma_buffer_put(g: Lattice, buffer: Seq<MeshVertex>, p: (int, int, int), count: int)
    requires
        g.wf(),
        in_scan(g, p),
        buffer_holds(g, buffer, p, count),
        count == vertex_index(g, p),
        buffer.len() == 2 * ((g.dim().0 + 1) * (g.dim().1 + 1)),
    ensures
        buffer_holds(
            g,
            buffer.update(slot_of(g.dim().0 as int, g.dim().1 as int, p), corner_of(g, p)),
            (p.0 + 1, p.1, p.2),
            count + 1,
        ),
{
    reveal(buffer_holds);
    let w = g.dim().0 as int;
    let h = g.dim().1 as int;
    let next = (p.0 + 1, p.1, p.2);
    let after = buffer.update(slot_of(w, h, p), corner_of(g, p));
    lemma_slot_bounds(w, h, p);
    assert forall|q: (int, int, int)|
        in_scan(g, q) && passed(next, q) && cube_of(g, q).on_surface implies {
        &&& after[slot_of(w, h, q)] == #[trigger] corner_of(g, q)
        &&& 0 <= vertex_index(g, q) < count + 1
    } by {
        if q != p {
            assert(passed(p, q));
            assert(buffer[slot_of(w, h, q)] == corner_of(g, q));
            lemma_slot_distinct(w, h, p, q);
            lemma_slot_bounds(w, h, q);
            assert(after[slot_of(w, h, q)] == buffer[slot_of(w, h, q)]);
        } else {
            assert(after[slot_of(w, h, p)] == corner_of(g, p));
            assert(vertex_index(g, q) == count);
        }
    }
}

/// At the end of a row the buffer is what the next row needs.
proof fn lemma_buffer_next_row(g: Lattice, buffer: Seq<MeshVertex>, y: int, z: int, count: int)
    requires
        buffer_holds(g, buffer, (pred(g.dim().0) as int, y, z), count),
    ensures
        buffer_holds(g, buffer, (0, y + 1, z), count),
{
    reveal(buffer_holds);
    let end = (pred(g.dim().0) as int, y, z);
    assert forall|q: (int, int, int)|
        in_scan(g, q) && passed((0, y + 1, z), q) && cube_of(g, q).on_surface implies {
        &&& buffer[slot_of(g.dim().0 as int, g.dim().1 as int, q)] == #[trigger] corner_of(g, q)
        &&& 0 <= vertex_index(g, q) < count
    } by {
        assert(passed(end, q));
        assert(buffer[slot_of(g.dim().0 as int, g.dim().1 as int, q)] == corner_of(g, q));
    }
}

/// At the end of a slice the buffer is what the next slice needs.
proof fn lemma_buffer_next_slice(g: Lattice, buffer: Seq<MeshVertex>, z: int, count: int)
    requires
        buffer_holds(g, buffer, (0, pred(g.dim().1) as int, z), count),
    ensures
        buffer_holds(g, buffer, (0, 0, z + 1), count),
{
    reveal(buffer_holds);
    let end = (0, pred(g.dim().1) as int, z);
    assert forall|q: (int, int, int)|
        in_scan(g, q) && passed((0, 0, z + 1), q) && cube_of(g, q).on_surface implies {
        &&& buffer[slot_of(g.dim().0 as int, g.dim().1 as int, q)] == #[trigger] corner_of(g, q)
        &&& 0 <= vertex_index(g, q) < count
    } by {
        assert(passed(end, q));
        assert(buffer[slot_of(g.dim().0 as int, g.dim().1 as int, q)] == corner_of(g, q));
    }
}

/// A row never loses vertices as it grows.
proof fn lemma_row_grows(g: Lattice, x: int, n: int, y: int, z: int)
    requires
        x <= n,
    ensures
        row_vertices(g, x, y, z).len() <= row_vertices(g, n, y, z).len(),
    decreases n - x,
{
    if x < n {
        lemma_row_grows(g, x, n - 1, y, z);
    }
}

/// A slice never loses vertices as it grows.
proof fn lemma_slice_grows(g: Lattice, y: int, n: int, z: int)
    requires
        y <= n,
    ensures
        slice_vertices(g, y, z).len() <= slice_vertices(g, n, z).len(),
    decreases n - y,
{
    if y < n {
        lemma_slice_grows(g, y, n - 1, z);
    }
}

/// The mesh never loses vertices as more slices are walked.
proof fn lemma_volume_grows(g: Lattice, z: int, n: int)
    requires
        z <= n,
    ensures
        volume_vertices(g, z).len() <= volume_vertices(g, n).len(),
    decreases n - z,
{
    if z < n {
        lemma_volume_grows(g, z, n - 1);
    }
}

/// The vertices made up to and with the cube at `p` are among those of the
/// whole mesh.
proof fn lemma_prefix_bounded(g: Lattice, p: (int, int, int))
    requires
        in_scan(g, p),
    ensures
        volume_vertices(g, p.2).len() + slice_vertices(g, p.1, p.2).len() + row_vertices(
            g,
            p.0 + 1,
            p.1,
            p.2,
        ).len() <= surface_vertices(g).len(),
{
    lemma_row_grows(g, p.0 + 1, pred(g.dim().0) as int, p.1, p.2);
    lemma_slice_grows(g, p.1 + 1, pred(g.dim().1) as int, p.2);
    lemma_volume_grows(g, p.2 + 1, pred(g.dim().2) as int);
}

/// A lattice with no cube on the surface has no vertices and no triangles.
pub proof fn lemma_no_surface_no_mesh(g: Lattice)
    requires
        forall|p: (int, int, int)| in_scan(g, p) ==> !(#[trigger] cube_of(g, p)).on_surface,
    ensures
        surface_vertices(g) =~= Seq::<Vector3>::empty(),
        surface_indices(g) =~= Seq::<u16>::empty(),
{
    lemma_bare_volume(g, pred(g.dim().2) as int);
}

/// A density field that is positive everywhere, or positive nowhere, has an
/// empty mesh: no vertices and no triangles.
pub proof fn lemma_flat_field_no_mesh(field: Map<(int, int, int), i64>, size: (nat, nat, nat))
    requires
        (forall|x: int, y: int, z: int|
            0 <= x <= size.0 && 0 <= y <= size.1 && 0 <= z <= size.2 ==> #[trigger] field[(
                x,
                y,
                z,
            )] > 0) || (forall|x: int, y: int, z: int|
            0 <= x <= size.0 && 0 <= y <= size.1 && 0 <= z <= size.2 ==> #[trigger] field[(
                x,
                y,
                z,
            )] <= 0),
    ensures
        mesh_of(field_lattice(field, size)).positions.len() == 0,
        mesh_of(field_lattice(field, size)).normals.len() == 0,
        mesh_of(field_lattice(field, size)).tex_coords.len() == 0,
        mesh_of(field_lattice(field, size)).indices.len() == 0,
{
    let g = field_lattice(field, size);
    assert forall|p: (int, int, int)| in_scan(g, p) implies !(#[trigger] cube_of(g, p)).on_surface by {
        assert(in_box(size, p.0, p.1, p.2));
        assert(cube_of(g, p) == cube_at(field, p.0, p.1, p.2));
        let s = corner_samples(field, p.0, p.1, p.2);
        assert forall|c: int| 0 <= c < 8 implies s[c] == field[(
            p.0 + corner_coord(c, 0),
            p.1 + corner_coord(c, 1),
            p.2 + corner_coord(c, 2),
        )] by {}
        lemma_uniform_cube(s);
    }
    lemma_no_surface_no_mesh(g);
}

proof fn lemma_bare_row(g: Lattice, x: int, y: int, z: int)
    requires
        forall|p: (int, int, int)| in_scan(g, p) ==> !(#[trigger] cube_of(g, p)).on_surface,
        x <= pred(g.dim().0),
        0 <= y < pred(g.dim().1),
        0 <= z < pred(g.dim().2),
    ensures
        row_vertices(g, x, y, z) =~= Seq::<Vector3>::empty(),
        row_indices(g, x, y, z) =~= Seq::<u16>::empty(),
    decreases x,
{
    if x > 0 {
        lemma_bare_row(g, x - 1, y, z);
        assert(in_scan(g, (x - 1, y, z)));
        assert(!cube_of(g, (x - 1, y, z)).on_surface);
    }
}

proof fn lemma_bare_slice(g: Lattice, y: int, z: int)
    requires
        forall|p: (int, int, int)| in_scan(g, p) ==> !(#[trigger] cube_of(g, p)).on_surface,
        y <= pred(g.dim().1),
        0 <= z < pred(g.dim().2),
    ensures
        slice_vertices(g, y, z) =~= Seq::<Vector3>::empty(),
        slice_indices(g, y, z) =~= Seq::<u16>::empty(),
    decreases y,
{
    if y > 0 {
        lemma_bare_slice(g, y - 1, z);
        lemma_bare_row(g, pred(g.dim().0) as int, y - 1, z);
    }
}

proof fn lemma_bare_volume(g: Lattice, z: int)
    requires
        forall|p: (int, int, int)| in_scan(g, p) ==> !(#[trigger] cube_of(g, p)).on_surface,
        z <= pred(g.dim().2),
    ensures
        volume_vertices(g, z) =~= Seq::<Vector3>::empty(),
        volume_indices(g, z) =~= Seq::<u16>::empty(),
    decreases z,
{
    if z > 0 {
        lemma_bare_volume(g, z - 1);
        lemma_bare_slice(g, pred(g.dim().1) as int, z - 1);
    }
}

/// The squared distance between two points.
fn dist2_exec(a: Vector3, b: Vector3) -> (r: i128)
    requires
        within_limit(a),
        within_limit(b),
    ensures
        r == dist2(a, b),
{
    let dx = a.x as i128 - b.x as i128;
    let dy = a.y as i128 - b.y as i128;
    let dz = a.z as i128 - b.z as i128;
    assert(0 <= dx * dx <= 4_194_304_000_000_000_000 && 0 <= dy * dy <= 4_194_304_000_000_000_000
        && 0 <= dz * dz <= 4_194_304_000_000_000_000) by (nonlinear_arith)
        requires
            -2_048_000_000 <= dx <= 2_048_000_000,
            -2_048_000_000 <= dy <= 2_048_000_000,
            -2_048_000_000 <= dz <= 2_048_000_000,
    ;
    dx * dx + dy * dy + dz * dz
}

impl SurfaceNet {
    /// Adds one triangle to the index list.
    fn push_triangle(a: MeshVertex, b: MeshVertex, c: MeshVertex, triangles: &mut Vec<u16>)
        ensures
            final(triangles)@ == old(triangles)@ + seq![a.index, b.index, c.index],
    {
        triangles.push(a.index);
        triangles.push(b.index);
        triangles.push(c.index);
        assert(triangles@ =~= old(triangles)@ + seq![a.index, b.index, c.index]);
    }

    /// Adds the quad `a b c d` to the index list as two triangles that share
    /// the longer of its diagonals; where both are as long, they share `a c`.
    fn add_quad(
        a: MeshVertex,
        b: MeshVertex,
        c: MeshVertex,
        d: MeshVertex,
        triangles: &mut Vec<u16>,
    )
        requires
            within_limit(a.position),
            within_limit(b.position),
            within_limit(c.position),
            within_limit(d.position),
        ensures
            final(triangles)@ == old(triangles)@ + quad_indices(a, b, c, d),
    {
        if dist2_exec(a.position, c.position) >= dist2_exec(b.position, d.position) {
            Self::push_triangle(a, b, c, triangles);
            Self::push_triangle(a, c, d, triangles);
            assert(triangles@ =~= old(triangles)@ + quad_indices(a, b, c, d));
        } else {
            Self::push_triangle(a, b, d, triangles);
            Self::push_triangle(d, b, c, triangles);
            assert(triangles@ =~= old(triangles)@ + quad_indices(a, b, c, d));
        }
    }

    /// Adds the quad around the edge that leaves corner 0 of the cube at
    /// `pos` along axis `i`, where there is one.
    fn add_face(
        &self,
        Ghost(cubes): Ghost<Lattice>,
        cube: SurfaceNetCube,
        crossed: u32,
        i: usize,
        pos: [usize; 3],
        buf_idx: usize,
        r: [i64; 3],
        vertex_buffer: &Vec<MeshVertex>,
        triangles: &mut Vec<u16>,
        Ghost(count): Ghost<int>,
    )
        requires
            i < 3,
            cubes.wf(),
            in_scan(cubes, (pos@[0] as int, pos@[1] as int, pos@[2] as int)),
            cube == cube_of(cubes, (pos@[0] as int, pos@[1] as int, pos@[2] as int)),
            cube.on_surface,
            crossed == edge_mask(cube.corner_mask as u32),
            buf_idx == slot_of(
                cubes.dim().0 as int,
                cubes.dim().1 as int,
                (pos@[0] as int, pos@[1] as int, pos@[2] as int),
            ),
            r@ == strides(cubes.dim().0 as int, cubes.dim().1 as int, pos@[2] as int),
            vertex_buffer@.len() == 2 * ((cubes.dim().0 + 1) * (cubes.dim().1 + 1)),
            buffer_holds(
                cubes,
                vertex_buffer@,
                (pos@[0] + 1, pos@[1] as int, pos@[2] as int),
                count,
            ),
            count <= MAX_VERTICES,
            forall|k: int| 0 <= k < old(triangles)@.len() ==> (#[trigger] old(triangles)@[k]) < count,
        ensures
            final(triangles)@ == old(triangles)@ + axis_quad(
                cubes,
                (pos@[0] as int, pos@[1] as int, pos@[2] as int),
                i as int,
            ),
            forall|k: int|
                0 <= k < final(triangles)@.len() ==> (#[trigger] final(triangles)@[k]) < count,
    {
        let ghost p = (pos@[0] as int, pos@[1] as int, pos@[2] as int);
        proof {
            lemma_pack_bits(crossings(cube.corner_mask as u32), 12, i as int);
        }
        // The first three bits tell of the edges that leave corner 0.
        if crossed & (1u32 << (i as u32)) == 0 {
            assert(triangles@ =~= old(triangles)@ + axis_quad(cubes, p, i as int));
            return ;
        }
        // `i` is the edge's axis, `iu` and `iv` the two across it.
        let iu = (i + 1) % 3;
        let iv = (i + 2) % 3;
        if pos[iu] == 0 || pos[iv] == 0 {
            assert(triangles@ =~= old(triangles)@ + axis_quad(cubes, p, i as int));
            return ;
        }
        proof {
            lemma_quad_corners(cubes, vertex_buffer@, p, i as int, count);
        }
        let du = r[iu];
        let dv = r[iv];
        let here = buf_idx as i64;
        let a = vertex_buffer[buf_idx];
        let b = vertex_buffer[(here - du) as usize];
        let c = vertex_buffer[(here - du - dv) as usize];
        let d = vertex_buffer[(here - dv) as usize];
        let mask = cube.corner_mask;
        assert((mask & 1 != 0) == ((mask as u32) & (1u32 << 0u32) != 0)) by (bit_vector);
        // The sign at corner 0 decides which way the quad faces.
        if mask & 1 != 0 {
            Self::add_quad(a, b, c, d, triangles);
        } else {
            Self::add_quad(a, d, c, b, triangles);
        }
    }

    /// Adds the quads of the cube at `pos`, whose vertex lies at `buf_idx` in
    /// the buffer: one around each crossed edge that leaves its corner 0,
    /// unless the cube lies at the lattice's lower boundary across that edge.
    fn add_faces(
        &self,
        Ghost(cubes): Ghost<Lattice>,
        cube: SurfaceNetCube,
        pos: [usize; 3],
        buf_idx: usize,
        r: [i64; 3],
        vertex_buffer: &Vec<MeshVertex>,
        triangles: &mut Vec<u16>,
        Ghost(count): Ghost<int>,
    )
        requires
            self.wf(),
            cubes.wf(),
            in_scan(cubes, (pos@[0] as int, pos@[1] as int, pos@[2] as int)),
            cube == cube_of(cubes, (pos@[0] as int, pos@[1] as int, pos@[2] as int)),
            cube.on_surface,
            buf_idx == slot_of(
                cubes.dim().0 as int,
                cubes.dim().1 as int,
                (pos@[0] as int, pos@[1] as int, pos@[2] as int),
            ),
            r@ == strides(cubes.dim().0 as int, cubes.dim().1 as int, pos@[2] as int),
            vertex_buffer@.len() == 2 * ((cubes.dim().0 + 1) * (cubes.dim().1 + 1)),
            buffer_holds(
                cubes,
                vertex_buffer@,
                (pos@[0] + 1, pos@[1] as int, pos@[2] as int),
                count,
            ),
            count <= MAX_VERTICES,
            forall|k: int| 0 <= k < old(triangles)@.len() ==> (#[trigger] old(triangles)@[k]) < count,
        ensures
            final(triangles)@ == old(triangles)@ + cube_indices(
                cubes,
                (pos@[0] as int, pos@[1] as int, pos@[2] as int),
            ),
            forall|k: int|
                0 <= k < final(triangles)@.len() ==> (#[trigger] final(triangles)@[k]) < count,
    {
        let ghost p = (pos@[0] as int, pos@[1] as int, pos@[2] as int);
        let crossed = self.crossed_edges(cube.corner_mask);
        let mut i: usize = 0;
        while i < 3
            invariant
                i <= 3,
                cubes.wf(),
                p == (pos@[0] as int, pos@[1] as int, pos@[2] as int),
                in_scan(cubes, p),
                cube == cube_of(cubes, p),
                cube.on_surface,
                crossed == edge_mask(cube.corner_mask as u32),
                buf_idx == slot_of(cubes.dim().0 as int, cubes.dim().1 as int, p),
                r@ == strides(cubes.dim().0 as int, cubes.dim().1 as int, p.2),
                vertex_buffer@.len() == 2 * ((cubes.dim().0 + 1) * (cubes.dim().1 + 1)),
                buffer_holds(cubes, vertex_buffer@, (p.0 + 1, p.1, p.2), count),
                count <= MAX_VERTICES,
                triangles@ == old(triangles)@ + axis_quads(cubes, p, i as int),
                forall|k: int| 0 <= k < triangles@.len() ==> (#[trigger] triangles@[k]) < count,
            decreases 3 - i,
        {
            self.add_face(
                Ghost(cubes),
                cube,
                crossed,
                i,
                pos,
                buf_idx,
                r,
                vertex_buffer,
                triangles,
                Ghost(count),
            );
            assert(triangles@ =~= old(triangles)@ + axis_quads(cubes, p, i + 1));
            i += 1;
        }
    }
}

/// A buffer of `n` vertices, each at the origin with index 0.
fn blank_buffer(n: usize) -> (buffer: Vec<MeshVertex>)
    ensures
        buffer@.len() == n,
{
    let mut buffer: Vec<MeshVertex> = Vec::new();
    let mut i: usize = 0;
    while i < n
        invariant
            i <= n,
            buffer@.len() == i,
        decreases n - i,
    {
        buffer.push(MeshVertex { index: 0, position: Vector3::zero() });
        i += 1;
    }
    buffer
}

/// Where the buffer index of a slice's first cube lies.
proof fn lemma_slice_start(w: int, h: int, z: int, buf_no: int)
    requires
        0 <= w < MAX_DIM,
        0 <= h < MAX_DIM,
        0 <= z,
        buf_no == (z + 1) % 2,
    ensures
        0 <= buf_no * (h + 1) <= 1024,
        0 <= (w + 1) * (1 + buf_no * (h + 1)) <= 1024 * 1025,
        1 + (w + 1) * (1 + buf_no * (h + 1)) == slot_of(w, h, (0, 0, z)),
        (w + 1) * (h + 1) <= 1024 * 1024,
{
    assert(0 <= buf_no * (h + 1) <= 1024 && 0 <= (w + 1) * (1 + buf_no * (h + 1)) <= 1024 * 1025
        && (w + 1) * (1 + buf_no * (h + 1)) == (w + 1) * 1 + buf_no * ((w + 1) * (h + 1)) && (w
        + 1) * (h + 1) <= 1024 * 1024) by (nonlinear_arith)
        requires
            0 <= w < 1024,
            0 <= h < 1024,
            buf_no == 0 || buf_no == 1,
    ;
}

/// Where the buffer index of the next row's first cube lies.
proof fn lemma_row_start(w: int, h: int, y: int, z: int)
    requires
        1 <= w,
    ensures
        slot_of(w, h, (w - 1, y, z)) + 2 == slot_of(w, h, (0, y + 1, z)),
{
    assert((w + 1) * (1 + (y + 1)) == (w + 1) * (1 + y) + (w + 1)) by (nonlinear_arith);
}

impl SurfaceNet {
    /// Draws the triangle mesh of a lattice of cubes.
    ///
    /// The vertices are the positions of the cubes on the surface, in the
    /// order of the walk, which leaves out the last cube along each axis.
    /// Every vertex gets the same texture coordinate and the normal that
    /// `calculate_normals` gives it. The triangles are those of the quads
    /// around the crossed edges (see `axis_quad`).
    ///
    /// Fails where the surface has more vertices than sixteen-bit indices
    /// can name.
    pub fn mk_mesh(&self, cubes: CubeGrid) -> (r: Result<Mesh, MeshError>)
        requires
            self.wf(),
            cubes.wf(),
        ensures
            r is Ok <==> surface_vertices(cubes@).len() <= MAX_VERTICES,
            r matches Ok(mesh) ==> {
                &&& mesh@ == mesh_of(cubes@)
                &&& mesh.tex_coords@.len() == mesh.positions@.len()
                &&& mesh.normals@.len() == mesh.positions@.len()
                &&& forall|k: int|
                    0 <= k < mesh.indices@.len() ==> (#[trigger] mesh.indices@[k])
                        < mesh.positions@.len()
            },
    {
        let (width, height, depth) = cubes.dims();
        proof {
            cubes.lemma_wf();
        }
        let mut vertices: Vec<Vector3> = Vec::new();
        let mut tex_coords: Vec<TexCoord> = Vec::new();
        let mut triangles: Vec<u16> = Vec::new();
        if width == 0 || height == 0 || depth == 0 {
            proof {
                lemma_no_surface_no_mesh(cubes@);
            }
            let normals = calculate_normals(vertices.as_slice(), triangles.as_slice());
            let mesh = Mesh { positions: vertices, normals, tex_coords, indices: triangles };
            assert(mesh@.normals =~= mesh_of(cubes@).normals);
            assert(mesh@.tex_coords =~= mesh_of(cubes@).tex_coords);
            return Ok(mesh);
        }
        proof {
            lemma_slice_start(width as int, height as int, 0, 1);
        }
        let mut r: [i64; 3] = [1, (width + 1) as i64, ((width + 1) * (height + 1)) as i64];
        let mut buf_no: usize = 1;
        let mut vertex_buffer = blank_buffer(2 * ((width + 1) * (height + 1)));
        let mut z: usize = 0;
        proof {
            lemma_buffer_start(cubes@, vertex_buffer@);
            assert(r@ =~= strides(width as int, height as int, 0));
        }
        while z + 1 < depth
            invariant
                self.wf(),
                cubes.wf(),
                cubes@.wf(),
                (width as nat, height as nat, depth as nat) == cubes@.size,
                1 <= width < MAX_DIM,
                1 <= height < MAX_DIM,
                1 <= depth < MAX_DIM,
                z + 1 <= depth,
                buf_no == (z + 1) % 2,
                r@ == strides(width as int, height as int, z as int),
                vertex_buffer@.len() == 2 * ((width + 1) * (height + 1)),
                vertices@ == volume_vertices(cubes@, z as int),
                triangles@ == volume_indices(cubes@, z as int),
                vertices@.len() <= MAX_VERTICES,
                tex_coords@.len() == vertices@.len(),
                forall|i: int|
                    0 <= i < tex_coords@.len() ==> (#[trigger] tex_coords@[i]) == plain_tex_coord(),
                forall|i: int| 0 <= i < vertices@.len() ==> within_limit(#[trigger] vertices@[i]),
                forall|k: int|
                    0 <= k < triangles@.len() ==> (#[trigger] triangles@[k]) < vertices@.len(),
                buffer_holds(cubes@, vertex_buffer@, (0, 0, z as int), vertices@.len() as int),
            decreases depth - z,
        {
            proof {
                lemma_slice_start(width as int, height as int, z as int, buf_no as int);
            }
            let mut buf_idx: usize = 1 + (width + 1) * (1 + buf_no * (height + 1));
            let mut y: usize = 0;
            while y + 1 < height
                invariant
                    self.wf(),
                    cubes.wf(),
                    cubes@.wf(),
                    (width as nat, height as nat, depth as nat) == cubes@.size,
                    1 <= width < MAX_DIM,
                    1 <= height < MAX_DIM,
                    1 <= depth < MAX_DIM,
                    z + 1 < depth,
                    y + 1 <= height,
                    r@ == strides(width as int, height as int, z as int),
                    vertex_buffer@.len() == 2 * ((width + 1) * (height + 1)),
                    buf_idx == slot_of(width as int, height as int, (0, y as int, z as int)),
                    vertices@ == volume_vertices(cubes@, z as int) + slice_vertices(
                        cubes@,
                        y as int,
                        z as int,
                    ),
                    triangles@ == volume_indices(cubes@, z as int) + slice_indices(
                        cubes@,
                        y as int,
                        z as int,
                    ),
                    vertices@.len() <= MAX_VERTICES,
                    tex_coords@.len() == vertices@.len(),
                    forall|i: int|
                        0 <= i < tex_coords@.len() ==> (#[trigger] tex_coords@[i])
                            == plain_tex_coord(),
                    forall|i: int|
                        0 <= i < vertices@.len() ==> within_limit(#[trigger] vertices@[i]),
                    forall|k: int|
                        0 <= k < triangles@.len() ==> (#[trigger] triangles@[k]) < vertices@.len(),
                    buffer_holds(
                        cubes@,
                        vertex_buffer@,
                        (0, y as int, z as int),
                        vertices@.len() as int,
                    ),
                decreases height - y,
            {
                let mut x: usize = 0;
                proof {
                    assert(vertices@ =~= volume_vertices(cubes@, z as int) + slice_vertices(
                        cubes@,
                        y as int,
                        z as int,
                    ) + row_vertices(cubes@, 0, y as int, z as int));
                    assert(triangles@ =~= volume_indices(cubes@, z as int) + slice_indices(
                        cubes@,
                        y as int,
                        z as int,
                    ) + row_indices(cubes@, 0, y as int, z as int));
                }
                while x + 1 < width
                    invariant
                        self.wf(),
                        cubes.wf(),
                        cubes@.wf(),
                        (width as nat, height as nat, depth as nat) == cubes@.size,
                        1 <= width < MAX_DIM,
                        1 <= height < MAX_DIM,
                        1 <= depth < MAX_DIM,
                        z + 1 < depth,
                        y + 1 < height,
                        x + 1 <= width,
                        r@ == strides(width as int, height as int, z as int),
                        vertex_buffer@.len() == 2 * ((width + 1) * (height + 1)),
                        buf_idx == slot_of(
                            width as int,
                            height as int,
                            (x as int, y as int, z as int),
                        ),
                        vertices@ == volume_vertices(cubes@, z as int) + slice_vertices(
                            cubes@,
                            y as int,
                            z as int,
                        ) + row_vertices(cubes@, x as int, y as int, z as int),
                        triangles@ == volume_indices(cubes@, z as int) + slice_indices(
                            cubes@,
                            y as int,
                            z as int,
                        ) + row_indices(cubes@, x as int, y as int, z as int),
                        vertices@.len() <= MAX_VERTICES,
                        tex_coords@.len() == vertices@.len(),
                        forall|i: int|
                            0 <= i < tex_coords@.len() ==> (#[trigger] tex_coords@[i])
                                == plain_tex_coord(),
                        forall|i: int|
                            0 <= i < vertices@.len() ==> within_limit(#[trigger] vertices@[i]),
                        forall|k: int|
                            0 <= k < triangles@.len() ==> (#[trigger] triangles@[k])
                                < vertices@.len(),
                        buffer_holds(
                            cubes@,
                            vertex_buffer@,
                            (x as int, y as int, z as int),
                            vertices@.len() as int,
                        ),
                    decreases width - x,
                {
                    let ghost p = (x as int, y as int, z as int);
                    let ghost before_vertices = vertices@;
                    let ghost before_triangles = triangles@;
                    proof {
                        lemma_slot_bounds(width as int, height as int, p);
                        lemma_slice_start(width as int, height as int, z as int, (z + 1) % 2);
                    }
                    let cube = cubes.get((x, y, z)).unwrap();
                    if cube.on_surface {
                        if vertices.len() >= MAX_VERTICES {
                            proof {
                                lemma_prefix_bounded(cubes@, p);
                            }
                            return Err(MeshError::TooManyVertices);
                        }
                        let vertex = MeshVertex {
                            index: vertices.len() as u16,
                            position: cube.position,
                        };
                        proof {
                            lemma_buffer_put(
                                cubes@,
                                vertex_buffer@,
                                p,
                                vertices@.len() as int,
                            );
                            lemma_cube_within(cubes@, p);
                        }
                        vertex_buffer.set(buf_idx, vertex);
                        vertices.push(cube.position);
                        tex_coords.push(TexCoord { u: UNIT, v: 0 });
                        self.add_faces(
                            Ghost(cubes@),
                            cube,
                            [x, y, z],
                            buf_idx,
                            r,
                            &vertex_buffer,
                            &mut triangles,
                            Ghost(vertices@.len() as int),
                        );
                    } else {
                        proof {
                            lemma_buffer_skip(
                                cubes@,
                                vertex_buffer@,
                                p,
                                vertices@.len() as int,
                            );
                        }
                    }
                    proof {
                        assert(vertices@ =~= volume_vertices(cubes@, z as int) + slice_vertices(
                            cubes@,
                            y as int,
                            z as int,
                        ) + row_vertices(cubes@, x + 1, y as int, z as int));
                        assert(triangles@ =~= volume_indices(cubes@, z as int) + slice_indices(
                            cubes@,
                            y as int,
                            z as int,
                        ) + row_indices(cubes@, x + 1, y as int, z as int));
                    }
                    x += 1;
                    buf_idx += 1;
                }
                proof {
                    lemma_row_start(width as int, height as int, y as int, z as int);
                    lemma_slot_bounds(
                        width as int,
                        height as int,
                        (x as int, y as int, z as int),
                    );
                    lemma_slice_start(width as int, height as int, z as int, (z + 1) % 2);
                    lemma_buffer_next_row(
                        cubes@,
                        vertex_buffer@,
                        y as int,
                        z as int,
                        vertices@.len() as int,
                    );
                    assert(vertices@ =~= volume_vertices(cubes@, z as int) + slice_vertices(
                        cubes@,
                        y + 1,
                        z as int,
                    ));
                    assert(triangles@ =~= volume_indices(cubes@, z as int) + slice_indices(
                        cubes@,
                        y + 1,
                        z as int,
                    ));
                }
                y += 1;
                buf_idx += 2;
            }
            proof {
                lemma_buffer_next_slice(cubes@, vertex_buffer@, z as int, vertices@.len() as int);
                assert(vertices@ =~= volume_vertices(cubes@, z + 1));
                assert(triangles@ =~= volume_indices(cubes@, z + 1));
                lemma_slice_start(width as int, height as int, z as int, (z + 1) % 2);
            }
            z += 1;
            assert(buf_no ^ 1 == 1 - buf_no) by (bit_vector)
                requires
                    buf_no == 0 || buf_no == 1,
            ;
            buf_no ^= 1;
            let flipped = -r[2];
            r[2] = flipped;
            assert(r@ =~= strides(width as int, height as int, z as int));
        }
        let normals = calculate_normals(vertices.as_slice(), triangles.as_slice());
        let mesh = Mesh { positions: vertices, normals, tex_coords, indices: triangles };
        assert(mesh@.normals =~= mesh_of(cubes@).normals);
        assert(mesh@.tex_coords =~= mesh_of(cubes@).tex_coords);
        Ok(mesh)
    }
}

} // verus!
