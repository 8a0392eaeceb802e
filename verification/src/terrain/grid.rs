//! Dense three-dimensional arrays, kept in `ndarray`.
//!
//! Verus does not look inside an `ndarray` array. What an array holds is
//! named here by spec functions, and each call into `ndarray` that the rest
//! of the crate makes goes through one function of this module, whose
//! contract is taken on trust from `ndarray`'s documentation.

use crate::terrain::surface_net::SurfaceNetCube;
use vstd::prelude::*;

verus! {

/// `ndarray::ShapeError`: why `ndarray` refused a shape.
#[verifier::external_type_specification]
#[verifier::external_body]
pub struct ExShapeError(ndarray::ShapeError);

/// Whether `(x, y, z)` indexes an array with axis lengths `dim`.
pub open spec fn in_box(dim: (nat, nat, nat), x: int, y: int, z: int) -> bool {
    0 <= x < dim.0 && 0 <= y < dim.1 && 0 <= z < dim.2
}

/// The indices of an array with axis lengths `dim`.
pub open spec fn box_of(dim: (nat, nat, nat)) -> Set<(int, int, int)> {
    Set::new(|p: (int, int, int)| in_box(dim, p.0, p.1, p.2))
}

/// The product of the axis lengths that are not zero.
pub open spec fn nonzero_product(w: int, h: int, d: int) -> int {
    (if w == 0 { 1 } else { w }) * (if h == 0 { 1 } else { h }) * (if d == 0 { 1 } else { d })
}

/// A three-dimensional array of densities: an `ndarray::Array3<i64>`.
#[verifier::external_body]
pub struct DensityArray {
    cells: ndarray::Array3<i64>,
}

/// The axis lengths of a density array.
pub uninterp spec fn density_dim(a: &DensityArray) -> (nat, nat, nat);

/// The densities that an array holds, by index.
pub uninterp spec fn density_cells(a: &DensityArray) -> Map<(int, int, int), i64>;

/// `ndarray::Array3::from_shape_vec` with a plain shape: the array of that
/// shape whose elements, in row-major order (last axis fastest), are those of
/// `v`. As documented, it fails exactly when the shape does not match the
/// number of elements or the product of its non-zero axis lengths exceeds
/// `isize::MAX`.
#[verifier::external_body]
pub(crate) fn density_from_shape_vec(w: usize, h: usize, d: usize, v: Vec<i64>) -> (r: Result<DensityArray, ndarray::ShapeError>)
    ensures
        (r is Ok) == (w * h * d == v@.len() && isize::MAX >= nonzero_product(
            w as int,
            h as int,
            d as int,
        )),
        r matches Ok(a) ==> {
            &&& density_dim(&a) == (w as nat, h as nat, d as nat)
            &&& density_cells(&a).dom() == box_of((w as nat, h as nat, d as nat))
            &&& forall|x: int, y: int, z: int|
                0 <= x < w && 0 <= y < h && 0 <= z < d ==> #[trigger] density_cells(&a)[(x, y, z)]
                    == v@[(x * h + y) * d + z]
        },
{
    match ndarray::Array3::from_shape_vec((w, h, d), v) {
        Ok(cells) => Ok(DensityArray { cells }),
        Err(e) => Err(e),
    }
}

/// `ndarray`'s `dim` on a three-dimensional array: its axis lengths.
#[verifier::external_body]
pub(crate) fn density_dim_of(a: &DensityArray) -> (r: (usize, usize, usize))
    ensures
        (r.0 as nat, r.1 as nat, r.2 as nat) == density_dim(a),
{
    a.cells.dim()
}

/// `ndarray`'s `get` with a triple: the element at the index, or `None`
/// where the index lies outside the array.
#[verifier::external_body]
pub(crate) fn density_get(a: &DensityArray, x: usize, y: usize, z: usize) -> (r: Option<i64>)
    ensures
        r == (if in_box(density_dim(a), x as int, y as int, z as int) {
            Some(density_cells(a)[(x as int, y as int, z as int)])
        } else {
            None
        }),
{
    a.cells.get((x, y, z)).copied()
}

/// `ndarray`'s `clone` on an array: an array of the same shape with the same
/// elements.
#[verifier::external_body]
pub(crate) fn density_clone(a: &DensityArray) -> (r: DensityArray)
    ensures
        density_dim(&r) == density_dim(a),
        density_cells(&r) == density_cells(a),
{
    DensityArray { cells: a.cells.clone() }
}

/// A two-dimensional array of heights: an `ndarray::Array2<i64>`.
#[verifier::external_body]
pub struct HeightArray {
    cells: ndarray::Array2<i64>,
}

/// The number of rows and of columns of a height array.
pub uninterp spec fn height_dim(a: &HeightArray) -> (nat, nat);

/// The heights that an array holds, by row and column.
pub uninterp spec fn height_cells(a: &HeightArray) -> Map<(int, int), i64>;

/// `ndarray::Array2::from_shape_vec` with a plain shape: the array of that
/// shape whose rows, one after the other, are the elements of `v`. As
/// documented, it fails exactly when the shape does not match the number of
/// elements or the product of its non-zero axis lengths exceeds `isize::MAX`.
#[verifier::external_body]
pub(crate) fn heights_from_shape_vec(rows: usize, cols: usize, v: Vec<i64>) -> (r: Result<HeightArray, ndarray::ShapeError>)
    ensures
        (r is Ok) == (rows * cols == v@.len() && isize::MAX >= nonzero_product(
            rows as int,
            cols as int,
            1,
        )),
        r matches Ok(a) ==> {
            &&& height_dim(&a) == (rows as nat, cols as nat)
            &&& forall|i: int, j: int|
                0 <= i < rows && 0 <= j < cols ==> #[trigger] height_cells(&a)[(i, j)] == v@[i
                    * cols + j]
        },
{
    match ndarray::Array2::from_shape_vec((rows, cols), v) {
        Ok(cells) => Ok(HeightArray { cells }),
        Err(e) => Err(e),
    }
}

/// `ndarray`'s `get` with a pair: the element at the row and column, or
/// `None` where they lie outside the array.
#[verifier::external_body]
pub(crate) fn heights_get(a: &HeightArray, row: usize, col: usize) -> (r: Option<i64>)
    ensures
        r == (if row < height_dim(a).0 && col < height_dim(a).1 {
            Some(height_cells(a)[(row as int, col as int)])
        } else {
            None
        }),
{
    a.cells.get((row, col)).copied()
}

/// A three-dimensional array of cube records: an
/// `ndarray::Array3<SurfaceNetCube>`.
#[verifier::external_body]
pub struct CubeArray {
    cells: ndarray::Array3<SurfaceNetCube>,
}

/// The axis lengths of a cube array.
pub uninterp spec fn cube_dim(a: &CubeArray) -> (nat, nat, nat);

/// The cube records that an array holds, by index.
pub uninterp spec fn cube_cells(a: &CubeArray) -> Map<(int, int, int), SurfaceNetCube>;

/// `ndarray::Array3::from_elem`: the array of the given shape that holds
/// `elem` everywhere. It panics where the product of the non-zero axis lengths
/// exceeds `isize::MAX`, which the precondition rules out.
#[verifier::external_body]
pub(crate) fn cubes_from_elem(w: usize, h: usize, d: usize, elem: SurfaceNetCube) -> (a: CubeArray)
    requires
        nonzero_product(w as int, h as int, d as int) <= isize::MAX,
    ensures
        cube_dim(&a) == (w as nat, h as nat, d as nat),
        cube_cells(&a).dom() == box_of((w as nat, h as nat, d as nat)),
        forall|x: int, y: int, z: int|
            0 <= x < w && 0 <= y < h && 0 <= z < d ==> #[trigger] cube_cells(&a)[(x, y, z)]
                == elem,
{
    CubeArray { cells: ndarray::Array3::from_elem((w, h, d), elem) }
}

/// `ndarray`'s `dim` on a three-dimensional array: its axis lengths.
#[verifier::external_body]
pub(crate) fn cubes_dim_of(a: &CubeArray) -> (r: (usize, usize, usize))
    ensures
        (r.0 as nat, r.1 as nat, r.2 as nat) == cube_dim(a),
{
    a.cells.dim()
}

/// `ndarray`'s `get` with a triple: the element at the index, or `None`
/// where the index lies outside the array.
#[verifier::external_body]
pub(crate) fn cubes_get(a: &CubeArray, x: usize, y: usize, z: usize) -> (r: Option<SurfaceNetCube>)
    ensures
        r == (if in_box(cube_dim(a), x as int, y as int, z as int) {
            Some(cube_cells(a)[(x as int, y as int, z as int)])
        } else {
            None
        }),
{
    a.cells.get((x, y, z)).copied()
}

/// Assignment through `ndarray`'s index operator: the element at the index
/// is replaced and nothing else changes. The operator panics where the index
/// lies outside the array, which the precondition rules out.
#[verifier::external_body]
pub(crate) fn cubes_set(a: &mut CubeArray, x: usize, y: usize, z: usize, cube: SurfaceNetCube)
    requires
        in_box(cube_dim(old(a)), x as int, y as int, z as int),
    ensures
        cube_dim(final(a)) == cube_dim(old(a)),
        cube_cells(final(a)) == cube_cells(old(a)).insert((x as int, y as int, z as int), cube),
{
    a.cells[(x, y, z)] = cube;
}

} // verus!
