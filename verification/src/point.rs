use crate::offset3::Offset3;
use vstd::prelude::*;

verus! {

/// A position in 3-dimensional space, on an integer lattice.
#[derive(Debug, Clone, Copy, PartialEq, Eq, Hash, Structural)]
pub struct Point3 {
    pub x: i32,
    pub y: i32,
    pub z: i32,
}

/// The squared Euclidean distance between two positions.
pub open spec fn squared_distance(p: Point3, q: Point3) -> nat {
    ((q.x - p.x) * (q.x - p.x) + (q.y - p.y) * (q.y - p.y) + (q.z - p.z) * (q.z - p.z)) as nat
}

/// The number of whole cells of width `cell_width` that lie between the
/// coordinate `low` and the coordinate `c`: the cell `k` covers the half-open
/// interval from `low + k * cell_width` up to `low + (k + 1) * cell_width`.
pub open spec fn axis_cell(c: int, low: int, cell_width: int) -> int {
    (c - low) / cell_width
}

/// The offset of the cell that holds `point` in a grid of cube-shaped cells
/// of width `cell_width` whose origin cell starts at `min_point`.
pub open spec fn cell_of(point: Point3, min_point: Point3, cell_width: int) -> Offset3 {
    Offset3 {
        x: axis_cell(point.x as int, min_point.x as int, cell_width) as i64,
        y: axis_cell(point.y as int, min_point.y as int, cell_width) as i64,
        z: axis_cell(point.z as int, min_point.z as int, cell_width) as i64,
    }
}

impl Point3 {
    /// The position with the given coordinates.
    pub fn new(x: i32, y: i32, z: i32) -> (point: Self)
        ensures
            point.x == x,
            point.y == y,
            point.z == z,
    {
        Self { x, y, z }
    }
}

/// Squares a difference of two coordinates.
fn square(d: i64) -> (s: u128)
    requires
        -0x1_0000_0000 < d < 0x1_0000_0000,
    ensures
        s == d * d,
        s <= 0xffff_ffff * 0xffff_ffff,
{
    let a: u128 = if d < 0 {
        (-d) as u128
    } else {
        d as u128
    };
    assert(a * a == d * d && a * a <= 0xffff_ffff * 0xffff_ffff) by (nonlinear_arith)
        requires
            a == d || a == -d,
            0 <= a <= 0xffff_ffff,
    ;
    a * a
}

/// Computes the squared Euclidean distance between two positions.
pub fn dist2(p: Point3, q: Point3) -> (d: u128)
    ensures
        d == squared_distance(p, q),
{
    let x: u128 = square(q.x as i64 - p.x as i64);
    let y: u128 = square(q.y as i64 - p.y as i64);
    let z: u128 = square(q.z as i64 - p.z as i64);
    x + y + z
}

/// The cell along one axis that holds the coordinate `c`.
fn coordinate_into_cell(c: i32, low: i32, cell_width: i64) -> (k: i64)
    requires
        cell_width > 0,
    ensures
        k == axis_cell(c as int, low as int, cell_width as int),
        -0x1_0000_0000 < k < 0x1_0000_0000,
        low + k * cell_width <= c < low + k * cell_width + cell_width,
{
    let rel: i64 = c as i64 - low as i64;
    if rel >= 0 {
        let k: i64 = ((rel as u64) / (cell_width as u64)) as i64;
        proof {
            vstd::arithmetic::div_mod::lemma_fundamental_div_mod(rel as int, cell_width as int);
            vstd::arithmetic::div_mod::lemma_mod_bound(rel as int, cell_width as int);
            assert(cell_width * k == k * cell_width) by (nonlinear_arith);
            assert(0 <= k <= rel) by (nonlinear_arith)
                requires
                    k == rel as int / cell_width as int,
                    rel >= 0,
                    cell_width > 0,
            ;
        }
        k
    } else {
        let up: u64 = (-rel - 1) as u64;
        let j: i64 = (up / (cell_width as u64)) as i64;
        let k: i64 = -j - 1;
        proof {
            let w = cell_width as int;
            let r = up as int % w;
            vstd::arithmetic::div_mod::lemma_fundamental_div_mod(up as int, w);
            vstd::arithmetic::div_mod::lemma_mod_bound(up as int, w);
            assert(0 <= j <= up) by (nonlinear_arith)
                requires
                    j == up as int / w,
                    up >= 0,
                    w > 0,
            ;
            assert(w * j == j * w) by (nonlinear_arith);
            assert(rel as int == k * w + (w - 1 - r)) by (nonlinear_arith)
                requires
                    up == w * j + r,
                    up == -rel - 1,
                    k == -j - 1,
            ;
            vstd::arithmetic::div_mod::lemma_fundamental_div_mod_converse(
                rel as int,
                w,
                k as int,
                w - 1 - r,
            );
        }
        k
    }
}

/// Returns the 3-dimensional offset of the cell in which the point would be
/// bucketed.
///
/// The offset is relative to the origin cell, which starts at `min_point`.
/// A grid has a finite width in each dimension, so the offset may refer to a
/// cell that the grid does not have.
pub fn point_into_offset(point: Point3, min_point: Point3, cell_width: i64) -> (offset: Offset3)
    requires
        cell_width > 0,
    ensures
        offset == cell_of(point, min_point, cell_width as int),
{
    let x: i64 = coordinate_into_cell(point.x, min_point.x, cell_width);
    let y: i64 = coordinate_into_cell(point.y, min_point.y, cell_width);
    let z: i64 = coordinate_into_cell(point.z, min_point.z, cell_width);
    Offset3::new(x, y, z)
}

/// Returns the flat index of the cell in which the point is bucketed, or
/// `None` where the point lies outside the grid.
pub fn point_into_index1(
    point: Point3,
    min_point: Point3,
    cell_width: i64,
    grid_size: (usize, usize, usize),
) -> (index: Option<usize>)
    requires
        cell_width > 0,
        grid_size.0 * grid_size.1 * grid_size.2 <= usize::MAX,
    ensures
        index == cell_of(point, min_point, cell_width as int).grid_index1(grid_size),
        index matches Some(i) ==> i < grid_size.0 * grid_size.1 * grid_size.2,
{
    point_into_offset(point, min_point, cell_width).into_grid_index1(grid_size)
}

/// The cell of a coordinate is the one whose half-open interval holds it.
pub proof fn lemma_axis_cell_bounds(c: int, low: int, cell_width: int)
    requires
        cell_width > 0,
    ensures
        low + axis_cell(c, low, cell_width) * cell_width <= c,
        c < low + axis_cell(c, low, cell_width) * cell_width + cell_width,
{
    vstd::arithmetic::div_mod::lemma_fundamental_div_mod(c - low, cell_width);
    vstd::arithmetic::div_mod::lemma_mod_bound(c - low, cell_width);
    assert(cell_width * ((c - low) / cell_width) == ((c - low) / cell_width) * cell_width)
        by (nonlinear_arith);
}

/// The components of the cell of a point are the cells of its coordinates:
/// they fit the type that offsets have.
pub proof fn lemma_cell_of_fits(point: Point3, min_point: Point3, cell_width: int)
    requires
        cell_width > 0,
    ensures
        cell_of(point, min_point, cell_width).x == axis_cell(
            point.x as int,
            min_point.x as int,
            cell_width,
        ),
        cell_of(point, min_point, cell_width).y == axis_cell(
            point.y as int,
            min_point.y as int,
            cell_width,
        ),
        cell_of(point, min_point, cell_width).z == axis_cell(
            point.z as int,
            min_point.z as int,
            cell_width,
        ),
{
    lemma_axis_cell_range(point.x as int, min_point.x as int, cell_width);
    lemma_axis_cell_range(point.y as int, min_point.y as int, cell_width);
    lemma_axis_cell_range(point.z as int, min_point.z as int, cell_width);
}

/// The cell of a coordinate lies no farther from the origin cell than the
/// coordinate lies from the origin cell's start.
pub proof fn lemma_axis_cell_range(c: int, low: int, cell_width: int)
    requires
        cell_width > 0,
        i32::MIN <= c <= i32::MAX,
        i32::MIN <= low <= i32::MAX,
    ensures
        -0x1_0000_0000 < axis_cell(c, low, cell_width) < 0x1_0000_0000,
{
    lemma_axis_cell_bounds(c, low, cell_width);
    let k = axis_cell(c, low, cell_width);
    assert(k < 0x1_0000_0000) by (nonlinear_arith)
        requires
            k * cell_width <= c - low,
            c - low < 0x1_0000_0000,
            cell_width >= 1,
    ;
    assert(k > -0x1_0000_0000) by (nonlinear_arith)
        requires
            c - low < k * cell_width + cell_width,
            c - low > -0x1_0000_0000,
            cell_width >= 1,
    ;
}

/// A coordinate that lies in the half-open interval of cell `k` has `k` as
/// its cell.
pub proof fn lemma_axis_cell_unique(c: int, low: int, cell_width: int, k: int)
    requires
        cell_width > 0,
        low + k * cell_width <= c < low + k * cell_width + cell_width,
    ensures
        axis_cell(c, low, cell_width) == k,
{
    vstd::arithmetic::div_mod::lemma_fundamental_div_mod_converse(
        c - low,
        cell_width,
        k,
        c - low - k * cell_width,
    );
}

} // verus!
