//! The cells that a ray passes through.
//!
//! A ray advances by its direction scaled down so that its longest
//! component is one cell: it moves at most one cell along any axis from one
//! step to the next, and exactly one along its longest axis. Each step is
//! rounded to the nearest cell.

use vstd::prelude::*;
use crate::vector::{
    abs_int, lemma_product_bound, max_int, round_div, round_ratio, Fixed3, IVec3,
};

verus! {

/// Why a ray cannot be followed.
#[derive(Clone, Copy, Debug, PartialEq, Eq, Hash, Structural)]
pub enum RayError {
    /// The direction is the zero vector, which points nowhere.
    ZeroDirection,
}

/// The length of the longest component of a direction.
pub open spec fn longest_axis(dir: IVec3) -> int {
    max_int(abs_int(dir.x as int), max_int(abs_int(dir.y as int), abs_int(dir.z as int)))
}

/// One coordinate of the cell at step `k` of a ray: the coordinate
/// `origin / unit` of the start, advanced `k` times by `dir / longest`, and
/// rounded, where a half goes upward.
pub open spec fn cell_coordinate(origin: int, unit: int, dir: int, longest: int, k: int) -> int {
    round_div(origin * longest + k * dir * unit, unit * longest)
}

/// The cell at step `k` of the ray from `origin` along `dir`.
pub open spec fn ray_cell(origin: Fixed3, dir: IVec3, k: int) -> (int, int, int) {
    let m = longest_axis(dir);
    (
        cell_coordinate(origin.x as int, origin.unit as int, dir.x as int, m, k),
        cell_coordinate(origin.y as int, origin.unit as int, dir.y as int, m, k),
        cell_coordinate(origin.z as int, origin.unit as int, dir.z as int, m, k),
    )
}

/// Whether a cell can be written with `i32` coordinates.
pub open spec fn representable(cell: (int, int, int)) -> bool {
    &&& i32::MIN <= cell.0 <= i32::MAX
    &&& i32::MIN <= cell.1 <= i32::MAX
    &&& i32::MIN <= cell.2 <= i32::MAX
}

/// A cell as a triple of whole numbers.
pub open spec fn coordinates(cell: IVec3) -> (int, int, int) {
    (cell.x as int, cell.y as int, cell.z as int)
}

fn magnitude(v: i32) -> (m: i64)
    ensures
        m == abs_int(v as int),
        0 <= m <= 0x8000_0000,
{
    if v >= 0 {
        v as i64
    } else {
        -(v as i64)
    }
}

fn longest(dir: IVec3) -> (m: i64)
    ensures
        m == longest_axis(dir),
        0 <= m <= 0x8000_0000,
{
    let x: i64 = magnitude(dir.x);
    let y: i64 = magnitude(dir.y);
    let z: i64 = magnitude(dir.z);
    let yz: i64 = if y >= z { y } else { z };
    if x >= yz {
        x
    } else {
        yz
    }
}

fn coordinate(origin: i64, unit: u32, dir: i32, longest: i64, k: u32) -> (c: i128)
    requires
        unit > 0,
        0 < longest <= 0x8000_0000,
    ensures
        c == cell_coordinate(origin as int, unit as int, dir as int, longest as int, k as int),
{
    proof {
        lemma_product_bound(origin as int, longest as int, 0x8000_0000_0000_0000, 0x8000_0000);
        lemma_product_bound(k as int, dir as int, 0xffff_ffff, 0x8000_0000);
        lemma_product_bound(k as int * dir as int, unit as int, 0xffff_ffff * 0x8000_0000int, 0xffff_ffff);
        lemma_product_bound(unit as int, longest as int, 0xffff_ffff, 0x8000_0000);
        assert(unit as int * longest as int > 0) by (nonlinear_arith)
            requires
                unit > 0,
                longest > 0,
        ;
    }
    let start: i128 = origin as i128 * longest as i128;
    let advance: i128 = k as i128 * dir as i128 * unit as i128;
    round_ratio(start + advance, unit as i128 * longest as i128)
}

/// Whether a list of cells is the start of the ray from `origin` along
/// `dir`: its cells are the first cells of the ray, and if there are fewer
/// than `limit` of them, the next cell of the ray has a coordinate that
/// `i32` cannot hold.
pub open spec fn follows_ray(cells: Seq<IVec3>, origin: Fixed3, dir: IVec3, limit: int) -> bool {
    &&& cells.len() <= limit
    &&& forall|k: int|
        0 <= k < cells.len() ==> coordinates(#[trigger] cells[k]) == ray_cell(origin, dir, k)
    &&& cells.len() < limit ==> !representable(ray_cell(origin, dir, cells.len() as int))
}

/// The first `limit` cells of the ray from `origin` along `dir`, as far as
/// `i32` coordinates reach: the list ends early at the first cell that has a
/// coordinate out of range. A direction of zero is refused.
pub fn trace(origin: Fixed3, dir: IVec3, limit: u32) -> (cells: Result<Vec<IVec3>, RayError>)
    requires
        origin.unit > 0,
    ensures
        match cells {
            Ok(cells) => longest_axis(dir) > 0 && follows_ray(cells@, origin, dir, limit as int),
            Err(RayError::ZeroDirection) => longest_axis(dir) == 0,
        },
{
    let m: i64 = longest(dir);
    if m == 0 {
        return Err(RayError::ZeroDirection);
    }
    let mut cells: Vec<IVec3> = Vec::new();
    let mut k: u32 = 0;
    while k < limit
        invariant
            k <= limit,
            cells.len() == k,
            origin.unit > 0,
            m == longest_axis(dir),
            0 < m <= 0x8000_0000,
            forall|j: int|
                0 <= j < cells.len() ==> coordinates(#[trigger] cells[j]) == ray_cell(
                    origin,
                    dir,
                    j,
                ),
        decreases limit - k,
    {
        let x: i128 = coordinate(origin.x, origin.unit, dir.x, m, k);
        let y: i128 = coordinate(origin.y, origin.unit, dir.y, m, k);
        let z: i128 = coordinate(origin.z, origin.unit, dir.z, m, k);
        let low: i128 = i32::MIN as i128;
        let high: i128 = i32::MAX as i128;
        if x < low || x > high || y < low || y > high || z < low || z > high {
            return Ok(cells);
        }
        cells.push(IVec3 { x: x as i32, y: y as i32, z: z as i32 });
        k += 1;
    }
    Ok(cells)
}

/// A whole number of `d`-th parts rounds to itself.
pub proof fn lemma_round_whole(a: int, d: int)
    requires
        d > 0,
    ensures
        round_div(a * d, d) == a,
{
    assert(2 * (a * d) + d == a * (2 * d) + d) by (nonlinear_arith);
    vstd::arithmetic::div_mod::lemma_fundamental_div_mod_converse(2 * (a * d) + d, 2 * d, a, d);
}

/// A ray that starts on a cell and runs along the x axis goes through the
/// cells of that row one after the other: step `k` is `k` cells from the
/// start, toward the side to which the direction points.
pub proof fn lemma_trace_along_x(start: IVec3, unit: u32, length: i32, k: int)
    requires
        unit > 0,
        length != 0,
        0 <= k,
        start.x * unit <= i64::MAX,
        start.x * unit >= i64::MIN,
        start.y * unit <= i64::MAX,
        start.y * unit >= i64::MIN,
        start.z * unit <= i64::MAX,
        start.z * unit >= i64::MIN,
    ensures
        ray_cell(
            Fixed3 {
                x: (start.x * unit) as i64,
                y: (start.y * unit) as i64,
                z: (start.z * unit) as i64,
                unit,
            },
            IVec3 { x: length, y: 0, z: 0 },
            k,
        ) == (
            if length > 0 {
                start.x + k
            } else {
                start.x - k
            },
            start.y as int,
            start.z as int,
        ),
{
    let m = abs_int(length as int);
    let u = unit as int;
    let step = if length > 0 { k } else { -k };
    assert((start.x * u) * m + k * length * u == (start.x + step) * (u * m)) by (nonlinear_arith)
        requires
            m == abs_int(length as int),
            step == if length > 0 { k } else { -k },
    ;
    assert((start.y * u) * m + k * 0 * u == start.y * (u * m)) by (nonlinear_arith);
    assert((start.z * u) * m + k * 0 * u == start.z * (u * m)) by (nonlinear_arith);
    assert(u * m > 0) by (nonlinear_arith)
        requires
            u > 0,
            m > 0,
    ;
    lemma_round_whole(start.x + step, u * m);
    lemma_round_whole(start.y as int, u * m);
    lemma_round_whole(start.z as int, u * m);
}

/// Rounding keeps the order of numbers.
pub proof fn lemma_round_is_ordered(a: int, b: int, d: int)
    requires
        a <= b,
        d > 0,
    ensures
        round_div(a, d) <= round_div(b, d),
{
    vstd::arithmetic::div_mod::lemma_div_is_ordered(2 * a + d, 2 * b + d, 2 * d);
}

/// A number that is one whole more rounds to one more.
pub proof fn lemma_round_plus_one(n: int, d: int)
    requires
        d > 0,
    ensures
        round_div(n + d, d) == round_div(n, d) + 1,
{
    vstd::arithmetic::div_mod::lemma_div_plus_one(2 * n + d, 2 * d);
}

/// Along one axis a ray moves to the same cell or to the next one: the
/// coordinates of two steps that follow one another differ by one at most.
pub proof fn lemma_coordinate_step(origin: int, unit: int, dir: int, longest: int, k: int)
    requires
        unit > 0,
        longest > 0,
        -longest <= dir <= longest,
    ensures
        -1 <= cell_coordinate(origin, unit, dir, longest, k + 1) - cell_coordinate(
            origin,
            unit,
            dir,
            longest,
            k,
        ) <= 1,
{
    let whole = unit * longest;
    let here = origin * longest + k * dir * unit;
    let next = origin * longest + (k + 1) * dir * unit;
    assert(whole > 0 && here - whole <= next <= here + whole) by (nonlinear_arith)
        requires
            whole == unit * longest,
            here == origin * longest + k * dir * unit,
            next == origin * longest + (k + 1) * dir * unit,
            unit > 0,
            longest > 0,
            -longest <= dir <= longest,
    ;
    lemma_round_is_ordered(here - whole, next, whole);
    lemma_round_is_ordered(next, here + whole, whole);
    lemma_round_plus_one(here - whole, whole);
    lemma_round_plus_one(here, whole);
}

/// A ray draws a connected line: from one step to the next it moves by one
/// cell at most along each axis.
pub proof fn lemma_steps_are_adjacent(origin: Fixed3, dir: IVec3, k: int)
    requires
        origin.unit > 0,
        longest_axis(dir) > 0,
    ensures
        -1 <= ray_cell(origin, dir, k + 1).0 - ray_cell(origin, dir, k).0 <= 1,
        -1 <= ray_cell(origin, dir, k + 1).1 - ray_cell(origin, dir, k).1 <= 1,
        -1 <= ray_cell(origin, dir, k + 1).2 - ray_cell(origin, dir, k).2 <= 1,
{
    let m = longest_axis(dir);
    lemma_coordinate_step(origin.x as int, origin.unit as int, dir.x as int, m, k);
    lemma_coordinate_step(origin.y as int, origin.unit as int, dir.y as int, m, k);
    lemma_coordinate_step(origin.z as int, origin.unit as int, dir.z as int, m, k);
}

} // verus!
