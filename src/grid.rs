//! Rearranging the entries of square matrices: transposes, and the minors
//! that cofactor expansion takes. These move entries without reading them,
//! so they hold for entries of any type.
use vstd::prelude::*;

verus! {

/// The row (or column) of a matrix that stands at place `i` of a minor that
/// leaves out `removed`.
pub open spec fn skip(i: int, removed: int) -> int {
    if i < removed {
        i
    } else {
        i + 1
    }
}

fn skip_index(i: usize, removed: usize) -> (r: usize)
    requires
        i < 3,
    ensures
        r == skip(i as int, removed as int),
{
    if i < removed {
        i
    } else {
        i + 1
    }
}

/// The transpose of a 4x4 matrix: rows become columns.
pub fn transpose<T: Copy>(m: &[[T; 4]; 4]) -> (r: [[T; 4]; 4])
    ensures
        forall|i: int, j: int| 0 <= i < 4 && 0 <= j < 4 ==> r[i][j] == m[j][i],
{
    [
        [m[0][0], m[1][0], m[2][0], m[3][0]],
        [m[0][1], m[1][1], m[2][1], m[3][1]],
        [m[0][2], m[1][2], m[2][2], m[3][2]],
        [m[0][3], m[1][3], m[2][3], m[3][3]],
    ]
}

/// The 3x3 matrix left of a 4x4 matrix without one row and one column.
pub fn minor4<T: Copy>(m: &[[T; 4]; 4], row: usize, col: usize) -> (r: [[T; 3]; 3])
    requires
        row < 4,
        col < 4,
    ensures
        forall|i: int, j: int|
            0 <= i < 3 && 0 <= j < 3 ==> r[i][j] == m[skip(i, row as int)][skip(j, col as int)],
{
    let r0 = skip_index(0, row);
    let r1 = skip_index(1, row);
    let r2 = skip_index(2, row);
    let c0 = skip_index(0, col);
    let c1 = skip_index(1, col);
    let c2 = skip_index(2, col);
    [
        [m[r0][c0], m[r0][c1], m[r0][c2]],
        [m[r1][c0], m[r1][c1], m[r1][c2]],
        [m[r2][c0], m[r2][c1], m[r2][c2]],
    ]
}

/// The 2x2 matrix left of a 3x3 matrix without one row and one column.
pub fn minor3<T: Copy>(m: &[[T; 3]; 3], row: usize, col: usize) -> (r: [[T; 2]; 2])
    requires
        row < 3,
        col < 3,
    ensures
        forall|i: int, j: int|
            0 <= i < 2 && 0 <= j < 2 ==> r[i][j] == m[skip(i, row as int)][skip(j, col as int)],
{
    let r0 = skip_index(0, row);
    let r1 = skip_index(1, row);
    let c0 = skip_index(0, col);
    let c1 = skip_index(1, col);
    [[m[r0][c0], m[r0][c1]], [m[r1][c0], m[r1][c1]]]
}

} // verus!
