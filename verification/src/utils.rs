//! Coordinates on a square grid: rows and columns count from 1, rows grow
//! downward, columns grow rightward, and cells are stored row by row.

use crate::board::{has_cell, lemma_position_unique, position, Board, BoardView};
use vstd::prelude::*;

verus! {

/// Whether `(row, col)` names a position of a grid with `n` rows and columns.
pub open spec fn in_grid(row: int, col: int, n: int) -> bool {
    1 <= row <= n && 1 <= col <= n
}

/// The storage index of `(row, col)`, where the position exists.
pub open spec fn index_of(row: int, col: int, n: int) -> Option<int> {
    if in_grid(row, col, n) {
        Some((row - 1) * n + col - 1)
    } else {
        None
    }
}

/// The row of the position stored at `index`.
pub open spec fn row_of(index: int, n: int) -> int {
    index / n + 1
}

/// The column of the position stored at `index`.
pub open spec fn col_of(index: int, n: int) -> int {
    index % n + 1
}

/// An index of a position on the grid lies in `[0, n * n)`.
pub proof fn lemma_index_in_range(row: int, col: int, n: int)
    requires
        in_grid(row, col, n),
    ensures
        0 <= (row - 1) * n + col - 1 < n * n,
        row_of((row - 1) * n + col - 1, n) == row,
        col_of((row - 1) * n + col - 1, n) == col,
{
    let i = (row - 1) * n + col - 1;
    assert(0 <= (row - 1) * n) by (nonlinear_arith)
        requires
            1 <= row,
            1 <= n,
    ;
    assert((row - 1) * n + n <= n * n) by (nonlinear_arith)
        requires
            row <= n,
            1 <= n,
    ;
    vstd::arithmetic::div_mod::lemma_fundamental_div_mod_converse(i, n, row - 1, col - 1);
}

/// Every index in `[0, n * n)` is the index of its own row and column.
pub proof fn lemma_position_of_index(index: int, n: int)
    requires
        0 <= n,
        0 <= index < n * n,
    ensures
        in_grid(row_of(index, n), col_of(index, n), n),
        index_of(row_of(index, n), col_of(index, n), n) == Some(index),
{
    assert(n > 0) by (nonlinear_arith)
        requires
            0 <= n,
            0 <= index < n * n,
    ;
    vstd::arithmetic::div_mod::lemma_fundamental_div_mod(index, n);
    let q = index / n;
    let r = index % n;
    assert(q < n) by (nonlinear_arith)
        requires
            index == n * q + r,
            0 <= r,
            index < n * n,
            n > 0,
    ;
    assert(n * q == q * n) by (nonlinear_arith);
}

/// The index is defined exactly on the grid, and it is a one-to-one
/// correspondence between the grid's positions and `[0, n * n)`.
pub proof fn lemma_index_bijection(n: int)
    requires
        0 <= n,
    ensures
        forall|row: int, col: int|
            (#[trigger] index_of(row, col, n)) is Some <==> in_grid(row, col, n),
        forall|row: int, col: int|
            in_grid(row, col, n) ==> 0 <= (#[trigger] index_of(row, col, n))->0 < n * n,
        forall|r1: int, c1: int, r2: int, c2: int|
            in_grid(r1, c1, n) && in_grid(r2, c2, n) && #[trigger] index_of(r1, c1, n)
                == #[trigger] index_of(r2, c2, n) ==> r1 == r2 && c1 == c2,
        forall|index: int|
            0 <= index < n * n ==> #[trigger] index_of(row_of(index, n), col_of(index, n), n)
                == Some(index),
{
    assert forall|row: int, col: int| in_grid(row, col, n) implies 0 <= (#[trigger] index_of(
        row,
        col,
        n,
    ))->0 < n * n by {
        lemma_index_in_range(row, col, n);
    }
    assert forall|r1: int, c1: int, r2: int, c2: int|
        in_grid(r1, c1, n) && in_grid(r2, c2, n) && #[trigger] index_of(r1, c1, n)
            == #[trigger] index_of(r2, c2, n) implies r1 == r2 && c1 == c2 by {
        lemma_index_in_range(r1, c1, n);
        lemma_index_in_range(r2, c2, n);
    }
    assert forall|index: int| 0 <= index < n * n implies #[trigger] index_of(
        row_of(index, n),
        col_of(index, n),
        n,
    ) == Some(index) by {
        lemma_position_of_index(index, n);
    }
}

/// The storage index of `(row, col)` on a grid of `size` rows and columns, or
/// `None` where the position lies outside the grid.
pub fn get_index(row: i64, col: i64, size: usize) -> (index: Option<usize>)
    requires
        size * size <= usize::MAX,
    ensures
        index is Some <==> in_grid(row as int, col as int, size as int),
        index is Some ==> Some(index->0 as int) == index_of(row as int, col as int, size as int),
        index is Some ==> index->0 < size * size,
{
    proof {
        assert(size <= 0x1_0000_0000) by (nonlinear_arith)
            requires
                size * size <= usize::MAX,
                usize::MAX <= 0xffff_ffff_ffff_ffff,
        ;
    }
    if row < 1 || col < 1 || row > size as i64 || col > size as i64 {
        return None;
    }
    proof {
        lemma_index_in_range(row as int, col as int, size as int);
    }
    let r: usize = (row - 1) as usize;
    let c: usize = (col - 1) as usize;
    assert(r * size >= 0 && r * size + c < size * size) by (nonlinear_arith)
        requires
            0 <= r < size,
            0 <= c < size,
    ;
    Some(r * size + c)
}

/// The cell at `(row, col)`, or `None` where the position lies outside the
/// board.
pub fn get_entity(row: i64, col: i64, board: &Board) -> (entity: Option<u64>)
    requires
        board.wf(),
    ensures
        entity == board@.entity_at(row as int, col as int),
{
    match get_index(row, col, board.size()) {
        Some(index) => Some(board.at(index).id),
        None => None,
    }
}

/// The row and column of a cell of the board, both counted from 1 at the top
/// left.
pub fn get_row_col(shape: u64, board: &Board) -> (row_col: (usize, usize))
    requires
        board.wf(),
        has_cell(board@.cells, shape),
    ensures
        (row_col.0 as int, row_col.1 as int) == board@.row_col(shape),
        in_grid(row_col.0 as int, row_col.1 as int, board@.size),
{
    let size = board.size();
    match board.find(shape) {
        Some(index) => {
            proof {
                lemma_position_of_index(index as int, size as int);
            }
            (index / size + 1, index % size + 1)
        },
        None => (0, 0),
    }
}

/// Looking up the cell at a position and then asking where that cell is
/// gives the position back.
pub proof fn lemma_row_col_of_entity_at(board: BoardView, row: int, col: int)
    requires
        board.wf(),
        in_grid(row, col, board.size),
    ensures
        board.entity_at(row, col) is Some,
        board.row_col(board.entity_at(row, col)->0) == (row, col),
{
    lemma_index_in_range(row, col, board.size);
}

} // verus!
