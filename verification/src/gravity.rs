//! Gravity: once cells are marked, each column drops its surviving cells onto
//! the floor, keeping their order, and the removed cells come back on top of
//! them with fresh plain pieces.
//!
//! In this module rows and columns count from 0: the cell stored at `index`
//! stands in row `index / n` and column `index % n`.

use crate::board::{ids_distinct, lemma_position_unique, position, Board, BoardState, BoardView,
    Cell};
use crate::shape::{get_random_shape, Shape};
use crate::utils::{lemma_index_in_range, lemma_position_of_index};
use vstd::prelude::*;
use vstd::relations::injective_on;
use vstd::set_lib::{lemma_int_range, lemma_map_size, lemma_subset_equality, set_int_range};

verus! {

/// How many cells of column `col` in the rows above `row` are marked.
pub open spec fn removed_before(cells: Seq<Cell>, n: int, col: int, row: int) -> int
    decreases row,
{
    if row <= 0 {
        0
    } else {
        removed_before(cells, n, col, row - 1) + if cells[(row - 1) * n + col].deletion {
            1int
        } else {
            0int
        }
    }
}

/// How many cells of column `col` are marked.
pub open spec fn removed_in_column(cells: Seq<Cell>, n: int, col: int) -> int {
    removed_before(cells, n, col, n)
}

/// How many of the cells stored before `limit` are marked.
pub open spec fn marked_before(cells: Seq<Cell>, limit: int) -> int
    decreases limit,
{
    if limit <= 0 {
        0
    } else {
        marked_before(cells, limit - 1) + if cells[limit - 1].deletion {
            1int
        } else {
            0int
        }
    }
}

/// How many cells are marked.
pub open spec fn marked_count(cells: Seq<Cell>) -> int {
    marked_before(cells, cells.len() as int)
}

/// The row in which the cell stored at `index` comes to rest: a removed cell
/// goes to the top of its column, below the removed cells that stood above
/// it; a surviving cell falls by the number of removed cells below it.
pub open spec fn new_row(cells: Seq<Cell>, n: int, index: int) -> int {
    let row = index / n;
    let col = index % n;
    if cells[index].deletion {
        removed_before(cells, n, col, row)
    } else {
        removed_in_column(cells, n, col) + row - removed_before(cells, n, col, row)
    }
}

/// The index at which the cell stored at `index` comes to rest, in its own
/// column.
pub open spec fn destination(cells: Seq<Cell>, n: int, index: int) -> int {
    new_row(cells, n, index) * n + index % n
}

/// The fall offset of a cell that comes down `rows` rows.
pub open spec fn fall_offset(rows: int) -> int {
    100 * rows
}

/// What becomes of the cell stored at `index`: a removed cell loses its mark,
/// takes the fresh piece of its rank among the marked cells, and starts as
/// high above its resting place as its column has removed cells; a surviving
/// cell starts as high as it falls.
pub open spec fn settled_cell(cells: Seq<Cell>, n: int, index: int, fresh: Seq<Shape>) -> Cell {
    let col = index % n;
    if cells[index].deletion {
        Cell {
            id: cells[index].id,
            shape: fresh[marked_before(cells, index)],
            deletion: false,
            bottom: fall_offset(removed_in_column(cells, n, col)) as u64,
        }
    } else {
        Cell {
            bottom: fall_offset(new_row(cells, n, index) - index / n) as u64,
            ..cells[index]
        }
    }
}

/// Whether `after` is `before` with every cell moved to its resting place
/// and changed as `settled_cell` says.
pub open spec fn settles(before: Seq<Cell>, n: int, fresh: Seq<Shape>, after: Seq<Cell>) -> bool {
    &&& after.len() == before.len()
    &&& forall|i: int|
        0 <= i < before.len() ==> after[#[trigger] destination(before, n, i)] == settled_cell(
            before,
            n,
            i,
            fresh,
        )
}

/// Whether every piece of the list is plain.
pub open spec fn all_plain(fresh: Seq<Shape>) -> bool {
    forall|k: int| 0 <= k < fresh.len() ==> !(#[trigger] fresh[k]).special()
}

/// A count of marked cells above a row is at most the number of rows.
pub proof fn lemma_removed_before_bounds(cells: Seq<Cell>, n: int, col: int, row: int)
    requires
        0 <= row,
    ensures
        0 <= removed_before(cells, n, col, row) <= row,
    decreases row,
{
    if row > 0 {
        lemma_removed_before_bounds(cells, n, col, row - 1);
    }
}

/// Further down a column there are no fewer marked cells above, and no fewer
/// surviving ones.
pub proof fn lemma_removed_before_monotone(cells: Seq<Cell>, n: int, col: int, r1: int, r2: int)
    requires
        0 <= r1 <= r2,
    ensures
        removed_before(cells, n, col, r1) <= removed_before(cells, n, col, r2),
        r1 - removed_before(cells, n, col, r1) <= r2 - removed_before(cells, n, col, r2),
    decreases r2,
{
    if r1 < r2 {
        lemma_removed_before_monotone(cells, n, col, r1, r2 - 1);
    }
}

/// A cell in row `r1` is counted, among the marked or among the surviving
/// cells, from the next row on.
pub proof fn lemma_removed_before_strict(cells: Seq<Cell>, n: int, col: int, r1: int, r2: int)
    requires
        0 <= r1 < r2,
    ensures
        cells[r1 * n + col].deletion ==> removed_before(cells, n, col, r1) < removed_before(
            cells,
            n,
            col,
            r2,
        ),
        !cells[r1 * n + col].deletion ==> r1 - removed_before(cells, n, col, r1) < r2
            - removed_before(cells, n, col, r2),
{
    lemma_removed_before_monotone(cells, n, col, r1 + 1, r2);
    assert(removed_before(cells, n, col, r1 + 1) == removed_before(cells, n, col, r1)
        + if cells[r1 * n + col].deletion {
        1int
    } else {
        0int
    });
}

/// Row and column of an index built from them.
pub proof fn lemma_row_col(row: int, col: int, n: int)
    requires
        0 <= row < n,
        0 <= col < n,
    ensures
        0 <= row * n + col < n * n,
        (row * n + col) / n == row,
        (row * n + col) % n == col,
{
    lemma_index_in_range(row + 1, col + 1, n);
}

/// An index is built from its row and column.
pub proof fn lemma_index_split(index: int, n: int)
    requires
        0 <= n,
        0 <= index < n * n,
    ensures
        0 <= index / n < n,
        0 <= index % n < n,
        index == (index / n) * n + index % n,
{
    lemma_position_of_index(index, n);
}

/// Every cell comes to rest on the board, in its own column: the removed
/// ones in the top rows, the surviving ones below them.
pub proof fn lemma_destination_in_range(cells: Seq<Cell>, n: int, index: int)
    requires
        0 <= n,
        cells.len() == n * n,
        0 <= index < n * n,
    ensures
        0 <= new_row(cells, n, index) < n,
        0 <= destination(cells, n, index) < n * n,
        destination(cells, n, index) % n == index % n,
        destination(cells, n, index) / n == new_row(cells, n, index),
        cells[index].deletion ==> new_row(cells, n, index) < removed_in_column(
            cells,
            n,
            index % n,
        ),
        !cells[index].deletion ==> new_row(cells, n, index) >= removed_in_column(
            cells,
            n,
            index % n,
        ),
        !cells[index].deletion ==> new_row(cells, n, index) >= index / n,
{
    lemma_index_split(index, n);
    let row = index / n;
    let col = index % n;
    lemma_removed_before_bounds(cells, n, col, row);
    lemma_removed_before_bounds(cells, n, col, n);
    lemma_removed_before_strict(cells, n, col, row, n);
    lemma_removed_before_monotone(cells, n, col, row, n);
    lemma_row_col(new_row(cells, n, index), col, n);
}

/// No two cells come to rest at the same place.
pub proof fn lemma_destination_injective(cells: Seq<Cell>, n: int, i: int, j: int)
    requires
        0 <= n,
        cells.len() == n * n,
        0 <= i < n * n,
        0 <= j < n * n,
        destination(cells, n, i) == destination(cells, n, j),
    ensures
        i == j,
{
    lemma_destination_in_range(cells, n, i);
    lemma_destination_in_range(cells, n, j);
    lemma_index_split(i, n);
    lemma_index_split(j, n);
    let col = i % n;
    let ri = i / n;
    let rj = j / n;
    if ri < rj {
        lemma_removed_before_strict(cells, n, col, ri, rj);
        lemma_removed_before_monotone(cells, n, col, ri, rj);
    } else if rj < ri {
        lemma_removed_before_strict(cells, n, col, rj, ri);
        lemma_removed_before_monotone(cells, n, col, rj, ri);
    }
}

/// Two surviving cells of one column keep their order.
pub proof fn lemma_survivors_keep_order(cells: Seq<Cell>, n: int, i: int, j: int)
    requires
        0 <= n,
        cells.len() == n * n,
        0 <= i < j < n * n,
        i % n == j % n,
        !cells[i].deletion,
        !cells[j].deletion,
    ensures
        destination(cells, n, i) < destination(cells, n, j),
        destination(cells, n, i) % n == destination(cells, n, j) % n,
{
    lemma_destination_in_range(cells, n, i);
    lemma_destination_in_range(cells, n, j);
    lemma_index_split(i, n);
    lemma_index_split(j, n);
    let col = i % n;
    let ri = i / n;
    let rj = j / n;
    assert(ri < rj) by (nonlinear_arith)
        requires
            i < j,
            i == ri * n + col,
            j == rj * n + col,
            0 <= n,
    ;
    lemma_removed_before_strict(cells, n, col, ri, rj);
    assert(new_row(cells, n, i) * n < new_row(cells, n, j) * n) by (nonlinear_arith)
        requires
            new_row(cells, n, i) < new_row(cells, n, j),
            0 < n,
    ;
}

/// Every place of the board is the resting place of some cell.
pub proof fn lemma_destination_onto(cells: Seq<Cell>, n: int, j: int)
    requires
        0 <= n,
        cells.len() == n * n,
        0 <= j < n * n,
    ensures
        exists|i: int| 0 <= i < n * n && #[trigger] destination(cells, n, i) == j,
{
    let places = set_int_range(0, n * n);
    let rest = |i: int| destination(cells, n, i);
    let reached = places.map(rest);
    lemma_int_range(0, n * n);
    assert(injective_on(rest, places)) by {
        assert forall|x1: int, x2: int|
            places.contains(x1) && places.contains(x2) && #[trigger] rest(x1) == #[trigger] rest(
                x2,
            ) implies x1 == x2 by {
            lemma_destination_injective(cells, n, x1, x2);
        }
    }
    lemma_map_size(places, reached, rest);
    assert(reached.subset_of(places)) by {
        assert forall|b: int| reached.contains(b) implies places.contains(b) by {
            let a = choose|a: int| places.contains(a) && b == rest(a);
            lemma_destination_in_range(cells, n, a);
        }
    }
    lemma_subset_equality(reached, places);
    assert(places.contains(j));
    assert(reached.contains(j));
    let i = choose|i: int| places.contains(i) && j == rest(i);
    assert(0 <= i < n * n && destination(cells, n, i) == j);
}

/// After the cells have settled every index again holds exactly one cell,
/// the cells are the same ones, and no mark is left.
pub proof fn lemma_settles_conserves(before: Seq<Cell>, n: int, fresh: Seq<Shape>, after: Seq<Cell>)
    requires
        0 <= n,
        before.len() == n * n,
        ids_distinct(before),
        settles(before, n, fresh, after),
    ensures
        after.len() == n * n,
        ids_distinct(after),
        forall|j: int| 0 <= j < after.len() ==> !(#[trigger] after[j]).deletion,
        forall|i: int|
            0 <= i < before.len() ==> after[#[trigger] destination(before, n, i)].id
                == before[i].id,
{
    assert forall|j: int| 0 <= j < after.len() implies !(#[trigger] after[j]).deletion by {
        lemma_destination_onto(before, n, j);
        let i = choose|i: int| 0 <= i < n * n && #[trigger] destination(before, n, i) == j;
        assert(after[destination(before, n, i)] == settled_cell(before, n, i, fresh));
    }
    assert forall|j1: int, j2: int| 0 <= j1 < j2 < after.len() implies (#[trigger] after[j1]).id
        != (#[trigger] after[j2]).id by {
        lemma_destination_onto(before, n, j1);
        lemma_destination_onto(before, n, j2);
        let i1 = choose|i: int| 0 <= i < n * n && #[trigger] destination(before, n, i) == j1;
        let i2 = choose|i: int| 0 <= i < n * n && #[trigger] destination(before, n, i) == j2;
        assert(after[destination(before, n, i1)] == settled_cell(before, n, i1, fresh));
        assert(after[destination(before, n, i2)] == settled_cell(before, n, i2, fresh));
        if i1 < i2 {
            assert(before[i1].id != before[i2].id);
        } else {
            assert(before[i2].id != before[i1].id);
        }
    }
    assert forall|i: int| 0 <= i < before.len() implies after[#[trigger] destination(
        before,
        n,
        i,
    )].id == before[i].id by {
        assert(after[destination(before, n, i)] == settled_cell(before, n, i, fresh));
    }
}

/// The settled board is determined: two layouts that both settle `before`
/// with the same fresh pieces are the same.
pub proof fn lemma_settles_unique(
    before: Seq<Cell>,
    n: int,
    fresh: Seq<Shape>,
    first: Seq<Cell>,
    second: Seq<Cell>,
)
    requires
        0 <= n,
        before.len() == n * n,
        settles(before, n, fresh, first),
        settles(before, n, fresh, second),
    ensures
        first == second,
{
    assert forall|j: int| 0 <= j < first.len() implies first[j] == second[j] by {
        lemma_destination_onto(before, n, j);
        let i = choose|i: int| 0 <= i < n * n && #[trigger] destination(before, n, i) == j;
        assert(first[destination(before, n, i)] == settled_cell(before, n, i, fresh));
        assert(second[destination(before, n, i)] == settled_cell(before, n, i, fresh));
    }
    assert(first =~= second);
}

/// Later in storage order there are no fewer marked cells before.
proof fn lemma_marked_before_monotone(cells: Seq<Cell>, i: int, j: int)
    requires
        0 <= i <= j,
    ensures
        0 <= marked_before(cells, i) <= marked_before(cells, j),
        marked_before(cells, i) <= i,
    decreases j,
{
    if i < j {
        lemma_marked_before_monotone(cells, i, j - 1);
    } else if i > 0 {
        lemma_marked_before_monotone(cells, i - 1, i - 1);
    }
}

/// How many cells of the board are marked for removal.
pub fn count_deletions(board: &Board) -> (count: usize)
    ensures
        count == marked_count(board@.cells),
{
    let total = board.len();
    let mut count: usize = 0;
    let mut i: usize = 0;
    while i < total
        invariant
            total == board@.cells.len(),
            i <= total,
            count == marked_before(board@.cells, i as int),
            count <= i,
        decreases total - i,
    {
        if board.at(i).deletion {
            count += 1;
        }
        i += 1;
    }
    count
}

/// Whether every piece of the list is plain.
fn is_all_plain(fresh: &Vec<Shape>) -> (plain: bool)
    ensures
        plain == all_plain(fresh@),
{
    let mut k: usize = 0;
    while k < fresh.len()
        invariant
            k <= fresh@.len(),
            forall|j: int| 0 <= j < k ==> !(#[trigger] fresh@[j]).special(),
        decreases fresh@.len() - k,
    {
        if fresh[k].is_special() {
            return false;
        }
        k += 1;
    }
    true
}

/// For every cell, how many cells stored before it are marked.
fn mark_ranks(cells: &Vec<Cell>) -> (ranks: Vec<usize>)
    ensures
        ranks@.len() == cells@.len(),
        forall|i: int| 0 <= i < ranks@.len() ==> #[trigger] ranks@[i] == marked_before(cells@, i),
{
    let mut ranks: Vec<usize> = Vec::new();
    let mut count: usize = 0;
    let mut i: usize = 0;
    while i < cells.len()
        invariant
            i <= cells@.len(),
            ranks@.len() == i,
            count == marked_before(cells@, i as int),
            count <= i,
            forall|k: int| 0 <= k < i ==> #[trigger] ranks@[k] == marked_before(cells@, k),
        decreases cells@.len() - i,
    {
        ranks.push(count);
        if cells[i].deletion {
            count += 1;
        }
        i += 1;
    }
    ranks
}

/// How many cells of column `col` are marked.
fn count_in_column(cells: &Vec<Cell>, size: usize, col: usize) -> (count: usize)
    requires
        cells@.len() == size * size,
        col < size,
    ensures
        count == removed_in_column(cells@, size as int, col as int),
        count <= size,
{
    assert(cells@.len() == cells.len());
    let mut count: usize = 0;
    let mut row: usize = 0;
    while row < size
        invariant
            cells@.len() == size * size,
            size * size <= usize::MAX,
            col < size,
            row <= size,
            count == removed_before(cells@, size as int, col as int, row as int),
            count <= row,
        decreases size - row,
    {
        proof {
            lemma_row_col(row as int, col as int, size as int);
        }
        if cells[row * size + col].deletion {
            count += 1;
        }
        row += 1;
    }
    count
}

/// The cells after gravity: every column with its removed cells on top,
/// renewed with the fresh pieces, and its surviving cells below, in order.
fn settle(cells: &Vec<Cell>, size: usize, fresh: &Vec<Shape>) -> (settled: Vec<Cell>)
    requires
        cells@.len() == size * size,
        fresh@.len() >= marked_count(cells@),
    ensures
        settles(cells@, size as int, fresh@, settled@),
{
    let ghost n = size as int;
    assert(cells@.len() == cells.len());
    proof {
        assert(size <= 0x1_0000_0000) by (nonlinear_arith)
            requires
                size * size <= usize::MAX,
                usize::MAX <= 0xffff_ffff_ffff_ffff,
        ;
    }
    let ranks = mark_ranks(cells);
    let mut settled: Vec<Cell> = cells.clone();
    assert(settled@.len() == cells@.len());
    let mut col: usize = 0;
    while col < size
        invariant
            n == size,
            size <= 0x1_0000_0000,
            size * size <= usize::MAX,
            cells@.len() == n * n,
            settled@.len() == n * n,
            fresh@.len() >= marked_count(cells@),
            ranks@.len() == cells@.len(),
            forall|i: int|
                0 <= i < ranks@.len() ==> #[trigger] ranks@[i] == marked_before(cells@, i),
            col <= size,
            forall|i: int|
                0 <= i < n * n && i % n < col ==> settled@[#[trigger] destination(cells@, n, i)]
                    == settled_cell(cells@, n, i, fresh@),
        decreases size - col,
    {
        let removed = count_in_column(cells, size, col);
        let mut next_removed: usize = 0;
        let mut next_kept: usize = removed;
        let mut row: usize = 0;
        while row < size
            invariant
                n == size,
                size <= 0x1_0000_0000,
                size * size <= usize::MAX,
                cells@.len() == n * n,
                settled@.len() == n * n,
                fresh@.len() >= marked_count(cells@),
                ranks@.len() == cells@.len(),
                forall|i: int|
                    0 <= i < ranks@.len() ==> #[trigger] ranks@[i] == marked_before(cells@, i),
                col < size,
                row <= size,
                removed == removed_in_column(cells@, n, col as int),
                removed <= size,
                next_removed == removed_before(cells@, n, col as int, row as int),
                next_kept == removed + row - removed_before(cells@, n, col as int, row as int),
                forall|i: int|
                    0 <= i < n * n && (i % n < col || (i % n == col && i / n < row))
                        ==> settled@[#[trigger] destination(cells@, n, i)] == settled_cell(
                        cells@,
                        n,
                        i,
                        fresh@,
                    ),
            decreases size - row,
        {
            proof {
                lemma_row_col(row as int, col as int, n);
                lemma_destination_in_range(cells@, n, row * n + col);
                lemma_marked_before_monotone(cells@, row * n + col + 1, n * n);
            }
            let index = row * size + col;
            let cell = cells[index];
            let ghost before = settled@;
            let place = if cell.deletion {
                next_removed
            } else {
                next_kept
            };
            proof {
                assert(place == new_row(cells@, n, index as int));
                lemma_row_col(place as int, col as int, n);
            }
            let renewed = if cell.deletion {
                Cell {
                    id: cell.id,
                    shape: fresh[ranks[index]],
                    deletion: false,
                    bottom: 100 * (removed as u64),
                }
            } else {
                Cell {
                    id: cell.id,
                    shape: cell.shape,
                    deletion: cell.deletion,
                    bottom: 100 * ((next_kept - row) as u64),
                }
            };
            assert(renewed == settled_cell(cells@, n, index as int, fresh@));
            settled.set(place * size + col, renewed);
            if cell.deletion {
                next_removed += 1;
            } else {
                next_kept += 1;
            }
            proof {
                assert forall|i: int|
                    0 <= i < n * n && (i % n < col || (i % n == col && i / n < row + 1))
                        implies settled@[#[trigger] destination(cells@, n, i)] == settled_cell(
                    cells@,
                    n,
                    i,
                    fresh@,
                ) by {
                    lemma_destination_in_range(cells@, n, i);
                    if i != index {
                        if destination(cells@, n, i) == destination(cells@, n, index as int) {
                            lemma_destination_injective(cells@, n, i, index as int);
                        }
                        lemma_index_split(i, n);
                        assert(before[destination(cells@, n, i)] == settled_cell(
                            cells@,
                            n,
                            i,
                            fresh@,
                        ));
                    }
                }
            }
            row += 1;
        }
        proof {
            assert forall|i: int| 0 <= i < n * n && i % n < col + 1 implies settled@[#[trigger] destination(
                cells@,
                n,
                i,
            )] == settled_cell(cells@, n, i, fresh@) by {
                lemma_index_split(i, n);
            }
        }
        col += 1;
    }
    settled
}

/// Whether `after` is `before` after gravity with the given fresh pieces:
/// nothing changes where no cell is marked; else the cells settle and the
/// board starts animating the fall.
pub open spec fn gravity_applied(before: BoardView, fresh: Seq<Shape>, after: BoardView) -> bool {
    if marked_count(before.cells) == 0 {
        after == before
    } else {
        &&& settles(before.cells, before.size, fresh, after.cells)
        &&& after == (BoardView {
            cells: after.cells,
            state: BoardState::AnimatingFallingShapes,
            ..before
        })
    }
}

/// Whether `after` is what gravity can leave of `before`: the removed cells
/// come back with plain pieces, whichever they are.
pub open spec fn gravity_outcome(before: BoardView, after: BoardView) -> bool {
    exists|fresh: Seq<Shape>|
        fresh.len() == marked_count(before.cells) && all_plain(fresh) && #[trigger] gravity_applied(
            before,
            fresh,
            after,
        )
}

/// Where nothing is counted as marked, no cell is marked.
pub proof fn lemma_none_marked(cells: Seq<Cell>, limit: int)
    requires
        0 <= limit <= cells.len(),
        marked_before(cells, limit) == 0,
    ensures
        forall|i: int| 0 <= i < limit ==> !(#[trigger] cells[i]).deletion,
    decreases limit,
{
    if limit > 0 {
        lemma_marked_before_monotone(cells, limit - 1, limit - 1);
        lemma_none_marked(cells, limit - 1);
    }
}

/// After one gravity cycle every index again holds exactly one cell, no
/// cell is marked for removal, and the cells that survived stand in their
/// columns in the order in which they stood before.
pub proof fn lemma_gravity_conserves(before: BoardView, fresh: Seq<Shape>, after: BoardView)
    requires
        before.wf(),
        gravity_applied(before, fresh, after),
    ensures
        after.wf(),
        after.size == before.size,
        forall|j: int| 0 <= j < after.cells.len() ==> !(#[trigger] after.cells[j]).deletion,
        forall|i: int, j: int|
            0 <= i < j < before.cells.len() && i % before.size == j % before.size && !(
            #[trigger] before.cells[i]).deletion && !(#[trigger] before.cells[j]).deletion ==> {
                &&& position(after.cells, before.cells[i].id) < position(
                    after.cells,
                    before.cells[j].id,
                )
                &&& position(after.cells, before.cells[i].id) % before.size == i % before.size
                &&& position(after.cells, before.cells[j].id) % before.size == j % before.size
            },
{
    let n = before.size;
    if marked_count(before.cells) == 0 {
        lemma_none_marked(before.cells, before.cells.len() as int);
        assert forall|i: int, j: int|
            0 <= i < j < before.cells.len() && i % n == j % n && !(
            #[trigger] before.cells[i]).deletion && !(#[trigger] before.cells[j]).deletion implies {
            &&& position(after.cells, before.cells[i].id) < position(
                after.cells,
                before.cells[j].id,
            )
            &&& position(after.cells, before.cells[i].id) % n == i % n
            &&& position(after.cells, before.cells[j].id) % n == j % n
        } by {
            lemma_position_unique(before.cells, i);
            lemma_position_unique(before.cells, j);
        }
    } else {
        lemma_settles_conserves(before.cells, n, fresh, after.cells);
        assert forall|i: int, j: int|
            0 <= i < j < before.cells.len() && i % n == j % n && !(
            #[trigger] before.cells[i]).deletion && !(#[trigger] before.cells[j]).deletion implies {
            &&& position(after.cells, before.cells[i].id) < position(
                after.cells,
                before.cells[j].id,
            )
            &&& position(after.cells, before.cells[i].id) % n == i % n
            &&& position(after.cells, before.cells[j].id) % n == j % n
        } by {
            lemma_survivors_keep_order(before.cells, n, i, j);
            lemma_destination_in_range(before.cells, n, i);
            lemma_destination_in_range(before.cells, n, j);
            assert(after.cells[destination(before.cells, n, i)].id == before.cells[i].id);
            assert(after.cells[destination(before.cells, n, j)].id == before.cells[j].id);
            lemma_position_unique(after.cells, destination(before.cells, n, i));
            lemma_position_unique(after.cells, destination(before.cells, n, j));
        }
    }
}

/// One gravity cycle with the given fresh pieces, handed out to the marked
/// cells in storage order. The pieces are refused, and nothing changes, where
/// they are fewer than the marked cells or one of them is a special. Where no
/// cell is marked nothing changes either. Otherwise every column drops its
/// surviving cells, the removed cells come back on top with the fresh pieces,
/// and the board starts animating the fall.
pub fn update_board_after_deletions_with(board: &mut Board, fresh: &Vec<Shape>) -> (accepted: bool)
    requires
        old(board).wf(),
    ensures
        final(board).wf(),
        accepted == (fresh@.len() >= marked_count(old(board)@.cells) && all_plain(fresh@)),
        accepted ==> gravity_applied(old(board)@, fresh@, final(board)@),
        !accepted ==> final(board)@ == old(board)@,
        accepted ==> forall|j: int|
            0 <= j < final(board)@.cells.len() ==> !(#[trigger] final(board)@.cells[j]).deletion,
{
    let marked = count_deletions(board);
    if fresh.len() < marked || !is_all_plain(fresh) {
        return false;
    }
    if marked > 0 {
        let cells = board.cells();
        let settled = settle(&cells, board.size(), fresh);
        proof {
            lemma_settles_conserves(board@.cells, board@.size, fresh@, settled@);
        }
        board.replace_cells(settled);
        board.set_state(BoardState::AnimatingFallingShapes);
    }
    proof {
        lemma_gravity_conserves(old(board)@, fresh@, board@);
    }
    true
}

/// One gravity cycle: nothing changes where no cell is marked; otherwise
/// every column drops its surviving cells, the removed cells come back on top
/// with plain pieces picked at random, and the board starts animating the
/// fall.
pub fn update_board_after_deletions(board: &mut Board)
    requires
        old(board).wf(),
    ensures
        final(board).wf(),
        gravity_outcome(old(board)@, final(board)@),
        forall|j: int|
            0 <= j < final(board)@.cells.len() ==> !(#[trigger] final(board)@.cells[j]).deletion,
{
    let marked = count_deletions(board);
    let mut fresh: Vec<Shape> = Vec::new();
    let mut k: usize = 0;
    while k < marked
        invariant
            k <= marked,
            fresh@.len() == k,
            all_plain(fresh@),
        decreases marked - k,
    {
        fresh.push(get_random_shape());
        k += 1;
    }
    let accepted = update_board_after_deletions_with(board, &fresh);
    assert(gravity_applied(old(board)@, fresh@, board@));
}

} // verus!
