//! What a special piece does when the player swaps it: a bomb clears the
//! cells around it, a liner clears its row or column, an eliminator clears
//! cells picked at random. All of them clear themselves.

use crate::board::{has_cell, ids_of, lemma_position_unique, position, with_marks, Board,
    BoardView, Cell};
use crate::random::{is_sample, pick_many};
use crate::utils::{col_of, get_entity, get_row_col, in_grid, lemma_index_in_range,
    lemma_position_of_index, row_of};
use vstd::prelude::*;

verus! {

/// The distance between two numbers.
pub open spec fn abs_diff(a: int, b: int) -> int {
    if a >= b {
        a - b
    } else {
        b - a
    }
}

/// The eight offsets around a centre, row by row.
pub open spec fn ring() -> Seq<(i32, i32)> {
    seq![
        (-1i32, -1i32),
        (-1i32, 0i32),
        (-1i32, 1i32),
        (0i32, -1i32),
        (0i32, 1i32),
        (1i32, -1i32),
        (1i32, 0i32),
        (1i32, 1i32),
    ]
}

/// The cells found under `offsets` from `(row, col)`, in the offsets' order;
/// an offset that leaves the board gives no cell.
pub open spec fn entities_around(
    board: BoardView,
    row: int,
    col: int,
    offsets: Seq<(i32, i32)>,
) -> Seq<u64>
    decreases offsets.len(),
{
    if offsets.len() == 0 {
        Seq::empty()
    } else {
        let rest = entities_around(board, row, col, offsets.drop_last());
        match board.entity_at(row + offsets.last().0, col + offsets.last().1) {
            Some(id) => rest.push(id),
            None => rest,
        }
    }
}

/// The `k`-th place of the line through `(row, col)`: along the row or along
/// the column.
pub open spec fn line_place(row: int, col: int, is_horizontal: bool, k: int) -> (int, int) {
    if is_horizontal {
        (row, k)
    } else {
        (k, col)
    }
}

/// The cells of the line through `(row, col)` at places `1` to `limit`,
/// without the cell at `(row, col)` itself.
pub open spec fn line_entities(
    board: BoardView,
    row: int,
    col: int,
    is_horizontal: bool,
    limit: int,
) -> Seq<u64>
    decreases limit,
{
    if limit <= 0 {
        Seq::empty()
    } else {
        let rest = line_entities(board, row, col, is_horizontal, limit - 1);
        let place = line_place(row, col, is_horizontal, limit);
        if place == (row, col) {
            rest
        } else {
            match board.entity_at(place.0, place.1) {
                Some(id) => rest.push(id),
                None => rest,
            }
        }
    }
}

/// The cell that `offset` points at from `(row, col)`, where it exists.
fn entity_offset(board: &Board, row: i64, col: i64, offset: (i32, i32)) -> (entity: Option<u64>)
    requires
        board.wf(),
    ensures
        entity == board@.entity_at(row + offset.0, col + offset.1),
{
    let size = board.size();
    proof {
        assert(size <= 0x1_0000_0000) by (nonlinear_arith)
            requires
                size * size <= usize::MAX,
                usize::MAX <= 0xffff_ffff_ffff_ffff,
        ;
    }
    match (row.checked_add(offset.0 as i64), col.checked_add(offset.1 as i64)) {
        (Some(r), Some(c)) => get_entity(r, c, board),
        _ => None,
    }
}

/// The cells around `(row, col)`: up to eight, fewer at an edge.
pub fn get_surrounding_shapes(board: &Board, row: i64, col: i64) -> (shapes: Vec<u64>)
    requires
        board.wf(),
    ensures
        shapes@ == entities_around(board@, row as int, col as int, ring()),
{
    let around: [(i32, i32); 8] = [
        (-1, -1),
        (-1, 0),
        (-1, 1),
        (0, -1),
        (0, 1),
        (1, -1),
        (1, 0),
        (1, 1),
    ];
    assert(around@ =~= ring());
    let mut shapes: Vec<u64> = Vec::new();
    let mut k: usize = 0;
    while k < 8
        invariant
            board.wf(),
            around@ == ring(),
            k <= 8,
            shapes@ == entities_around(board@, row as int, col as int, ring().take(k as int)),
        decreases 8 - k,
    {
        assert(ring().take(k + 1).drop_last() =~= ring().take(k as int));
        if let Some(entity) = entity_offset(board, row, col, around[k]) {
            shapes.push(entity);
        }
        k += 1;
    }
    assert(ring().take(8) =~= ring());
    shapes
}

/// The other cells of the row, or of the column, through `(row, col)`.
pub fn get_line_of_shapes(board: &Board, row: i64, col: i64, is_horizontal: bool) -> (shapes: Vec<
    u64,
>)
    requires
        board.wf(),
    ensures
        shapes@ == line_entities(
            board@,
            row as int,
            col as int,
            is_horizontal,
            board@.size,
        ),
{
    let size = board.size();
    proof {
        assert(size <= 0x1_0000_0000) by (nonlinear_arith)
            requires
                size * size <= usize::MAX,
                usize::MAX <= 0xffff_ffff_ffff_ffff,
        ;
    }
    let mut shapes: Vec<u64> = Vec::new();
    let mut k: usize = 0;
    while k < size
        invariant
            board.wf(),
            size == board@.size,
            size <= 0x1_0000_0000,
            k <= size,
            shapes@ == line_entities(board@, row as int, col as int, is_horizontal, k as int),
        decreases size - k,
    {
        k += 1;
        let place: (i64, i64) = if is_horizontal {
            (row, k as i64)
        } else {
            (k as i64, col)
        };
        if place.0 != row || place.1 != col {
            if let Some(entity) = get_entity(place.0, place.1, board) {
                shapes.push(entity);
            }
        }
    }
    shapes
}

/// Whether the position stored at `index` lies within one row and one column
/// of the position stored at `center`.
pub open spec fn within_blast(n: int, center: int, index: int) -> bool {
    abs_diff(row_of(index, n), row_of(center, n)) <= 1 && abs_diff(
        col_of(index, n),
        col_of(center, n),
    ) <= 1
}

/// Whether the position stored at `index` lies in the row, or in the column,
/// of the position stored at `center`.
pub open spec fn on_line(n: int, center: int, index: int, is_horizontal: bool) -> bool {
    if is_horizontal {
        row_of(index, n) == row_of(center, n)
    } else {
        col_of(index, n) == col_of(center, n)
    }
}

/// The cells after the bomb named `id` has gone off: it and the cells around
/// it are marked.
pub open spec fn bomb_exploded(cells: Seq<Cell>, n: int, id: u64) -> Seq<Cell> {
    Seq::new(
        cells.len(),
        |i: int|
            Cell {
                deletion: cells[i].deletion || within_blast(n, position(cells, id), i),
                ..cells[i]
            },
    )
}

/// The cells after the liner named `id` has fired along its row or column:
/// the whole line is marked.
pub open spec fn line_removed(cells: Seq<Cell>, n: int, id: u64, is_horizontal: bool) -> Seq<
    Cell,
> {
    Seq::new(
        cells.len(),
        |i: int|
            Cell {
                deletion: cells[i].deletion || on_line(n, position(cells, id), i, is_horizontal),
                ..cells[i]
            },
    )
}

/// The cells after the eliminator named `id` has taken `victims` with it.
pub open spec fn eliminated(cells: Seq<Cell>, id: u64, victims: Seq<u64>) -> Seq<Cell> {
    with_marks(cells, victims.push(id))
}

/// A cell is among those found under the offsets exactly if one of the
/// offsets points at it.
proof fn lemma_entities_around_contains(
    board: BoardView,
    row: int,
    col: int,
    offsets: Seq<(i32, i32)>,
    id: u64,
)
    ensures
        entities_around(board, row, col, offsets).contains(id) <==> exists|k: int|
            0 <= k < offsets.len() && board.entity_at(
                row + (#[trigger] offsets[k]).0,
                col + offsets[k].1,
            ) == Some(id),
    decreases offsets.len(),
{
    let all = entities_around(board, row, col, offsets);
    if offsets.len() > 0 {
        let front = offsets.drop_last();
        let rest = entities_around(board, row, col, front);
        let last = offsets.last();
        let hit = board.entity_at(row + last.0, col + last.1);
        lemma_entities_around_contains(board, row, col, front, id);
        if all.contains(id) {
            let w = choose|w: int| 0 <= w < all.len() && all[w] == id;
            if w < rest.len() {
                assert(rest[w] == id);
                let k = choose|k: int|
                    0 <= k < front.len() && board.entity_at(
                        row + (#[trigger] front[k]).0,
                        col + front[k].1,
                    ) == Some(id);
                assert(offsets[k] == front[k]);
            } else {
                assert(hit == Some(id));
                assert(offsets[offsets.len() - 1] == last);
            }
        }
        if exists|k: int|
            0 <= k < offsets.len() && board.entity_at(
                row + (#[trigger] offsets[k]).0,
                col + offsets[k].1,
            ) == Some(id) {
            let k = choose|k: int|
                0 <= k < offsets.len() && board.entity_at(
                    row + (#[trigger] offsets[k]).0,
                    col + offsets[k].1,
                ) == Some(id);
            if k < front.len() {
                assert(front[k] == offsets[k]);
                assert(rest.contains(id));
                let w = choose|w: int| 0 <= w < rest.len() && rest[w] == id;
                assert(all[w] == id);
            } else {
                assert(hit == Some(id));
                assert(all[all.len() - 1] == id);
            }
        }
    }
}

/// The cells around a position, with the cell at the position, are the cells
/// within one row and one column of it.
proof fn lemma_blast(board: BoardView, row: int, col: int, i: int)
    requires
        board.wf(),
        in_grid(row, col, board.size),
        0 <= i < board.cells.len(),
    ensures
        entities_around(board, row, col, ring()).push(
            board.cells[(row - 1) * board.size + col - 1].id,
        ).contains(board.cells[i].id) <==> within_blast(
            board.size,
            (row - 1) * board.size + col - 1,
            i,
        ),
{
    let n = board.size;
    let p = (row - 1) * n + col - 1;
    let around = entities_around(board, row, col, ring());
    let all = around.push(board.cells[p].id);
    let id = board.cells[i].id;
    lemma_index_in_range(row, col, n);
    lemma_position_of_index(i, n);
    lemma_position_unique(board.cells, i);
    lemma_entities_around_contains(board, row, col, ring(), id);
    let ri = row_of(i, n);
    let ci = col_of(i, n);
    if all.contains(id) {
        let w = choose|w: int| 0 <= w < all.len() && all[w] == id;
        if w < around.len() {
            assert(around[w] == id);
            let k = choose|k: int|
                0 <= k < ring().len() && board.entity_at(
                    row + (#[trigger] ring()[k]).0,
                    col + ring()[k].1,
                ) == Some(id);
            let r = row + ring()[k].0;
            let c = col + ring()[k].1;
            lemma_index_in_range(r, c, n);
            lemma_position_unique(board.cells, (r - 1) * n + c - 1);
        } else {
            lemma_position_unique(board.cells, p);
        }
    }
    if within_blast(n, p, i) {
        let dr = ri - row;
        let dc = ci - col;
        if dr == 0 && dc == 0 {
            assert(all[around.len() as int] == id);
        } else {
            let k: int = if dr == -1 {
                dc + 1
            } else if dr == 0 {
                if dc == -1 {
                    3
                } else {
                    4
                }
            } else {
                dc + 6
            };
            assert(ring()[k] == (dr as i32, dc as i32));
            assert(board.entity_at(row + ring()[k].0, col + ring()[k].1) == Some(id));
            assert(around.contains(id));
            let w = choose|w: int| 0 <= w < around.len() && around[w] == id;
            assert(all[w] == id);
        }
    }
}

/// A cell is among those of the line exactly if it stands at one of the
/// line's places other than the starting one.
proof fn lemma_line_entities_contains(
    board: BoardView,
    row: int,
    col: int,
    is_horizontal: bool,
    limit: int,
    id: u64,
)
    ensures
        line_entities(board, row, col, is_horizontal, limit).contains(id) <==> exists|k: int|
            1 <= k <= limit && #[trigger] line_place(row, col, is_horizontal, k) != (row, col)
                && board.entity_at(
                line_place(row, col, is_horizontal, k).0,
                line_place(row, col, is_horizontal, k).1,
            ) == Some(id),
    decreases limit,
{
    let all = line_entities(board, row, col, is_horizontal, limit);
    if limit > 0 {
        let rest = line_entities(board, row, col, is_horizontal, limit - 1);
        let place = line_place(row, col, is_horizontal, limit);
        lemma_line_entities_contains(board, row, col, is_horizontal, limit - 1, id);
        if all.contains(id) {
            let w = choose|w: int| 0 <= w < all.len() && all[w] == id;
            if w < rest.len() {
                assert(rest[w] == id);
            } else {
                assert(place != (row, col) && board.entity_at(place.0, place.1) == Some(id));
            }
        }
        if exists|k: int|
            1 <= k <= limit && #[trigger] line_place(row, col, is_horizontal, k) != (row, col)
                && board.entity_at(
                line_place(row, col, is_horizontal, k).0,
                line_place(row, col, is_horizontal, k).1,
            ) == Some(id) {
            let k = choose|k: int|
                1 <= k <= limit && #[trigger] line_place(row, col, is_horizontal, k) != (row, col)
                    && board.entity_at(
                    line_place(row, col, is_horizontal, k).0,
                    line_place(row, col, is_horizontal, k).1,
                ) == Some(id);
            if k < limit {
                assert(rest.contains(id));
                let w = choose|w: int| 0 <= w < rest.len() && rest[w] == id;
                assert(all[w] == id);
            } else {
                assert(all[all.len() - 1] == id);
            }
        }
    }
}

/// The other cells of the line through a position, with the cell at the
/// position, are the cells of its row, or of its column.
proof fn lemma_line(board: BoardView, row: int, col: int, is_horizontal: bool, i: int)
    requires
        board.wf(),
        in_grid(row, col, board.size),
        0 <= i < board.cells.len(),
    ensures
        line_entities(board, row, col, is_horizontal, board.size).push(
            board.cells[(row - 1) * board.size + col - 1].id,
        ).contains(board.cells[i].id) <==> on_line(
            board.size,
            (row - 1) * board.size + col - 1,
            i,
            is_horizontal,
        ),
{
    let n = board.size;
    let p = (row - 1) * n + col - 1;
    let line = line_entities(board, row, col, is_horizontal, n);
    let all = line.push(board.cells[p].id);
    let id = board.cells[i].id;
    lemma_index_in_range(row, col, n);
    lemma_position_of_index(i, n);
    lemma_position_unique(board.cells, i);
    lemma_line_entities_contains(board, row, col, is_horizontal, n, id);
    let ri = row_of(i, n);
    let ci = col_of(i, n);
    if all.contains(id) {
        let w = choose|w: int| 0 <= w < all.len() && all[w] == id;
        if w < line.len() {
            assert(line[w] == id);
            let k = choose|k: int|
                1 <= k <= n && #[trigger] line_place(row, col, is_horizontal, k) != (row, col)
                    && board.entity_at(
                    line_place(row, col, is_horizontal, k).0,
                    line_place(row, col, is_horizontal, k).1,
                ) == Some(id);
            let place = line_place(row, col, is_horizontal, k);
            lemma_index_in_range(place.0, place.1, n);
            lemma_position_unique(board.cells, (place.0 - 1) * n + place.1 - 1);
        } else {
            lemma_position_unique(board.cells, p);
        }
    }
    if on_line(n, p, i, is_horizontal) {
        if ri == row && ci == col {
            assert(all[line.len() as int] == id);
        } else {
            let k = if is_horizontal {
                ci
            } else {
                ri
            };
            assert(line_place(row, col, is_horizontal, k) == (ri, ci));
            assert(board.entity_at(ri, ci) == Some(id));
            assert(line.contains(id));
            let w = choose|w: int| 0 <= w < line.len() && line[w] == id;
            assert(all[w] == id);
        }
    }
}

/// Sets off the bomb `entity`: it and every cell around it are marked for
/// removal.
pub fn explode_bomb(board: &mut Board, entity: u64)
    requires
        old(board).wf(),
        has_cell(old(board)@.cells, entity),
    ensures
        final(board).wf(),
        final(board)@ == (BoardView {
            cells: bomb_exploded(old(board)@.cells, old(board)@.size, entity),
            ..old(board)@
        }),
{
    let ghost start = board@;
    let (row, col) = get_row_col(entity, board);
    let size = board.size();
    proof {
        assert(size <= 0x1_0000_0000) by (nonlinear_arith)
            requires
                size * size <= usize::MAX,
                usize::MAX <= 0xffff_ffff_ffff_ffff,
        ;
    }
    let mut shapes = get_surrounding_shapes(board, row as i64, col as i64);
    shapes.push(entity);
    board.mark_all(&shapes);
    proof {
        let p = position(start.cells, entity);
        lemma_position_of_index(p, start.size);
        assert(p == (row - 1) * start.size + col - 1);
        assert(start.cells[p].id == entity);
        assert forall|i: int| 0 <= i < start.cells.len() implies board@.cells[i]
            == bomb_exploded(start.cells, start.size, entity)[i] by {
            lemma_blast(start, row as int, col as int, i);
        }
        assert(board@.cells =~= bomb_exploded(start.cells, start.size, entity));
    }
}

/// Fires the liner `entity` along its row or its column: the whole line is
/// marked for removal.
pub fn remove_line(board: &mut Board, entity: u64, is_horizontal: bool)
    requires
        old(board).wf(),
        has_cell(old(board)@.cells, entity),
    ensures
        final(board).wf(),
        final(board)@ == (BoardView {
            cells: line_removed(old(board)@.cells, old(board)@.size, entity, is_horizontal),
            ..old(board)@
        }),
{
    let ghost start = board@;
    let (row, col) = get_row_col(entity, board);
    let size = board.size();
    proof {
        assert(size <= 0x1_0000_0000) by (nonlinear_arith)
            requires
                size * size <= usize::MAX,
                usize::MAX <= 0xffff_ffff_ffff_ffff,
        ;
    }
    let mut shapes = get_line_of_shapes(board, row as i64, col as i64, is_horizontal);
    shapes.push(entity);
    board.mark_all(&shapes);
    proof {
        let p = position(start.cells, entity);
        lemma_position_of_index(p, start.size);
        assert(p == (row - 1) * start.size + col - 1);
        assert(start.cells[p].id == entity);
        assert forall|i: int| 0 <= i < start.cells.len() implies board@.cells[i]
            == line_removed(start.cells, start.size, entity, is_horizontal)[i] by {
            lemma_line(start, row as int, col as int, is_horizontal, i);
        }
        assert(board@.cells =~= line_removed(start.cells, start.size, entity, is_horizontal));
    }
}

/// Fires the eliminator `entity` on the given victims: they and it are marked
/// for removal.
pub fn eliminate_with(board: &mut Board, entity: u64, victims: &Vec<u64>)
    requires
        old(board).wf(),
    ensures
        final(board).wf(),
        final(board)@ == (BoardView {
            cells: eliminated(old(board)@.cells, entity, victims@),
            ..old(board)@
        }),
{
    board.mark_all(victims);
    let mut own: Vec<u64> = Vec::new();
    own.push(entity);
    board.mark_all(&own);
    proof {
        let start = old(board)@.cells;
        assert forall|i: int| 0 <= i < start.len() implies board@.cells[i] == eliminated(
            start,
            entity,
            victims@,
        )[i] by {
            let id = start[i].id;
            let all = victims@.push(entity);
            if victims@.contains(id) {
                let w = choose|w: int| 0 <= w < victims@.len() && victims@[w] == id;
                assert(all[w] == id);
            }
            if id == entity {
                assert(own@[0] == id);
                assert(all[victims@.len() as int] == id);
            }
            if all.contains(id) {
                let w = choose|w: int| 0 <= w < all.len() && all[w] == id;
                if w < victims@.len() {
                    assert(victims@[w] == id);
                } else {
                    assert(own@[0] == id);
                }
            }
        }
        assert(board@.cells =~= eliminated(start, entity, victims@));
    }
}

/// How many victims an eliminator takes on a board of `n` rows.
pub open spec fn victim_count(n: int) -> int {
    3 * n
}

/// Whether `after` is what firing the eliminator `id` can leave of `before`:
/// it is marked, together with three cells per row of the board drawn
/// without replacement from the whole board, or all cells where the board has
/// no more.
pub open spec fn eliminate_outcome(before: Seq<Cell>, n: int, id: u64, after: Seq<Cell>) -> bool {
    exists|victims: Seq<u64>|
        #[trigger] is_sample(victims, ids_of(before), victim_count(n)) && after == eliminated(
            before,
            id,
            victims,
        )
}

/// Fires the eliminator `entity`: it and cells drawn at random from the whole
/// board, three per row of the board and none of them twice, are marked for
/// removal.
pub fn eliminate(board: &mut Board, entity: u64)
    requires
        old(board).wf(),
    ensures
        final(board).wf(),
        eliminate_outcome(old(board)@.cells, old(board)@.size, entity, final(board)@.cells),
        final(board)@ == (BoardView { cells: final(board)@.cells, ..old(board)@ }),
{
    let size = board.size();
    proof {
        assert(3 * size <= usize::MAX) by (nonlinear_arith)
            requires
                size * size <= usize::MAX,
                usize::MAX >= 0xffff_ffff,
        ;
        assert(size * size <= u32::MAX || 3 * size < size * size) by (nonlinear_arith);
    }
    let ids = board.entities();
    let victims = pick_many(&ids, 3 * size);
    eliminate_with(board, entity, &victims);
    assert(is_sample(victims@, ids_of(old(board)@.cells), victim_count(old(board)@.size)));
}

} // verus!
