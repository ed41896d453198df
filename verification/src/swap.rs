//! Swap requests: a swap is accepted only between two cells of the board
//! that touch along a row or a column, and it sets off the specials among
//! the two.

use crate::activation::{abs_diff, bomb_exploded, eliminate, eliminate_outcome, eliminate_with,
    eliminated, explode_bomb, line_removed, remove_line};
use crate::board::{has_cell, lemma_exchanged, lemma_same_ids, position, same_ids, swapped, Board,
    BoardView, Cell, JustSwappedShapes};
use crate::shape::Shape;
use crate::utils::{col_of, get_row_col, row_of};
use vstd::prelude::*;

verus! {

/// A request to swap two cells.
#[derive(Clone, Copy, PartialEq, Eq, Debug)]
pub struct SwapShapes(pub u64, pub u64);

/// Whether both cells are on the board, one step apart along a row or a
/// column.
pub open spec fn next_to(cells: Seq<Cell>, n: int, a: u64, b: u64) -> bool {
    &&& has_cell(cells, a)
    &&& has_cell(cells, b)
    &&& abs_diff(row_of(position(cells, a), n), row_of(position(cells, b), n)) + abs_diff(
        col_of(position(cells, a), n),
        col_of(position(cells, b), n),
    ) == 1
}

/// The piece of the cell named `id`.
pub open spec fn shape_of(cells: Seq<Cell>, id: u64) -> Shape {
    cells[position(cells, id)].shape
}

/// The cells after the cell named `id` was set off, where it is a special;
/// `victims` are what an eliminator takes with it.
pub open spec fn activated(cells: Seq<Cell>, n: int, id: u64, victims: Seq<u64>) -> Seq<Cell> {
    match shape_of(cells, id) {
        Shape::Bomb => bomb_exploded(cells, n, id),
        Shape::HorizontalLiner => line_removed(cells, n, id, true),
        Shape::VerticalLiner => line_removed(cells, n, id, false),
        Shape::Eliminator => eliminated(cells, id, victims),
        _ => cells,
    }
}

/// Whether `after` is what setting off the cell named `id` can leave of
/// `before`.
pub open spec fn activation_outcome(before: Seq<Cell>, n: int, id: u64, after: Seq<Cell>) -> bool {
    if shape_of(before, id) is Eliminator {
        eliminate_outcome(before, n, id, after)
    } else {
        after == activated(before, n, id, Seq::empty())
    }
}

/// The board after the request to swap `a` and `b`, where `first` and
/// `second` are what `a` and `b` take with them if they are eliminators.
pub open spec fn swap_requested(
    board: BoardView,
    a: u64,
    b: u64,
    first: Seq<u64>,
    second: Seq<u64>,
) -> BoardView {
    if next_to(board.cells, board.size, a, b) {
        BoardView {
            cells: activated(
                activated(swapped(board.cells, a, b), board.size, a, first),
                board.size,
                b,
                second,
            ),
            just_swapped: Some(JustSwappedShapes(a, b)),
            ..board
        }
    } else {
        board
    }
}

/// Whether `after` is what the request to swap `a` and `b` can leave of
/// `before`: nothing changes unless the two cells are next to each other;
/// then they trade places, the pair is remembered, and `a`, then `b`, is set
/// off.
pub open spec fn swap_outcome(before: BoardView, a: u64, b: u64, after: BoardView) -> bool {
    if next_to(before.cells, before.size, a, b) {
        &&& after == (BoardView {
            cells: after.cells,
            just_swapped: Some(JustSwappedShapes(a, b)),
            ..before
        })
        &&& exists|mid: Seq<Cell>|
            #[trigger] activation_outcome(swapped(before.cells, a, b), before.size, a, mid)
                && activation_outcome(mid, before.size, b, after.cells)
    } else {
        after == before
    }
}

/// Whether `after` is what the requests, taken in order, can leave of
/// `before`.
pub open spec fn swaps_outcome(before: BoardView, swaps: Seq<SwapShapes>, after: BoardView) -> bool
    decreases swaps.len(),
{
    if swaps.len() == 0 {
        after == before
    } else {
        exists|mid: BoardView|
            swaps_outcome(before, swaps.drop_last(), mid) && #[trigger] swap_outcome(
                mid,
                swaps.last().0,
                swaps.last().1,
                after,
            )
    }
}

/// Takes a press on a cell. The first press of a pair is remembered; the
/// second gives the request to swap the remembered cell with the pressed one,
/// and nothing is remembered any more.
pub fn write_swap_shape_event(last_pressed_button: &mut Option<u64>, just_pressed_button: u64) -> (swap:
    Option<SwapShapes>)
    ensures
        match *old(last_pressed_button) {
            None => swap is None && *final(last_pressed_button) == Some(just_pressed_button),
            Some(last) => *final(last_pressed_button) is None && swap == Some(
                SwapShapes(last, just_pressed_button),
            ),
        },
{
    match *last_pressed_button {
        None => {
            *last_pressed_button = Some(just_pressed_button);
            None
        },
        Some(last_pressed_button_e) => {
            *last_pressed_button = None;
            Some(SwapShapes(last_pressed_button_e, just_pressed_button))
        },
    }
}

/// Whether the two cells are on the board, one step apart along a row or a
/// column.
pub fn is_next_to(last_pressed_button: u64, just_pressed_button: u64, board: &Board) -> (next: bool)
    requires
        board.wf(),
    ensures
        next == next_to(board@.cells, board@.size, last_pressed_button, just_pressed_button),
{
    if board.find(last_pressed_button).is_none() || board.find(just_pressed_button).is_none() {
        return false;
    }
    let size = board.size();
    proof {
        assert(2 * size <= usize::MAX) by (nonlinear_arith)
            requires
                size * size <= usize::MAX,
                usize::MAX >= 0xffff_ffff,
        ;
    }
    let (x_1, y_1) = get_row_col(last_pressed_button, board);
    let (x_2, y_2) = get_row_col(just_pressed_button, board);
    let delta_x = if x_1 >= x_2 {
        x_1 - x_2
    } else {
        x_2 - x_1
    };
    let delta_y = if y_1 >= y_2 {
        y_1 - y_2
    } else {
        y_2 - y_1
    };
    delta_x + delta_y == 1
}

/// The piece of a cell of the board.
fn shape_of_cell(board: &Board, entity: u64) -> (shape: Shape)
    requires
        board.wf(),
        has_cell(board@.cells, entity),
    ensures
        shape == shape_of(board@.cells, entity),
{
    match board.find(entity) {
        Some(index) => board.at(index).shape,
        None => Shape::Red,
    }
}

/// Sets off the cell `entity` where it is a special; an eliminator takes
/// `victims` with it. A plain piece does nothing.
pub fn take_action_for_special_with(board: &mut Board, entity: u64, victims: &Vec<u64>)
    requires
        old(board).wf(),
        has_cell(old(board)@.cells, entity),
    ensures
        final(board).wf(),
        final(board)@ == (BoardView {
            cells: activated(old(board)@.cells, old(board)@.size, entity, victims@),
            ..old(board)@
        }),
        same_ids(old(board)@.cells, final(board)@.cells),
{
    match shape_of_cell(board, entity) {
        Shape::Bomb => explode_bomb(board, entity),
        Shape::HorizontalLiner => remove_line(board, entity, true),
        Shape::VerticalLiner => remove_line(board, entity, false),
        Shape::Eliminator => eliminate_with(board, entity, victims),
        Shape::Red | Shape::Blue | Shape::Green | Shape::Pink => {},
    }
}

/// Sets off the cell `entity` where it is a special; an eliminator draws its
/// victims at random. A plain piece does nothing.
pub fn take_action_for_special(board: &mut Board, entity: u64)
    requires
        old(board).wf(),
        has_cell(old(board)@.cells, entity),
    ensures
        final(board).wf(),
        activation_outcome(old(board)@.cells, old(board)@.size, entity, final(board)@.cells),
        final(board)@ == (BoardView { cells: final(board)@.cells, ..old(board)@ }),
        same_ids(old(board)@.cells, final(board)@.cells),
{
    match shape_of_cell(board, entity) {
        Shape::Eliminator => {
            eliminate(board, entity);
        },
        _ => {
            let none: Vec<u64> = Vec::new();
            take_action_for_special_with(board, entity, &none);
        },
    }
}

/// Handles the request to swap `a` and `b`, where `first` and `second` are
/// what `a` and `b` take with them if they are eliminators. The request is
/// accepted exactly if both cells are on the board and next to each other;
/// a request that is not accepted changes nothing.
pub fn request_swap_with(
    board: &mut Board,
    a: u64,
    b: u64,
    first: &Vec<u64>,
    second: &Vec<u64>,
) -> (accepted: bool)
    requires
        old(board).wf(),
    ensures
        final(board).wf(),
        accepted == next_to(old(board)@.cells, old(board)@.size, a, b),
        final(board)@ == swap_requested(old(board)@, a, b, first@, second@),
{
    if !is_next_to(a, b, board) {
        return false;
    }
    proof {
        lemma_exchanged(
            board@.cells,
            position(board@.cells, a),
            position(board@.cells, b),
        );
    }
    board.swap(a, b);
    board.set_just_swapped(JustSwappedShapes(a, b));
    take_action_for_special_with(board, a, first);
    proof {
        lemma_same_ids(swapped(old(board)@.cells, a, b), board@.cells);
    }
    take_action_for_special_with(board, b, second);
    true
}

/// Handles the request to swap `a` and `b`. The request is accepted exactly
/// if both cells are on the board and next to each other; a request that is
/// not accepted changes nothing. On acceptance the cells trade places, the
/// pair is remembered, and `a`, then `b`, is set off where it is a special.
pub fn request_swap(board: &mut Board, a: u64, b: u64) -> (accepted: bool)
    requires
        old(board).wf(),
    ensures
        final(board).wf(),
        accepted == next_to(old(board)@.cells, old(board)@.size, a, b),
        swap_outcome(old(board)@, a, b, final(board)@),
        !accepted ==> final(board)@ == old(board)@,
{
    if !is_next_to(a, b, board) {
        return false;
    }
    proof {
        lemma_exchanged(
            board@.cells,
            position(board@.cells, a),
            position(board@.cells, b),
        );
    }
    board.swap(a, b);
    board.set_just_swapped(JustSwappedShapes(a, b));
    take_action_for_special(board, a);
    let ghost mid = board@.cells;
    proof {
        lemma_same_ids(swapped(old(board)@.cells, a, b), mid);
    }
    take_action_for_special(board, b);
    assert(activation_outcome(swapped(old(board)@.cells, a, b), old(board)@.size, a, mid));
    true
}

/// Handles the swap requests in the order in which they arrived, each on
/// what the one before it left.
pub fn handle_swap_shape_events(board: &mut Board, swap_shapes: &Vec<SwapShapes>)
    requires
        old(board).wf(),
    ensures
        final(board).wf(),
        swaps_outcome(old(board)@, swap_shapes@, final(board)@),
        final(board)@.size == old(board)@.size,
        final(board)@.state == old(board)@.state,
{
    let mut k: usize = 0;
    assert(swap_shapes@.take(0).len() == 0);
    while k < swap_shapes.len()
        invariant
            board.wf(),
            k <= swap_shapes@.len(),
            swaps_outcome(old(board)@, swap_shapes@.take(k as int), board@),
            board@.size == old(board)@.size,
            board@.state == old(board)@.state,
        decreases swap_shapes@.len() - k,
    {
        let ghost mid = board@;
        let SwapShapes(button1, button2) = swap_shapes[k];
        request_swap(board, button1, button2);
        proof {
            let done = swap_shapes@.take(k + 1);
            assert(done.len() == k + 1);
            assert(done.drop_last() =~= swap_shapes@.take(k as int));
            assert(done.last() == swap_shapes@[k as int]);
            assert(swaps_outcome(old(board)@, done.drop_last(), mid));
            assert(swap_outcome(mid, done.last().0, done.last().1, board@));
            assert(swaps_outcome(old(board)@, done, board@));
        }
        k += 1;
    }
    assert(swap_shapes@.take(k as int) =~= swap_shapes@);
}

} // verus!
