//! The turn cycle. A board in play takes swaps, resolves matches and lets
//! gravity work; a board whose cells are falling only advances the fall, and
//! comes back into play once every cell is at rest.

use crate::board::{Board, BoardState, BoardView, Cell};
use crate::gravity::{gravity_outcome, update_board_after_deletions};
use crate::resolver::{resolve_matches, resolved, resolved_count, MatchMade, UnlockFlags};
use crate::swap::{handle_swap_shape_events, swaps_outcome, SwapShapes};
use vstd::prelude::*;

verus! {

/// How far a falling cell comes down per second, in hundredths of a cell's
/// height.
pub const FALLING_SPEED: u64 = 300;

/// The cells with every fall offset reduced by `step`, but not below zero.
pub open spec fn lowered(cells: Seq<Cell>, step: u64) -> Seq<Cell> {
    Seq::new(
        cells.len(),
        |i: int|
            Cell {
                bottom: if cells[i].bottom >= step {
                    (cells[i].bottom - step) as u64
                } else {
                    0
                },
                ..cells[i]
            },
    )
}

/// Whether every cell has come to rest.
pub open spec fn at_rest(cells: Seq<Cell>) -> bool {
    forall|i: int| 0 <= i < cells.len() ==> (#[trigger] cells[i]).bottom == 0
}

/// The board after one step of the fall: every offset is reduced by `step`,
/// and the board is back in play if all cells are then at rest.
pub open spec fn animated(board: BoardView, step: u64) -> BoardView {
    BoardView {
        cells: lowered(board.cells, step),
        state: if at_rest(lowered(board.cells, step)) {
            BoardState::InPlay
        } else {
            board.state
        },
        ..board
    }
}

/// The board after one pass of the resolver.
pub open spec fn resolved_board(board: BoardView, flags: UnlockFlags) -> BoardView {
    BoardView { cells: resolved(board.cells, board.size, board.just_swapped, flags), ..board }
}

/// Whether `after` and `made` are what one tick can leave of `before`. In
/// play: the swaps are handled in order, the resolver runs once on what they
/// left, telling of `made` matches, and gravity works on what the resolver
/// left. While cells fall: the swaps are dropped, no match is made, and the
/// fall advances by `step`.
pub open spec fn tick_outcome(
    before: BoardView,
    swaps: Seq<SwapShapes>,
    flags: UnlockFlags,
    step: u64,
    after: BoardView,
    made: int,
) -> bool {
    match before.state {
        BoardState::InPlay => exists|swapped: BoardView|
            swaps_outcome(before, swaps, swapped) && made == resolved_count(
                swapped.cells,
                swapped.size,
                swapped.just_swapped,
                flags,
            ) && gravity_outcome(#[trigger] resolved_board(swapped, flags), after),
        BoardState::AnimatingFallingShapes => after == animated(before, step) && made == 0,
    }
}

/// Advances the fall by `step`: every offset comes down by `step`, but not
/// below zero, and the board is back in play once all cells are at rest.
pub fn animate_shape_bottoms_to_0(board: &mut Board, step: u64)
    requires
        old(board).wf(),
    ensures
        final(board).wf(),
        final(board)@ == animated(old(board)@, step),
{
    let ghost start = board@;
    let total = board.len();
    let mut all_shapes_have_fallen = true;
    let mut i: usize = 0;
    while i < total
        invariant
            start.wf(),
            board.wf(),
            total == start.cells.len(),
            i <= total,
            board@ == (BoardView { cells: board@.cells, ..start }),
            board@.cells.len() == total,
            forall|k: int| 0 <= k < i ==> board@.cells[k] == lowered(start.cells, step)[k],
            forall|k: int| i <= k < total ==> board@.cells[k] == start.cells[k],
            all_shapes_have_fallen <==> forall|k: int|
                0 <= k < i ==> (#[trigger] lowered(start.cells, step)[k]).bottom == 0,
        decreases total - i,
    {
        let cell = board.at(i);
        let bottom = if cell.bottom >= step {
            cell.bottom - step
        } else {
            0
        };
        board.put(i, Cell { bottom, ..cell });
        assert(lowered(start.cells, step)[i as int].bottom == bottom);
        if bottom != 0 {
            all_shapes_have_fallen = false;
        }
        i += 1;
    }
    assert(board@.cells =~= lowered(start.cells, step));
    if all_shapes_have_fallen {
        board.set_state(BoardState::InPlay);
    }
}

/// One tick of the game. In play: handles the swap requests in order, runs
/// the resolver once, adding one notice to `match_made` for each match, and
/// lets gravity work. While cells fall: drops the swap requests and advances
/// the fall by `step`.
pub fn tick(
    board: &mut Board,
    swap_shapes: &Vec<SwapShapes>,
    flags: UnlockFlags,
    step: u64,
    match_made: &mut Vec<MatchMade>,
)
    requires
        old(board).wf(),
    ensures
        final(board).wf(),
        final(match_made)@.len() >= old(match_made)@.len(),
        old(board)@.state is InPlay ==> forall|j: int|
            0 <= j < final(board)@.cells.len() ==> !(#[trigger] final(board)@.cells[j]).deletion,
        tick_outcome(
            old(board)@,
            swap_shapes@,
            flags,
            step,
            final(board)@,
            final(match_made)@.len() - old(match_made)@.len(),
        ),
{
    match board.state() {
        BoardState::InPlay => {
            handle_swap_shape_events(board, swap_shapes);
            let ghost swapped = board@;
            resolve_matches(board, flags, match_made);
            assert(board@ == resolved_board(swapped, flags));
            update_board_after_deletions(board);
        },
        BoardState::AnimatingFallingShapes => {
            animate_shape_bottoms_to_0(board, step);
        },
    }
}

} // verus!
