//! The shape templates and the pooled matches of each kind.

use crate::board::{Board, Cell};
use crate::matches::{found_matches, get_matches_general, match_views, Match, MatchView};
use vstd::prelude::*;

verus! {

/// Three in a row, from the left end.
pub open spec fn triple_horizontal() -> Seq<(i32, i32)> {
    seq![(0i32, 1i32), (0i32, 2i32)]
}

/// Three in a column, from the top end.
pub open spec fn triple_vertical() -> Seq<(i32, i32)> {
    seq![(1i32, 0i32), (2i32, 0i32)]
}

/// Four in a row, from the left end.
pub open spec fn quad_horizontal() -> Seq<(i32, i32)> {
    seq![(0i32, 1i32), (0i32, 2i32), (0i32, 3i32)]
}

/// Four in a column, from the top end.
pub open spec fn quad_vertical() -> Seq<(i32, i32)> {
    seq![(1i32, 0i32), (2i32, 0i32), (3i32, 0i32)]
}

/// Five in a row, around the middle.
pub open spec fn five_horizontal() -> Seq<(i32, i32)> {
    seq![(0i32, -1i32), (0i32, -2i32), (0i32, 1i32), (0i32, 2i32)]
}

/// Five in a column, around the middle.
pub open spec fn five_vertical() -> Seq<(i32, i32)> {
    seq![(-1i32, 0i32), (-2i32, 0i32), (1i32, 0i32), (2i32, 0i32)]
}

/// A bend with arms to the left and downward.
pub open spec fn bend_left_below() -> Seq<(i32, i32)> {
    seq![(0i32, -1i32), (0i32, -2i32), (1i32, 0i32), (2i32, 0i32)]
}

/// A bend with arms to the left and upward.
pub open spec fn bend_left_above() -> Seq<(i32, i32)> {
    seq![(0i32, -1i32), (0i32, -2i32), (-1i32, 0i32), (-2i32, 0i32)]
}

/// A bend with arms to the right and downward.
pub open spec fn bend_right_below() -> Seq<(i32, i32)> {
    seq![(0i32, 1i32), (0i32, 2i32), (1i32, 0i32), (2i32, 0i32)]
}

/// A bend with arms to the right and upward.
pub open spec fn bend_right_above() -> Seq<(i32, i32)> {
    seq![(0i32, 1i32), (0i32, 2i32), (-1i32, 0i32), (-2i32, 0i32)]
}

/// The five-in-line matches: those along rows, then those along columns.
pub open spec fn eliminator_matches(cells: Seq<Cell>, n: int) -> Seq<MatchView> {
    found_matches(cells, n, five_horizontal()) + found_matches(cells, n, five_vertical())
}

/// The bend matches, one rotation after the other.
pub open spec fn bomb_matches(cells: Seq<Cell>, n: int) -> Seq<MatchView> {
    found_matches(cells, n, bend_left_below()) + found_matches(cells, n, bend_left_above())
        + found_matches(cells, n, bend_right_below()) + found_matches(
        cells,
        n,
        bend_right_above(),
    )
}

/// The four-in-line matches along rows.
pub open spec fn liner_matches_horizontal(cells: Seq<Cell>, n: int) -> Seq<MatchView> {
    found_matches(cells, n, quad_horizontal())
}

/// The four-in-line matches along columns.
pub open spec fn liner_matches_vertical(cells: Seq<Cell>, n: int) -> Seq<MatchView> {
    found_matches(cells, n, quad_vertical())
}

/// The three-in-line matches: those along rows, then those along columns.
pub open spec fn three_matches(cells: Seq<Cell>, n: int) -> Seq<MatchView> {
    found_matches(cells, n, triple_horizontal()) + found_matches(cells, n, triple_vertical())
}

/// A template with the given offsets.
fn offsets(list: &[(i32, i32)]) -> (template: Vec<(i32, i32)>)
    ensures
        template@ == list@,
{
    let mut template: Vec<(i32, i32)> = Vec::new();
    let mut k: usize = 0;
    while k < list.len()
        invariant
            k <= list@.len(),
            template@ == list@.take(k as int),
        decreases list@.len() - k,
    {
        template.push(list[k]);
        k += 1;
    }
    template
}

/// Adds the matches of `more` behind those of `matches`.
fn pool(matches: &mut Vec<Match>, more: Vec<Match>)
    ensures
        match_views(final(matches)@) == match_views(old(matches)@) + match_views(more@),
{
    let mut more = more;
    matches.append(&mut more);
}

/// The five-in-line matches of the board.
pub fn get_matches_eliminator(board: &Board) -> (matches: Vec<Match>)
    requires
        board.wf(),
    ensures
        match_views(matches@) == eliminator_matches(board@.cells, board@.size),
{
    let horizontal = offsets(&[(0, -1), (0, -2), (0, 1), (0, 2)]);
    let vertical = offsets(&[(-1, 0), (-2, 0), (1, 0), (2, 0)]);
    let mut matches = get_matches_general(board, &horizontal);
    pool(&mut matches, get_matches_general(board, &vertical));
    matches
}

/// The bend matches of the board.
pub fn get_bomb_matches(board: &Board) -> (matches: Vec<Match>)
    requires
        board.wf(),
    ensures
        match_views(matches@) == bomb_matches(board@.cells, board@.size),
{
    let above: (i32, i32) = (-1, 0);
    let above_2: (i32, i32) = (-2, 0);
    let below: (i32, i32) = (1, 0);
    let below_2: (i32, i32) = (2, 0);
    let left: (i32, i32) = (0, -1);
    let left_2: (i32, i32) = (0, -2);
    let right: (i32, i32) = (0, 1);
    let right_2: (i32, i32) = (0, 2);
    let left_below = offsets(&[left, left_2, below, below_2]);
    let left_above = offsets(&[left, left_2, above, above_2]);
    let right_below = offsets(&[right, right_2, below, below_2]);
    let right_above = offsets(&[right, right_2, above, above_2]);
    let mut matches = get_matches_general(board, &left_below);
    pool(&mut matches, get_matches_general(board, &left_above));
    pool(&mut matches, get_matches_general(board, &right_below));
    pool(&mut matches, get_matches_general(board, &right_above));
    matches
}

/// The four-in-line matches of the board: along rows, and along columns.
pub fn get_matches_liner(board: &Board) -> (matches: (Vec<Match>, Vec<Match>))
    requires
        board.wf(),
    ensures
        match_views(matches.0@) == liner_matches_horizontal(board@.cells, board@.size),
        match_views(matches.1@) == liner_matches_vertical(board@.cells, board@.size),
{
    let horizontal = offsets(&[(0, 1), (0, 2), (0, 3)]);
    let vertical = offsets(&[(1, 0), (2, 0), (3, 0)]);
    let horizontal_matches = get_matches_general(board, &horizontal);
    let vertical_matches = get_matches_general(board, &vertical);
    (horizontal_matches, vertical_matches)
}

/// The three-in-line matches of the board.
pub fn get_matches_three(board: &Board) -> (matches: Vec<Match>)
    requires
        board.wf(),
    ensures
        match_views(matches@) == three_matches(board@.cells, board@.size),
{
    let horizontal = offsets(&[(0, 1), (0, 2)]);
    let vertical = offsets(&[(1, 0), (2, 0)]);
    let mut matches = get_matches_general(board, &horizontal);
    pool(&mut matches, get_matches_general(board, &vertical));
    matches
}

} // verus!
