//! Finding every place where a shape template lies on the board.
//!
//! A template is a list of `(row, column)` offsets around a centre. It
//! matches at a position when the centre and every offset lie on the board,
//! all of them hold the same plain piece, and none is marked for removal.

use crate::board::{Board, Cell};
use crate::shape::Shape;
use crate::utils::{col_of, get_index, index_of, lemma_position_of_index, row_of};
use vstd::prelude::*;

verus! {

/// One place where a template matched: the centre cell and the cells under
/// the offsets, in the template's order.
#[derive(Debug)]
pub struct Match {
    pub center: u64,
    pub matched_shapes: Vec<u64>,
}

/// A match as a value.
pub struct MatchView {
    pub center: u64,
    pub matched_shapes: Seq<u64>,
}

impl View for Match {
    type V = MatchView;

    open spec fn view(&self) -> MatchView {
        MatchView { center: self.center, matched_shapes: self.matched_shapes@ }
    }
}

/// The matches of a list, each as a value.
pub open spec fn match_views(matches: Seq<Match>) -> Seq<MatchView> {
    matches.map_values(|m: Match| m@)
}

/// The index that `offset` points at from the position stored at `index`,
/// where that lies on the board.
pub open spec fn target(n: int, index: int, offset: (i32, i32)) -> Option<int> {
    index_of(row_of(index, n) + offset.0, col_of(index, n) + offset.1, n)
}

/// Whether a cell may take part in a match of `shape`.
pub open spec fn eligible(cell: Cell, shape: Shape) -> bool {
    cell.shape == shape && !cell.deletion && !shape.special()
}

/// Whether the cell under `offset` exists and may join the centre at `index`.
pub open spec fn offset_matches(cells: Seq<Cell>, n: int, index: int, offset: (i32, i32)) -> bool {
    target(n, index, offset) is Some && eligible(
        cells[target(n, index, offset)->0],
        cells[index].shape,
    )
}

/// Whether the template matches with its centre at `index`.
pub open spec fn is_match(cells: Seq<Cell>, n: int, index: int, offsets: Seq<(i32, i32)>) -> bool {
    &&& 0 <= index < cells.len()
    &&& eligible(cells[index], cells[index].shape)
    &&& forall|k: int|
        0 <= k < offsets.len() ==> offset_matches(cells, n, index, #[trigger] offsets[k])
}

/// The match of the template centred at `index`.
pub open spec fn match_at(cells: Seq<Cell>, n: int, index: int, offsets: Seq<(i32, i32)>)
    -> MatchView {
    MatchView {
        center: cells[index].id,
        matched_shapes: Seq::new(
            offsets.len(),
            |k: int| cells[target(n, index, offsets[k])->0].id,
        ),
    }
}

/// The matches whose centre is stored before `limit`, in storage order.
pub open spec fn matches_before(
    cells: Seq<Cell>,
    n: int,
    offsets: Seq<(i32, i32)>,
    limit: int,
) -> Seq<MatchView>
    decreases limit,
{
    if limit <= 0 {
        Seq::empty()
    } else if is_match(cells, n, limit - 1, offsets) {
        matches_before(cells, n, offsets, limit - 1).push(match_at(cells, n, limit - 1, offsets))
    } else {
        matches_before(cells, n, offsets, limit - 1)
    }
}

/// All matches of the template: one per qualifying centre, scanning the rows
/// top to bottom and each row left to right.
pub open spec fn found_matches(cells: Seq<Cell>, n: int, offsets: Seq<(i32, i32)>) -> Seq<
    MatchView,
> {
    matches_before(cells, n, offsets, cells.len() as int)
}

/// Every match that was found is the match at some centre where the template
/// matches.
pub proof fn lemma_found_is_match(
    cells: Seq<Cell>,
    n: int,
    offsets: Seq<(i32, i32)>,
    limit: int,
    j: int,
)
    requires
        0 <= j < matches_before(cells, n, offsets, limit).len(),
    ensures
        exists|index: int|
            0 <= index < limit && #[trigger] is_match(cells, n, index, offsets)
                && matches_before(cells, n, offsets, limit)[j] == match_at(
                cells,
                n,
                index,
                offsets,
            ),
    decreases limit,
{
    if limit > 0 {
        let rest = matches_before(cells, n, offsets, limit - 1);
        if j < rest.len() {
            lemma_found_is_match(cells, n, offsets, limit - 1, j);
            let index = choose|index: int|
                0 <= index < limit - 1 && #[trigger] is_match(cells, n, index, offsets) && rest[j]
                    == match_at(cells, n, index, offsets);
            assert(is_match(cells, n, index, offsets));
        } else {
            assert(is_match(cells, n, limit - 1, offsets));
        }
    }
}

/// Every centre where the template matches gives a match that is found, and
/// it stands in the list behind the matches of all centres stored before it.
pub proof fn lemma_match_is_found(
    cells: Seq<Cell>,
    n: int,
    offsets: Seq<(i32, i32)>,
    limit: int,
    index: int,
)
    requires
        0 <= index < limit,
        is_match(cells, n, index, offsets),
    ensures
        matches_before(cells, n, offsets, index).len() < matches_before(
            cells,
            n,
            offsets,
            limit,
        ).len(),
        matches_before(cells, n, offsets, limit)[matches_before(
            cells,
            n,
            offsets,
            index,
        ).len() as int] == match_at(cells, n, index, offsets),
    decreases limit,
{
    if index < limit - 1 {
        lemma_match_is_found(cells, n, offsets, limit - 1, index);
    }
}

/// The match of the template centred at `index`, if it matches there.
pub fn match_centered_at(board: &Board, index: usize, neighbors: &Vec<(i32, i32)>) -> (found:
    Option<Match>)
    requires
        board.wf(),
    ensures
        found is Some <==> is_match(board@.cells, board@.size, index as int, neighbors@),
        found is Some ==> found->0@ == match_at(
            board@.cells,
            board@.size,
            index as int,
            neighbors@,
        ),
{
    let size = board.size();
    if index >= board.len() {
        return None;
    }
    let center = board.at(index);
    if center.deletion || center.shape.is_special() {
        return None;
    }
    proof {
        lemma_position_of_index(index as int, size as int);
        assert(size <= 0x1_0000_0000) by (nonlinear_arith)
            requires
                size * size <= usize::MAX,
                usize::MAX <= 0xffff_ffff_ffff_ffff,
        ;
    }
    let row: i64 = (index / size + 1) as i64;
    let col: i64 = (index % size + 1) as i64;
    let ghost cells = board@.cells;
    let ghost n = board@.size;
    let mut matched_shapes: Vec<u64> = Vec::new();
    let mut k: usize = 0;
    while k < neighbors.len()
        invariant
            board.wf(),
            cells == board@.cells,
            n == board@.size,
            size == n,
            size * size <= usize::MAX,
            size <= 0x1_0000_0000,
            index < cells.len(),
            row == row_of(index as int, n),
            col == col_of(index as int, n),
            1 <= row <= n,
            1 <= col <= n,
            center == cells[index as int],
            eligible(center, center.shape),
            k <= neighbors@.len(),
            matched_shapes@.len() == k,
            forall|j: int|
                0 <= j < k ==> offset_matches(cells, n, index as int, #[trigger] neighbors@[j]),
            forall|j: int|
                0 <= j < k ==> matched_shapes@[j] == cells[target(
                    n,
                    index as int,
                    neighbors@[j],
                )->0].id,
        decreases neighbors@.len() - k,
    {
        let offset = neighbors[k];
        let found = get_index(row + offset.0 as i64, col + offset.1 as i64, size);
        match found {
            Some(t) => {
                let cell = board.at(t);
                if cell.shape != center.shape || cell.deletion {
                    return None;
                }
                matched_shapes.push(cell.id);
            },
            None => {
                return None;
            },
        }
        k += 1;
    }
    let found = Match { center: center.id, matched_shapes };
    assert(found@.matched_shapes =~= match_at(cells, n, index as int, neighbors@).matched_shapes);
    Some(found)
}

/// Every match of the template on the board, scanning the rows top to bottom
/// and each row left to right.
pub fn get_matches_general(board: &Board, neighbors: &Vec<(i32, i32)>) -> (matches: Vec<Match>)
    requires
        board.wf(),
    ensures
        match_views(matches@) == found_matches(board@.cells, board@.size, neighbors@),
{
    let total = board.len();
    let mut matches: Vec<Match> = Vec::new();
    let mut index: usize = 0;
    while index < total
        invariant
            board.wf(),
            total == board@.cells.len(),
            index <= total,
            match_views(matches@) == matches_before(
                board@.cells,
                board@.size,
                neighbors@,
                index as int,
            ),
        decreases total - index,
    {
        match match_centered_at(board, index, neighbors) {
            Some(found) => {
                matches.push(found);
            },
            None => {},
        }
        index += 1;
    }
    matches
}

} // verus!
