//! The board: a square grid of cells, each with a lasting identity, a piece,
//! a removal mark and a fall offset.

use crate::shape::{get_random_shape, Shape};
use crate::utils::{col_of, in_grid, row_of};
use vstd::prelude::*;

verus! {

/// Rows and columns of the standard board.
pub const BOARD_SIZE: usize = 5;

/// One slot of the grid. `id` names the cell for as long as the board lives;
/// the other fields change in place.
#[derive(Clone, Copy, PartialEq, Eq, Debug, Structural)]
pub struct Cell {
    pub id: u64,
    pub shape: Shape,
    /// Scheduled for removal in the current cycle.
    pub deletion: bool,
    /// How far above its resting place the cell is drawn, in hundredths of a
    /// cell's height.
    pub bottom: u64,
}

/// The two cells of the most recent accepted swap.
#[derive(Clone, Copy, PartialEq, Eq, Debug, Structural)]
pub struct JustSwappedShapes(pub u64, pub u64);

/// The phase of the turn cycle.
#[derive(Clone, Copy, PartialEq, Eq, Debug, Structural)]
pub enum BoardState {
    InPlay,
    AnimatingFallingShapes,
}

/// Whether no identity occurs twice.
pub open spec fn ids_distinct(cells: Seq<Cell>) -> bool {
    forall|i: int, j: int|
        0 <= i < j < cells.len() ==> (#[trigger] cells[i]).id != (#[trigger] cells[j]).id
}

/// Whether some cell carries the identity `id`.
pub open spec fn has_cell(cells: Seq<Cell>, id: u64) -> bool {
    exists|i: int| 0 <= i < cells.len() && (#[trigger] cells[i]).id == id
}

/// The storage index of the cell with identity `id`.
pub open spec fn position(cells: Seq<Cell>, id: u64) -> int {
    choose|i: int| 0 <= i < cells.len() && (#[trigger] cells[i]).id == id
}

/// Among distinct identities a cell is found at one index only.
pub proof fn lemma_position_unique(cells: Seq<Cell>, i: int)
    requires
        ids_distinct(cells),
        0 <= i < cells.len(),
    ensures
        has_cell(cells, cells[i].id),
        position(cells, cells[i].id) == i,
{
    let id = cells[i].id;
    let p = position(cells, id);
    assert(0 <= p < cells.len() && cells[p].id == id);
    if p < i {
        assert(cells[p].id != cells[i].id);
    } else if i < p {
        assert(cells[i].id != cells[p].id);
    }
}

/// The cells with those at indices `i` and `j` exchanged.
pub open spec fn exchanged(cells: Seq<Cell>, i: int, j: int) -> Seq<Cell> {
    cells.update(i, cells[j]).update(j, cells[i])
}

/// The cells after the cells named `a` and `b` have traded places.
pub open spec fn swapped(cells: Seq<Cell>, a: u64, b: u64) -> Seq<Cell> {
    exchanged(cells, position(cells, a), position(cells, b))
}

/// Exchanging two indices keeps the identities distinct and moves each of the
/// two cells to the other's index.
pub proof fn lemma_exchanged(cells: Seq<Cell>, i: int, j: int)
    requires
        ids_distinct(cells),
        0 <= i < cells.len(),
        0 <= j < cells.len(),
    ensures
        ids_distinct(exchanged(cells, i, j)),
        exchanged(cells, i, j).len() == cells.len(),
        position(exchanged(cells, i, j), cells[i].id) == j,
        position(exchanged(cells, i, j), cells[j].id) == i,
        forall|id: u64| has_cell(cells, id) <==> has_cell(exchanged(cells, i, j), id),
{
    let after = exchanged(cells, i, j);
    assert forall|a: int, b: int| 0 <= a < b < after.len() implies (#[trigger] after[a]).id != (
    #[trigger] after[b]).id by {
        let sa = if a == i { j } else if a == j { i } else { a };
        let sb = if b == i { j } else if b == j { i } else { b };
        assert(after[a] == cells[sa]);
        assert(after[b] == cells[sb]);
        if sa < sb {
            assert(cells[sa].id != cells[sb].id);
        } else {
            assert(cells[sb].id != cells[sa].id);
        }
    }
    assert(after[j] == cells[i]);
    assert(after[i] == cells[j]);
    lemma_position_unique(after, j);
    lemma_position_unique(after, i);
    assert forall|id: u64| has_cell(cells, id) <==> has_cell(after, id) by {
        if has_cell(cells, id) {
            let p = position(cells, id);
            let q = if p == i { j } else if p == j { i } else { p };
            assert(after[q].id == id);
        }
        if has_cell(after, id) {
            let p = position(after, id);
            let q = if p == i { j } else if p == j { i } else { p };
            assert(cells[q].id == id);
        }
    }
}

/// Swapping the same two cells twice gives the layout back.
pub proof fn lemma_double_swap(cells: Seq<Cell>, a: u64, b: u64)
    requires
        ids_distinct(cells),
        has_cell(cells, a),
        has_cell(cells, b),
    ensures
        swapped(swapped(cells, a, b), a, b) == cells,
{
    let i = position(cells, a);
    let j = position(cells, b);
    lemma_exchanged(cells, i, j);
    assert(swapped(swapped(cells, a, b), a, b) =~= cells);
}

/// A cell with its mark and its piece replaced where a new one is given.
pub open spec fn cell_changed(cell: Cell, deletion: Option<bool>, shape: Option<Shape>) -> Cell {
    Cell {
        deletion: if deletion is Some {
            deletion->0
        } else {
            cell.deletion
        },
        shape: if shape is Some {
            shape->0
        } else {
            cell.shape
        },
        ..cell
    }
}

/// The cells with the mark and the piece of each one named in `ids`
/// replaced where a new one is given.
pub open spec fn changed(
    cells: Seq<Cell>,
    ids: Seq<u64>,
    deletion: Option<bool>,
    shape: Option<Shape>,
) -> Seq<Cell> {
    Seq::new(
        cells.len(),
        |i: int|
            if ids.contains(cells[i].id) {
                cell_changed(cells[i], deletion, shape)
            } else {
                cells[i]
            },
    )
}

/// A cell with its mark and its piece replaced where a new one is given.
fn change_cell(cell: Cell, deletion: Option<bool>, shape: Option<Shape>) -> (out: Cell)
    ensures
        out == cell_changed(cell, deletion, shape),
{
    Cell {
        id: cell.id,
        shape: match shape {
            Some(s) => s,
            None => cell.shape,
        },
        deletion: match deletion {
            Some(d) => d,
            None => cell.deletion,
        },
        bottom: cell.bottom,
    }
}

/// The cells with a removal mark added to each one named in `ids`.
pub open spec fn with_marks(cells: Seq<Cell>, ids: Seq<u64>) -> Seq<Cell> {
    Seq::new(
        cells.len(),
        |i: int| Cell { deletion: cells[i].deletion || ids.contains(cells[i].id), ..cells[i] },
    )
}

/// The cells with the removal mark taken off each one named in `ids`.
pub open spec fn without_marks(cells: Seq<Cell>, ids: Seq<u64>) -> Seq<Cell> {
    Seq::new(
        cells.len(),
        |i: int| Cell { deletion: cells[i].deletion && !ids.contains(cells[i].id), ..cells[i] },
    )
}

/// The cells with the piece of each one named in `ids` replaced by `shape`.
pub open spec fn with_shape(cells: Seq<Cell>, ids: Seq<u64>, shape: Shape) -> Seq<Cell> {
    Seq::new(
        cells.len(),
        |i: int|
            Cell {
                shape: if ids.contains(cells[i].id) {
                    shape
                } else {
                    cells[i].shape
                },
                ..cells[i]
            },
    )
}

/// The identities of the cells, in storage order.
pub open spec fn ids_of(cells: Seq<Cell>) -> Seq<u64> {
    cells.map_values(|cell: Cell| cell.id)
}

/// Whether two layouts hold the same identities at the same places.
pub open spec fn same_ids(a: Seq<Cell>, b: Seq<Cell>) -> bool {
    a.len() == b.len() && forall|i: int| 0 <= i < a.len() ==> (#[trigger] a[i]).id == b[i].id
}

/// Layouts with the same identities are distinct, and hold a cell, together.
pub proof fn lemma_same_ids(a: Seq<Cell>, b: Seq<Cell>)
    requires
        same_ids(a, b),
    ensures
        ids_distinct(a) <==> ids_distinct(b),
        forall|id: u64| has_cell(a, id) <==> has_cell(b, id),
{
    if ids_distinct(a) {
        assert forall|i: int, j: int| 0 <= i < j < b.len() implies (#[trigger] b[i]).id != (
        #[trigger] b[j]).id by {
            assert(a[i].id != a[j].id);
        }
    }
    if ids_distinct(b) {
        assert forall|i: int, j: int| 0 <= i < j < a.len() implies (#[trigger] a[i]).id != (
        #[trigger] a[j]).id by {
            assert(b[i].id != b[j].id);
        }
    }
    assert forall|id: u64| has_cell(a, id) <==> has_cell(b, id) by {
        if has_cell(a, id) {
            let p = position(a, id);
            assert(b[p].id == id);
        }
        if has_cell(b, id) {
            let p = position(b, id);
            assert(a[p].id == id);
        }
    }
}

/// What a board is, as a value.
pub struct BoardView {
    pub size: int,
    pub cells: Seq<Cell>,
    pub just_swapped: Option<JustSwappedShapes>,
    pub state: BoardState,
}

impl BoardView {
    /// Every index holds exactly one cell, and no cell is there twice.
    pub open spec fn wf(self) -> bool {
        &&& 0 <= self.size
        &&& self.cells.len() == self.size * self.size
        &&& ids_distinct(self.cells)
    }

    /// The identity at `(row, col)`, where the position exists.
    pub open spec fn entity_at(self, row: int, col: int) -> Option<u64> {
        if in_grid(row, col, self.size) {
            Some(self.cells[(row - 1) * self.size + col - 1].id)
        } else {
            None
        }
    }

    /// The row and column of the cell with identity `id`.
    pub open spec fn row_col(self, id: u64) -> (int, int) {
        (row_of(position(self.cells, id), self.size), col_of(position(self.cells, id), self.size))
    }
}

/// The board of one level.
pub struct Board {
    size: usize,
    cells: Vec<Cell>,
    just_swapped: Option<JustSwappedShapes>,
    state: BoardState,
}

impl View for Board {
    type V = BoardView;

    closed spec fn view(&self) -> BoardView {
        BoardView {
            size: self.size as int,
            cells: self.cells@,
            just_swapped: self.just_swapped,
            state: self.state,
        }
    }
}

/// Whether no identity occurs twice in `cells`.
fn all_ids_distinct(cells: &Vec<Cell>) -> (distinct: bool)
    ensures
        distinct == ids_distinct(cells@),
{
    let n = cells.len();
    let mut j: usize = 0;
    while j < n
        invariant
            n == cells@.len(),
            j <= n,
            forall|a: int, b: int|
                0 <= a < b < j ==> (#[trigger] cells@[a]).id != (#[trigger] cells@[b]).id,
        decreases n - j,
    {
        let mut i: usize = 0;
        while i < j
            invariant
                n == cells@.len(),
                i <= j < n,
                forall|a: int| 0 <= a < i ==> (#[trigger] cells@[a]).id != cells@[j as int].id,
            decreases j - i,
        {
            if cells[i].id == cells[j].id {
                return false;
            }
            i += 1;
        }
        j += 1;
    }
    true
}

impl Board {
    /// The invariant of every board handed out by this library.
    pub open spec fn wf(&self) -> bool {
        self@.wf()
    }

    /// A board in play over the given cells, stored row by row. Refused where
    /// the cells do not fill a `size` by `size` square or an identity repeats.
    pub fn new(size: usize, cells: Vec<Cell>) -> (board: Option<Board>)
        ensures
            board is Some <==> cells@.len() == size * size && ids_distinct(cells@),
            board is Some ==> board->0.wf() && board->0@ == (BoardView {
                size: size as int,
                cells: cells@,
                just_swapped: None,
                state: BoardState::InPlay,
            }),
    {
        let len = cells.len();
        match size.checked_mul(size) {
            Some(total) => {
                if len != total || !all_ids_distinct(&cells) {
                    return None;
                }
                Some(Board { size, cells, just_swapped: None, state: BoardState::InPlay })
            },
            None => None,
        }
    }

    /// Rows (and columns) of the board.
    pub fn size(&self) -> (size: usize)
        ensures
            size == self@.size,
            self.wf() ==> size * size == self@.cells.len() <= usize::MAX,
    {
        assert(self.cells@.len() == self.cells.len());
        self.size
    }

    /// Number of cells.
    pub fn len(&self) -> (len: usize)
        ensures
            len == self@.cells.len(),
    {
        self.cells.len()
    }

    /// The phase the board is in.
    pub fn state(&self) -> (state: BoardState)
        ensures
            state == self@.state,
    {
        self.state
    }

    /// The pair of the most recent accepted swap, if there was one.
    pub fn just_swapped(&self) -> (pair: Option<JustSwappedShapes>)
        ensures
            pair == self@.just_swapped,
    {
        self.just_swapped
    }

    /// The cell stored at `index`.
    pub fn cell(&self, index: usize) -> (cell: Option<Cell>)
        ensures
            cell is Some <==> index < self@.cells.len(),
            cell is Some ==> cell->0 == self@.cells[index as int],
    {
        if index < self.cells.len() {
            Some(self.cells[index])
        } else {
            None
        }
    }

    /// The storage index of the cell named `id`, if the board holds it.
    pub fn find(&self, id: u64) -> (index: Option<usize>)
        requires
            self.wf(),
        ensures
            index is Some <==> has_cell(self@.cells, id),
            index is Some ==> index->0 == position(self@.cells, id),
    {
        let n = self.cells.len();
        let mut i: usize = 0;
        while i < n
            invariant
                self.wf(),
                n == self.cells@.len(),
                i <= n,
                forall|k: int| 0 <= k < i ==> (#[trigger] self.cells@[k]).id != id,
            decreases n - i,
        {
            if self.cells[i].id == id {
                proof {
                    lemma_position_unique(self@.cells, i as int);
                }
                return Some(i);
            }
            i += 1;
        }
        None
    }

    /// Exchanges the places of two cells of the board. Adjacency is not
    /// looked at here.
    pub fn swap(&mut self, entity1: u64, entity2: u64)
        requires
            old(self).wf(),
            has_cell(old(self)@.cells, entity1),
            has_cell(old(self)@.cells, entity2),
        ensures
            final(self).wf(),
            final(self)@ == (BoardView {
                cells: swapped(old(self)@.cells, entity1, entity2),
                ..old(self)@
            }),
    {
        let index1 = self.find(entity1);
        let index2 = self.find(entity2);
        match (index1, index2) {
            (Some(i), Some(j)) => {
                proof {
                    lemma_exchanged(self@.cells, i as int, j as int);
                }
                self.exchange(i, j);
            },
            _ => {},
        }
    }

    /// Gives every cell named in `ids` the mark and the piece asked for.
    fn change_all(&mut self, ids: &Vec<u64>, deletion: Option<bool>, shape: Option<Shape>)
        requires
            old(self).wf(),
        ensures
            final(self).wf(),
            final(self)@ == (BoardView {
                cells: changed(old(self)@.cells, ids@, deletion, shape),
                ..old(self)@
            }),
    {
        let ghost start = self@;
        let mut k: usize = 0;
        assert(self@.cells =~= changed(start.cells, ids@.take(0), deletion, shape));
        while k < ids.len()
            invariant
                start.wf(),
                self.wf(),
                k <= ids@.len(),
                self@ == (BoardView {
                    cells: changed(start.cells, ids@.take(k as int), deletion, shape),
                    ..start
                }),
            decreases ids@.len() - k,
        {
            let id = ids[k];
            let ghost before = self@.cells;
            if let Some(index) = self.find(id) {
                let cell = self.at(index);
                self.put(index, change_cell(cell, deletion, shape));
            }
            proof {
                let done = ids@.take(k as int);
                let next = ids@.take(k + 1);
                assert(next =~= done.push(id));
                assert forall|i: int| 0 <= i < start.cells.len() implies self@.cells[i]
                    == changed(start.cells, next, deletion, shape)[i] by {
                    assert(before[i].id == start.cells[i].id);
                    if start.cells[i].id == id {
                        assert(next[k as int] == id);
                        lemma_position_unique(before, i);
                    } else {
                        if done.contains(start.cells[i].id) {
                            let w = choose|w: int|
                                0 <= w < done.len() && done[w] == start.cells[i].id;
                            assert(next[w] == start.cells[i].id);
                        }
                        if next.contains(start.cells[i].id) {
                            let w = choose|w: int|
                                0 <= w < next.len() && next[w] == start.cells[i].id;
                            assert(done[w] == start.cells[i].id);
                        }
                    }
                }
                assert(self@.cells =~= changed(start.cells, next, deletion, shape));
            }
            k += 1;
        }
        assert(ids@.take(k as int) =~= ids@);
    }

    /// Marks every cell named in `ids` for removal. Names that the board does
    /// not hold are passed over; marking twice is marking once.
    pub fn mark_all(&mut self, ids: &Vec<u64>)
        requires
            old(self).wf(),
        ensures
            final(self).wf(),
            final(self)@ == (BoardView {
                cells: with_marks(old(self)@.cells, ids@),
                ..old(self)@
            }),
    {
        assert(changed(self@.cells, ids@, Some(true), None) =~= with_marks(self@.cells, ids@));
        self.change_all(ids, Some(true), None);
    }

    /// Takes the removal mark off every cell named in `ids`.
    pub fn unmark_all(&mut self, ids: &Vec<u64>)
        requires
            old(self).wf(),
        ensures
            final(self).wf(),
            final(self)@ == (BoardView {
                cells: without_marks(old(self)@.cells, ids@),
                ..old(self)@
            }),
    {
        assert(changed(self@.cells, ids@, Some(false), None) =~= without_marks(
            self@.cells,
            ids@,
        ));
        self.change_all(ids, Some(false), None);
    }

    /// Replaces the piece of every cell named in `ids` by `shape`.
    pub fn reshape_all(&mut self, ids: &Vec<u64>, shape: Shape)
        requires
            old(self).wf(),
        ensures
            final(self).wf(),
            final(self)@ == (BoardView {
                cells: with_shape(old(self)@.cells, ids@, shape),
                ..old(self)@
            }),
    {
        assert(changed(self@.cells, ids@, None, Some(shape)) =~= with_shape(
            self@.cells,
            ids@,
            shape,
        ));
        self.change_all(ids, None, Some(shape));
    }

    /// The identities of all cells, row by row.
    pub fn entities(&self) -> (ids: Vec<u64>)
        ensures
            ids@ == ids_of(self@.cells),
    {
        let mut ids: Vec<u64> = Vec::new();
        let mut i: usize = 0;
        while i < self.cells.len()
            invariant
                i <= self.cells@.len(),
                ids@ == ids_of(self.cells@.take(i as int)),
            decreases self.cells@.len() - i,
        {
            ids.push(self.cells[i].id);
            assert(ids@ =~= ids_of(self.cells@.take(i + 1)));
            i += 1;
        }
        assert(self.cells@.take(i as int) =~= self.cells@);
        ids
    }

    /// All cells, row by row.
    pub fn cells(&self) -> (cells: Vec<Cell>)
        ensures
            cells@ == self@.cells,
    {
        self.cells.clone()
    }

    /// The cell stored at `index`.
    pub(crate) fn at(&self, index: usize) -> (cell: Cell)
        requires
            index < self@.cells.len(),
        ensures
            cell == self@.cells[index as int],
    {
        self.cells[index]
    }

    /// Stores `cell` at `index`, in place of the cell with the same identity.
    pub(crate) fn put(&mut self, index: usize, cell: Cell)
        requires
            index < old(self)@.cells.len(),
            cell.id == old(self)@.cells[index as int].id,
        ensures
            final(self)@ == (BoardView {
                cells: old(self)@.cells.update(index as int, cell),
                ..old(self)@
            }),
            old(self).wf() ==> final(self).wf(),
    {
        self.cells.set(index, cell);
    }

    /// Exchanges the cells stored at `i` and `j`.
    pub(crate) fn exchange(&mut self, i: usize, j: usize)
        requires
            i < old(self)@.cells.len(),
            j < old(self)@.cells.len(),
        ensures
            final(self)@ == (BoardView {
                cells: exchanged(old(self)@.cells, i as int, j as int),
                ..old(self)@
            }),
    {
        let a = self.cells[i];
        let b = self.cells[j];
        self.cells.set(i, b);
        self.cells.set(j, a);
    }

    /// Replaces all cells by as many others.
    pub(crate) fn replace_cells(&mut self, cells: Vec<Cell>)
        requires
            cells@.len() == old(self)@.cells.len(),
        ensures
            final(self)@ == (BoardView { cells: cells@, ..old(self)@ }),
    {
        self.cells = cells;
    }

    /// Puts the board into the given phase.
    pub(crate) fn set_state(&mut self, state: BoardState)
        ensures
            final(self)@ == (BoardView { state, ..old(self)@ }),
    {
        self.state = state;
    }

    /// Remembers the pair of an accepted swap.
    pub(crate) fn set_just_swapped(&mut self, pair: JustSwappedShapes)
        ensures
            final(self)@ == (BoardView { just_swapped: Some(pair), ..old(self)@ }),
    {
        self.just_swapped = Some(pair);
    }
}

/// Whether a cell is as it is when a level starts: plain, unmarked, at rest.
pub open spec fn is_fresh(cell: Cell) -> bool {
    !cell.shape.special() && !cell.deletion && cell.bottom == 0
}

/// A board in play over the given identities, stored row by row, each cell
/// with a plain piece picked at random. Refused where the identities do not
/// fill a `size` by `size` square or one of them repeats.
pub fn spawn_shapes_into_board(size: usize, entities: &Vec<u64>) -> (board: Option<Board>)
    ensures
        board is Some <==> entities@.len() == size * size && entities@.no_duplicates(),
        board is Some ==> {
            &&& board->0.wf()
            &&& board->0@.size == size
            &&& board->0@.state == BoardState::InPlay
            &&& board->0@.just_swapped is None
            &&& ids_of(board->0@.cells) == entities@
            &&& forall|i: int|
                0 <= i < board->0@.cells.len() ==> is_fresh(#[trigger] board->0@.cells[i])
        },
{
    let mut cells: Vec<Cell> = Vec::new();
    let mut k: usize = 0;
    while k < entities.len()
        invariant
            k <= entities@.len(),
            cells@.len() == k,
            forall|i: int| 0 <= i < k ==> (#[trigger] cells@[i]).id == entities@[i],
            forall|i: int| 0 <= i < k ==> is_fresh(#[trigger] cells@[i]),
        decreases entities@.len() - k,
    {
        cells.push(Cell { id: entities[k], shape: get_random_shape(), deletion: false, bottom: 0 });
        k += 1;
    }
    proof {
        assert(ids_of(cells@) =~= entities@);
        if ids_distinct(cells@) {
            assert forall|i: int, j: int|
                0 <= i < entities@.len() && 0 <= j < entities@.len() && i != j implies entities@[i]
                != entities@[j] by {
                if i < j {
                    assert(cells@[i].id != cells@[j].id);
                } else {
                    assert(cells@[j].id != cells@[i].id);
                }
            }
        }
        if entities@.no_duplicates() {
            assert forall|i: int, j: int| 0 <= i < j < cells@.len() implies (#[trigger] cells@[i]).id
                != (#[trigger] cells@[j]).id by {
                assert(entities@[i] != entities@[j]);
            }
        }
    }
    Board::new(size, cells)
}

} // verus!
