//! Resolving matches in order of strength: five-in-line, bend, four-in-line,
//! three-in-line. Each kind sees the marks left by the kinds before it, so a
//! cell that a stronger match has claimed is out of reach of a weaker one.

use crate::board::{same_ids, Board, BoardView, Cell, JustSwappedShapes};
use crate::matches::{match_views, Match, MatchView};
use crate::shape::Shape;
use crate::templates::{bomb_matches, eliminator_matches, get_bomb_matches,
    get_matches_eliminator, get_matches_liner, get_matches_three, liner_matches_horizontal,
    liner_matches_vertical, three_matches};
use vstd::prelude::*;

verus! {

/// The notice that one match was resolved.
#[derive(Clone, Copy, PartialEq, Eq, Debug, Default)]
pub struct MatchMade();

/// Which special pieces the player may create.
#[derive(Clone, Copy, PartialEq, Eq, Debug)]
pub struct UnlockFlags {
    pub eliminator_unlocked: bool,
    pub bomb_unlocked: bool,
    pub liner_unlocked: bool,
}

/// Whether `id` lies under an offset of some match of the list.
pub open spec fn in_offsets(ms: Seq<MatchView>, id: u64) -> bool {
    exists|j: int| 0 <= j < ms.len() && (#[trigger] ms[j]).matched_shapes.contains(id)
}

/// Whether `id` is the centre of some match of the list.
pub open spec fn in_centers(ms: Seq<MatchView>, id: u64) -> bool {
    exists|j: int| 0 <= j < ms.len() && (#[trigger] ms[j]).center == id
}

/// Whether `id` is any cell of some match of the list.
pub open spec fn in_cells(ms: Seq<MatchView>, id: u64) -> bool {
    in_offsets(ms, id) || in_centers(ms, id)
}

/// The cells after each match of `ms` has marked the cells under its offsets
/// and turned its centre into `shape`.
pub open spec fn centers_promoted(cells: Seq<Cell>, ms: Seq<MatchView>, shape: Shape) -> Seq<
    Cell,
> {
    Seq::new(
        cells.len(),
        |i: int|
            Cell {
                deletion: cells[i].deletion || in_offsets(ms, cells[i].id),
                shape: if in_centers(ms, cells[i].id) {
                    shape
                } else {
                    cells[i].shape
                },
                ..cells[i]
            },
    )
}

/// The cells after each match of `ms` has marked all of its cells.
pub open spec fn all_marked(cells: Seq<Cell>, ms: Seq<MatchView>) -> Seq<Cell> {
    Seq::new(
        cells.len(),
        |i: int| Cell { deletion: cells[i].deletion || in_cells(ms, cells[i].id), ..cells[i] },
    )
}

/// The cells under the offsets of all the matches.
fn offset_cells(matches: &Vec<Match>) -> (ids: Vec<u64>)
    ensures
        forall|id: u64| ids@.contains(id) <==> in_offsets(match_views(matches@), id),
{
    let ghost ms = match_views(matches@);
    let mut ids: Vec<u64> = Vec::new();
    let mut j: usize = 0;
    while j < matches.len()
        invariant
            ms == match_views(matches@),
            j <= matches@.len(),
            forall|id: u64| ids@.contains(id) <==> in_offsets(ms.take(j as int), id),
        decreases matches@.len() - j,
    {
        let ghost before = ids@;
        let found = &matches[j];
        let mut k: usize = 0;
        while k < found.matched_shapes.len()
            invariant
                k <= found.matched_shapes@.len(),
                forall|id: u64|
                    ids@.contains(id) <==> before.contains(id)
                        || found.matched_shapes@.take(k as int).contains(id),
            decreases found.matched_shapes@.len() - k,
        {
            let ghost prev = ids@;
            let x = found.matched_shapes[k];
            ids.push(x);
            proof {
                let done = found.matched_shapes@.take(k as int);
                let next = found.matched_shapes@.take(k + 1);
                assert(next =~= done.push(x));
                assert forall|id: u64|
                    ids@.contains(id) <==> before.contains(id) || next.contains(id) by {
                    lemma_push_contains(prev, x, id);
                    lemma_push_contains(done, x, id);
                }
            }
            k += 1;
        }
        proof {
            assert(found.matched_shapes@.take(k as int) =~= found.matched_shapes@);
            assert forall|id: u64| ids@.contains(id) <==> in_offsets(ms.take(j + 1), id) by {
                lemma_in_offsets_step(ms, j as int, id);
                assert(ids@.contains(id) <==> before.contains(id)
                    || found.matched_shapes@.contains(id));
            }
        }
        j += 1;
    }
    assert(ms.take(j as int) =~= ms);
    ids
}

/// The centres of all the matches.
fn center_cells(matches: &Vec<Match>) -> (ids: Vec<u64>)
    ensures
        forall|id: u64| ids@.contains(id) <==> in_centers(match_views(matches@), id),
{
    let ghost ms = match_views(matches@);
    let mut ids: Vec<u64> = Vec::new();
    let mut j: usize = 0;
    while j < matches.len()
        invariant
            ms == match_views(matches@),
            j <= matches@.len(),
            ids@.len() == j,
            forall|i: int| 0 <= i < j ==> ids@[i] == (#[trigger] ms[i]).center,
        decreases matches@.len() - j,
    {
        ids.push(matches[j].center);
        j += 1;
    }
    assert forall|id: u64| ids@.contains(id) <==> in_centers(ms, id) by {
        if ids@.contains(id) {
            let w = choose|w: int| 0 <= w < ids@.len() && ids@[w] == id;
            assert(ms[w].center == id);
        }
        if in_centers(ms, id) {
            let w = choose|w: int| 0 <= w < ms.len() && (#[trigger] ms[w]).center == id;
            assert(ids@[w] == id);
        }
    }
    ids
}

/// A pushed sequence holds what it held, and the pushed value.
proof fn lemma_push_contains(s: Seq<u64>, x: u64, y: u64)
    ensures
        s.push(x).contains(y) <==> s.contains(y) || y == x,
{
    let t = s.push(x);
    if t.contains(y) {
        let w = choose|w: int| 0 <= w < t.len() && t[w] == y;
        if w < s.len() {
            assert(s[w] == y);
        }
    }
    if s.contains(y) {
        let w = choose|w: int| 0 <= w < s.len() && s[w] == y;
        assert(t[w] == y);
    }
    if y == x {
        assert(t[s.len() as int] == y);
    }
}

/// One more match adds the cells under its own offsets.
proof fn lemma_in_offsets_step(ms: Seq<MatchView>, j: int, id: u64)
    requires
        0 <= j < ms.len(),
    ensures
        in_offsets(ms.take(j + 1), id) <==> in_offsets(ms.take(j), id)
            || ms[j].matched_shapes.contains(id),
{
    let small = ms.take(j);
    let big = ms.take(j + 1);
    if in_offsets(big, id) {
        let w = choose|w: int|
            0 <= w < big.len() && (#[trigger] big[w]).matched_shapes.contains(id);
        if w < j {
            assert(small[w].matched_shapes.contains(id));
        }
    }
    if in_offsets(small, id) {
        let w = choose|w: int|
            0 <= w < small.len() && (#[trigger] small[w]).matched_shapes.contains(id);
        assert(big[w].matched_shapes.contains(id));
    }
    if ms[j].matched_shapes.contains(id) {
        assert(big[j].matched_shapes.contains(id));
    }
}

/// Tells of one resolved match for each match of the list.
fn send_match_made(match_made: &mut Vec<MatchMade>, matches: &Vec<Match>)
    ensures
        final(match_made)@.len() == old(match_made)@.len() + matches@.len(),
{
    let mut j: usize = 0;
    while j < matches.len()
        invariant
            j <= matches@.len(),
            match_made@.len() == old(match_made)@.len() + j,
        decreases matches@.len() - j,
    {
        match_made.push(MatchMade());
        j += 1;
    }
}

/// Marks the cells under the offsets of each match and turns each centre
/// into `shape`.
fn promote_centers(board: &mut Board, matches: &Vec<Match>, shape: Shape)
    requires
        old(board).wf(),
    ensures
        final(board).wf(),
        final(board)@ == (BoardView {
            cells: centers_promoted(old(board)@.cells, match_views(matches@), shape),
            ..old(board)@
        }),
{
    let ghost start = board@.cells;
    let offsets = offset_cells(matches);
    let centers = center_cells(matches);
    board.mark_all(&offsets);
    board.reshape_all(&centers, shape);
    assert(board@.cells =~= centers_promoted(start, match_views(matches@), shape));
}

/// Resolves the five-in-line matches: the cells under the offsets are marked
/// for removal and the centre becomes an eliminator.
pub fn spawn_eliminators_from_matches(board: &mut Board, match_made: &mut Vec<MatchMade>)
    requires
        old(board).wf(),
    ensures
        final(board).wf(),
        final(board)@ == (BoardView {
            cells: centers_promoted(
                old(board)@.cells,
                eliminator_matches(old(board)@.cells, old(board)@.size),
                Shape::Eliminator,
            ),
            ..old(board)@
        }),
        final(match_made)@.len() == old(match_made)@.len() + eliminator_matches(
            old(board)@.cells,
            old(board)@.size,
        ).len(),
{
    let matches = get_matches_eliminator(board);
    promote_centers(board, &matches, Shape::Eliminator);
    send_match_made(match_made, &matches);
}

/// Resolves the bend matches: the cells under the offsets are marked for
/// removal and the centre becomes a bomb.
pub fn spawn_bombs_from_matches(board: &mut Board, match_made: &mut Vec<MatchMade>)
    requires
        old(board).wf(),
    ensures
        final(board).wf(),
        final(board)@ == (BoardView {
            cells: centers_promoted(
                old(board)@.cells,
                bomb_matches(old(board)@.cells, old(board)@.size),
                Shape::Bomb,
            ),
            ..old(board)@
        }),
        final(match_made)@.len() == old(match_made)@.len() + bomb_matches(
            old(board)@.cells,
            old(board)@.size,
        ).len(),
{
    let matches = get_bomb_matches(board);
    promote_centers(board, &matches, Shape::Bomb);
    send_match_made(match_made, &matches);
}

/// Resolves the three-in-line matches: all three cells are marked for removal.
pub fn handle_regular_matches(board: &mut Board, match_made: &mut Vec<MatchMade>)
    requires
        old(board).wf(),
    ensures
        final(board).wf(),
        final(board)@ == (BoardView {
            cells: all_marked(
                old(board)@.cells,
                three_matches(old(board)@.cells, old(board)@.size),
            ),
            ..old(board)@
        }),
        final(match_made)@.len() == old(match_made)@.len() + three_matches(
            old(board)@.cells,
            old(board)@.size,
        ).len(),
{
    let ghost start = board@.cells;
    let matches = get_matches_three(board);
    let offsets = offset_cells(&matches);
    let centers = center_cells(&matches);
    board.mark_all(&offsets);
    board.mark_all(&centers);
    assert(board@.cells =~= all_marked(start, match_views(matches@)));
    send_match_made(match_made, &matches);
}

/// Whether `id` is one of the two cells of the most recent swap.
pub open spec fn is_just_swapped(pair: Option<JustSwappedShapes>, id: u64) -> bool {
    match pair {
        Some(JustSwappedShapes(first, second)) => first == id || second == id,
        None => false,
    }
}

/// The first of `ids`, from index `from` on, that was just swapped, or
/// `fallback` where none was.
pub open spec fn promoted_from(
    ids: Seq<u64>,
    pair: Option<JustSwappedShapes>,
    from: int,
    fallback: u64,
) -> u64
    decreases ids.len() - from,
{
    if from < 0 || from >= ids.len() {
        fallback
    } else if is_just_swapped(pair, ids[from]) {
        ids[from]
    } else {
        promoted_from(ids, pair, from + 1, fallback)
    }
}

/// The cell of a four-in-line match that becomes the liner: the first cell
/// under its offsets that the player just swapped, or else its centre.
pub open spec fn promoted_cell(m: MatchView, pair: Option<JustSwappedShapes>) -> u64 {
    promoted_from(m.matched_shapes, pair, 0, m.center)
}

/// Whether `id` is the promoted cell of some match of the list.
pub open spec fn in_promoted(ms: Seq<MatchView>, pair: Option<JustSwappedShapes>, id: u64) -> bool {
    exists|j: int| 0 <= j < ms.len() && promoted_cell(#[trigger] ms[j], pair) == id
}

/// The cells after the four-in-line matches along rows and along columns have
/// marked all their cells, and the promoted cell of each has lost its mark
/// and become the liner of its match's direction. Where a cell is promoted
/// in both directions it becomes a horizontal liner.
pub open spec fn liners_promoted(
    cells: Seq<Cell>,
    horizontal: Seq<MatchView>,
    vertical: Seq<MatchView>,
    pair: Option<JustSwappedShapes>,
) -> Seq<Cell> {
    Seq::new(
        cells.len(),
        |i: int|
            {
                let id = cells[i].id;
                let across = in_promoted(horizontal, pair, id);
                let down = in_promoted(vertical, pair, id);
                Cell {
                    deletion: (cells[i].deletion || in_cells(horizontal, id) || in_cells(
                        vertical,
                        id,
                    )) && !across && !down,
                    shape: if across {
                        Shape::HorizontalLiner
                    } else if down {
                        Shape::VerticalLiner
                    } else {
                        cells[i].shape
                    },
                    ..cells[i]
                }
            },
    )
}

/// The cell of the match that becomes the liner.
fn promoted_of(found: &Match, pair: Option<JustSwappedShapes>) -> (id: u64)
    ensures
        id == promoted_cell(found@, pair),
{
    let mut k: usize = 0;
    while k < found.matched_shapes.len()
        invariant
            k <= found.matched_shapes@.len(),
            promoted_cell(found@, pair) == promoted_from(
                found.matched_shapes@,
                pair,
                k as int,
                found.center,
            ),
        decreases found.matched_shapes@.len() - k,
    {
        let id = found.matched_shapes[k];
        let swapped = match pair {
            Some(JustSwappedShapes(first, second)) => first == id || second == id,
            None => false,
        };
        if swapped {
            return id;
        }
        k += 1;
    }
    found.center
}

/// The promoted cells of all the matches.
fn promoted_cells(matches: &Vec<Match>, pair: Option<JustSwappedShapes>) -> (ids: Vec<u64>)
    ensures
        forall|id: u64| ids@.contains(id) <==> in_promoted(match_views(matches@), pair, id),
{
    let ghost ms = match_views(matches@);
    let mut ids: Vec<u64> = Vec::new();
    let mut j: usize = 0;
    while j < matches.len()
        invariant
            ms == match_views(matches@),
            j <= matches@.len(),
            ids@.len() == j,
            forall|i: int| 0 <= i < j ==> ids@[i] == promoted_cell(#[trigger] ms[i], pair),
        decreases matches@.len() - j,
    {
        ids.push(promoted_of(&matches[j], pair));
        j += 1;
    }
    assert forall|id: u64| ids@.contains(id) <==> in_promoted(ms, pair, id) by {
        if ids@.contains(id) {
            let w = choose|w: int| 0 <= w < ids@.len() && ids@[w] == id;
            assert(promoted_cell(ms[w], pair) == id);
        }
        if in_promoted(ms, pair, id) {
            let w = choose|w: int|
                0 <= w < ms.len() && promoted_cell(#[trigger] ms[w], pair) == id;
            assert(ids@[w] == id);
        }
    }
    ids
}

/// Resolves the four-in-line matches: all four cells of each match are
/// marked for removal, then one cell of each loses its mark and becomes a
/// liner of the match's direction: the first cell under the offsets that the
/// player just swapped, or else the centre.
pub fn spawn_liners_from_matches(board: &mut Board, match_made: &mut Vec<MatchMade>)
    requires
        old(board).wf(),
    ensures
        final(board).wf(),
        final(board)@ == (BoardView {
            cells: liners_promoted(
                old(board)@.cells,
                liner_matches_horizontal(old(board)@.cells, old(board)@.size),
                liner_matches_vertical(old(board)@.cells, old(board)@.size),
                old(board)@.just_swapped,
            ),
            ..old(board)@
        }),
        final(match_made)@.len() == old(match_made)@.len() + liner_matches_horizontal(
            old(board)@.cells,
            old(board)@.size,
        ).len() + liner_matches_vertical(old(board)@.cells, old(board)@.size).len(),
{
    let ghost start = board@.cells;
    let (horizontal_matches, vertical_matches) = get_matches_liner(board);
    let pair = board.just_swapped();
    let horizontal_offsets = offset_cells(&horizontal_matches);
    let horizontal_centers = center_cells(&horizontal_matches);
    let vertical_offsets = offset_cells(&vertical_matches);
    let vertical_centers = center_cells(&vertical_matches);
    board.mark_all(&horizontal_offsets);
    board.mark_all(&horizontal_centers);
    board.mark_all(&vertical_offsets);
    board.mark_all(&vertical_centers);
    send_match_made(match_made, &horizontal_matches);
    send_match_made(match_made, &vertical_matches);
    let vertical_promoted = promoted_cells(&vertical_matches, pair);
    let horizontal_promoted = promoted_cells(&horizontal_matches, pair);
    board.reshape_all(&vertical_promoted, Shape::VerticalLiner);
    board.unmark_all(&vertical_promoted);
    board.reshape_all(&horizontal_promoted, Shape::HorizontalLiner);
    board.unmark_all(&horizontal_promoted);
    assert(board@.cells =~= liners_promoted(
        start,
        match_views(horizontal_matches@),
        match_views(vertical_matches@),
        pair,
    ));
}

/// The cells after the five-in-line matches are resolved, where eliminators
/// are unlocked.
pub open spec fn after_eliminators(cells: Seq<Cell>, n: int, flags: UnlockFlags) -> Seq<Cell> {
    if flags.eliminator_unlocked {
        centers_promoted(cells, eliminator_matches(cells, n), Shape::Eliminator)
    } else {
        cells
    }
}

/// The cells after the bend matches are resolved, where bombs are unlocked.
pub open spec fn after_bombs(cells: Seq<Cell>, n: int, flags: UnlockFlags) -> Seq<Cell> {
    if flags.bomb_unlocked {
        centers_promoted(cells, bomb_matches(cells, n), Shape::Bomb)
    } else {
        cells
    }
}

/// The cells after the four-in-line matches are resolved, where liners are
/// unlocked.
pub open spec fn after_liners(
    cells: Seq<Cell>,
    n: int,
    pair: Option<JustSwappedShapes>,
    flags: UnlockFlags,
) -> Seq<Cell> {
    if flags.liner_unlocked {
        liners_promoted(
            cells,
            liner_matches_horizontal(cells, n),
            liner_matches_vertical(cells, n),
            pair,
        )
    } else {
        cells
    }
}

/// The cells after the three-in-line matches are resolved.
pub open spec fn after_regular(cells: Seq<Cell>, n: int) -> Seq<Cell> {
    all_marked(cells, three_matches(cells, n))
}

/// The cells after one pass of the resolver: each kind of match in turn, the
/// strongest first, each on what the kinds before it left.
pub open spec fn resolved(
    cells: Seq<Cell>,
    n: int,
    pair: Option<JustSwappedShapes>,
    flags: UnlockFlags,
) -> Seq<Cell> {
    after_regular(
        after_liners(after_bombs(after_eliminators(cells, n, flags), n, flags), n, pair, flags),
        n,
    )
}

/// How many matches one pass of the resolver resolves.
pub open spec fn resolved_count(
    cells: Seq<Cell>,
    n: int,
    pair: Option<JustSwappedShapes>,
    flags: UnlockFlags,
) -> nat {
    let first = after_eliminators(cells, n, flags);
    let second = after_bombs(first, n, flags);
    let third = after_liners(second, n, pair, flags);
    (if flags.eliminator_unlocked {
        eliminator_matches(cells, n).len()
    } else {
        0
    }) + (if flags.bomb_unlocked {
        bomb_matches(first, n).len()
    } else {
        0
    }) + (if flags.liner_unlocked {
        liner_matches_horizontal(second, n).len() + liner_matches_vertical(second, n).len()
    } else {
        0
    }) + three_matches(third, n).len()
}

/// One pass of the resolver over the board: five-in-line, bend and
/// four-in-line matches where their special is unlocked, then three-in-line
/// matches, each kind on what the kinds before it left. One notice is added
/// to `match_made` for each match resolved.
pub fn resolve_matches(board: &mut Board, flags: UnlockFlags, match_made: &mut Vec<MatchMade>)
    requires
        old(board).wf(),
    ensures
        final(board).wf(),
        final(board)@ == (BoardView {
            cells: resolved(
                old(board)@.cells,
                old(board)@.size,
                old(board)@.just_swapped,
                flags,
            ),
            ..old(board)@
        }),
        final(match_made)@.len() == old(match_made)@.len() + resolved_count(
            old(board)@.cells,
            old(board)@.size,
            old(board)@.just_swapped,
            flags,
        ),
        same_ids(old(board)@.cells, final(board)@.cells),
{
    if flags.eliminator_unlocked {
        spawn_eliminators_from_matches(board, match_made);
    }
    if flags.bomb_unlocked {
        spawn_bombs_from_matches(board, match_made);
    }
    if flags.liner_unlocked {
        spawn_liners_from_matches(board, match_made);
    }
    handle_regular_matches(board, match_made);
}

} // verus!
