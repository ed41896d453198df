//! Why the order of the resolver matters: a cell that one kind of match has
//! claimed is marked or special afterwards, and no later match can use it.

use crate::board::{ids_distinct, Cell, JustSwappedShapes};
use crate::matches::{found_matches, is_match, lemma_found_is_match, match_at, offset_matches,
    target, MatchView};
use crate::resolver::{after_bombs, after_eliminators, after_liners, centers_promoted,
    in_cells, in_centers, in_offsets, in_promoted, is_just_swapped, liners_promoted,
    promoted_cell, promoted_from, UnlockFlags};
use crate::shape::Shape;
use crate::templates::{bend_left_above, bend_left_below, bend_right_above, bend_right_below,
    bomb_matches, eliminator_matches, five_horizontal, five_vertical, liner_matches_horizontal,
    liner_matches_vertical, quad_horizontal, quad_vertical, three_matches, triple_horizontal,
    triple_vertical};
use crate::utils::{lemma_index_in_range, lemma_position_of_index};
use vstd::prelude::*;

verus! {

/// Whether the cell named `id` is on the board, unmarked and plain.
pub open spec fn available(cells: Seq<Cell>, id: u64) -> bool {
    exists|i: int|
        0 <= i < cells.len() && (#[trigger] cells[i]).id == id && !cells[i].deletion
            && !cells[i].shape.special()
}

/// Whether the cell named `id` is on the board, and marked or special.
pub open spec fn spent(cells: Seq<Cell>, id: u64) -> bool {
    exists|i: int|
        0 <= i < cells.len() && (#[trigger] cells[i]).id == id && (cells[i].deletion
            || cells[i].shape.special())
}

/// Whether every match of the list lies on available cells of the board.
pub open spec fn on_available_cells(cells: Seq<Cell>, ms: Seq<MatchView>) -> bool {
    forall|id: u64| in_cells(ms, id) ==> available(cells, id)
}

/// A cell is not both available and spent.
pub proof fn lemma_available_not_spent(cells: Seq<Cell>, id: u64)
    requires
        ids_distinct(cells),
        available(cells, id),
    ensures
        !spent(cells, id),
{
    if spent(cells, id) {
        let i = choose|i: int|
            0 <= i < cells.len() && (#[trigger] cells[i]).id == id && !cells[i].deletion
                && !cells[i].shape.special();
        let j = choose|j: int|
            0 <= j < cells.len() && (#[trigger] cells[j]).id == id && (cells[j].deletion
                || cells[j].shape.special());
        if i < j {
            assert(cells[i].id != cells[j].id);
        } else if j < i {
            assert(cells[j].id != cells[i].id);
        }
    }
}

/// The cells of the matches of one template are available.
pub proof fn lemma_found_on_available_cells(cells: Seq<Cell>, n: int, offsets: Seq<(i32, i32)>)
    requires
        0 <= n,
        cells.len() == n * n,
    ensures
        on_available_cells(cells, found_matches(cells, n, offsets)),
{
    let ms = found_matches(cells, n, offsets);
    assert forall|id: u64| in_cells(ms, id) implies available(cells, id) by {
        if in_offsets(ms, id) {
            let j = choose|j: int|
                0 <= j < ms.len() && (#[trigger] ms[j]).matched_shapes.contains(id);
            lemma_found_is_match(cells, n, offsets, cells.len() as int, j);
            let index = choose|index: int|
                0 <= index < cells.len() && #[trigger] is_match(cells, n, index, offsets) && ms[j]
                    == match_at(cells, n, index, offsets);
            let k = choose|k: int|
                0 <= k < ms[j].matched_shapes.len() && ms[j].matched_shapes[k] == id;
            assert(offset_matches(cells, n, index, offsets[k]));
            let t = target(n, index, offsets[k])->0;
            lemma_position_of_index(index, n);
            lemma_index_in_range(
                index / n + 1 + offsets[k].0,
                index % n + 1 + offsets[k].1,
                n,
            );
            assert(cells[t].id == id);
        } else {
            let j = choose|j: int| 0 <= j < ms.len() && (#[trigger] ms[j]).center == id;
            lemma_found_is_match(cells, n, offsets, cells.len() as int, j);
            let index = choose|index: int|
                0 <= index < cells.len() && #[trigger] is_match(cells, n, index, offsets) && ms[j]
                    == match_at(cells, n, index, offsets);
            assert(cells[index].id == id);
        }
    }
}

/// Pooled lists lie on available cells where each of the two does.
pub proof fn lemma_pooled_on_available_cells(
    cells: Seq<Cell>,
    first: Seq<MatchView>,
    second: Seq<MatchView>,
)
    requires
        on_available_cells(cells, first),
        on_available_cells(cells, second),
    ensures
        on_available_cells(cells, first + second),
{
    let both = first + second;
    assert forall|id: u64| in_cells(both, id) implies available(cells, id) by {
        if in_offsets(both, id) {
            let j = choose|j: int|
                0 <= j < both.len() && (#[trigger] both[j]).matched_shapes.contains(id);
            if j < first.len() {
                assert(first[j].matched_shapes.contains(id));
            } else {
                assert(second[j - first.len()].matched_shapes.contains(id));
            }
        } else {
            let j = choose|j: int| 0 <= j < both.len() && (#[trigger] both[j]).center == id;
            if j < first.len() {
                assert(first[j].center == id);
            } else {
                assert(second[j - first.len()].center == id);
            }
        }
    }
}

/// The matches of every kind lie on available cells.
pub proof fn lemma_kinds_on_available_cells(cells: Seq<Cell>, n: int)
    requires
        0 <= n,
        cells.len() == n * n,
    ensures
        on_available_cells(cells, eliminator_matches(cells, n)),
        on_available_cells(cells, bomb_matches(cells, n)),
        on_available_cells(cells, liner_matches_horizontal(cells, n)),
        on_available_cells(cells, liner_matches_vertical(cells, n)),
        on_available_cells(cells, three_matches(cells, n)),
{
    lemma_found_on_available_cells(cells, n, five_horizontal());
    lemma_found_on_available_cells(cells, n, five_vertical());
    lemma_pooled_on_available_cells(
        cells,
        found_matches(cells, n, five_horizontal()),
        found_matches(cells, n, five_vertical()),
    );
    lemma_found_on_available_cells(cells, n, bend_left_below());
    lemma_found_on_available_cells(cells, n, bend_left_above());
    lemma_found_on_available_cells(cells, n, bend_right_below());
    lemma_found_on_available_cells(cells, n, bend_right_above());
    let b1 = found_matches(cells, n, bend_left_below());
    let b2 = found_matches(cells, n, bend_left_above());
    let b3 = found_matches(cells, n, bend_right_below());
    let b4 = found_matches(cells, n, bend_right_above());
    lemma_pooled_on_available_cells(cells, b1, b2);
    lemma_pooled_on_available_cells(cells, b1 + b2, b3);
    lemma_pooled_on_available_cells(cells, b1 + b2 + b3, b4);
    lemma_found_on_available_cells(cells, n, quad_horizontal());
    lemma_found_on_available_cells(cells, n, quad_vertical());
    lemma_found_on_available_cells(cells, n, triple_horizontal());
    lemma_found_on_available_cells(cells, n, triple_vertical());
    lemma_pooled_on_available_cells(
        cells,
        found_matches(cells, n, triple_horizontal()),
        found_matches(cells, n, triple_vertical()),
    );
}

/// The promoted cell of a match is one of its cells.
proof fn lemma_promoted_from(
    ids: Seq<u64>,
    pair: Option<JustSwappedShapes>,
    from: int,
    fallback: u64,
)
    requires
        0 <= from,
    ensures
        promoted_from(ids, pair, from, fallback) == fallback || ids.contains(
            promoted_from(ids, pair, from, fallback),
        ),
    decreases ids.len() - from,
{
    if from < ids.len() {
        if is_just_swapped(pair, ids[from]) {
            assert(ids.contains(ids[from]));
        } else {
            lemma_promoted_from(ids, pair, from + 1, fallback);
        }
    }
}

/// A promoted cell is a cell of the matches.
pub proof fn lemma_promoted_in_cells(
    ms: Seq<MatchView>,
    pair: Option<JustSwappedShapes>,
    id: u64,
)
    requires
        in_promoted(ms, pair, id),
    ensures
        in_cells(ms, id),
{
    let j = choose|j: int| 0 <= j < ms.len() && promoted_cell(#[trigger] ms[j], pair) == id;
    lemma_promoted_from(ms[j].matched_shapes, pair, 0, ms[j].center);
    if id == ms[j].center {
        assert(in_centers(ms, id));
    } else {
        assert(ms[j].matched_shapes.contains(id));
        assert(in_offsets(ms, id));
    }
}

/// Changing marks and pieces in place keeps the identities distinct.
proof fn lemma_same_places(before: Seq<Cell>, after: Seq<Cell>)
    requires
        ids_distinct(before),
        after.len() == before.len(),
        forall|i: int| 0 <= i < before.len() ==> (#[trigger] after[i]).id == before[i].id,
    ensures
        ids_distinct(after),
{
    assert forall|i: int, j: int| 0 <= i < j < after.len() implies (#[trigger] after[i]).id != (
    #[trigger] after[j]).id by {
        assert(before[i].id != before[j].id);
    }
}

/// After matches have marked the cells under their offsets and turned their
/// centres into a special, every cell of theirs is spent, and so is every
/// cell that was spent before.
pub proof fn lemma_centers_promoted_spends(
    cells: Seq<Cell>,
    ms: Seq<MatchView>,
    shape: Shape,
    id: u64,
)
    requires
        ids_distinct(cells),
        shape.special(),
        on_available_cells(cells, ms),
        spent(cells, id) || in_cells(ms, id),
    ensures
        spent(centers_promoted(cells, ms, shape), id),
        ids_distinct(centers_promoted(cells, ms, shape)),
{
    let after = centers_promoted(cells, ms, shape);
    lemma_same_places(cells, after);
    if in_cells(ms, id) {
        let i = choose|i: int|
            0 <= i < cells.len() && (#[trigger] cells[i]).id == id && !cells[i].deletion
                && !cells[i].shape.special();
        assert(after[i].id == id && (after[i].deletion || after[i].shape.special()));
    } else {
        let i = choose|i: int|
            0 <= i < cells.len() && (#[trigger] cells[i]).id == id && (cells[i].deletion
                || cells[i].shape.special());
        assert(after[i].id == id && (after[i].deletion || after[i].shape.special()));
    }
}

/// After the four-in-line matches are resolved, every cell of theirs is
/// spent, and so is every cell that was spent before.
pub proof fn lemma_liners_promoted_spends(
    cells: Seq<Cell>,
    horizontal: Seq<MatchView>,
    vertical: Seq<MatchView>,
    pair: Option<JustSwappedShapes>,
    id: u64,
)
    requires
        ids_distinct(cells),
        on_available_cells(cells, horizontal),
        on_available_cells(cells, vertical),
        spent(cells, id) || in_cells(horizontal, id) || in_cells(vertical, id),
    ensures
        spent(liners_promoted(cells, horizontal, vertical, pair), id),
        ids_distinct(liners_promoted(cells, horizontal, vertical, pair)),
{
    let after = liners_promoted(cells, horizontal, vertical, pair);
    lemma_same_places(cells, after);
    if in_cells(horizontal, id) || in_cells(vertical, id) {
        let i = choose|i: int|
            0 <= i < cells.len() && (#[trigger] cells[i]).id == id && !cells[i].deletion
                && !cells[i].shape.special();
        assert(after[i].id == id && (after[i].deletion || after[i].shape.special()));
    } else {
        let i = choose|i: int|
            0 <= i < cells.len() && (#[trigger] cells[i]).id == id && (cells[i].deletion
                || cells[i].shape.special());
        if in_promoted(horizontal, pair, id) {
            lemma_promoted_in_cells(horizontal, pair, id);
        }
        if in_promoted(vertical, pair, id) {
            lemma_promoted_in_cells(vertical, pair, id);
        }
        assert(after[i].id == id && (after[i].deletion || after[i].shape.special()));
    }
}

/// A spent cell is in no match of any kind.
pub proof fn lemma_spent_is_unmatched(cells: Seq<Cell>, n: int, id: u64)
    requires
        0 <= n,
        cells.len() == n * n,
        ids_distinct(cells),
        spent(cells, id),
    ensures
        !in_cells(eliminator_matches(cells, n), id),
        !in_cells(bomb_matches(cells, n), id),
        !in_cells(liner_matches_horizontal(cells, n), id),
        !in_cells(liner_matches_vertical(cells, n), id),
        !in_cells(three_matches(cells, n), id),
{
    lemma_kinds_on_available_cells(cells, n);
    if available(cells, id) {
        lemma_available_not_spent(cells, id);
    }
}

/// Within one pass of the resolver a cell of a match is out of reach of every
/// weaker kind of match: what a five-in-line match has used is in no bend,
/// four-in-line or three-in-line match of that pass; what a bend match has
/// used is in no four-in-line or three-in-line match; what a four-in-line
/// match has used is in no three-in-line match.
pub proof fn lemma_match_priority(
    cells: Seq<Cell>,
    n: int,
    pair: Option<JustSwappedShapes>,
    flags: UnlockFlags,
    id: u64,
)
    requires
        0 <= n,
        cells.len() == n * n,
        ids_distinct(cells),
    ensures
        ({
            let first = after_eliminators(cells, n, flags);
            let second = after_bombs(first, n, flags);
            let third = after_liners(second, n, pair, flags);
            &&& flags.eliminator_unlocked && in_cells(eliminator_matches(cells, n), id) ==> {
                &&& !(flags.bomb_unlocked && in_cells(bomb_matches(first, n), id))
                &&& !(flags.liner_unlocked && in_cells(liner_matches_horizontal(second, n), id))
                &&& !(flags.liner_unlocked && in_cells(liner_matches_vertical(second, n), id))
                &&& !in_cells(three_matches(third, n), id)
            }
            &&& flags.bomb_unlocked && in_cells(bomb_matches(first, n), id) ==> {
                &&& !(flags.liner_unlocked && in_cells(liner_matches_horizontal(second, n), id))
                &&& !(flags.liner_unlocked && in_cells(liner_matches_vertical(second, n), id))
                &&& !in_cells(three_matches(third, n), id)
            }
            &&& flags.liner_unlocked && (in_cells(liner_matches_horizontal(second, n), id)
                || in_cells(liner_matches_vertical(second, n), id)) ==> !in_cells(
                three_matches(third, n),
                id,
            )
        }),
{
    let first = after_eliminators(cells, n, flags);
    let second = after_bombs(first, n, flags);
    let third = after_liners(second, n, pair, flags);
    lemma_kinds_on_available_cells(cells, n);
    lemma_same_places(cells, first);
    lemma_kinds_on_available_cells(first, n);
    lemma_same_places(first, second);
    lemma_kinds_on_available_cells(second, n);
    lemma_same_places(second, third);
    let spent_first = flags.eliminator_unlocked && in_cells(eliminator_matches(cells, n), id);
    if spent_first {
        lemma_centers_promoted_spends(cells, eliminator_matches(cells, n), Shape::Eliminator, id);
        lemma_spent_is_unmatched(first, n, id);
    }
    let spent_second = spent_first || (flags.bomb_unlocked && in_cells(
        bomb_matches(first, n),
        id,
    ));
    if spent_second {
        if flags.bomb_unlocked {
            lemma_centers_promoted_spends(first, bomb_matches(first, n), Shape::Bomb, id);
        }
        lemma_spent_is_unmatched(second, n, id);
    }
    let spent_third = spent_second || (flags.liner_unlocked && (in_cells(
        liner_matches_horizontal(second, n),
        id,
    ) || in_cells(liner_matches_vertical(second, n), id)));
    if spent_third {
        if flags.liner_unlocked {
            lemma_liners_promoted_spends(
                second,
                liner_matches_horizontal(second, n),
                liner_matches_vertical(second, n),
                pair,
                id,
            );
        }
        lemma_spent_is_unmatched(third, n, id);
    }
}

} // verus!
