//! The example boards shown when a special is unlocked: for each special a
//! board with the match that creates it, a board with the special in place,
//! and a board with the cells that it clears left empty.

use crate::board::BOARD_SIZE;
use crate::progress::MapFinishes;
use crate::shape::Shape;
use crate::utils::{get_index, index_of};
use vstd::prelude::*;

verus! {

/// A slot of an example board: a piece, or nothing to see.
#[derive(Clone, Copy, PartialEq, Eq, Debug, Structural)]
pub enum ShapeOrInvisible {
    Shape(Shape),
    Invisible,
}

/// The special that an explanation is about.
#[derive(Clone, Copy, PartialEq, Eq, Debug, Structural)]
pub enum Explained {
    Bomb,
    Liner,
    Eliminator,
}

/// A standard board with `shape` in every slot.
pub open spec fn filled(shape: Shape) -> Seq<ShapeOrInvisible> {
    Seq::new((BOARD_SIZE * BOARD_SIZE) as nat, |i: int| ShapeOrInvisible::Shape(shape))
}

/// A standard board with `slot` at each of `places` and `shape` everywhere
/// else. Places outside the board are passed over.
pub open spec fn painted(shape: Shape, places: Seq<(i64, i64)>, slot: ShapeOrInvisible) -> Seq<
    ShapeOrInvisible,
>
    decreases places.len(),
{
    if places.len() == 0 {
        filled(shape)
    } else {
        let rest = painted(shape, places.drop_last(), slot);
        match index_of(places.last().0 as int, places.last().1 as int, BOARD_SIZE as int) {
            Some(index) => rest.update(index, slot),
            None => rest,
        }
    }
}

/// The special explained after the maps finished so far: the newest one
/// unlocked. `None` before the first map is finished.
pub open spec fn explained(finishes: MapFinishes) -> Option<Explained> {
    if finishes.map3 {
        Some(Explained::Eliminator)
    } else if finishes.map2 {
        Some(Explained::Liner)
    } else if finishes.map1 {
        Some(Explained::Bomb)
    } else {
        None
    }
}

/// The three example boards of a special, in the order in which they are
/// shown.
pub open spec fn examples(special: Explained) -> Seq<Seq<ShapeOrInvisible>> {
    match special {
        Explained::Liner => seq![
            painted(Shape::Blue, liner_places(), ShapeOrInvisible::Shape(Shape::Red)),
            painted(
                Shape::Blue,
                seq![(3i64, 3i64)],
                ShapeOrInvisible::Shape(Shape::VerticalLiner),
            ),
            painted(Shape::Blue, liner_places(), ShapeOrInvisible::Invisible),
        ],
        Explained::Bomb => seq![
            painted(Shape::Blue, bend_places(), ShapeOrInvisible::Shape(Shape::Red)),
            painted(Shape::Blue, seq![(2i64, 4i64)], ShapeOrInvisible::Shape(Shape::Bomb)),
            painted(Shape::Blue, blast_places(), ShapeOrInvisible::Invisible),
        ],
        Explained::Eliminator => seq![
            painted(Shape::Blue, row_places(), ShapeOrInvisible::Shape(Shape::Red)),
            painted(
                Shape::Blue,
                seq![(3i64, 3i64)],
                ShapeOrInvisible::Shape(Shape::Eliminator),
            ),
            painted(Shape::Blue, scattered_places(), ShapeOrInvisible::Invisible),
        ],
    }
}

/// The third column.
pub open spec fn liner_places() -> Seq<(i64, i64)> {
    seq![(1i64, 3i64), (2i64, 3i64), (3i64, 3i64), (4i64, 3i64), (5i64, 3i64)]
}

/// A bend with its corner at the second row and fourth column.
pub open spec fn bend_places() -> Seq<(i64, i64)> {
    seq![(2i64, 2i64), (2i64, 3i64), (2i64, 4i64), (3i64, 4i64), (4i64, 4i64)]
}

/// The three by three block around the second row and fourth column.
pub open spec fn blast_places() -> Seq<(i64, i64)> {
    seq![
        (1i64, 3i64),
        (1i64, 4i64),
        (1i64, 5i64),
        (2i64, 3i64),
        (2i64, 4i64),
        (2i64, 5i64),
        (3i64, 3i64),
        (3i64, 4i64),
        (3i64, 5i64),
    ]
}

/// The third row.
pub open spec fn row_places() -> Seq<(i64, i64)> {
    seq![(3i64, 1i64), (3i64, 2i64), (3i64, 3i64), (3i64, 4i64), (3i64, 5i64)]
}

/// Fifteen places all over the board, the middle among them.
pub open spec fn scattered_places() -> Seq<(i64, i64)> {
    seq![
        (3i64, 3i64),
        (3i64, 2i64),
        (1i64, 5i64),
        (1i64, 1i64),
        (4i64, 4i64),
        (2i64, 3i64),
        (5i64, 3i64),
        (2i64, 1i64),
        (4i64, 1i64),
        (1i64, 3i64),
        (4i64, 2i64),
        (5i64, 2i64),
        (1i64, 2i64),
        (2i64, 5i64),
        (4i64, 5i64),
    ]
}

/// A standard board with `shape` in every slot.
pub fn get_board_shapes(shape: Shape) -> (board_shapes: Vec<ShapeOrInvisible>)
    ensures
        board_shapes@ == filled(shape),
{
    let mut board_shapes: Vec<ShapeOrInvisible> = Vec::new();
    let mut k: usize = 0;
    while k < BOARD_SIZE * BOARD_SIZE
        invariant
            k <= BOARD_SIZE * BOARD_SIZE,
            board_shapes@.len() == k,
            forall|i: int| 0 <= i < k ==> board_shapes@[i] == ShapeOrInvisible::Shape(shape),
        decreases BOARD_SIZE * BOARD_SIZE - k,
    {
        board_shapes.push(ShapeOrInvisible::Shape(shape));
        k += 1;
    }
    board_shapes
}

/// A standard board with `slot` at each of `places` and `shape` everywhere
/// else.
pub fn paint(shape: Shape, places: &[(i64, i64)], slot: ShapeOrInvisible) -> (board_shapes: Vec<
    ShapeOrInvisible,
>)
    ensures
        board_shapes@ == painted(shape, places@, slot),
{
    let mut board_shapes = get_board_shapes(shape);
    let mut k: usize = 0;
    while k < places.len()
        invariant
            k <= places@.len(),
            board_shapes@ == painted(shape, places@.take(k as int), slot),
            board_shapes@.len() == BOARD_SIZE * BOARD_SIZE,
        decreases places@.len() - k,
    {
        assert(places@.take(k + 1).drop_last() =~= places@.take(k as int));
        let (row, col) = places[k];
        if let Some(index) = get_index(row, col, BOARD_SIZE) {
            board_shapes.set(index, slot);
        }
        k += 1;
    }
    assert(places@.take(k as int) =~= places@);
    board_shapes
}

/// The special to explain after the maps finished so far.
pub fn explanation_for(map_finishes: &MapFinishes) -> (special: Option<Explained>)
    ensures
        special == explained(*map_finishes),
{
    if map_finishes.map3 {
        Some(Explained::Eliminator)
    } else if map_finishes.map2 {
        Some(Explained::Liner)
    } else if map_finishes.map1 {
        Some(Explained::Bomb)
    } else {
        None
    }
}

/// The three example boards for liners: five in a column, the liner they
/// leave, and the column it clears.
pub fn spawn_liner_explanation_boards() -> (boards: Vec<Vec<ShapeOrInvisible>>)
    ensures
        boards@.len() == 3,
        forall|k: int| 0 <= k < 3 ==> (#[trigger] boards@[k])@ == examples(Explained::Liner)[k],
{
    let column: [(i64, i64); 5] = [(1, 3), (2, 3), (3, 3), (4, 3), (5, 3)];
    let middle: [(i64, i64); 1] = [(3, 3)];
    assert(middle@ =~= seq![(3i64, 3i64)]);
    let mut boards: Vec<Vec<ShapeOrInvisible>> = Vec::new();
    boards.push(paint(Shape::Blue, &column, ShapeOrInvisible::Shape(Shape::Red)));
    boards.push(paint(Shape::Blue, &middle, ShapeOrInvisible::Shape(Shape::VerticalLiner)));
    boards.push(paint(Shape::Blue, &column, ShapeOrInvisible::Invisible));
    boards
}

/// The three example boards for bombs: a bend of five, the bomb it leaves,
/// and the block it clears.
pub fn spawn_bomb_explanation_boards() -> (boards: Vec<Vec<ShapeOrInvisible>>)
    ensures
        boards@.len() == 3,
        forall|k: int| 0 <= k < 3 ==> (#[trigger] boards@[k])@ == examples(Explained::Bomb)[k],
{
    let bend: [(i64, i64); 5] = [(2, 2), (2, 3), (2, 4), (3, 4), (4, 4)];
    let corner: [(i64, i64); 1] = [(2, 4)];
    assert(corner@ =~= seq![(2i64, 4i64)]);
    let blast: [(i64, i64); 9] = [
        (1, 3),
        (1, 4),
        (1, 5),
        (2, 3),
        (2, 4),
        (2, 5),
        (3, 3),
        (3, 4),
        (3, 5),
    ];
    let mut boards: Vec<Vec<ShapeOrInvisible>> = Vec::new();
    boards.push(paint(Shape::Blue, &bend, ShapeOrInvisible::Shape(Shape::Red)));
    boards.push(paint(Shape::Blue, &corner, ShapeOrInvisible::Shape(Shape::Bomb)));
    boards.push(paint(Shape::Blue, &blast, ShapeOrInvisible::Invisible));
    boards
}

/// The three example boards for eliminators: five in a row, the eliminator
/// they leave, and fifteen cells that it clears.
pub fn spawn_eliminator_explanation_boards() -> (boards: Vec<Vec<ShapeOrInvisible>>)
    ensures
        boards@.len() == 3,
        forall|k: int|
            0 <= k < 3 ==> (#[trigger] boards@[k])@ == examples(Explained::Eliminator)[k],
{
    let row: [(i64, i64); 5] = [(3, 1), (3, 2), (3, 3), (3, 4), (3, 5)];
    let middle: [(i64, i64); 1] = [(3, 3)];
    assert(middle@ =~= seq![(3i64, 3i64)]);
    let scattered: [(i64, i64); 15] = [
        (3, 3),
        (3, 2),
        (1, 5),
        (1, 1),
        (4, 4),
        (2, 3),
        (5, 3),
        (2, 1),
        (4, 1),
        (1, 3),
        (4, 2),
        (5, 2),
        (1, 2),
        (2, 5),
        (4, 5),
    ];
    let mut boards: Vec<Vec<ShapeOrInvisible>> = Vec::new();
    boards.push(paint(Shape::Blue, &row, ShapeOrInvisible::Shape(Shape::Red)));
    boards.push(paint(Shape::Blue, &middle, ShapeOrInvisible::Shape(Shape::Eliminator)));
    boards.push(paint(Shape::Blue, &scattered, ShapeOrInvisible::Invisible));
    boards
}

} // verus!
