use match_three::board::{Board, BoardState, Cell};
use match_three::gravity::{
    count_deletions, update_board_after_deletions, update_board_after_deletions_with,
};
use match_three::resolver::{MatchMade, UnlockFlags};
use match_three::shape::Shape;
use match_three::swap::SwapShapes;
use match_three::turn::{animate_shape_bottoms_to_0, tick, FALLING_SPEED};

const TINTS: [Shape; 3] = [Shape::Blue, Shape::Green, Shape::Pink];

/// A board without matches; the cell at `(row, col)` has identity
/// `10 * row + col`, and the cells named in `marks` are marked.
fn board_with_marks(size: usize, marks: &[u64]) -> Board {
    let mut cells = Vec::new();
    for index in 0..size * size {
        let (row, col) = (index / size + 1, index % size + 1);
        let id = (10 * row + col) as u64;
        cells.push(Cell {
            id,
            shape: TINTS[(row + 2 * col) % 3],
            deletion: marks.contains(&id),
            bottom: 0,
        });
    }
    Board::new(size, cells).unwrap()
}

fn ids_of(board: &Board) -> Vec<u64> {
    board.cells().iter().map(|c| c.id).collect()
}

fn bottoms_of(board: &Board) -> Vec<u64> {
    board.cells().iter().map(|c| c.bottom).collect()
}

const NOTHING_UNLOCKED: UnlockFlags =
    UnlockFlags { eliminator_unlocked: false, bomb_unlocked: false, liner_unlocked: false };

#[test]
fn marks_are_counted() {
    assert_eq!(count_deletions(&board_with_marks(3, &[])), 0);
    assert_eq!(count_deletions(&board_with_marks(3, &[11, 22, 33])), 3);
    assert_eq!(count_deletions(&board_with_marks(0, &[])), 0);
}

#[test]
fn gravity_without_marks_changes_nothing() {
    let mut board = board_with_marks(3, &[]);
    let before = board.cells();
    assert!(update_board_after_deletions_with(&mut board, &vec![]));
    assert_eq!(board.cells(), before);
    assert_eq!(board.state(), BoardState::InPlay);
    update_board_after_deletions(&mut board);
    assert_eq!(board.cells(), before);
    assert_eq!(board.state(), BoardState::InPlay);
}

#[test]
fn survivors_fall_and_removed_cells_return_on_top() {
    let mut board = board_with_marks(3, &[21, 31, 22]);
    let before = board.cells();
    assert!(update_board_after_deletions_with(
        &mut board,
        &vec![Shape::Red, Shape::Pink, Shape::Green]
    ));
    assert_eq!(ids_of(&board), vec![21, 22, 13, 31, 12, 23, 11, 32, 33]);
    assert_eq!(bottoms_of(&board), vec![200, 100, 0, 200, 100, 0, 200, 0, 0]);
    assert!(board.cells().iter().all(|c| !c.deletion));
    assert_eq!(board.state(), BoardState::AnimatingFallingShapes);
    let after = board.cells();
    assert_eq!(after[0].shape, Shape::Red);
    assert_eq!(after[1].shape, Shape::Pink);
    assert_eq!(after[3].shape, Shape::Green);
    for cell in after.iter().filter(|c| ![21, 22, 31].contains(&c.id)) {
        let old = before.iter().find(|c| c.id == cell.id).unwrap();
        assert_eq!(cell.shape, old.shape);
    }
}

#[test]
fn column_without_marks_keeps_its_cells_in_place() {
    let mut board = board_with_marks(4, &[12, 32]);
    let before = board.cells();
    assert!(update_board_after_deletions_with(&mut board, &vec![Shape::Red, Shape::Red]));
    let after = board.cells();
    for index in 0..16 {
        if index % 4 != 1 {
            assert_eq!(after[index], before[index]);
        }
    }
    assert_eq!(
        [after[1].id, after[5].id, after[9].id, after[13].id],
        [12, 32, 22, 42]
    );
    assert_eq!(
        [after[1].bottom, after[5].bottom, after[9].bottom, after[13].bottom],
        [200, 200, 100, 0]
    );
}

#[test]
fn whole_column_removed_comes_back_in_order() {
    let mut board = board_with_marks(3, &[13, 23, 33]);
    assert!(update_board_after_deletions_with(
        &mut board,
        &vec![Shape::Red, Shape::Blue, Shape::Green, Shape::Pink]
    ));
    let after = board.cells();
    assert_eq!([after[2].id, after[5].id, after[8].id], [13, 23, 33]);
    assert_eq!([after[2].shape, after[5].shape, after[8].shape], [
        Shape::Red,
        Shape::Blue,
        Shape::Green
    ]);
    assert_eq!([after[2].bottom, after[5].bottom, after[8].bottom], [300, 300, 300]);
}

#[test]
fn unsuitable_fresh_pieces_are_refused() {
    let mut board = board_with_marks(3, &[11, 12]);
    let before = board.cells();
    assert!(!update_board_after_deletions_with(&mut board, &vec![Shape::Red]));
    assert_eq!(board.cells(), before);
    assert_eq!(board.state(), BoardState::InPlay);
    assert!(!update_board_after_deletions_with(&mut board, &vec![Shape::Red, Shape::Bomb]));
    assert_eq!(board.cells(), before);
    assert!(!update_board_after_deletions_with(
        &mut board,
        &vec![Shape::Red, Shape::Red, Shape::Eliminator]
    ));
    assert_eq!(board.cells(), before);
}

#[test]
fn gravity_keeps_every_cell_once_and_regenerates_plain_pieces() {
    let mut board = board_with_marks(5, &[11, 21, 33, 43, 53, 55, 15, 34]);
    let mut ids_before = ids_of(&board);
    update_board_after_deletions(&mut board);
    let mut ids_after = ids_of(&board);
    ids_before.sort();
    ids_after.sort();
    assert_eq!(ids_before, ids_after);
    assert!(board.cells().iter().all(|c| !c.deletion && !c.shape.is_special()));
    assert_eq!(board.state(), BoardState::AnimatingFallingShapes);
    let column_three: Vec<u64> =
        board.cells().iter().enumerate().filter(|(i, _)| i % 5 == 2).map(|(_, c)| c.id).collect();
    assert_eq!(column_three, vec![33, 43, 53, 13, 23]);
}

#[test]
fn fall_advances_until_every_cell_rests() {
    let mut board = board_with_marks(3, &[31]);
    assert!(update_board_after_deletions_with(&mut board, &vec![Shape::Red]));
    assert_eq!(bottoms_of(&board), vec![100, 0, 0, 100, 0, 0, 100, 0, 0]);
    animate_shape_bottoms_to_0(&mut board, 60);
    assert_eq!(bottoms_of(&board), vec![40, 0, 0, 40, 0, 0, 40, 0, 0]);
    assert_eq!(board.state(), BoardState::AnimatingFallingShapes);
    animate_shape_bottoms_to_0(&mut board, 0);
    assert_eq!(board.state(), BoardState::AnimatingFallingShapes);
    animate_shape_bottoms_to_0(&mut board, 60);
    assert_eq!(bottoms_of(&board), vec![0; 9]);
    assert_eq!(board.state(), BoardState::InPlay);
}

#[test]
fn falling_speed_is_three_cells_per_second() {
    assert_eq!(FALLING_SPEED, 300);
}

#[test]
fn tick_in_play_without_matches_stays_in_play() {
    let mut board = board_with_marks(5, &[]);
    let before = board.cells();
    let mut made: Vec<MatchMade> = Vec::new();
    tick(&mut board, &vec![], NOTHING_UNLOCKED, 5, &mut made);
    assert!(made.is_empty());
    assert_eq!(board.cells(), before);
    assert_eq!(board.state(), BoardState::InPlay);
}

#[test]
fn tick_resolves_a_swap_and_then_only_animates() {
    let mut board = board_with_marks(5, &[]);
    board.reshape_all(&vec![11, 12, 23], Shape::Red);
    let mut made: Vec<MatchMade> = Vec::new();
    tick(&mut board, &vec![SwapShapes(13, 23)], NOTHING_UNLOCKED, 50, &mut made);
    assert_eq!(made.len(), 1);
    assert_eq!(board.state(), BoardState::AnimatingFallingShapes);
    assert!(board.cells().iter().all(|c| !c.deletion));
    assert_eq!(&ids_of(&board)[..5], &[11, 12, 23, 14, 15]);
    assert_eq!(&bottoms_of(&board)[..5], &[100, 100, 100, 0, 0]);
    let layout = ids_of(&board);
    tick(&mut board, &vec![SwapShapes(14, 15)], NOTHING_UNLOCKED, 50, &mut made);
    assert_eq!(made.len(), 1);
    assert_eq!(ids_of(&board), layout);
    assert_eq!(&bottoms_of(&board)[..5], &[50, 50, 50, 0, 0]);
    assert_eq!(board.state(), BoardState::AnimatingFallingShapes);
    tick(&mut board, &vec![], NOTHING_UNLOCKED, 50, &mut made);
    assert_eq!(board.state(), BoardState::InPlay);
    assert_eq!(bottoms_of(&board), vec![0; 25]);
}
