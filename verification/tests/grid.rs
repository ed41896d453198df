use match_three::board::{spawn_shapes_into_board, Board, BoardState, Cell, BOARD_SIZE};
use match_three::shape::Shape;
use match_three::utils::{get_entity, get_index, get_row_col};

fn plain_board(size: usize) -> Board {
    let mut cells = Vec::new();
    for id in 0..(size * size) as u64 {
        cells.push(Cell { id: id + 100, shape: Shape::Blue, deletion: false, bottom: 0 });
    }
    Board::new(size, cells).unwrap()
}

#[test]
fn index_is_row_major_from_one() {
    assert_eq!(get_index(1, 1, 5), Some(0));
    assert_eq!(get_index(1, 5, 5), Some(4));
    assert_eq!(get_index(2, 1, 5), Some(5));
    assert_eq!(get_index(3, 3, 5), Some(12));
    assert_eq!(get_index(5, 5, 5), Some(24));
}

#[test]
fn index_is_none_outside_the_grid() {
    assert_eq!(get_index(0, 1, 5), None);
    assert_eq!(get_index(1, 0, 5), None);
    assert_eq!(get_index(6, 1, 5), None);
    assert_eq!(get_index(1, 6, 5), None);
    assert_eq!(get_index(-1, -1, 5), None);
    assert_eq!(get_index(1, 1, 0), None);
}

#[test]
fn index_covers_every_slot_once() {
    let size = 4usize;
    let mut seen = vec![false; size * size];
    for row in 1..=size as i64 {
        for col in 1..=size as i64 {
            let index = get_index(row, col, size).unwrap();
            assert!(index < size * size);
            assert!(!seen[index]);
            seen[index] = true;
        }
    }
    assert!(seen.iter().all(|s| *s));
}

#[test]
fn entity_and_row_col_round_trip() {
    let board = plain_board(5);
    for row in 1..=5i64 {
        for col in 1..=5i64 {
            let entity = get_entity(row, col, &board).unwrap();
            assert_eq!(get_row_col(entity, &board), (row as usize, col as usize));
        }
    }
    assert_eq!(get_entity(0, 3, &board), None);
    assert_eq!(get_entity(3, 6, &board), None);
}

#[test]
fn new_board_is_in_play_without_a_swapped_pair() {
    let board = plain_board(3);
    assert_eq!(board.size(), 3);
    assert_eq!(board.len(), 9);
    assert_eq!(board.state(), BoardState::InPlay);
    assert_eq!(board.just_swapped(), None);
}

#[test]
fn new_board_refuses_wrong_count_or_repeated_identity() {
    let cell = |id: u64| Cell { id, shape: Shape::Red, deletion: false, bottom: 0 };
    assert!(Board::new(2, vec![cell(1), cell(2), cell(3)]).is_none());
    assert!(Board::new(2, vec![cell(1), cell(2), cell(3), cell(1)]).is_none());
    assert!(Board::new(2, vec![cell(1), cell(2), cell(3), cell(4)]).is_some());
    assert!(Board::new(0, vec![]).is_some());
}

#[test]
fn double_swap_restores_the_layout() {
    let mut board = plain_board(4);
    let before = board.cells();
    let a = get_entity(1, 2, &board).unwrap();
    let b = get_entity(4, 3, &board).unwrap();
    board.swap(a, b);
    assert_eq!(get_row_col(a, &board), (4, 3));
    assert_eq!(get_row_col(b, &board), (1, 2));
    board.swap(a, b);
    assert_eq!(board.cells(), before);
}

#[test]
fn fresh_board_holds_plain_pieces_at_rest() {
    let entities: Vec<u64> = (0..25).map(|k| 1000 + 7 * k).collect();
    let board = spawn_shapes_into_board(BOARD_SIZE, &entities).unwrap();
    assert_eq!(board.entities(), entities);
    assert_eq!(board.state(), BoardState::InPlay);
    assert_eq!(board.just_swapped(), None);
    for cell in board.cells() {
        assert!(!cell.shape.is_special());
        assert!(!cell.deletion);
        assert_eq!(cell.bottom, 0);
    }
}

#[test]
fn fresh_board_refuses_wrong_count_or_repeated_identity() {
    let short: Vec<u64> = (0..24).collect();
    assert!(spawn_shapes_into_board(5, &short).is_none());
    let mut twice: Vec<u64> = (0..25).collect();
    twice[24] = 3;
    assert!(spawn_shapes_into_board(5, &twice).is_none());
    assert!(spawn_shapes_into_board(usize::MAX, &short).is_none());
}

#[test]
fn cells_are_found_by_identity_and_by_index() {
    let board = plain_board(3);
    assert_eq!(board.find(100), Some(0));
    assert_eq!(board.find(108), Some(8));
    assert_eq!(board.find(99), None);
    assert_eq!(board.cell(4).unwrap().id, 104);
    assert_eq!(board.cell(9), None);
    assert_eq!(board.entities(), (100..109).collect::<Vec<u64>>());
}
