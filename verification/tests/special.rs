use match_three::activation::{
    eliminate, eliminate_with, explode_bomb, get_line_of_shapes, get_surrounding_shapes,
    remove_line,
};
use match_three::board::{Board, Cell, JustSwappedShapes};
use match_three::shape::{get_random_shape, plain_shapes, shape_of_draw, Shape, Tint};
use match_three::swap::{
    handle_swap_shape_events, is_next_to, request_swap, request_swap_with,
    take_action_for_special, take_action_for_special_with, write_swap_shape_event, SwapShapes,
};
use match_three::utils::get_entity;

/// A board of blue pieces; the cell at `(row, col)` has identity `10 * row + col`.
fn blue_board(size: usize) -> Board {
    let mut cells = Vec::new();
    for index in 0..size * size {
        let id = (10 * (index / size + 1) + index % size + 1) as u64;
        cells.push(Cell { id, shape: Shape::Blue, deletion: false, bottom: 0 });
    }
    Board::new(size, cells).unwrap()
}

fn marks_of(board: &Board) -> Vec<u64> {
    board.cells().iter().filter(|c| c.deletion).map(|c| c.id).collect()
}

#[test]
fn specials_and_plain_pieces_are_told_apart() {
    for plain in [Shape::Red, Shape::Blue, Shape::Green, Shape::Pink] {
        assert!(!plain.is_special());
    }
    for special in [Shape::Bomb, Shape::HorizontalLiner, Shape::VerticalLiner, Shape::Eliminator] {
        assert!(special.is_special());
    }
}

#[test]
fn every_piece_has_its_tint_and_liners_share_one() {
    assert_eq!(Shape::Red.color(), Tint::Red);
    assert_eq!(Shape::Blue.color(), Tint::Blue);
    assert_eq!(Shape::Green.color(), Tint::Green);
    assert_eq!(Shape::Pink.color(), Tint::Pink);
    assert_eq!(Shape::Bomb.color(), Tint::Gray);
    assert_eq!(Shape::HorizontalLiner.color(), Tint::Yellow);
    assert_eq!(Shape::VerticalLiner.color(), Tint::Yellow);
    assert_eq!(Shape::Eliminator.color(), Tint::Purple);
}

#[test]
fn draw_is_made_among_the_four_plain_pieces() {
    assert_eq!(plain_shapes(), vec![Shape::Red, Shape::Pink, Shape::Blue, Shape::Green]);
    for color in plain_shapes() {
        assert_eq!(shape_of_draw(Some(color)), color);
    }
    assert_eq!(shape_of_draw(Some(Shape::Bomb)), Shape::Bomb);
    assert_eq!(shape_of_draw(None), Shape::Red);
}

#[test]
fn random_shape_is_plain_and_varies() {
    let mut seen = Vec::new();
    for _ in 0..400 {
        let shape = get_random_shape();
        assert!(!shape.is_special());
        if !seen.contains(&shape) {
            seen.push(shape);
        }
    }
    assert!(seen.len() >= 2);
}

#[test]
fn bomb_in_the_middle_clears_nine_cells() {
    let mut board = blue_board(5);
    board.reshape_all(&vec![33], Shape::Bomb);
    assert_eq!(get_surrounding_shapes(&board, 3, 3), vec![22, 23, 24, 32, 34, 42, 43, 44]);
    explode_bomb(&mut board, 33);
    assert_eq!(marks_of(&board), vec![22, 23, 24, 32, 33, 34, 42, 43, 44]);
}

#[test]
fn bomb_in_a_corner_or_on_an_edge_clears_fewer_cells() {
    let mut board = blue_board(5);
    explode_bomb(&mut board, 11);
    assert_eq!(marks_of(&board), vec![11, 12, 21, 22]);
    let mut board = blue_board(5);
    explode_bomb(&mut board, 55);
    assert_eq!(marks_of(&board), vec![44, 45, 54, 55]);
    let mut board = blue_board(5);
    explode_bomb(&mut board, 31);
    assert_eq!(marks_of(&board), vec![21, 22, 31, 32, 41, 42]);
    let mut board = blue_board(1);
    explode_bomb(&mut board, 11);
    assert_eq!(marks_of(&board), vec![11]);
}

#[test]
fn surrounding_cells_of_a_place_off_the_board() {
    let board = blue_board(3);
    assert_eq!(get_surrounding_shapes(&board, 0, 0), vec![11]);
    assert_eq!(get_surrounding_shapes(&board, 7, 7), Vec::<u64>::new());
    assert_eq!(get_surrounding_shapes(&board, i64::MIN, i64::MAX), Vec::<u64>::new());
}

#[test]
fn liner_clears_its_row_or_its_column() {
    let mut board = blue_board(5);
    assert_eq!(get_line_of_shapes(&board, 2, 4, true), vec![21, 22, 23, 25]);
    assert_eq!(get_line_of_shapes(&board, 2, 4, false), vec![14, 34, 44, 54]);
    remove_line(&mut board, 24, true);
    assert_eq!(marks_of(&board), vec![21, 22, 23, 24, 25]);
    let mut board = blue_board(5);
    remove_line(&mut board, 24, false);
    assert_eq!(marks_of(&board), vec![14, 24, 34, 44, 54]);
}

#[test]
fn eliminator_takes_the_given_victims_and_itself() {
    let mut board = blue_board(4);
    eliminate_with(&mut board, 22, &vec![11, 44, 31, 99]);
    assert_eq!(marks_of(&board), vec![11, 22, 31, 44]);
}

#[test]
fn eliminator_draws_three_cells_per_row_without_repeats() {
    for _ in 0..50 {
        let mut board = blue_board(5);
        eliminate(&mut board, 33);
        let marks = marks_of(&board);
        assert!(marks.contains(&33));
        assert!(marks.len() == 15 || marks.len() == 16);
    }
}

#[test]
fn eliminator_on_a_small_board_takes_every_cell() {
    let mut board = blue_board(2);
    eliminate(&mut board, 11);
    assert_eq!(marks_of(&board), vec![11, 12, 21, 22]);
    let mut board = blue_board(3);
    eliminate(&mut board, 11);
    assert_eq!(marks_of(&board).len(), 9);
}

#[test]
fn marking_twice_is_marking_once() {
    let mut board = blue_board(5);
    explode_bomb(&mut board, 22);
    remove_line(&mut board, 22, true);
    assert_eq!(marks_of(&board), vec![11, 12, 13, 21, 22, 23, 24, 25, 31, 32, 33]);
    let once = board.cells();
    explode_bomb(&mut board, 22);
    assert_eq!(board.cells(), once);
}

#[test]
fn each_special_has_its_own_effect() {
    let mut board = blue_board(5);
    take_action_for_special_with(&mut board, 33, &vec![11]);
    assert!(marks_of(&board).is_empty());
    board.reshape_all(&vec![33], Shape::HorizontalLiner);
    take_action_for_special_with(&mut board, 33, &vec![11]);
    assert_eq!(marks_of(&board), vec![31, 32, 33, 34, 35]);
    let mut board = blue_board(5);
    board.reshape_all(&vec![33], Shape::VerticalLiner);
    take_action_for_special(&mut board, 33);
    assert_eq!(marks_of(&board), vec![13, 23, 33, 43, 53]);
    let mut board = blue_board(5);
    board.reshape_all(&vec![33], Shape::Eliminator);
    take_action_for_special_with(&mut board, 33, &vec![11, 55]);
    assert_eq!(marks_of(&board), vec![11, 33, 55]);
    let mut board = blue_board(5);
    board.reshape_all(&vec![33], Shape::Bomb);
    take_action_for_special(&mut board, 33);
    assert_eq!(marks_of(&board).len(), 9);
    let mut board = blue_board(5);
    board.reshape_all(&vec![33], Shape::Eliminator);
    take_action_for_special(&mut board, 33);
    assert!(marks_of(&board).len() >= 15 && marks_of(&board).len() <= 16);
}

#[test]
fn only_neighbours_along_a_row_or_column_are_next_to_each_other() {
    let board = blue_board(5);
    assert!(is_next_to(22, 23, &board));
    assert!(is_next_to(22, 21, &board));
    assert!(is_next_to(22, 12, &board));
    assert!(is_next_to(22, 32, &board));
    assert!(!is_next_to(22, 33, &board));
    assert!(!is_next_to(22, 22, &board));
    assert!(!is_next_to(22, 24, &board));
    assert!(!is_next_to(15, 21, &board));
    assert!(!is_next_to(22, 99, &board));
    assert!(!is_next_to(99, 22, &board));
}

#[test]
fn swap_of_distant_or_unknown_cells_changes_nothing() {
    let mut board = blue_board(5);
    board.reshape_all(&vec![11], Shape::Bomb);
    let before = board.cells();
    for (a, b) in [(11, 13), (11, 22), (11, 11), (11, 99), (98, 99), (15, 21)] {
        assert!(!request_swap(&mut board, a, b));
        assert_eq!(board.cells(), before);
        assert_eq!(board.just_swapped(), None);
    }
}

#[test]
fn accepted_swap_trades_places_and_remembers_the_pair() {
    let mut board = blue_board(5);
    board.reshape_all(&vec![23], Shape::Red);
    assert!(request_swap(&mut board, 23, 24));
    assert_eq!(get_entity(2, 3, &board), Some(24));
    assert_eq!(get_entity(2, 4, &board), Some(23));
    assert_eq!(board.just_swapped(), Some(JustSwappedShapes(23, 24)));
    assert!(marks_of(&board).is_empty());
    assert_eq!(board.cell(8).unwrap().shape, Shape::Red);
    assert_eq!(board.cell(8).unwrap().id, 23);
}

#[test]
fn swapped_special_goes_off_where_it_lands() {
    let mut board = blue_board(5);
    board.reshape_all(&vec![22], Shape::Bomb);
    assert!(request_swap(&mut board, 22, 23));
    assert_eq!(marks_of(&board), vec![12, 13, 14, 23, 22, 24, 32, 33, 34]);
    let mut board = blue_board(5);
    board.reshape_all(&vec![22], Shape::VerticalLiner);
    board.reshape_all(&vec![23], Shape::HorizontalLiner);
    assert!(request_swap_with(&mut board, 22, 23, &vec![], &vec![]));
    assert_eq!(marks_of(&board), vec![13, 21, 23, 22, 24, 25, 33, 43, 53]);
}

#[test]
fn swapped_eliminators_take_their_own_victims() {
    let mut board = blue_board(5);
    board.reshape_all(&vec![11, 12], Shape::Eliminator);
    assert!(request_swap_with(&mut board, 11, 12, &vec![55], &vec![51, 52]));
    assert_eq!(marks_of(&board), vec![12, 11, 51, 52, 55]);
}

#[test]
fn requests_are_handled_in_the_order_of_arrival() {
    let mut board = blue_board(3);
    handle_swap_shape_events(&mut board, &vec![
        SwapShapes(11, 12),
        SwapShapes(11, 13),
        SwapShapes(11, 31),
        SwapShapes(12, 21),
    ]);
    assert_eq!(board.entities(), vec![21, 13, 11, 12, 22, 23, 31, 32, 33]);
    assert_eq!(board.just_swapped(), Some(JustSwappedShapes(12, 21)));
}

#[test]
fn two_presses_make_one_request() {
    let mut last = None;
    assert_eq!(write_swap_shape_event(&mut last, 7), None);
    assert_eq!(last, Some(7));
    assert_eq!(write_swap_shape_event(&mut last, 9), Some(SwapShapes(7, 9)));
    assert_eq!(last, None);
    assert_eq!(write_swap_shape_event(&mut last, 9), None);
    assert_eq!(write_swap_shape_event(&mut last, 9), Some(SwapShapes(9, 9)));
}
