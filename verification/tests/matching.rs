use match_three::board::{Board, Cell};
use match_three::matches::{get_matches_general, match_centered_at};
use match_three::resolver::{
    handle_regular_matches, resolve_matches, spawn_bombs_from_matches,
    spawn_eliminators_from_matches, spawn_liners_from_matches, MatchMade, UnlockFlags,
};
use match_three::shape::Shape;
use match_three::swap::request_swap;
use match_three::templates::{
    get_bomb_matches, get_matches_eliminator, get_matches_liner, get_matches_three,
};
use match_three::utils::get_entity;

const PALETTE: [Shape; 3] = [Shape::Blue, Shape::Green, Shape::Pink];

/// A board without any match: no two neighbours hold the same piece.
fn quiet_shapes(size: usize) -> Vec<Shape> {
    let mut shapes = Vec::new();
    for row in 1..=size {
        for col in 1..=size {
            shapes.push(PALETTE[(row + 2 * col) % 3]);
        }
    }
    shapes
}

/// The cell at `(row, col)` gets the identity `10 * row + col`.
fn board_of(size: usize, shapes: &[Shape]) -> Board {
    let mut cells = Vec::new();
    for (index, shape) in shapes.iter().enumerate() {
        let id = (10 * (index / size + 1) + index % size + 1) as u64;
        cells.push(Cell { id, shape: *shape, deletion: false, bottom: 0 });
    }
    Board::new(size, cells).unwrap()
}

fn with_red(size: usize, places: &[(usize, usize)]) -> Board {
    let mut shapes = quiet_shapes(size);
    for (row, col) in places {
        shapes[(row - 1) * size + col - 1] = Shape::Red;
    }
    board_of(size, &shapes)
}

fn marked(board: &Board) -> Vec<u64> {
    board.cells().iter().filter(|c| c.deletion).map(|c| c.id).collect()
}

fn shape_at(board: &Board, row: i64, col: i64) -> Shape {
    let id = get_entity(row, col, board).unwrap();
    board.cell(board.find(id).unwrap()).unwrap().shape
}

const ONLY_TRIPLES: UnlockFlags =
    UnlockFlags { eliminator_unlocked: false, bomb_unlocked: false, liner_unlocked: false };
const ALL_UNLOCKED: UnlockFlags =
    UnlockFlags { eliminator_unlocked: true, bomb_unlocked: true, liner_unlocked: true };

#[test]
fn quiet_board_has_no_match_of_any_kind() {
    let mut board = board_of(5, &quiet_shapes(5));
    assert!(get_matches_three(&board).is_empty());
    assert!(get_bomb_matches(&board).is_empty());
    assert!(get_matches_eliminator(&board).is_empty());
    let (horizontal, vertical) = get_matches_liner(&board);
    assert!(horizontal.is_empty() && vertical.is_empty());
    let before = board.cells();
    let mut made = Vec::new();
    resolve_matches(&mut board, ALL_UNLOCKED, &mut made);
    assert!(made.is_empty());
    assert_eq!(board.cells(), before);
}

#[test]
fn three_rows_of_three_give_one_match_per_row() {
    let (red, blue, green) = (Shape::Red, Shape::Blue, Shape::Green);
    let mut board = board_of(3, &[red, red, red, blue, blue, blue, green, green, green]);
    let matches = get_matches_three(&board);
    assert_eq!(matches.len(), 3);
    for (k, found) in matches.iter().enumerate() {
        let row = (k + 1) as u64;
        assert_eq!(found.center, 10 * row + 1);
        assert_eq!(found.matched_shapes, vec![10 * row + 2, 10 * row + 3]);
    }
    let mut made: Vec<MatchMade> = Vec::new();
    resolve_matches(&mut board, ONLY_TRIPLES, &mut made);
    assert_eq!(made.len(), 3);
    assert_eq!(marked(&board), vec![11, 12, 13, 21, 22, 23, 31, 32, 33]);
    assert_eq!(board.cells().iter().map(|c| c.shape).collect::<Vec<_>>(), vec![
        red, red, red, blue, blue, blue, green, green, green
    ]);
}

#[test]
fn column_of_three_is_matched_from_its_top() {
    let board = with_red(5, &[(2, 4), (3, 4), (4, 4)]);
    let matches = get_matches_three(&board);
    assert_eq!(matches.len(), 1);
    assert_eq!(matches[0].center, 24);
    assert_eq!(matches[0].matched_shapes, vec![34, 44]);
}

#[test]
fn matches_come_in_scan_order_rows_then_columns() {
    let board = with_red(5, &[(4, 1), (4, 2), (4, 3), (1, 5), (2, 5), (3, 5), (1, 1), (1, 2), (1, 3)]);
    let matches = get_matches_three(&board);
    let centers: Vec<u64> = matches.iter().map(|m| m.center).collect();
    assert_eq!(centers, vec![11, 41, 15]);
}

#[test]
fn template_must_lie_on_the_board() {
    let board = with_red(5, &[(1, 4), (1, 5)]);
    assert!(match_centered_at(&board, 3, &vec![(0, 1), (0, 2)]).is_none());
    assert!(match_centered_at(&board, 25, &vec![]).is_none());
    let alone = match_centered_at(&board, 3, &vec![]).unwrap();
    assert_eq!(alone.center, 14);
    assert!(alone.matched_shapes.is_empty());
    let pair = match_centered_at(&board, 3, &vec![(0, 1)]).unwrap();
    assert_eq!(pair.matched_shapes, vec![15]);
}

#[test]
fn marked_cell_takes_no_part_in_a_match() {
    let mut board = with_red(5, &[(2, 1), (2, 2), (2, 3)]);
    assert_eq!(get_matches_three(&board).len(), 1);
    board.mark_all(&vec![23]);
    assert!(get_matches_three(&board).is_empty());
    board.unmark_all(&vec![23]);
    board.mark_all(&vec![21]);
    assert!(get_matches_three(&board).is_empty());
}

#[test]
fn specials_are_never_matched() {
    for special in [Shape::Bomb, Shape::HorizontalLiner, Shape::VerticalLiner, Shape::Eliminator] {
        let mut board = with_red(5, &[(2, 1), (2, 2), (2, 3)]);
        board.reshape_all(&vec![21, 22, 23], special);
        assert!(get_matches_three(&board).is_empty());
        assert!(get_matches_general(&board, &vec![(0, 1)]).iter().all(|m| m.center / 10 != 2
            || m.center % 10 > 3));
    }
}

#[test]
fn run_of_four_without_swap_promotes_the_centre() {
    let mut board = with_red(5, &[(3, 1), (3, 2), (3, 3), (3, 4)]);
    let (horizontal, vertical) = get_matches_liner(&board);
    assert_eq!(horizontal.len(), 1);
    assert!(vertical.is_empty());
    assert_eq!(horizontal[0].center, 31);
    assert_eq!(horizontal[0].matched_shapes, vec![32, 33, 34]);
    let mut made = Vec::new();
    resolve_matches(
        &mut board,
        UnlockFlags { eliminator_unlocked: false, bomb_unlocked: false, liner_unlocked: true },
        &mut made,
    );
    assert_eq!(made.len(), 1);
    assert_eq!(shape_at(&board, 3, 1), Shape::HorizontalLiner);
    assert_eq!(marked(&board), vec![32, 33, 34]);
    assert_eq!(shape_at(&board, 3, 2), Shape::Red);
}

#[test]
fn column_of_four_gives_a_vertical_liner() {
    let mut board = with_red(5, &[(1, 2), (2, 2), (3, 2), (4, 2)]);
    let mut made = Vec::new();
    spawn_liners_from_matches(&mut board, &mut made);
    assert_eq!(made.len(), 1);
    assert_eq!(shape_at(&board, 1, 2), Shape::VerticalLiner);
    assert_eq!(marked(&board), vec![22, 32, 42]);
}

#[test]
fn run_of_four_promotes_the_swapped_cell() {
    let mut board = with_red(5, &[(1, 1), (2, 2), (1, 3), (1, 4)]);
    assert!(request_swap(&mut board, 12, 22));
    assert_eq!(get_entity(1, 2, &board), Some(22));
    let mut made = Vec::new();
    resolve_matches(
        &mut board,
        UnlockFlags { eliminator_unlocked: false, bomb_unlocked: false, liner_unlocked: true },
        &mut made,
    );
    assert_eq!(made.len(), 1);
    assert_eq!(shape_at(&board, 1, 2), Shape::HorizontalLiner);
    assert_eq!(shape_at(&board, 1, 1), Shape::Red);
    assert_eq!(marked(&board), vec![11, 13, 14]);
}

#[test]
fn run_of_five_with_eliminators_makes_one_match() {
    let mut board = with_red(5, &[(3, 1), (3, 2), (3, 3), (3, 4), (3, 5)]);
    let matches = get_matches_eliminator(&board);
    assert_eq!(matches.len(), 1);
    assert_eq!(matches[0].center, 33);
    assert_eq!(matches[0].matched_shapes, vec![32, 31, 34, 35]);
    let mut made = Vec::new();
    resolve_matches(&mut board, ALL_UNLOCKED, &mut made);
    assert_eq!(made.len(), 1);
    assert_eq!(shape_at(&board, 3, 3), Shape::Eliminator);
    assert_eq!(marked(&board), vec![31, 32, 34, 35]);
}

#[test]
fn column_of_five_makes_an_eliminator_in_its_middle() {
    let mut board = with_red(5, &[(1, 4), (2, 4), (3, 4), (4, 4), (5, 4)]);
    let mut made = Vec::new();
    spawn_eliminators_from_matches(&mut board, &mut made);
    assert_eq!(made.len(), 1);
    assert_eq!(shape_at(&board, 3, 4), Shape::Eliminator);
    assert_eq!(marked(&board), vec![14, 24, 44, 54]);
}

#[test]
fn run_of_five_with_eliminators_locked_falls_to_triples() {
    let mut board = with_red(5, &[(3, 1), (3, 2), (3, 3), (3, 4), (3, 5)]);
    let mut made = Vec::new();
    resolve_matches(&mut board, ONLY_TRIPLES, &mut made);
    assert!(board.cells().iter().all(|c| c.shape != Shape::Eliminator));
    let gone = marked(&board);
    assert!(gone.contains(&31) && gone.contains(&32) && gone.contains(&33));
    assert_eq!(gone, vec![31, 32, 33, 34, 35]);
    assert_eq!(made.len(), 3);
}

#[test]
fn bend_makes_a_bomb_at_its_corner() {
    let mut board = with_red(5, &[(2, 2), (2, 3), (2, 4), (3, 4), (4, 4)]);
    let matches = get_bomb_matches(&board);
    assert_eq!(matches.len(), 1);
    assert_eq!(matches[0].center, 24);
    assert_eq!(matches[0].matched_shapes, vec![23, 22, 34, 44]);
    let mut made = Vec::new();
    spawn_bombs_from_matches(&mut board, &mut made);
    assert_eq!(made.len(), 1);
    assert_eq!(shape_at(&board, 2, 4), Shape::Bomb);
    assert_eq!(marked(&board), vec![22, 23, 34, 44]);
    handle_regular_matches(&mut board, &mut made);
    assert_eq!(made.len(), 1);
}

#[test]
fn all_four_bends_are_found() {
    for (corner, arms) in [
        ((3usize, 3usize), [(3usize, 1usize), (3, 2), (4, 3), (5, 3)]),
        ((3, 3), [(3, 1), (3, 2), (2, 3), (1, 3)]),
        ((3, 3), [(3, 4), (3, 5), (4, 3), (5, 3)]),
        ((3, 3), [(3, 4), (3, 5), (2, 3), (1, 3)]),
    ] {
        let mut places = arms.to_vec();
        places.push(corner);
        let board = with_red(5, &places);
        let matches = get_bomb_matches(&board);
        assert_eq!(matches.len(), 1);
        assert_eq!(matches[0].center, 33);
    }
}

#[test]
fn locked_specials_leave_a_run_of_four_to_triples() {
    let mut board = with_red(5, &[(3, 1), (3, 2), (3, 3), (3, 4)]);
    let mut made = Vec::new();
    resolve_matches(&mut board, ONLY_TRIPLES, &mut made);
    assert_eq!(made.len(), 2);
    assert_eq!(marked(&board), vec![31, 32, 33, 34]);
    assert!(board.cells().iter().all(|c| !c.shape.is_special()));
}
