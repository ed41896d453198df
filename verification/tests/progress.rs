use match_three::explanation::{
    explanation_for, get_board_shapes, paint, spawn_bomb_explanation_boards,
    spawn_eliminator_explanation_boards, spawn_liner_explanation_boards, Explained,
    ShapeOrInvisible,
};
use match_three::progress::{
    bomb_unlocked, eliminator_unlocked, go_to_board_on_click, go_to_next_screen,
    increment_total_matches, liner_unlocked, reset_total_matches, unlock_flags,
    update_map_finishes, BoardButton, CurrentMap, GameState, MapFinishes, NeededMatches,
    TotalMatches,
};
use match_three::resolver::{MatchMade, UnlockFlags};
use match_three::shape::Shape;
use match_three::utils::get_index;

fn finished(count: usize) -> MapFinishes {
    MapFinishes { map1: count >= 1, map2: count >= 2, map3: count >= 3, map4: count >= 4 }
}

#[test]
fn game_starts_on_the_start_screen_with_nothing_finished() {
    assert_eq!(GameState::default(), GameState::StartScreen);
    assert_eq!(CurrentMap::default(), CurrentMap::NoMap);
    assert_eq!(MapFinishes::default(), finished(0));
    assert_eq!(*CurrentMap::Two.get(), CurrentMap::Two);
}

#[test]
fn each_finished_map_unlocks_its_special() {
    assert!(!bomb_unlocked(&finished(0)));
    assert!(bomb_unlocked(&finished(1)) && !liner_unlocked(&finished(1)));
    assert!(liner_unlocked(&finished(2)) && !eliminator_unlocked(&finished(2)));
    assert!(eliminator_unlocked(&finished(3)));
    assert_eq!(unlock_flags(&finished(2)), UnlockFlags {
        eliminator_unlocked: false,
        bomb_unlocked: true,
        liner_unlocked: true
    });
}

#[test]
fn finishing_a_map_is_recorded_and_never_taken_back() {
    let mut finishes = MapFinishes::default();
    update_map_finishes(&mut finishes, &CurrentMap::NoMap);
    assert_eq!(finishes, finished(0));
    update_map_finishes(&mut finishes, &CurrentMap::One);
    assert_eq!(finishes, finished(1));
    update_map_finishes(&mut finishes, &CurrentMap::One);
    assert_eq!(finishes, finished(1));
    update_map_finishes(&mut finishes, &CurrentMap::Two);
    update_map_finishes(&mut finishes, &CurrentMap::Three);
    assert_eq!(finishes, finished(3));
    update_map_finishes(&mut finishes, &CurrentMap::Four);
    assert_eq!(finishes, finished(4));
}

#[test]
fn matches_are_counted_and_the_count_stops_at_its_limit() {
    let mut total = TotalMatches(3);
    increment_total_matches(&vec![MatchMade(), MatchMade()], &mut total);
    assert_eq!(total, TotalMatches(5));
    increment_total_matches(&vec![], &mut total);
    assert_eq!(total, TotalMatches(5));
    let mut full = TotalMatches(u32::MAX - 1);
    increment_total_matches(&vec![MatchMade(), MatchMade(), MatchMade()], &mut full);
    assert_eq!(full, TotalMatches(u32::MAX));
    reset_total_matches(&mut total);
    assert_eq!(total, TotalMatches(0));
}

#[test]
fn enough_matches_lead_to_the_next_screen() {
    assert_eq!(go_to_next_screen(&TotalMatches(9), &NeededMatches(10), &CurrentMap::One), None);
    assert_eq!(
        go_to_next_screen(&TotalMatches(10), &NeededMatches(10), &CurrentMap::One),
        Some(GameState::ExplanationScreen)
    );
    assert_eq!(
        go_to_next_screen(&TotalMatches(31), &NeededMatches(30), &CurrentMap::Three),
        Some(GameState::ExplanationScreen)
    );
    assert_eq!(
        go_to_next_screen(&TotalMatches(40), &NeededMatches(40), &CurrentMap::Four),
        Some(GameState::WinScreen)
    );
    assert_eq!(go_to_next_screen(&TotalMatches(39), &NeededMatches(40), &CurrentMap::Four), None);
}

#[test]
fn only_the_next_map_can_be_entered() {
    let buttons = BoardButton::iterator();
    assert_eq!(buttons, vec![
        BoardButton::First,
        BoardButton::Second,
        BoardButton::Third,
        BoardButton::Fourth
    ]);
    for count in 0..=4 {
        for (k, button) in buttons.iter().enumerate() {
            assert_eq!(button.map_available(&finished(count)), k == count);
        }
    }
    let odd = MapFinishes { map1: false, map2: true, map3: false, map4: false };
    assert!(buttons.iter().all(|b| !b.map_available(&odd)));
}

#[test]
fn each_map_asks_for_ten_more_matches() {
    assert_eq!(
        go_to_board_on_click(&BoardButton::First, &finished(0)),
        Some((NeededMatches(10), CurrentMap::One))
    );
    assert_eq!(
        go_to_board_on_click(&BoardButton::Second, &finished(1)),
        Some((NeededMatches(20), CurrentMap::Two))
    );
    assert_eq!(
        go_to_board_on_click(&BoardButton::Third, &finished(2)),
        Some((NeededMatches(30), CurrentMap::Three))
    );
    assert_eq!(
        go_to_board_on_click(&BoardButton::Fourth, &finished(3)),
        Some((NeededMatches(40), CurrentMap::Four))
    );
    assert_eq!(go_to_board_on_click(&BoardButton::First, &finished(1)), None);
    assert_eq!(go_to_board_on_click(&BoardButton::Fourth, &finished(4)), None);
}

#[test]
fn buttons_are_labelled_one_to_four() {
    let labels: Vec<&str> = BoardButton::iterator().iter().map(|b| b.as_str()).collect();
    assert_eq!(labels, vec!["1", "2", "3", "4"]);
}

#[test]
fn newest_unlocked_special_is_explained() {
    assert_eq!(explanation_for(&finished(0)), None);
    assert_eq!(explanation_for(&finished(1)), Some(Explained::Bomb));
    assert_eq!(explanation_for(&finished(2)), Some(Explained::Liner));
    assert_eq!(explanation_for(&finished(3)), Some(Explained::Eliminator));
    assert_eq!(explanation_for(&finished(4)), Some(Explained::Eliminator));
}

#[test]
fn example_boards_show_match_special_and_effect() {
    let blue = ShapeOrInvisible::Shape(Shape::Blue);
    let red = ShapeOrInvisible::Shape(Shape::Red);
    let at = |row: i64, col: i64| get_index(row, col, 5).unwrap();
    assert_eq!(get_board_shapes(Shape::Pink), vec![ShapeOrInvisible::Shape(Shape::Pink); 25]);
    assert_eq!(paint(Shape::Blue, &[(0, 1), (6, 6)], red), vec![blue; 25]);

    let liner = spawn_liner_explanation_boards();
    assert_eq!(liner.len(), 3);
    for index in 0..25 {
        let in_column = index % 5 == 2;
        assert_eq!(liner[0][index], if in_column { red } else { blue });
        assert_eq!(liner[2][index], if in_column { ShapeOrInvisible::Invisible } else { blue });
        assert_eq!(liner[1][index], if index == at(3, 3) {
            ShapeOrInvisible::Shape(Shape::VerticalLiner)
        } else {
            blue
        });
    }

    let bomb = spawn_bomb_explanation_boards();
    assert_eq!(bomb.len(), 3);
    let bend = [at(2, 2), at(2, 3), at(2, 4), at(3, 4), at(4, 4)];
    for index in 0..25 {
        assert_eq!(bomb[0][index], if bend.contains(&index) { red } else { blue });
        assert_eq!(bomb[1][index], if index == at(2, 4) {
            ShapeOrInvisible::Shape(Shape::Bomb)
        } else {
            blue
        });
        let (row, col) = (index / 5 + 1, index % 5 + 1);
        let cleared = row <= 3 && col >= 3;
        assert_eq!(bomb[2][index], if cleared { ShapeOrInvisible::Invisible } else { blue });
    }

    let eliminator = spawn_eliminator_explanation_boards();
    assert_eq!(eliminator.len(), 3);
    for index in 0..25 {
        assert_eq!(eliminator[0][index], if index / 5 == 2 { red } else { blue });
        assert_eq!(eliminator[1][index], if index == at(3, 3) {
            ShapeOrInvisible::Shape(Shape::Eliminator)
        } else {
            blue
        });
    }
    let cleared = eliminator[2].iter().filter(|s| **s == ShapeOrInvisible::Invisible).count();
    assert_eq!(cleared, 15);
    assert_eq!(eliminator[2][at(3, 3)], ShapeOrInvisible::Invisible);
    assert_eq!(eliminator[2][at(5, 5)], blue);
}
