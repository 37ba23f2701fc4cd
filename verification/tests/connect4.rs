use minmax_bot::game::board::Grid;
use minmax_bot::game::connect4::count_direction::CountDirection;
use minmax_bot::game::connect4::iteration::P4IteratorType;
use minmax_bot::game::connect4::ConnectFour;
use minmax_bot::game::Game;
use minmax_bot::min_max::node::GameNode;

#[test]
fn get_winner() {
    let mut power4 = ConnectFour::new();
    let p1 = 1u8;
    let p2 = 2u8;

    for _ in 1..=2 {
        for column in 1..=7 {
            power4.play_usize(p1, column).unwrap();
        }
    }
    power4.play_usize(p1, 2).unwrap();
    power4.play_usize(p1, 3).unwrap();
    power4.play_usize(p1, 4).unwrap();
    power4.play_usize(p1, 3).unwrap();
    power4.play_usize(p1, 4).unwrap();
    power4.play_usize(p1, 4).unwrap();

    power4.play_usize(p2, 1).unwrap();
    power4.play_usize(p2, 2).unwrap();
    power4.play_usize(p2, 3).unwrap();
    power4.play_usize(p2, 4).unwrap();

    assert_eq!(power4.get_winner(), Some(p2));
}

#[test]
fn min_max_should_not_help_winning() {
    let mut power4 = ConnectFour::new();
    let p1 = 1u8;
    let p2 = 2u8;

    power4.play_usize(p2, 3).unwrap();
    power4.play_usize(p2, 4).unwrap();

    for _ in 0..3 {
        power4.play_usize(p2, 5).unwrap();
    }

    power4.play_usize(p1, 2).unwrap();
    power4.play_usize(p1, 3).unwrap();
    power4.play_usize(p1, 5).unwrap();
    power4.play_usize(p1, 6).unwrap();

    // here we do not want to play 4, as it would make us loose

    let mut game_tree = GameNode::new_root(power4.clone(), p2, 0);
    game_tree.explore_children(p2, 2, 0);
    let wrong_play = 4usize;
    let wrong_chosen_node = &game_tree
        .children()
        .iter()
        .find(|(play, _)| play == &wrong_play)
        .unwrap()
        .1;
    assert_ne!(wrong_chosen_node.weight().unwrap(), 0);
}

#[test]
fn count_in_direction() {
    let mut power4 = ConnectFour::new();
    let p1 = 1u8;

    power4.play_usize(p1, 1).unwrap();
    power4.play_usize(p1, 2).unwrap();
    power4.play_usize(p1, 3).unwrap();
    power4.play_usize(p1, 4).unwrap();

    assert_eq!(
        power4.count_in_direction((5, 2), CountDirection::HorizontalLeft, 10),
        2
    );
    assert_eq!(
        power4.count_in_direction((5, 2), CountDirection::HorizontalLeft, 1),
        1
    );
}

#[test]
fn get_score() {
    let mut power4 = ConnectFour::new();
    let p1 = 1u8;
    let p2 = 2u8;

    power4.play_usize(p2, 4).unwrap();
    power4.play_usize(p1, 4).unwrap();
    power4.play_usize(p1, 5).unwrap();

    assert_eq!(power4.get_score(p1), 10);
    assert_eq!(power4.get_score(p2), -10);
}

#[test]
fn get_score_2() {
    let mut power4 = ConnectFour::new();
    let p1 = 1u8;
    let p2 = 2u8;

    power4.play_usize(p1, 2).unwrap();
    power4.play_usize(p1, 3).unwrap();
    power4.play_usize(p1, 4).unwrap();

    assert_eq!(power4.get_score(p1), 100);

    power4.play_usize(p2, 5).unwrap();
    assert_eq!(power4.get_score(p1), 100); // there is still enough space to win
}

#[test]
fn lines_passing_at() {
    let power4 = ConnectFour::new();
    let lines = power4.lines_passing_at_longer_4((1, 1));
    assert_eq!(lines.len(), 3);
    let lines = power4.lines_passing_at_longer_4((2, 3));
    assert_eq!(
        lines
            .iter()
            .map(|iter| (iter.y, iter.x, iter.iterator_type))
            .collect::<Vec<_>>(),
        vec![
            (2, 0, P4IteratorType::Horizontal),
            (0, 3, P4IteratorType::Vertical),
            (0, 1, P4IteratorType::DiagonalDown),
            (5, 0, P4IteratorType::DiagonalUp)
        ]
    );
    assert_eq!(
        power4
            .lines_passing_at_longer_4((3, 2))
            .iter()
            .map(|iter| (iter.y, iter.x, iter.iterator_type))
            .collect::<Vec<_>>(),
        vec![
            (3, 0, P4IteratorType::Horizontal),
            (0, 2, P4IteratorType::Vertical),
            (1, 0, P4IteratorType::DiagonalDown),
            (5, 0, P4IteratorType::DiagonalUp)
        ]
    );
    let lines = power4
        .lines_passing_at_longer_4((3, 4))
        .iter()
        .map(|iter| iter.iterator_type)
        .collect::<Vec<_>>();
    for iterator_type in [
        P4IteratorType::Vertical,
        P4IteratorType::Horizontal,
        P4IteratorType::DiagonalDown,
        P4IteratorType::DiagonalUp,
    ] {
        assert!(
            lines.contains(&iterator_type),
            "Iterator type {:?} not found",
            iterator_type
        );
    }
}

#[test]
fn get_winner_2() {
    let mut power4 = ConnectFour::new();
    let p1 = 1u8;
    let p2 = 2u8;

    // AI played at 0 here:
    // - - - - - 2 -
    // - - - - - 2 -
    // - - 1 - - 2 -
    // - 1 2 1 1 1 2
    // 2 1 1 2 2 1 1
    // 2 2 2 1 1 1 2

    let plays = [
        (p2, 1),
        (p2, 2),
        (p2, 3),
        (p1, 4),
        (p2, 1),
        (p1, 2),
        (p1, 3),
        (p2, 4),
        (p1, 2),
        (p2, 3),
        (p1, 3),
        (p1, 4),
        (p2, 1),
        (p1, 1),
    ];

    for (player, column) in plays.iter() {
        power4.play_usize(*player, *column).unwrap();
    }

    assert_eq!(power4.last_played_coords.unwrap(), (2, 0));
    assert_eq!(power4.lines_passing_at_longer_4((2, 0)).len(), 3);

    assert_eq!(power4.get_winner(), Some(p1));
}

fn board_of(plays: &[(u8, usize)]) -> ConnectFour {
    let mut game = ConnectFour::new();
    for (player, column) in plays.iter() {
        game.play_usize(*player, *column).unwrap();
    }
    game
}

#[test]
fn new_board_is_empty() {
    let game = ConnectFour::new();
    for row in 0..6 {
        for column in 0..7 {
            assert_eq!(game.get((row, column)), None);
        }
    }
    assert_eq!(game.plays(), 0);
    assert_eq!(game.last_play(), None);
    assert_eq!(game.get_winner(), None);
    assert!(!game.is_full());
    assert_eq!(game.get_score(1), 0);
    assert_eq!(game.get_score(2), 0);
    assert_eq!(game.get_winner_coords(), None);
}

#[test]
fn piece_falls_to_the_lowest_free_cell() {
    let mut game = ConnectFour::new();
    game.play(1, 3).unwrap();
    assert_eq!(game.get((5, 2)), Some(&1));
    assert_eq!(game.last_played_coords, Some((5, 2)));
    game.play(2, 3).unwrap();
    assert_eq!(game.get((4, 2)), Some(&2));
    assert_eq!(game.get((3, 2)), None);
    assert_eq!(game.last_play(), Some(3));
    assert_eq!(game.plays(), 2);
}

#[test]
fn get_is_none_off_the_board() {
    let game = board_of(&[(1, 1)]);
    assert_eq!(game.get((5, 0)), Some(&1));
    assert_eq!(game.get((6, 0)), None);
    assert_eq!(game.get((0, 7)), None);
    assert_eq!(game.get_isize((5, 0)), Some(1));
    assert_eq!(game.get_isize((-1, 0)), None);
    assert_eq!(game.get_isize((0, -1)), None);
    assert_eq!(game.get_isize((6, 0)), None);
    assert_eq!(game.get_isize((0, 7)), None);
    assert_eq!(game.get_isize((4, 0)), None);
}

#[test]
fn play_refuses_a_column_off_the_board() {
    let mut game = board_of(&[(1, 1)]);
    let before = game.clone();
    assert_eq!(game.play(1, 0), Err("Column out of bounds"));
    assert_eq!(game.play(1, 8), Err("Column out of bounds"));
    assert_eq!(game.play_usize(2, 100), Err("Column out of bounds"));
    assert_eq!(game.board, before.board);
    assert_eq!(game.last_played_coords, before.last_played_coords);
    assert_eq!(game.plays(), 1);
}

#[test]
fn play_refuses_a_full_column() {
    let mut game = ConnectFour::new();
    for turn in 0..6 {
        game.play(1 + turn % 2, 7).unwrap();
    }
    let before = game.clone();
    assert_eq!(game.play(1, 7), Err("Column full"));
    assert_eq!(game.board, before.board);
    assert_eq!(game.last_played_coords, before.last_played_coords);
    assert_eq!(game.winner, before.winner);
    assert_eq!(game.plays(), 6);
    assert!(!game.possible_plays().contains(&7));
    assert_eq!(game.possible_plays().len(), 6);
}

fn full_board() -> ConnectFour {
    // columns filled so that nobody has four in a line
    let mut game = ConnectFour::new();
    let patterns: [[u8; 6]; 7] = [
        [1, 1, 2, 2, 1, 1],
        [2, 2, 1, 1, 2, 2],
        [1, 1, 2, 2, 1, 1],
        [2, 2, 1, 1, 2, 2],
        [1, 1, 2, 2, 1, 1],
        [2, 2, 1, 1, 2, 2],
        [1, 1, 2, 2, 1, 1],
    ];
    for (column, pattern) in patterns.iter().enumerate() {
        for player in pattern.iter() {
            game.play(*player, column + 1).unwrap();
        }
    }
    game
}

#[test]
fn full_board_has_no_moves() {
    let game = full_board();
    assert!(game.is_full());
    assert_eq!(game.plays(), 42);
    assert_eq!(game.possible_plays(), Vec::<usize>::new());
    assert_eq!(game.plays_in_order(0), Vec::<usize>::new());
}

#[test]
fn plays_in_order_follows_the_three_orders() {
    let game = ConnectFour::new();
    assert_eq!(game.plays_in_order(0), vec![4, 3, 5, 2, 6, 1, 7]);
    assert_eq!(game.plays_in_order(1), vec![3, 5, 4, 6, 2, 1, 7]);
    assert_eq!(game.plays_in_order(2), vec![6, 2, 4, 5, 3, 1, 7]);
    assert_eq!(game.plays_in_order(200), vec![6, 2, 4, 5, 3, 1, 7]);
}

#[test]
fn plays_in_order_leaves_out_full_columns() {
    let mut game = ConnectFour::new();
    for turn in 0..6 {
        game.play(1 + turn % 2, 4).unwrap();
        game.play(1 + turn % 2, 1).unwrap();
    }
    assert_eq!(game.plays_in_order(0), vec![3, 5, 2, 6, 7]);
    assert_eq!(game.plays_in_order(1), vec![3, 5, 6, 2, 7]);
    assert_eq!(game.plays_in_order(2), vec![6, 2, 5, 3, 7]);
}

#[test]
fn possible_plays_is_one_of_the_three_orders() {
    let game = board_of(&[(1, 4), (2, 4), (1, 4), (2, 4), (1, 4), (2, 4)]);
    let orders = [
        game.plays_in_order(0),
        game.plays_in_order(1),
        game.plays_in_order(2),
    ];
    for _ in 0..50 {
        let plays = game.possible_plays();
        assert!(orders.contains(&plays));
        assert!(!plays.contains(&4));
    }
}

#[test]
fn count_in_direction_counts_the_run() {
    let game = board_of(&[(1, 1), (1, 2), (1, 3), (2, 4), (1, 1), (1, 1)]);
    // no cap where max is 0
    assert_eq!(
        game.count_in_direction((5, 0), CountDirection::HorizontalRight, 0),
        2
    );
    assert_eq!(
        game.count_in_direction((5, 0), CountDirection::HorizontalRight, 3),
        2
    );
    assert_eq!(
        game.count_in_direction((5, 0), CountDirection::HorizontalRight, 2),
        2
    );
    assert_eq!(
        game.count_in_direction((5, 0), CountDirection::VerticalUp, 3),
        2
    );
    assert_eq!(
        game.count_in_direction((3, 0), CountDirection::VerticalDown, 3),
        2
    );
    assert_eq!(
        game.count_in_direction((5, 0), CountDirection::HorizontalLeft, 3),
        0
    );
    // an empty cell starts no run
    assert_eq!(
        game.count_in_direction((0, 0), CountDirection::VerticalDown, 3),
        0
    );
    // a cell off the board starts no run
    assert_eq!(
        game.count_in_direction((9, 9), CountDirection::HorizontalLeft, 3),
        0
    );
}

#[test]
fn winner_coords_are_the_four_in_a_row() {
    let game = board_of(&[(1, 2), (1, 3), (1, 4), (2, 1), (1, 5)]);
    assert_eq!(game.get_winner(), Some(1));
    assert_eq!(
        game.get_winner_coords(),
        Some([(5, 1), (5, 2), (5, 3), (5, 4)])
    );
}

#[test]
fn winner_coords_on_a_column_and_a_diagonal() {
    let game = board_of(&[(2, 6), (2, 6), (2, 6), (2, 6)]);
    assert_eq!(game.get_winner(), Some(2));
    assert_eq!(
        game.get_winner_coords(),
        Some([(2, 5), (3, 5), (4, 5), (5, 5)])
    );
    let game = board_of(&[
        (1, 1),
        (2, 2),
        (1, 2),
        (2, 3),
        (2, 3),
        (1, 3),
        (2, 4),
        (2, 4),
        (2, 4),
        (1, 4),
    ]);
    assert_eq!(game.get_winner(), Some(1));
    assert_eq!(
        game.get_winner_coords(),
        Some([(5, 0), (4, 1), (3, 2), (2, 3)])
    );
}

#[test]
fn no_winner_coords_without_four() {
    let game = board_of(&[(1, 2), (1, 3), (1, 4), (2, 5)]);
    assert_eq!(game.get_winner(), None);
    assert_eq!(game.get_winner_coords(), None);
}

#[test]
fn scores_are_opposite_without_a_winner() {
    let positions: [&[(u8, usize)]; 4] = [
        &[],
        &[(1, 4), (2, 4), (1, 5)],
        &[(1, 2), (1, 3), (1, 4), (2, 5), (2, 6)],
        &[(2, 1), (2, 1), (1, 2), (2, 3), (2, 3), (2, 3)],
    ];
    for plays in positions.iter() {
        let game = board_of(plays);
        assert_eq!(game.get_winner(), None);
        assert_eq!(game.get_score(1), -game.get_score(2));
    }
}

#[test]
fn score_of_a_won_game_is_the_sentinel() {
    let game = board_of(&[(1, 1), (1, 2), (1, 3), (1, 4)]);
    assert_eq!(game.get_score(1), i32::MAX);
    assert_eq!(game.get_score(2), i32::MIN);
}

#[test]
fn score_counts_pairs_and_triples() {
    // one pair of player 2
    let game = board_of(&[(2, 1), (2, 2)]);
    assert_eq!(game.p2_aligns2, 1);
    assert_eq!(game.get_score(2), 10);
    // the pair becomes a triple
    let game = board_of(&[(2, 1), (2, 2), (2, 3)]);
    assert_eq!(game.p2_aligns2, 0);
    assert_eq!(game.p2_aligns3, 1);
    assert_eq!(game.get_score(2), 100);
    assert_eq!(game.get_score(1), -100);
}

#[test]
fn clone_is_the_same_position() {
    let game = board_of(&[(1, 4), (2, 4), (1, 5)]);
    let copy = game.clone();
    assert_eq!(copy.board, game.board);
    assert_eq!(copy.last_played_coords, game.last_played_coords);
    assert_eq!(copy.winner, game.winner);
    assert_eq!(copy.p1_aligns2, game.p1_aligns2);
    assert_eq!(copy.p1_aligns3, game.p1_aligns3);
    assert_eq!(copy.p2_aligns2, game.p2_aligns2);
    assert_eq!(copy.p2_aligns3, game.p2_aligns3);
}

#[test]
fn all_lines_are_twenty_six() {
    let game = ConnectFour::new();
    let lines = game.all_lines_longer_4();
    assert_eq!(lines.len(), 26);
    let starts: Vec<(P4IteratorType, isize, isize)> = lines
        .iter()
        .map(|line| (line.iterator_type, line.x, line.y))
        .collect();
    assert_eq!(starts[0], (P4IteratorType::Horizontal, 0, 0));
    assert_eq!(starts[5], (P4IteratorType::Horizontal, 0, 5));
    assert_eq!(starts[6], (P4IteratorType::Vertical, 0, 0));
    assert_eq!(starts[12], (P4IteratorType::Vertical, 6, 0));
    assert_eq!(starts[13], (P4IteratorType::DiagonalDown, 0, 0));
    assert_eq!(starts[16], (P4IteratorType::DiagonalDown, 3, 0));
    assert_eq!(starts[17], (P4IteratorType::DiagonalDown, 0, 1));
    assert_eq!(starts[19], (P4IteratorType::DiagonalDown, 0, 3));
    assert_eq!(starts[20], (P4IteratorType::DiagonalUp, 0, 3));
    assert_eq!(starts[22], (P4IteratorType::DiagonalUp, 0, 5));
    assert_eq!(starts[23], (P4IteratorType::DiagonalUp, 1, 5));
    assert_eq!(starts[25], (P4IteratorType::DiagonalUp, 3, 5));
}

#[test]
fn lines_through_a_cell_beside_the_board() {
    let game = ConnectFour::new();
    // far away, on the falling diagonal through the first cell
    let far = (isize::MAX as usize, isize::MAX as usize);
    assert_eq!(
        game.lines_passing_at_longer_4(far)
            .iter()
            .map(|iter| (iter.y, iter.x, iter.iterator_type))
            .collect::<Vec<_>>(),
        vec![
            (isize::MAX, 0, P4IteratorType::Horizontal),
            (0, isize::MAX, P4IteratorType::Vertical),
            (0, 0, P4IteratorType::DiagonalDown)
        ]
    );
    assert_eq!(
        game.lines_passing_at_longer_4((10, 20))
            .iter()
            .map(|iter| (iter.y, iter.x, iter.iterator_type))
            .collect::<Vec<_>>(),
        vec![(10, 0, P4IteratorType::Horizontal), (0, 20, P4IteratorType::Vertical)]
    );
    // one row below the board the rising diagonal still crosses it
    assert_eq!(
        game.lines_passing_at_longer_4((6, 0))
            .iter()
            .map(|iter| (iter.y, iter.x, iter.iterator_type))
            .collect::<Vec<_>>(),
        vec![
            (6, 0, P4IteratorType::Horizontal),
            (0, 0, P4IteratorType::Vertical),
            (5, 1, P4IteratorType::DiagonalUp)
        ]
    );
}
