use minmax_bot::bot::Bot;
use minmax_bot::game::connect4::iteration::P4IteratorType;
use minmax_bot::game::board::Grid;
use minmax_bot::game::connect4::iteration::BoardIterator;
use minmax_bot::game::power4::Power4;
use minmax_bot::game::Game;
use minmax_bot::min_max::node::GameNode;

fn board_of(plays: &[(u8, usize)]) -> Power4 {
    let mut game = Power4::new();
    for (player, column) in plays.iter() {
        game.play(*player, *column).unwrap();
    }
    game
}

#[test]
fn tests_lines_passing_at() {
    let power4 = Power4::new();
    let lines = power4.lines_passing_at_longer_4((0, 0));
    assert_eq!(lines.len(), 3);
    let lines = power4.lines_passing_at_longer_4((2, 3));
    assert_eq!(
        lines
            .iter()
            .map(|iter| (iter.x, iter.y))
            .collect::<Vec<_>>(),
        vec![(0, 2), (3, 0), (1, 0), (0, 5)]
    );
}

#[test]
fn power4_lines_leave_out_short_diagonals() {
    let power4 = Power4::new();
    let kinds = |coords| -> Vec<P4IteratorType> {
        power4
            .lines_passing_at_longer_4(coords)
            .iter()
            .map(|line| line.iterator_type)
            .collect()
    };
    assert_eq!(
        kinds((5, 0)),
        vec![P4IteratorType::Horizontal, P4IteratorType::Vertical, P4IteratorType::DiagonalUp]
    );
    assert_eq!(
        kinds((2, 0)),
        vec![P4IteratorType::Horizontal, P4IteratorType::Vertical]
    );
    assert_eq!(
        kinds((3, 3)),
        vec![
            P4IteratorType::Horizontal,
            P4IteratorType::Vertical,
            P4IteratorType::DiagonalDown,
            P4IteratorType::DiagonalUp
        ]
    );
    assert_eq!(power4.all_lines_longer_4().len(), 26);
}

#[test]
fn power4_starts_empty() {
    let game = Power4::new();
    assert_eq!(game.plays(), 0);
    assert_eq!(game.last_play(), None);
    assert_eq!(game.get_winner(), None);
    assert_eq!(game.get_winner_coords(), None);
    assert_eq!(game.get_score(1), 0);
    assert_eq!(game.get_score(2), 0);
    assert!(!game.is_full());
    assert_eq!(game.possible_plays(), vec![0, 1, 2, 3, 4, 5, 6]);
    assert_eq!(game.get((5, 0)), None);
    assert_eq!(game.get_isize((5, 0)), None);
}

#[test]
fn power4_piece_falls_to_the_lowest_free_cell() {
    let mut game = Power4::new();
    assert_eq!(game.play(1, 0), Ok(()));
    assert_eq!(game.play(2, 0), Ok(()));
    assert_eq!(game.get((5, 0)), Some(&1));
    assert_eq!(game.get((4, 0)), Some(&2));
    assert_eq!(game.get((3, 0)), None);
    assert_eq!(game.get((6, 0)), None);
    assert_eq!(game.get_isize((4, 0)), Some(2));
    assert_eq!(game.get_isize((-1, 0)), None);
    assert_eq!(game.get_isize((0, 7)), None);
    assert_eq!(game.plays(), 2);
    assert_eq!(game.last_play(), Some(0));
    assert_eq!(game.last_played_coords, Some((4, 0)));
    let copy = game.clone();
    assert_eq!(copy.board, game.board);
    assert_eq!(copy.plays, 2);
    assert_eq!(copy.last_played_coords, Some((4, 0)));
}

#[test]
fn power4_refuses_what_does_not_fit() {
    let mut game = Power4::new();
    assert_eq!(game.play(1, 7), Err("Column out of bounds"));
    assert_eq!(game.play(1, 70), Err("Column out of bounds"));
    for turn in 0..6 {
        assert_eq!(game.play(1 + turn % 2, 6), Ok(()));
    }
    let board = game.board;
    assert_eq!(game.play(1, 6), Err("Column full"));
    assert_eq!(game.board, board);
    assert_eq!(game.plays(), 6);
    assert_eq!(game.last_played_coords, Some((0, 6)));
    assert_eq!(game.possible_plays(), vec![0, 1, 2, 3, 4, 5]);
}

#[test]
fn power4_scores_a_pair_with_room() {
    // two in the bottom row, two free cells to their right
    let game = board_of(&[(1, 0), (1, 1)]);
    assert_eq!(game.get_score(1), 5);
    assert_eq!(game.get_score(2), -5);
    // two on top of each other, two free cells above
    let game = board_of(&[(2, 3), (2, 3)]);
    assert_eq!(game.get_score(2), 5);
    assert_eq!(game.get_score(1), -5);
}

#[test]
fn power4_scores_a_triple_with_room() {
    let game = board_of(&[(1, 0), (1, 1), (1, 2)]);
    assert_eq!(game.get_score(1), 25);
    assert_eq!(game.get_score(2), -25);
}

#[test]
fn power4_does_not_score_a_pair_without_room() {
    // the pair of player 1 is shut in between the edge and player 2
    let game = board_of(&[(1, 0), (1, 1), (2, 2)]);
    assert_eq!(game.get_score(1), 0);
    assert_eq!(game.get_score(2), 0);
}

#[test]
fn power4_scores_four_as_a_win() {
    let game = board_of(&[(1, 0), (1, 1), (1, 2), (1, 3)]);
    assert_eq!(game.get_score(1), i32::MAX);
    assert_eq!(game.get_score(2), i32::MIN);
    assert_eq!(game.get_winner(), Some(1));
    // no winning cells are given before the seventh piece
    assert_eq!(game.get_winner_coords(), None);
}

#[test]
fn power4_finds_the_winner_and_the_cells() {
    let game = board_of(&[(1, 0), (2, 0), (1, 1), (2, 1), (1, 2), (2, 2), (1, 3)]);
    assert_eq!(game.get_winner(), Some(1));
    assert_eq!(
        game.get_winner_coords(),
        Some([(5, 0), (5, 1), (5, 2), (5, 3)])
    );
    let game = board_of(&[(2, 4), (1, 5), (2, 4), (1, 5), (2, 4), (1, 6), (2, 4)]);
    assert_eq!(game.get_winner(), Some(2));
    assert_eq!(
        game.get_winner_coords(),
        Some([(2, 4), (3, 4), (4, 4), (5, 4)])
    );
    let game = board_of(&[(1, 0), (2, 0), (1, 1), (2, 1), (1, 2), (2, 2), (2, 6)]);
    assert_eq!(game.get_winner(), None);
    assert_eq!(game.get_winner_coords(), None);
}

#[test]
fn power4_misses_a_win_on_a_diagonal_of_four() {
    // player 1 has the diagonal from row 2, column 0 down to row 5,
    // column 3; its last piece is the one at the top
    let game = board_of(&[
        (1, 3),
        (2, 2),
        (1, 2),
        (2, 1),
        (2, 1),
        (1, 1),
        (2, 0),
        (2, 0),
        (2, 0),
        (1, 0),
    ]);
    assert_eq!(game.last_played_coords, Some((2, 0)));
    // the lines through that cell do not include this diagonal
    assert_eq!(game.get_winner(), None);
    // the look over the whole board does
    assert_eq!(game.get_score(1), i32::MAX);
}

#[test]
fn power4_is_full_when_the_top_row_is() {
    let mut game = Power4::new();
    let patterns: [[u8; 6]; 7] = [
        [1, 1, 2, 2, 1, 1],
        [2, 2, 1, 1, 2, 2],
        [1, 1, 2, 2, 1, 1],
        [2, 2, 1, 1, 2, 2],
        [1, 1, 2, 2, 1, 1],
        [2, 2, 1, 1, 2, 2],
        [1, 1, 2, 2, 1, 1],
    ];
    for (column, pattern) in patterns.iter().enumerate() {
        for (row, player) in pattern.iter().enumerate() {
            if column == 6 && row == 5 {
                continue;
            }
            game.play(*player, column).unwrap();
        }
    }
    // six columns are full, the seventh is not
    assert!(!game.is_full());
    assert_eq!(game.possible_plays(), vec![6]);
    game.play(2, 6).unwrap();
    assert!(game.is_full());
    assert_eq!(game.plays(), 42);
    assert_eq!(game.possible_plays(), Vec::<usize>::new());
}

#[test]
fn power4_places_walk_their_lines() {
    let game = board_of(&[(1, 0), (2, 1), (1, 1)]);
    let mut place = BoardIterator::new_at(&game, P4IteratorType::DiagonalUp, 0, 5);
    assert_eq!(place.coords(), (5, 0));
    assert_eq!(place.get_with_offset(0), Some(Some(1)));
    assert_eq!(place.get_with_offset(1), Some(Some(1)));
    assert_eq!(place.get_with_offset(-1), None);
    assert_eq!(place.get_coords_with_offset(2), (3, 2));
    assert_eq!(place.next(), Some(Some(1)));
    assert_eq!(place.increment(), (3, 2));
    assert_eq!(place.get_with_offset(0), Some(None));
    let mut place = BoardIterator::new_at(&game, P4IteratorType::Horizontal, 5, 5);
    assert_eq!(place.next(), Some(None));
    assert_eq!(place.next(), None);
}

#[test]
fn search_plays_power4() {
    // player 2 has three in column 4: one ply is enough to see the win
    let game = board_of(&[(2, 4), (1, 0), (2, 4), (1, 1), (2, 4), (1, 6)]);
    let mut tree = GameNode::new_root(game.clone(), 2, 6);
    tree.explore_children(2, 1, 6);
    assert_eq!(tree.weight(), Some(i32::MAX - 1));
    let best = tree.into_best_child();
    assert_eq!(best.game_state.get_last_play().1, Some(4));
    // the children come in the order of the columns
    let mut tree = GameNode::new_root(game.clone(), 2, 6);
    tree.explore_children_with(2, 2, 6, true);
    let columns: Vec<usize> = tree.children().iter().map(|(column, _)| *column).collect();
    assert_eq!(columns, vec![0, 1, 2, 3, 4, 5, 6]);
    assert_eq!(tree.weight(), Some(i32::MAX));
}

#[test]
fn bot_plays_power4() {
    let mut bot: Bot<Power4> = Bot::new(1, 3);
    let first = bot.play();
    assert!(first < 7);
    assert_eq!(bot.other_played(7), Err("Column out of bounds"));
    assert_eq!(bot.other_played(first), Ok(()));
    let second = bot.play();
    assert!(second < 7);
    assert_eq!(bot.expect_game().plays(), 3);
    assert_eq!(bot.expect_game().last_play(), Some(second));
}

#[test]
fn power4_top_row_can_be_walked() {
    let mut game = Power4::new();
    for turn in 0..6 {
        game.play(1 + turn % 2, 2).unwrap();
    }
    let place = game.into_iter();
    assert_eq!(place.coords(), (0, 0));
    assert_eq!(place.get_with_offset(2), Some(Some(2)));
    assert_eq!(place.to_string(), "X2XXXX");
}

#[test]
fn first_of_equal_moves_is_the_leftmost() {
    let mut tree = GameNode::new_root(Power4::new(), 1, 0);
    tree.explore_children(1, 1, 0);
    assert!(tree.children().iter().all(|(_, child)| child.weight() == Some(0)));
    let best = tree.into_best_child();
    assert_eq!(best.game_state.get_last_play().1, Some(0));
}

#[test]
fn power4_expands_by_the_columns_from_the_left() {
    let game = board_of(&[(1, 2), (2, 2), (1, 2), (2, 2), (1, 2), (2, 2)]);
    let mut node = GameNode::new_root(game.clone(), 1, 6);
    node.expand_with(game.possible_plays(), 1, 6, false);
    let columns: Vec<usize> = node.children().iter().map(|(column, _)| *column).collect();
    assert_eq!(columns, vec![0, 1, 3, 4, 5, 6]);
}
