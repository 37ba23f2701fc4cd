use minmax_bot::bot::Bot;
use minmax_bot::bot::Outlook;
use minmax_bot::game::connect4::ConnectFour;
use minmax_bot::game::player::Player;
use minmax_bot::game::Game;

#[test]
fn other_swaps_the_two_players() {
    assert_eq!(1u8.other(), 2);
    assert_eq!(2u8.other(), 1);
    assert_eq!(1u8.other().other(), 1);
    assert_eq!(7u8.other(), 1);
}

#[test]
fn new_bot_stands_at_the_start() {
    let bot: Bot<ConnectFour> = Bot::new(2, 4);
    assert_eq!(bot.expect_game().plays(), 0);
    assert_eq!(bot.expect_game().get_winner(), None);
    assert_eq!(bot.outlook(), Outlook::Open);
}

#[test]
fn bot_plays_a_possible_move() {
    let mut bot: Bot<ConnectFour> = Bot::new(1, 3);
    let before = bot.expect_game().clone();
    let play = bot.play();
    assert!(before.possible_plays().contains(&play));
    let mut after = before.clone();
    after.play(1, play).unwrap();
    assert_eq!(bot.expect_game().board, after.board);
    assert_eq!(bot.expect_game().plays(), 1);
    assert_eq!(bot.expect_game().last_play(), Some(play));
}

#[test]
fn bot_follows_a_move_it_foresaw() {
    let mut bot: Bot<ConnectFour> = Bot::new(1, 3);
    let first = bot.play();
    assert_eq!(bot.other_played(4), Ok(()));
    let mut expected = ConnectFour::new();
    expected.play(1, first).unwrap();
    expected.play(2, 4).unwrap();
    assert_eq!(bot.expect_game().board, expected.board);
    assert_eq!(bot.expect_game().plays(), 2);
    let second = bot.play();
    assert!(expected.possible_plays().contains(&second));
}

#[test]
fn bot_follows_a_move_it_did_not_foresee() {
    // the opponent opens: the tree of the bot is not explored yet
    let mut bot: Bot<ConnectFour> = Bot::new(2, 2);
    assert_eq!(bot.other_played(3), Ok(()));
    let mut expected = ConnectFour::new();
    expected.play(1, 3).unwrap();
    assert_eq!(bot.expect_game().board, expected.board);
    let play = bot.play();
    assert!(expected.possible_plays().contains(&play));
    assert_eq!(bot.expect_game().plays(), 2);
}

#[test]
fn bot_refuses_a_move_that_the_game_refuses() {
    let mut bot: Bot<ConnectFour> = Bot::new(2, 2);
    assert_eq!(bot.other_played(0), Err("Column out of bounds"));
    assert_eq!(bot.other_played(8), Err("Column out of bounds"));
    assert_eq!(bot.expect_game().plays(), 0);
    for _ in 0..3 {
        assert_eq!(bot.other_played(5), Ok(()));
        bot.play();
    }
    let plays = bot.expect_game().plays();
    // fill what is left of column 5
    while bot.expect_game().get((0, 4)).is_none() {
        assert_eq!(bot.other_played(5), Ok(()));
    }
    let board = bot.expect_game().board;
    assert_eq!(bot.other_played(5), Err("Column full"));
    assert_eq!(bot.expect_game().board, board);
    assert!(bot.expect_game().plays() >= plays);
    // the bot is still usable
    if bot.expect_game().get_winner().is_none() {
        let play = bot.play();
        assert_ne!(play, 5);
    }
}

#[test]
fn bot_sees_a_loss_coming() {
    let mut bot: Bot<ConnectFour> = Bot::new(1, 2);
    for column in [2usize, 3, 4] {
        bot.other_played(column).unwrap();
    }
    // player 2 has three in the bottom row, free on both sides, and
    // player 1, the bot, is to move: it cannot stop both ends
    let play = bot.play();
    assert!((1..=7).contains(&play));
    assert_eq!(bot.outlook(), Outlook::Losing);
}

#[test]
fn bot_blocks_a_threat() {
    let mut bot: Bot<ConnectFour> = Bot::new(2, 2);
    for column in [2usize, 2, 2] {
        bot.other_played(column).unwrap();
    }
    // player 1 has three in column 2: the bot takes the cell on top
    assert_eq!(bot.play(), 2);
    assert_eq!(bot.outlook(), Outlook::Open);
}

#[test]
fn outlook_is_open_in_a_quiet_game() {
    let mut bot: Bot<ConnectFour> = Bot::new(2, 2);
    assert_eq!(bot.outlook(), Outlook::Open);
    bot.other_played(1).unwrap();
    assert_eq!(bot.outlook(), Outlook::Open);
    bot.play();
    assert_eq!(bot.outlook(), Outlook::Open);
}

#[test]
fn average_time_is_the_mean() {
    let mut bot: Bot<ConnectFour> = Bot::new(2, 2);
    bot.record_time(10);
    assert_eq!(bot.average_time(), 10);
    bot.record_time(21);
    assert_eq!(bot.average_time(), 15);
    bot.record_time(2);
    assert_eq!(bot.average_time(), 11);
}

#[test]
fn bot_can_score_by_the_game() {
    let mut bot: Bot<ConnectFour> = Bot::new(1, 2);
    bot.set_use_heuristic_score(true);
    let first = bot.play();
    assert!((1..=7).contains(&first));
    assert_eq!(bot.other_played(first), Ok(()));
    // player 1 has played once and player 2 on top of it: no pair yet
    assert_eq!(bot.expect_game().get_score(1), 0);
    let second = bot.play();
    assert!((1..=7).contains(&second));
    assert_eq!(bot.expect_game().plays(), 3);
    bot.set_use_heuristic_score(false);
    assert_eq!(bot.other_played(second), Ok(()));
    assert_eq!(bot.expect_game().plays(), 4);
}

#[test]
fn bot_is_surprised_only_by_a_move_off_its_tree() {
    let mut bot: Bot<ConnectFour> = Bot::new(1, 2);
    // nothing is explored yet: nothing was foreseen, nothing surprises
    assert!(!bot.is_surprised_by(4));
    bot.play();
    // the bot has explored the seven replies
    for column in 1..=7usize {
        assert!(!bot.is_surprised_by(column));
    }
    assert!(bot.is_surprised_by(0));
    assert!(bot.is_surprised_by(8));
    assert_eq!(bot.other_played(8), Err("Column out of bounds"));
    assert_eq!(bot.expect_game().plays(), 1);
}

#[test]
fn bot_can_play_while_the_game_goes_on() {
    let mut bot: Bot<ConnectFour> = Bot::new(2, 2);
    assert!(bot.can_play());
    // a bot that looks no ply deep cannot move
    let blind: Bot<ConnectFour> = Bot::new(2, 0);
    assert!(!blind.can_play());
    // player 1 stacks four in column 1 and wins
    for _ in 0..3 {
        bot.other_played(1).unwrap();
    }
    assert!(bot.can_play());
    bot.other_played(1).unwrap();
    assert_eq!(bot.expect_game().get_winner(), Some(1));
    assert!(!bot.can_play());
}
