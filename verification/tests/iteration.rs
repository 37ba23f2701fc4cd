use minmax_bot::game::connect4::count_direction::CountDirection;
use minmax_bot::game::connect4::iteration::BoardIterator;
use minmax_bot::game::connect4::iteration::P4IteratorType;
use minmax_bot::game::connect4::ConnectFour;
use minmax_bot::game::Game;

fn sample() -> ConnectFour {
    let mut game = ConnectFour::new();
    for (player, column) in [(1u8, 1usize), (2, 2), (1, 2), (7, 4), (2, 7)] {
        game.play(player, column).unwrap();
    }
    game
}

#[test]
fn add_to_steps_and_stops_at_the_edge() {
    assert_eq!(CountDirection::HorizontalRight.add_to((2, 5)), Some((2, 6)));
    assert_eq!(CountDirection::HorizontalRight.add_to((2, 6)), None);
    assert_eq!(CountDirection::HorizontalLeft.add_to((2, 1)), Some((2, 0)));
    assert_eq!(CountDirection::HorizontalLeft.add_to((2, 0)), None);
    assert_eq!(CountDirection::VerticalDown.add_to((4, 3)), Some((5, 3)));
    assert_eq!(CountDirection::VerticalDown.add_to((5, 3)), None);
    assert_eq!(CountDirection::VerticalUp.add_to((1, 3)), Some((0, 3)));
    assert_eq!(CountDirection::VerticalUp.add_to((0, 3)), None);
    assert_eq!(CountDirection::DiagonalDownRight.add_to((4, 5)), Some((5, 6)));
    assert_eq!(CountDirection::DiagonalDownRight.add_to((5, 5)), None);
    assert_eq!(CountDirection::DiagonalDownRight.add_to((4, 6)), None);
    assert_eq!(CountDirection::DiagonalDownLeft.add_to((4, 1)), Some((5, 0)));
    assert_eq!(CountDirection::DiagonalDownLeft.add_to((4, 0)), None);
    assert_eq!(CountDirection::DiagonalDownLeft.add_to((5, 1)), None);
    assert_eq!(CountDirection::DiagonalUpLeft.add_to((1, 1)), Some((0, 0)));
    assert_eq!(CountDirection::DiagonalUpLeft.add_to((0, 1)), None);
    assert_eq!(CountDirection::DiagonalUpLeft.add_to((1, 0)), None);
    assert_eq!(CountDirection::DiagonalUpRight.add_to((1, 5)), Some((0, 6)));
    assert_eq!(CountDirection::DiagonalUpRight.add_to((0, 5)), None);
    assert_eq!(CountDirection::DiagonalUpRight.add_to((1, 6)), None);
}

#[test]
fn add_to_does_not_look_at_the_other_coordinate() {
    assert_eq!(CountDirection::HorizontalRight.add_to((40, 5)), Some((40, 6)));
    assert_eq!(CountDirection::VerticalDown.add_to((4, 40)), Some((5, 40)));
    assert_eq!(CountDirection::HorizontalLeft.add_to((2, 40)), Some((2, 39)));
    assert_eq!(CountDirection::VerticalUp.add_to((40, 2)), Some((39, 2)));
}

#[test]
fn opposite_turns_back() {
    let all = [
        CountDirection::HorizontalRight,
        CountDirection::DiagonalDownRight,
        CountDirection::VerticalDown,
        CountDirection::DiagonalDownLeft,
        CountDirection::HorizontalLeft,
        CountDirection::DiagonalUpLeft,
        CountDirection::VerticalUp,
        CountDirection::DiagonalUpRight,
    ];
    for direction in all.iter() {
        assert_eq!(direction.opposite().opposite(), *direction);
        assert_ne!(direction.opposite(), *direction);
        let there = direction.add_to((3, 3)).unwrap();
        assert_eq!(direction.opposite().add_to(there), Some((3, 3)));
    }
    assert_eq!(
        CountDirection::HorizontalRight.opposite(),
        CountDirection::HorizontalLeft
    );
    assert_eq!(
        CountDirection::DiagonalDownLeft.opposite(),
        CountDirection::DiagonalUpRight
    );
}

#[test]
fn half_side_is_one_direction_of_each_line() {
    assert_eq!(
        CountDirection::half_side(),
        [
            CountDirection::HorizontalRight,
            CountDirection::DiagonalDownRight,
            CountDirection::VerticalDown,
            CountDirection::DiagonalDownLeft,
        ]
    );
}

#[test]
fn new_at_keeps_its_arguments() {
    let game = sample();
    let place = BoardIterator::new_at(&game, P4IteratorType::DiagonalUp, 2, 4);
    assert_eq!(place.x, 2);
    assert_eq!(place.y, 4);
    assert_eq!(place.iterator_type, P4IteratorType::DiagonalUp);
    assert_eq!(place.coords(), (4, 2));
}

#[test]
fn coords_with_offset_follow_the_kind_of_line() {
    let game = sample();
    let at = |kind| BoardIterator::new_at(&game, kind, 2, 3);
    assert_eq!(at(P4IteratorType::Horizontal).get_coords_with_offset(2), (3, 4));
    assert_eq!(at(P4IteratorType::Vertical).get_coords_with_offset(2), (5, 2));
    assert_eq!(at(P4IteratorType::DiagonalDown).get_coords_with_offset(2), (5, 4));
    assert_eq!(at(P4IteratorType::DiagonalUp).get_coords_with_offset(2), (1, 4));
    assert_eq!(at(P4IteratorType::DiagonalUp).get_coords_with_offset(-3), (6, -1));
    assert_eq!(at(P4IteratorType::Horizontal).get_coords_with_offset(0), (3, 2));
}

#[test]
fn get_with_offset_reads_the_board() {
    let game = sample();
    let place = BoardIterator::new_at(&game, P4IteratorType::Horizontal, 0, 5);
    assert_eq!(place.get_with_offset(0), Some(Some(1)));
    assert_eq!(place.get_with_offset(1), Some(Some(2)));
    assert_eq!(place.get_with_offset(2), Some(None));
    assert_eq!(place.get_with_offset(6), Some(Some(2)));
    assert_eq!(place.get_with_offset(7), None);
    assert_eq!(place.get_with_offset(-1), None);
}

#[test]
fn increment_and_next_move_one_step() {
    let game = sample();
    let mut place = BoardIterator::new_at(&game, P4IteratorType::DiagonalUp, 0, 5);
    assert_eq!(place.increment(), (4, 1));
    assert_eq!(place.coords(), (4, 1));
    assert_eq!(place.get_with_offset(0), Some(Some(1)));
    assert_eq!(place.next(), Some(None));
    assert_eq!(place.coords(), (3, 2));
    let mut place = BoardIterator::new_at(&game, P4IteratorType::Vertical, 1, 3);
    assert_eq!(place.next(), Some(Some(1)));
    assert_eq!(place.next(), Some(Some(2)));
    assert_eq!(place.next(), None);
    assert_eq!(place.coords(), (6, 1));
}

#[test]
fn to_string_writes_the_cells_after_the_place() {
    let game = sample();
    // the bottom row, after its first cell
    let place = BoardIterator::new_at(&game, P4IteratorType::Horizontal, 0, 5);
    assert_eq!(place.to_string(), "2X-XX2");
    // from before the row, the whole row
    let place = BoardIterator::new_at(&game, P4IteratorType::Horizontal, -1, 5);
    assert_eq!(place.to_string(), "12X-XX2");
    let place = BoardIterator::new_at(&game, P4IteratorType::Vertical, 1, 2);
    assert_eq!(place.to_string(), "X12");
    let place = BoardIterator::new_at(&game, P4IteratorType::Horizontal, 6, 5);
    assert_eq!(place.to_string(), "");
    // a place whose next cell is off the board
    let place = BoardIterator::new_at(&game, P4IteratorType::Horizontal, -5, 5);
    assert_eq!(place.to_string(), "");
}

#[test]
fn into_iter_starts_at_the_top_left() {
    let game = sample();
    let place = game.into_iter();
    assert_eq!(place.coords(), (0, 0));
    assert_eq!(place.iterator_type, P4IteratorType::Horizontal);
    assert_eq!(place.get_with_offset(0), Some(None));
    assert_eq!(place.to_string(), "XXXXXX");
}
