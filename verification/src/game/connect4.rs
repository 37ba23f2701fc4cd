//! Connect Four on a board of six rows and seven columns.

use crate::game::board::cell_at;
use crate::game::board::landing_row;
use crate::game::board::lemma_empty_board;
use crate::game::board::lemma_piece_counts;
use crate::game::board::lemma_piece_lands;
use crate::game::board::lemma_pieces_bounded;
use crate::game::board::pieces_before;
use crate::game::board::settled_pieces;
use crate::game::board::with_piece;
use crate::game::board::Board;
use crate::game::connect4::count_direction::CountDirection;
use crate::game::board::Grid;
use crate::game::connect4::iteration::all_lines;
use crate::game::connect4::iteration::first_four_through;
use crate::game::connect4::iteration::has_four;
use crate::game::connect4::iteration::places_on_all_lines;
use crate::game::connect4::iteration::places_on_lines_through;
use crate::game::connect4::iteration::cells_from;
use crate::game::connect4::iteration::is_first_four;
use crate::game::connect4::iteration::lines_through;
use crate::game::connect4::iteration::starts_of;
use crate::game::connect4::iteration::BoardIterator;
use crate::game::connect4::iteration::P4IteratorType;
use crate::game::Game;
use rand::Rng;
use vstd::prelude::*;

pub mod count_direction;
pub mod iteration;

verus! {

/// Whether the order of the moves offered changes from call to call.
pub const RANDOMIZE_POSSIBLE_PLAYS: bool = true;

/// How many steps in `direction` stay on the board after `coords`.
pub open spec fn room(direction: CountDirection, coords: (usize, usize)) -> int {
    if direction.column_step() > 0 {
        6 - coords.1
    } else if direction.column_step() < 0 {
        coords.1 as int
    } else if direction.row_step() > 0 {
        5 - coords.0
    } else {
        coords.0 as int
    }
}

/// How far the search for a run still has to look.
pub open spec fn reach(direction: CountDirection, coords: Option<(usize, usize)>) -> int {
    match coords {
        Some(coords) => if room(direction, coords) >= 0 {
            room(direction, coords) + 1
        } else {
            0
        },
        None => 0,
    }
}

/// The length of the run of pieces of `who` that starts at `coords` and goes
/// on in `direction`.
pub open spec fn run_from(
    board: Board,
    who: u8,
    coords: Option<(usize, usize)>,
    direction: CountDirection,
) -> nat
    decreases reach(direction, coords),
{
    match coords {
        Some(coords) => if cell_at(board, coords.0 as int, coords.1 as int) == Some(who) {
            1 + run_from(board, who, direction.add_to_spec(coords), direction)
        } else {
            0
        },
        None => 0,
    }
}

/// A count that stops at `max`, if `max` is not 0.
pub open spec fn capped(count: nat, max: u8) -> nat {
    if max > 0 && count >= max {
        max as nat
    } else {
        count
    }
}

/// One less, but not less than 0.
pub open spec fn one_less(count: u16) -> u16 {
    if count > 0 {
        (count - 1) as u16
    } else {
        0
    }
}

/// One more, but not more than a `u16` holds.
pub open spec fn one_more(count: u16) -> u16 {
    if count < u16::MAX {
        (count + 1) as u16
    } else {
        u16::MAX
    }
}

/// The three orders in which the columns are offered: the middle first.
pub open spec fn column_order_spec(choice: u8) -> Seq<usize> {
    if choice == 0 {
        seq![4, 3, 5, 2, 6, 1, 7]
    } else if choice == 1 {
        seq![3, 5, 4, 6, 2, 1, 7]
    } else {
        seq![6, 2, 4, 5, 3, 1, 7]
    }
}

/// A game of Connect Four. Players are 1 and 2; a move is a column, from 1
/// to 7.
#[derive(Debug)]
pub struct ConnectFour {
    pub board: Board,
    /// Row and column of the last piece.
    pub last_played_coords: Option<(usize, usize)>,
    /// The player who last completed four in a line.
    pub winner: Option<u8>,
    /// Pairs and triples in a line, as counted while the pieces fell.
    pub p1_aligns2: u16,
    pub p1_aligns3: u16,
    pub p2_aligns2: u16,
    pub p2_aligns3: u16,
}

impl Clone for ConnectFour {
    fn clone(&self) -> (copy: Self)
        ensures
            copy == *self,
    {
        ConnectFour {
            board: self.board,
            last_played_coords: self.last_played_coords,
            winner: self.winner,
            p1_aligns2: self.p1_aligns2,
            p1_aligns3: self.p1_aligns3,
            p2_aligns2: self.p2_aligns2,
            p2_aligns3: self.p2_aligns3,
        }
    }
}

impl Grid for ConnectFour {
    open spec fn cells(&self) -> Board {
        self.board
    }

    fn get_isize(&self, coordinate: (isize, isize)) -> (occupant: Option<u8>) {
        let (row, column) = coordinate;
        if row < 0 || row >= 6 || column < 0 || column >= 7 {
            return None;
        }
        self.board[row as usize][column as usize]
    }
}

impl ConnectFour {
    /// The column has room for a piece.
    pub open spec fn column_open(self, column: usize) -> bool {
        1 <= column <= 7 && cell_at(self.board, 0, column - 1) is None
    }

    /// How many pieces of the player in the cell `start` follow it in
    /// `direction` without a gap, counted up to `max` if `max` is not 0; 0
    /// where the cell is empty.
    pub open spec fn run(self, start: (usize, usize), direction: CountDirection, max: u8) -> nat {
        match cell_at(self.board, start.0 as int, start.1 as int) {
            Some(who) => capped(
                run_from(self.board, who, direction.add_to_spec(start), direction),
                max,
            ),
            None => 0,
        }
    }

    /// The counts of pairs and triples after a piece of `who` fell between
    /// `count` of its own on one side of a line and `count_opposite` on the
    /// other: it made a pair into a triple, or made a pair.
    pub open spec fn counted(self, who: u8, count: nat, count_opposite: nat) -> ConnectFour {
        if count == 2 || count_opposite == 2 {
            if who == 1 {
                ConnectFour {
                    p1_aligns2: one_less(self.p1_aligns2),
                    p1_aligns3: one_more(self.p1_aligns3),
                    ..self
                }
            } else {
                ConnectFour {
                    p2_aligns2: one_less(self.p2_aligns2),
                    p2_aligns3: one_more(self.p2_aligns3),
                    ..self
                }
            }
        } else if count + count_opposite == 1 {
            if who == 1 {
                ConnectFour { p1_aligns2: one_more(self.p1_aligns2), ..self }
            } else {
                ConnectFour { p2_aligns2: one_more(self.p2_aligns2), ..self }
            }
        } else {
            self
        }
    }

    /// The piece of `who` at `coords` completes four on the line of
    /// direction `k`.
    pub open spec fn completes_four(self, coords: (usize, usize), k: int) -> bool {
        let direction = CountDirection::half_side_spec()[k];
        let count = self.run(coords, direction, 3);
        count == 3 || count + self.run(coords, direction.opposite_spec(), (3 - count) as u8) == 3
    }

    /// The game after the piece of `who` that fell on `coords` was looked at
    /// on the lines of directions `k` to 3, in turn: four in a line make
    /// `who` the winner, and the looking ends; else the line is counted.
    pub open spec fn aligned_from(self, who: u8, coords: (usize, usize), k: int) -> ConnectFour
        decreases 4 - k,
    {
        if k < 0 || k >= 4 {
            self
        } else if self.completes_four(coords, k) {
            ConnectFour { winner: Some(who), ..self }
        } else {
            let direction = CountDirection::half_side_spec()[k];
            let count = self.run(coords, direction, 3);
            let count_opposite = self.run(coords, direction.opposite_spec(), (3 - count) as u8);
            self.counted(who, count, count_opposite).aligned_from(who, coords, k + 1)
        }
    }

    /// The game after the last piece was looked at on its four lines.
    pub open spec fn aligned(self) -> ConnectFour {
        match self.last_played_coords {
            Some(coords) => match cell_at(self.board, coords.0 as int, coords.1 as int) {
                Some(who) => self.aligned_from(who, coords, 0),
                None => self,
            },
            None => self,
        }
    }

    /// The score of so many pairs and triples.
    pub open spec fn calculate_score_spec(aligns2: u16, aligns3: u16) -> int {
        10 * aligns2 + 100 * aligns3
    }

    /// The columns among the first `n` of `order` that have room, in that
    /// order.
    pub open spec fn open_columns(self, order: Seq<usize>, n: int) -> Seq<usize>
        decreases n,
    {
        if n <= 0 || n > order.len() {
            Seq::empty()
        } else if self.column_open(order[n - 1]) {
            self.open_columns(order, n - 1).push(order[n - 1])
        } else {
            self.open_columns(order, n - 1)
        }
    }

    /// A place at the start of each line of four or more cells.
    pub fn all_lines_longer_4(&self) -> (iterators: Vec<BoardIterator<'_, ConnectFour>>)
        ensures
            starts_of(self, iterators@, all_lines()),
    {
        places_on_all_lines(self)
    }

    /// A place at the start of each line of four or more cells through the
    /// cell `coords`, which need not lie on the board: its row and its column
    /// only have to fit the numbers that a place counts in.
    pub fn lines_passing_at_longer_4(&self, coords: (usize, usize)) -> (iterators: Vec<
        BoardIterator<'_, ConnectFour>,
    >)
        requires
            coords.0 <= isize::MAX,
            coords.1 <= isize::MAX,
        ensures
            starts_of(self, iterators@, lines_through(coords, 3)),
    {
        places_on_lines_through(self, coords, 3)
    }

    /// The four cells in a row that hold pieces of one player, on a line
    /// through the last piece: the first such four, with the lines taken in
    /// the order row, column, diagonal downwards, diagonal upwards, and each
    /// from its left or upper end. `None` where there are none, or no piece
    /// was played.
    pub fn get_winner_coords(&self) -> (cells: Option<[(usize, usize); 4]>)
        requires
            self.valid(),
        ensures
            match cells {
                Some(cells) => self.last_played_coords is Some && exists|i: int, n: int|
                    {
                        &&& #[trigger] is_first_four(
                            self.board,
                            lines_through(self.last_played_coords->0, 3),
                            i,
                            n,
                        )
                        &&& cells_from(cells, lines_through(self.last_played_coords->0, 3)[i], n)
                    },
                None => self.last_played_coords is Some ==> !has_four(
                    self.board,
                    lines_through(self.last_played_coords->0, 3),
                ),
            },
    {
        match self.last_played_coords {
            Some(last_coords) => first_four_through(self, last_coords, 3),
            None => None,
        }
    }

    /// A place on the first cell of the top row, to walk along that row.
    pub fn into_iter(&self) -> (place: BoardIterator<'_, ConnectFour>)
        ensures
            place.game == self,
            place.iterator_type == P4IteratorType::Horizontal,
            place.x == 0,
            place.y == 0,
    {
        BoardIterator { game: self, iterator_type: P4IteratorType::Horizontal, x: 0, y: 0 }
    }

    fn calculate_score(&self, aligns2: u16, aligns3: u16) -> (score: i32)
        ensures
            score == Self::calculate_score_spec(aligns2, aligns3),
    {
        10 * (aligns2 as i32) + 100 * (aligns3 as i32)
    }

    /// Drops a piece of `player` into `column`, as `play` does.
    pub fn play_usize<'a>(&mut self, player: u8, column: usize) -> (result: Result<(), &'a str>)
        requires
            old(self).valid(),
        ensures
            final(self).valid(),
            result is Ok <==> old(self).legal_moves().contains(column),
            result is Ok ==> *final(self) == old(self).after_play(player, column),
            result is Err ==> *final(self) == *old(self),
            result matches Err(text) ==> text@ == old(self).refusal(column),
    {
        self.play(player, column)
    }

    /// Counts the pieces that follow the one in `start` in `direction`.
    pub fn count_in_direction(
        &self,
        start: (usize, usize),
        direction: CountDirection,
        max: u8,
    ) -> (count: u8)
        ensures
            count == self.run(start, direction, max),
    {
        let player_to_count = match self.get_cell(start) {
            Some(player) => player,
            None => {
                return 0;
            },
        };
        let mut count: u8 = 0;
        let mut coords = direction.add_to(start);
        loop
            invariant
                count + run_from(self.board, player_to_count, coords, direction) == run_from(
                    self.board,
                    player_to_count,
                    direction.add_to_spec(start),
                    direction,
                ),
                count + reach(direction, coords) <= 8,
                max > 0 ==> count < max,
                cell_at(self.board, start.0 as int, start.1 as int) == Some(player_to_count),
            decreases reach(direction, coords),
        {
            let here = match coords {
                Some(here) => here,
                None => {
                    return count;
                },
            };
            match self.get_cell(here) {
                Some(player) => {
                    if player == player_to_count {
                        count += 1;
                        if count == max {
                            return count;
                        }
                    } else {
                        return count;
                    }
                },
                None => {
                    return count;
                },
            }
            coords = direction.add_to(here);
        }
    }

    /// Who occupies the cell; nobody where the cell is off the board.
    fn get_cell(&self, coordinate: (usize, usize)) -> (occupant: Option<u8>)
        ensures
            occupant == cell_at(self.board, coordinate.0 as int, coordinate.1 as int),
    {
        let (row, column) = coordinate;
        if row >= 6 || column >= 7 {
            return None;
        }
        self.board[row][column]
    }

    /// Looks at the last piece on its four lines: finds the winner, or
    /// brings the counts of pairs and triples up to date.
    fn compute_aligments(&mut self)
        ensures
            *final(self) == old(self).aligned(),
    {
        let last_coords = match self.last_played_coords {
            Some(coords) => coords,
            None => {
                return ;
            },
        };
        let counting_player = match self.get_cell(last_coords) {
            Some(player) => player,
            None => {
                return ;
            },
        };
        let directions = CountDirection::half_side();
        let mut k: usize = 0;
        while k < 4
            invariant
                k <= 4,
                directions@ == CountDirection::half_side_spec(),
                self.board == old(self).board,
                self.last_played_coords == old(self).last_played_coords,
                old(self).last_played_coords == Some(last_coords),
                cell_at(old(self).board, last_coords.0 as int, last_coords.1 as int) == Some(
                    counting_player,
                ),
                self.aligned_from(counting_player, last_coords, k as int) == old(self).aligned(),
            decreases 4 - k,
        {
            let count_direction = directions[k];
            // max is 3 (4 - 1) because the piece itself is not counted
            let count = self.count_in_direction(last_coords, count_direction, 3);
            if count == 3 {
                self.winner = Some(counting_player);
                return ;
            }
            let count_opposite = self.count_in_direction(
                last_coords,
                count_direction.opposite(),
                3 - count,
            );
            if count + count_opposite == 3 {
                self.winner = Some(counting_player);
                return ;
            }
            if count == 2 || count_opposite == 2 {
                // the other count is at most 1: three in a line
                if counting_player == 1u8 {
                    self.p1_aligns2 = self.p1_aligns2.saturating_sub(1);
                    self.p1_aligns3 = self.p1_aligns3.saturating_add(1);
                } else {
                    self.p2_aligns2 = self.p2_aligns2.saturating_sub(1);
                    self.p2_aligns3 = self.p2_aligns3.saturating_add(1);
                }
            } else if count + count_opposite == 1 {
                // two in a line
                if counting_player == 1u8 {
                    self.p1_aligns2 = self.p1_aligns2.saturating_add(1);
                } else {
                    self.p2_aligns2 = self.p2_aligns2.saturating_add(1);
                }
            }
            k += 1;
        }
    }

    /// One of the three orders of the columns.
    fn column_order(choice: u8) -> (order: [usize; 7])
        ensures
            order@ == column_order_spec(choice),
    {
        let order: [usize; 7] = if choice == 0 {
            [4, 3, 5, 2, 6, 1, 7]
        } else if choice == 1 {
            [3, 5, 4, 6, 2, 1, 7]
        } else {
            [6, 2, 4, 5, 3, 1, 7]
        };
        order
    }

    /// The columns that have room, in the order that `choice` names.
    pub fn plays_in_order(&self, choice: u8) -> (moves: Vec<usize>)
        ensures
            moves@ == self.open_columns(column_order_spec(choice), 7),
            moves@.no_duplicates(),
            moves@.to_set() == self.legal_moves(),
    {
        let order = Self::column_order(choice);
        let mut vec: Vec<usize> = Vec::with_capacity(7);
        let mut i: usize = 0;
        while i < 7
            invariant
                i <= 7,
                order@ == column_order_spec(choice),
                vec@ == self.open_columns(order@, i as int),
                vec@.no_duplicates(),
                forall|a: int|
                    0 <= a < vec@.len() ==> self.column_open(#[trigger] vec@[a]) && exists|j: int|
                        0 <= j < i && order@[j] == vec@[a],
                forall|j: int|
                    0 <= j < i && self.column_open(#[trigger] order@[j]) ==> vec@.contains(
                        order@[j],
                    ),
            decreases 7 - i,
        {
            let column = order[i];
            let ghost before = vec@;
            if self.get_cell((0, column - 1)).is_none() {
                vec.push(column);
                proof {
                    assert forall|j: int|
                        0 <= j < i + 1 && self.column_open(
                            #[trigger] order@[j],
                        ) implies vec@.contains(order@[j]) by {
                        if j < i {
                            let a = choose|a: int| 0 <= a < before.len() && before[a] == order@[j];
                            assert(vec@[a] == order@[j]);
                        } else {
                            assert(vec@[vec@.len() - 1] == order@[j]);
                        }
                    }
                }
            }
            i += 1;
        }
        proof {
            assert forall|column: usize|
                self.legal_moves().contains(column) implies vec@.to_set().contains(column) by {}
        }
        vec
    }
}

/// Draws one of 0, 1 and 2 from the thread's random number generator, by
/// `gen_range` of the crate rand on the range `0..=2`, which gives a value
/// of the range.
#[verifier::external_body]
fn random_order() -> (choice: u8)
    ensures
        choice <= 2,
{
    rand::thread_rng().gen_range(0..=2)
}

impl Game for ConnectFour {
    /// (row, column) or (y, x). Starts at (0, 0) at the top left corner and
    /// ends at (5, 6) at the bottom right corner
    type Coordinate = (usize, usize);

    /// a column, from 1 to 7
    type InputCoordinate = usize;

    /// The player is represented by 1 or 2
    type Player = u8;

    type Score = i32;

    open spec fn valid(&self) -> bool {
        &&& settled_pieces(self.board)
        &&& self.last_played_coords matches Some(coords) ==> cell_at(
            self.board,
            coords.0 as int,
            coords.1 as int,
        ) is Some
    }

    open spec fn cell(&self, coordinate: (usize, usize)) -> Option<u8> {
        cell_at(self.board, coordinate.0 as int, coordinate.1 as int)
    }

    open spec fn legal_moves(&self) -> Set<usize> {
        Set::new(|column: usize| self.column_open(column))
    }

    open spec fn after_play(&self, player: u8, coordinate: usize) -> Self {
        let column = coordinate - 1;
        let row = landing_row(self.board, column);
        ConnectFour {
            board: with_piece(self.board, row, column, player),
            last_played_coords: Some((row as usize, column as usize)),
            ..*self
        }.aligned()
    }

    open spec fn may_offer(&self, moves: Seq<usize>) -> bool {
        exists|choice: u8|
            choice <= 2 && moves == self.open_columns(column_order_spec(choice), 7)
    }

    open spec fn refusal(&self, coordinate: usize) -> Seq<char> {
        if 1 <= coordinate <= 7 {
            "Column full"@
        } else {
            "Column out of bounds"@
        }
    }

    open spec fn winner_spec(&self) -> Option<u8> {
        self.winner
    }

    open spec fn full_spec(&self) -> bool {
        forall|column: int| 0 <= column < 7 ==> (#[trigger] cell_at(self.board, 0, column)) is Some
    }

    open spec fn score_spec(&self, player: u8) -> i32 {
        match self.winner {
            Some(winner) => if winner == player {
                i32::MAX
            } else {
                i32::MIN
            },
            None => {
                let p1_score = Self::calculate_score_spec(self.p1_aligns2, self.p1_aligns3)
                    - Self::calculate_score_spec(self.p2_aligns2, self.p2_aligns3);
                if player == 1 {
                    p1_score as i32
                } else {
                    (-p1_score) as i32
                }
            },
        }
    }

    open spec fn plays_spec(&self) -> nat {
        pieces_before(self.board, 42)
    }

    open spec fn last_play_spec(&self) -> Option<usize> {
        match self.last_played_coords {
            Some(coords) => Some((coords.1 + 1) as usize),
            None => None,
        }
    }

    proof fn lemma_move_eq(a: usize, b: usize) {
    }

    proof fn lemma_clone(model: &Self, copy: Self) {
    }

    proof fn lemma_after_play(&self, player: u8, coordinate: usize) {
        let column = coordinate - 1;
        let row = landing_row(self.board, column);
        let placed = ConnectFour {
            board: with_piece(self.board, row, column, player),
            last_played_coords: Some((row as usize, column as usize)),
            ..*self
        };
        lemma_piece_lands(self.board, column, player);
        lemma_aligned_keeps_board(placed, player, (row as usize, column as usize), 0);
        lemma_piece_counts(self.board, placed.board, row, column, 42);
    }

    proof fn lemma_plays_fit(&self) {
        lemma_pieces_bounded(self.board, 42);
    }

    proof fn lemma_full_board(&self) {
        if self.full_spec() {
            assert forall|column: usize| !self.legal_moves().contains(column) by {
                if 1 <= column <= 7 {
                    assert(cell_at(self.board, 0, column - 1) is Some);
                }
            }
        } else {
            let column = choose|column: int|
                0 <= column < 7 && !(#[trigger] cell_at(self.board, 0, column) is Some);
            assert(self.legal_moves().contains((column + 1) as usize));
        }
    }

    proof fn lemma_legal_moves_finite(&self) {
        let columns = Set::new(|column: usize| 1 <= column <= 7);
        let numbers = vstd::set_lib::set_int_range(1, 8);
        assert(columns =~= numbers.map(|i: int| i as usize)) by {
            assert forall|column: usize| columns.contains(column) implies numbers.map(
                |i: int| i as usize,
            ).contains(column) by {
                assert(numbers.contains(column as int));
            }
        }
        vstd::set_lib::lemma_int_range(1, 8);
        numbers.lemma_map_finite(|i: int| i as usize);
        vstd::set_lib::lemma_len_subset(self.legal_moves(), columns);
    }

    /// The empty board, with nothing counted and nobody the winner.
    fn new() -> (game: ConnectFour)
        ensures
            forall|row: int, column: int| (#[trigger] cell_at(game.board, row, column)) is None,
            game.last_played_coords is None,
            game.winner is None,
            game.p1_aligns2 == 0,
            game.p1_aligns3 == 0,
            game.p2_aligns2 == 0,
            game.p2_aligns3 == 0,
    {
        let game = ConnectFour {
            board: [[None;7];6],
            last_played_coords: None,
            winner: None,
            p1_aligns2: 0,
            p1_aligns3: 0,
            p2_aligns2: 0,
            p2_aligns3: 0,
        };
        proof {
            lemma_empty_board(game.board, 42);
        }
        game
    }

    fn get(&self, coordinate: (usize, usize)) -> (occupant: Option<&u8>) {
        let (row, column) = coordinate;
        if row >= 6 || column >= 7 {
            return None;
        }
        self.board[row][column].as_ref()
    }

    /// Drops a piece of `player` into `column`, onto the lowest free cell.
    fn play<'a>(&mut self, player: u8, column: usize) -> (result: Result<(), &'a str>) {
        if column == 0 || column - 1 >= 7 {
            return Err("Column out of bounds");
        }
        let column_min1 = column - 1;
        let mut i: usize = 0;
        while i < 6
            invariant
                i <= 6,
                column_min1 == column - 1,
                column_min1 < 7,
                *self == *old(self),
                old(self).valid(),
                forall|row: int|
                    5 - i < row <= 5 ==> (#[trigger] cell_at(
                        self.board,
                        row,
                        column_min1 as int,
                    )) is Some,
            decreases 6 - i,
        {
            let y = 5 - i;
            if self.board[y][column_min1].is_none() {
                self.board[y][column_min1] = Some(player);
                self.last_played_coords = Some((y, column_min1));
                self.compute_aligments();
                proof {
                    old(self).lemma_after_play(player, column);
                }
                return Ok(());
            }
            i += 1;
        }
        Err("Column full")
    }

    /// The score of the position for `player`, higher is better: 10 for
    /// each pair and 100 for each triple in a line, less the same for the
    /// opponent; the greatest score for a win and the least for a loss.
    fn get_score(&self, player: u8) -> (score: i32) {
        if let Some(winner) = self.winner {
            return if winner == player {
                i32::MAX
            } else {
                i32::MIN
            };
        }
        let p1_score = self.calculate_score(self.p1_aligns2, self.p1_aligns3) - self.calculate_score(
            self.p2_aligns2,
            self.p2_aligns3,
        );
        if player == 1u8 {
            p1_score
        } else {
            -p1_score
        }
    }

    fn get_winner(&self) -> (winner: Option<u8>) {
        self.winner
    }

    fn is_full(&self) -> (full: bool) {
        let mut i: usize = 0;
        while i < 7
            invariant
                i <= 7,
                forall|column: int|
                    0 <= column < i ==> (#[trigger] cell_at(self.board, 0, column)) is Some,
            decreases 7 - i,
        {
            if self.board[0][i].is_none() {
                assert(cell_at(self.board, 0, i as int) is None);
                return false;
            }
            i += 1;
        }
        true
    }

    fn possible_plays(&self) -> (moves: Vec<usize>) {
        let choice = if RANDOMIZE_POSSIBLE_PLAYS {
            random_order()
        } else {
            0
        };
        self.plays_in_order(choice)
    }

    fn plays(&self) -> (count: u16) {
        let mut count: u16 = 0;
        let mut k: usize = 0;
        while k < 42
            invariant
                k <= 42,
                count == pieces_before(self.board, k as int),
                count <= k,
            decreases 42 - k,
        {
            if self.board[k / 7][k % 7].is_some() {
                count += 1;
            }
            k += 1;
        }
        count
    }

    fn last_play(&self) -> (last: Option<usize>) {
        match self.last_played_coords {
            Some((_, column)) => Some(column + 1),
            None => None,
        }
    }
}

impl ConnectFour {
    /// The scores of the two players are opposite numbers as long as nobody
    /// has won.
    pub proof fn lemma_scores_are_opposite(self)
        requires
            self.winner is None,
        ensures
            self.score_spec(1) as int == -(self.score_spec(2) as int),
    {
    }
}

/// Looking at the last piece changes neither the board nor the place of the
/// last piece.
pub proof fn lemma_aligned_keeps_board(game: ConnectFour, who: u8, coords: (usize, usize), k: int)
    ensures
        game.aligned_from(who, coords, k).board == game.board,
        game.aligned_from(who, coords, k).last_played_coords == game.last_played_coords,
    decreases 4 - k,
{
    if 0 <= k < 4 && !game.completes_four(coords, k) {
        let direction = CountDirection::half_side_spec()[k];
        let count = game.run(coords, direction, 3);
        let count_opposite = game.run(coords, direction.opposite_spec(), (3 - count) as u8);
        lemma_aligned_keeps_board(game.counted(who, count, count_opposite), who, coords, k + 1);
    }
}

} // verus!
