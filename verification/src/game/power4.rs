//! Four in a row as it is scored by looking over the whole board: the score
//! and the winner are read off the lines of the board at each call.

use crate::game::board::cell_at;
use crate::game::board::landing_row;
use crate::game::board::lemma_empty_board;
use crate::game::board::lemma_piece_counts;
use crate::game::board::lemma_piece_lands;
use crate::game::board::lemma_pieces_bounded;
use crate::game::board::pieces_before;
use crate::game::board::settled_pieces;
use crate::game::board::with_piece;
use crate::game::board::Board;
use crate::game::board::Grid;
use crate::game::connect4::iteration::all_lines;
use crate::game::connect4::iteration::first_four_player;
use crate::game::connect4::iteration::first_four_through;
use crate::game::connect4::iteration::has_four;
use crate::game::connect4::iteration::places_on_all_lines;
use crate::game::connect4::iteration::places_on_lines_through;
use crate::game::connect4::iteration::starts_of;
use crate::game::connect4::iteration::BoardIterator;
use crate::game::connect4::iteration::cells_from;
use crate::game::connect4::iteration::four_from;
use crate::game::connect4::iteration::is_first_four;
use crate::game::connect4::iteration::line_cell;
use crate::game::connect4::iteration::line_piece;
use crate::game::connect4::iteration::lines_through;
use crate::game::connect4::iteration::no_four_before;
use crate::game::connect4::iteration::no_four_on;
use crate::game::connect4::iteration::on_board;
use crate::game::connect4::iteration::LineStart;
use crate::game::connect4::iteration::P4IteratorType;
use crate::game::Game;
use vstd::prelude::*;

verus! {

/// The length of the run of pieces of one player that ends on the cell `n`
/// steps from the start of a line; 0 where that cell is empty or off the
/// board.
pub open spec fn run_ending(board: Board, start: LineStart, n: int) -> nat
    decreases n,
{
    if n < 0 || line_piece(board, start, n) is None {
        0
    } else if n >= 1 && line_piece(board, start, n - 1) == line_piece(board, start, n) {
        1 + run_ending(board, start, n - 1)
    } else {
        1
    }
}

/// The cell `n` steps from the start of a line is on the board and empty.
pub open spec fn playable(board: Board, start: LineStart, n: int) -> bool {
    on_board(line_cell(start, n).0, line_cell(start, n).1) && line_piece(board, start, n) is None
}

/// A pair ends on the cell `n` steps from the start of a line, and either
/// the two cells before the cell before the pair, or the two cells after the
/// pair, are free.
pub open spec fn spaced_pair(board: Board, start: LineStart, n: int) -> bool {
    run_ending(board, start, n) == 2 && ((playable(board, start, n - 3) && playable(
        board,
        start,
        n - 2,
    )) || (playable(board, start, n + 1) && playable(board, start, n + 2)))
}

/// A triple ends on the cell `n` steps from the start of a line, and the
/// cell after it, or the cell four steps back, is free.
pub open spec fn spaced_triple(board: Board, start: LineStart, n: int) -> bool {
    run_ending(board, start, n) == 3 && (playable(board, start, n - 4) || playable(
        board,
        start,
        n + 1,
    ))
}

/// Whether the piece on the cell `n` steps from the start of a line counts
/// for `player` (`own`) or against.
pub open spec fn side(board: Board, start: LineStart, n: int, player: u8, own: bool) -> bool {
    (line_piece(board, start, n) == Some(player)) == own
}

/// How many spaced pairs end on the first `n` cells of a line, for `player`
/// or against.
pub open spec fn pairs_on(board: Board, start: LineStart, n: int, player: u8, own: bool) -> nat
    decreases n,
{
    if n <= 0 {
        0
    } else {
        pairs_on(board, start, n - 1, player, own) + if spaced_pair(board, start, n - 1) && side(
            board,
            start,
            n - 1,
            player,
            own,
        ) {
            1nat
        } else {
            0nat
        }
    }
}

/// How many spaced triples end on the first `n` cells of a line, for
/// `player` or against.
pub open spec fn triples_on(board: Board, start: LineStart, n: int, player: u8, own: bool) -> nat
    decreases n,
{
    if n <= 0 {
        0
    } else {
        triples_on(board, start, n - 1, player, own) + if spaced_triple(board, start, n - 1) && side(
            board,
            start,
            n - 1,
            player,
            own,
        ) {
            1nat
        } else {
            0nat
        }
    }
}

/// How many spaced pairs lie on the first `i` of `lines`, for `player` or
/// against.
pub open spec fn pairs_in(board: Board, lines: Seq<LineStart>, i: int, player: u8, own: bool) -> nat
    decreases i,
{
    if i <= 0 || i > lines.len() {
        0
    } else {
        pairs_in(board, lines, i - 1, player, own) + pairs_on(board, lines[i - 1], 7, player, own)
    }
}

/// How many spaced triples lie on the first `i` of `lines`, for `player` or
/// against.
pub open spec fn triples_in(
    board: Board,
    lines: Seq<LineStart>,
    i: int,
    player: u8,
    own: bool,
) -> nat
    decreases i,
{
    if i <= 0 || i > lines.len() {
        0
    } else {
        triples_in(board, lines, i - 1, player, own) + triples_on(
            board,
            lines[i - 1],
            7,
            player,
            own,
        )
    }
}

/// A game of four in a row. Players are 1 and 2; a move is a column, from 0
/// to 6.
#[derive(Debug)]
pub struct Power4 {
    pub board: Board,
    /// How many pieces were played.
    pub plays: u16,
    /// Row and column of the last piece.
    pub last_played_coords: Option<(usize, usize)>,
}

impl Clone for Power4 {
    fn clone(&self) -> (copy: Self)
        ensures
            copy == *self,
    {
        Power4 {
            board: self.board,
            plays: self.plays,
            last_played_coords: self.last_played_coords,
        }
    }
}

/// What a walk along one line counts: the player of the first four in a row,
/// if there is one, and up to there the spaced pairs and triples of a player
/// and of the other.
pub struct LineTally {
    pub four: Option<u8>,
    pub own_pairs: u16,
    pub other_pairs: u16,
    pub own_triples: u16,
    pub other_triples: u16,
}

/// Whether the cell is on the board and empty.
fn is_playable(cell: Option<Option<u8>>) -> (free: bool)
    ensures
        free == (cell == Some(None::<u8>)),
{
    match cell {
        Some(None) => true,
        _ => false,
    }
}

impl Grid for Power4 {
    open spec fn cells(&self) -> Board {
        self.board
    }

    fn get_isize(&self, coordinate: (isize, isize)) -> (occupant: Option<u8>) {
        let (row, column) = coordinate;
        if row < 0 || row >= 6 || column < 0 || column >= 7 {
            return None;
        }
        self.board[row as usize][column as usize]
    }
}

impl Power4 {
    /// The column has room for a piece.
    pub open spec fn column_open(self, column: usize) -> bool {
        column < 7 && cell_at(self.board, 0, column as int) is None
    }

    /// The score of so many pairs and triples.
    pub open spec fn calculate_score_spec(aligns2: nat, aligns3: nat) -> int {
        5 * (aligns2 as int) + 25 * (aligns3 as int)
    }

    /// The score of the spaced pairs and triples on all lines, for `player`
    /// or against.
    pub open spec fn lines_score(self, player: u8, own: bool) -> int {
        Self::calculate_score_spec(
            pairs_in(self.board, all_lines(), 26, player, own),
            triples_in(self.board, all_lines(), 26, player, own),
        )
    }

    /// A place at the start of each line of four or more cells.
    pub fn all_lines_longer_4(&self) -> (iterators: Vec<BoardIterator<'_, Power4>>)
        ensures
            starts_of(self, iterators@, all_lines()),
    {
        places_on_all_lines(self)
    }

    /// A place at the start of the row and of the column through the cell
    /// `coords`, and of the diagonals through it that `lines_through` lists
    /// for 4. The cell need not lie on the board: its row and its column
    /// only have to fit the numbers that a place counts in.
    pub fn lines_passing_at_longer_4(&self, coords: (usize, usize)) -> (iterators: Vec<
        BoardIterator<'_, Power4>,
    >)
        requires
            coords.0 <= isize::MAX,
            coords.1 <= isize::MAX,
        ensures
            starts_of(self, iterators@, lines_through(coords, 4)),
    {
        places_on_lines_through(self, coords, 4)
    }

    /// A place on the first cell of the top row, to walk along that row.
    pub fn into_iter(&self) -> (place: BoardIterator<'_, Power4>)
        ensures
            place.game == self,
            place.iterator_type == P4IteratorType::Horizontal,
            place.x == 0,
            place.y == 0,
    {
        BoardIterator { game: self, iterator_type: P4IteratorType::Horizontal, x: 0, y: 0 }
    }

    fn calculate_score(&self, aligns2: u16, aligns3: u16) -> (score: i32)
        requires
            aligns2 <= 182,
            aligns3 <= 182,
        ensures
            score == Self::calculate_score_spec(aligns2 as nat, aligns3 as nat),
    {
        (5 * aligns2 + 25 * aligns3) as i32
    }

    /// Walks a line from its start and counts the spaced pairs and triples
    /// on it, for `player` and against, up to the first four in a row.
    #[verifier::rlimit(60)]
    fn tally_line(&self, start: &BoardIterator<Power4>, player: u8) -> (tally: LineTally)
        requires
            start.game == self,
            0 <= start.x <= 6,
            0 <= start.y <= 5,
        ensures
            match tally.four {
                Some(winner) => exists|n: int|
                    {
                        &&& 0 <= n
                        &&& #[trigger] four_from(
                            self.board,
                            (start.iterator_type, start.x as int, start.y as int),
                            n,
                        )
                        &&& no_four_before(
                            self.board,
                            (start.iterator_type, start.x as int, start.y as int),
                            n,
                        )
                        &&& line_piece(
                            self.board,
                            (start.iterator_type, start.x as int, start.y as int),
                            n,
                        ) == Some(winner)
                    },
                None => {
                    let line = (start.iterator_type, start.x as int, start.y as int);
                    &&& no_four_on(self.board, line)
                    &&& tally.own_pairs == pairs_on(self.board, line, 7, player, true)
                    &&& tally.other_pairs == pairs_on(self.board, line, 7, player, false)
                    &&& tally.own_triples == triples_on(self.board, line, 7, player, true)
                    &&& tally.other_triples == triples_on(self.board, line, 7, player, false)
                    &&& tally.own_pairs <= 7
                    &&& tally.other_pairs <= 7
                    &&& tally.own_triples <= 7
                    &&& tally.other_triples <= 7
                },
            },
    {
        let ghost line = (start.iterator_type, start.x as int, start.y as int);
        let mut tally = LineTally {
            four: None,
            own_pairs: 0,
            other_pairs: 0,
            own_triples: 0,
            other_triples: 0,
        };
        let mut line_iterator = BoardIterator::new_at(self, start.iterator_type, start.x, start.y);
        let mut strike_player: u8 = 1;
        let mut strike: u8 = 0;
        let mut cell_option = line_iterator.get_with_offset(0);
        let ghost mut n: int = 0;
        while cell_option.is_some()
            invariant
                0 <= n <= 7,
                line == (start.iterator_type, start.x as int, start.y as int),
                0 <= line.1 <= 6 && 0 <= line.2 <= 5,
                line_iterator.game == self,
                line_iterator.iterator_type == line.0,
                line_iterator.y == line_cell(line, n).0,
                line_iterator.x == line_cell(line, n).1,
                cell_option == line_iterator.cell_ahead(0),
                n > 0 ==> on_board(line_cell(line, n - 1).0, line_cell(line, n - 1).1),
                strike <= 3,
                strike == run_ending(self.board, line, n - 1),
                strike > 0 ==> line_piece(self.board, line, n - 1) == Some(strike_player),
                no_four_before(self.board, line, n - 3),
                tally.four is None,
                tally.own_pairs == pairs_on(self.board, line, n, player, true),
                tally.other_pairs == pairs_on(self.board, line, n, player, false),
                tally.own_triples == triples_on(self.board, line, n, player, true),
                tally.other_triples == triples_on(self.board, line, n, player, false),
                tally.own_pairs <= n,
                tally.other_pairs <= n,
                tally.own_triples <= n,
                tally.other_triples <= n,
            decreases 8 - n,
        {
            let cell = match cell_option {
                Some(cell) => cell,
                None => unreached(),
            };
            proof {
                if n >= 2 {
                    lemma_run_shows(self.board, line, n - 2);
                }
            }
            if let Some(cell_player) = cell {
                if strike_player == cell_player {
                    strike += 1;

                    if strike == 2 {
                        if Self::space_for_pair(&line_iterator, Ghost(line), Ghost(n)) {
                            if strike_player == player {
                                tally.own_pairs += 1;
                            } else {
                                tally.other_pairs += 1;
                            }
                        }
                    } else if strike == 3 {
                        if Self::space_for_triple(&line_iterator, Ghost(line), Ghost(n)) {
                            if strike_player == player {
                                tally.own_triples += 1;
                            } else {
                                tally.other_triples += 1;
                            }
                        }
                    } else if strike == 4 {
                        proof {
                            assert(four_from(self.board, line, n - 3));
                        }
                        tally.four = Some(strike_player);
                        return tally;
                    }
                } else {
                    strike_player = cell_player;

                    strike = 1;
                }
            } else {
                strike = 0;
            }
            proof {
                // no four cells of one player end on this cell
                assert forall|m: int| 0 <= m < n + 1 - 3 implies !#[trigger] four_from(
                    self.board,
                    line,
                    m,
                ) by {}
                n = n + 1;
            }
            cell_option = line_iterator.next();
        }
        proof {
            // the line ends here: no four cells begin on the last three,
            // and nothing is counted on the cells off the board
            assert forall|m: int| 0 <= m implies !#[trigger] four_from(self.board, line, m) by {}
            lemma_nothing_off_board(self.board, line, n, 7, player, true);
            lemma_nothing_off_board(self.board, line, n, 7, player, false);
        }
        tally
    }

    /// Whether a pair that ends at `place` has room to grow to four: two
    /// free cells before the cell before it, or two after it.
    fn space_for_pair(
        place: &BoardIterator<Power4>,
        Ghost(line): Ghost<LineStart>,
        Ghost(n): Ghost<int>,
    ) -> (space: bool)
        requires
            0 <= n <= 6,
            place.iterator_type == line.0,
            place.y == line_cell(line, n).0,
            place.x == line_cell(line, n).1,
            on_board(place.y as int, place.x as int),
        ensures
            space == ((playable(place.game.board, line, n - 3) && playable(
                place.game.board,
                line,
                n - 2,
            )) || (playable(place.game.board, line, n + 1) && playable(
                place.game.board,
                line,
                n + 2,
            ))),
    {
        (is_playable(place.get_with_offset(-3)) && is_playable(place.get_with_offset(-2))) || (
        is_playable(place.get_with_offset(1)) && is_playable(place.get_with_offset(2)))
    }

    /// Whether a triple that ends at `place` has room to grow to four: a
    /// free cell four steps back, or one after it.
    fn space_for_triple(
        place: &BoardIterator<Power4>,
        Ghost(line): Ghost<LineStart>,
        Ghost(n): Ghost<int>,
    ) -> (space: bool)
        requires
            0 <= n <= 6,
            place.iterator_type == line.0,
            place.y == line_cell(line, n).0,
            place.x == line_cell(line, n).1,
            on_board(place.y as int, place.x as int),
        ensures
            space == (playable(place.game.board, line, n - 4) || playable(
                place.game.board,
                line,
                n + 1,
            )),
    {
        is_playable(place.get_with_offset(-4)) || is_playable(place.get_with_offset(1))
    }

    /// The four cells in a row that hold pieces of one player, on a line
    /// through the last piece: the first such four, with the lines taken in
    /// the order row, column, diagonal downwards, diagonal upwards, and each
    /// from its left or upper end. `None` where there are none, and before
    /// the seventh piece.
    pub fn get_winner_coords(&self) -> (cells: Option<[(usize, usize); 4]>)
        requires
            self.valid(),
        ensures
            match cells {
                Some(cells) => self.last_played_coords is Some && self.plays >= 7 && exists|
                    i: int,
                    n: int,
                |
                    {
                        &&& #[trigger] is_first_four(
                            self.board,
                            lines_through(self.last_played_coords->0, 4),
                            i,
                            n,
                        )
                        &&& cells_from(cells, lines_through(self.last_played_coords->0, 4)[i], n)
                    },
                None => self.last_played_coords is None || self.plays < 7 || !has_four(
                    self.board,
                    lines_through(self.last_played_coords->0, 4),
                ),
            },
    {
        if self.last_played_coords.is_none() {
            return None;
        }
        if self.plays < 7 {
            // No winner before 7 plays
            return None;
        }
        match self.last_played_coords {
            Some(last_coords) => first_four_through(self, last_coords, 4),
            None => None,
        }
    }
}

impl Game for Power4 {
    /// (row, column) or (y, x)
    type Coordinate = (usize, usize);

    /// a column, from 0 to 6
    type InputCoordinate = usize;

    /// The player is represented by 1 or 2
    type Player = u8;

    type Score = i32;

    open spec fn valid(&self) -> bool {
        &&& settled_pieces(self.board)
        &&& self.plays == pieces_before(self.board, 42)
        &&& self.last_played_coords matches Some(coords) ==> cell_at(
            self.board,
            coords.0 as int,
            coords.1 as int,
        ) is Some
    }

    open spec fn cell(&self, coordinate: (usize, usize)) -> Option<u8> {
        cell_at(self.board, coordinate.0 as int, coordinate.1 as int)
    }

    open spec fn legal_moves(&self) -> Set<usize> {
        Set::new(|column: usize| self.column_open(column))
    }

    open spec fn after_play(&self, player: u8, coordinate: usize) -> Self {
        let row = landing_row(self.board, coordinate as int);
        Power4 {
            board: with_piece(self.board, row, coordinate as int, player),
            plays: (self.plays + 1) as u16,
            last_played_coords: Some((row as usize, coordinate)),
        }
    }

    open spec fn may_offer(&self, moves: Seq<usize>) -> bool {
        forall|a: int, b: int| 0 <= a < b < moves.len() ==> moves[a] < moves[b]
    }

    open spec fn refusal(&self, coordinate: usize) -> Seq<char> {
        if coordinate < 7 {
            "Column full"@
        } else {
            "Column out of bounds"@
        }
    }

    open spec fn winner_spec(&self) -> Option<u8> {
        match self.last_played_coords {
            Some(last) => first_four_player(self.board, lines_through(last, 4)),
            None => None,
        }
    }

    open spec fn full_spec(&self) -> bool {
        forall|column: int| 0 <= column < 7 ==> (#[trigger] cell_at(self.board, 0, column)) is Some
    }

    open spec fn score_spec(&self, player: u8) -> i32 {
        match first_four_player(self.board, all_lines()) {
            Some(winner) => if winner == player {
                i32::MAX
            } else {
                i32::MIN
            },
            None => (self.lines_score(player, true) - self.lines_score(player, false)) as i32,
        }
    }

    open spec fn plays_spec(&self) -> nat {
        self.plays as nat
    }

    open spec fn last_play_spec(&self) -> Option<usize> {
        match self.last_played_coords {
            Some(coords) => Some(coords.1),
            None => None,
        }
    }

    proof fn lemma_move_eq(a: usize, b: usize) {
    }

    proof fn lemma_clone(model: &Self, copy: Self) {
    }

    proof fn lemma_after_play(&self, player: u8, coordinate: usize) {
        let row = landing_row(self.board, coordinate as int);
        lemma_piece_lands(self.board, coordinate as int, player);
        lemma_piece_counts(
            self.board,
            with_piece(self.board, row, coordinate as int, player),
            row,
            coordinate as int,
            42,
        );
        lemma_pieces_bounded(with_piece(self.board, row, coordinate as int, player), 42);
    }

    proof fn lemma_plays_fit(&self) {
    }

    proof fn lemma_full_board(&self) {
        if self.full_spec() {
            assert forall|column: usize| !self.legal_moves().contains(column) by {
                if column < 7 {
                    assert(cell_at(self.board, 0, column as int) is Some);
                }
            }
        } else {
            let column = choose|column: int|
                0 <= column < 7 && !(#[trigger] cell_at(self.board, 0, column) is Some);
            assert(self.legal_moves().contains(column as usize));
        }
    }

    proof fn lemma_legal_moves_finite(&self) {
        let columns = Set::new(|column: usize| column < 7);
        let numbers = vstd::set_lib::set_int_range(0, 7);
        assert(columns =~= numbers.map(|i: int| i as usize)) by {
            assert forall|column: usize| columns.contains(column) implies numbers.map(
                |i: int| i as usize,
            ).contains(column) by {
                assert(numbers.contains(column as int));
            }
        }
        vstd::set_lib::lemma_int_range(0, 7);
        numbers.lemma_map_finite(|i: int| i as usize);
        vstd::set_lib::lemma_len_subset(self.legal_moves(), columns);
    }

    /// The empty board.
    fn new() -> (game: Power4)
        ensures
            forall|row: int, column: int| (#[trigger] cell_at(game.board, row, column)) is None,
            game.plays == 0,
            game.last_played_coords is None,
    {
        let game = Power4 { board: [[None;7];6], plays: 0, last_played_coords: None };
        proof {
            lemma_empty_board(game.board, 42);
        }
        game
    }

    fn get(&self, coordinate: (usize, usize)) -> (occupant: Option<&u8>) {
        let (row, column) = coordinate;
        if row >= 6 || column >= 7 {
            return None;
        }
        self.board[row][column].as_ref()
    }

    /// Drops a piece of `player` into `column`, onto the lowest free cell.
    fn play<'a>(&mut self, player: u8, column: usize) -> (result: Result<(), &'a str>) {
        if column >= 7 {
            return Err("Column out of bounds");
        }
        let mut i: usize = 0;
        while i < 6
            invariant
                i <= 6,
                column < 7,
                *self == *old(self),
                old(self).valid(),
                forall|row: int|
                    5 - i < row <= 5 ==> (#[trigger] cell_at(self.board, row, column as int))
                        is Some,
            decreases 6 - i,
        {
            let y = 5 - i;
            if self.board[y][column].is_none() {
                proof {
                    old(self).lemma_after_play(player, column);
                }
                self.board[y][column] = Some(player);
                self.plays += 1;
                self.last_played_coords = Some((y, column));
                return Ok(());
            }
            i += 1;
        }
        Err("Column full")
    }

    /// The score of the position for `player`, higher is better: 5 for each
    /// pair and 25 for each triple of its pieces in a line that has room to
    /// grow, less the same for the pieces of the opponent; the greatest score
    /// where the first four in a row on the board is its own, and the least
    /// where it is not.
    fn get_score(&self, player: u8) -> (score: i32) {
        let mut p1_aligns2: u16 = 0;
        let mut p1_aligns3: u16 = 0;
        let mut p2_aligns2: u16 = 0;
        let mut p2_aligns3: u16 = 0;
        let ghost lines = all_lines();
        let iterators = self.all_lines_longer_4();
        let mut i: usize = 0;
        while i < iterators.len()
            invariant
                i <= iterators@.len(),
                iterators@.len() == 26,
                lines == all_lines(),
                starts_of(self, iterators@, lines),
                forall|j: int| 0 <= j < i ==> no_four_on(self.board, #[trigger] lines[j]),
                p1_aligns2 == pairs_in(self.board, lines, i as int, player, true),
                p2_aligns2 == pairs_in(self.board, lines, i as int, player, false),
                p1_aligns3 == triples_in(self.board, lines, i as int, player, true),
                p2_aligns3 == triples_in(self.board, lines, i as int, player, false),
                p1_aligns2 <= 7 * i,
                p2_aligns2 <= 7 * i,
                p1_aligns3 <= 7 * i,
                p2_aligns3 <= 7 * i,
            decreases iterators@.len() - i,
        {
            let tally = self.tally_line(&iterators[i], player);
            match tally.four {
                Some(winner) => {
                    proof {
                        let n = choose|n: int|
                            {
                                &&& 0 <= n
                                &&& #[trigger] four_from(self.board, lines[i as int], n)
                                &&& no_four_before(self.board, lines[i as int], n)
                                &&& line_piece(self.board, lines[i as int], n) == Some(winner)
                            };
                        assert(is_first_four(self.board, lines, i as int, n));
                    }
                    return if winner == player {
                        i32::MAX
                    } else {
                        i32::MIN
                    };
                },
                None => {},
            }
            p1_aligns2 += tally.own_pairs;
            p2_aligns2 += tally.other_pairs;
            p1_aligns3 += tally.own_triples;
            p2_aligns3 += tally.other_triples;
            i += 1;
        }
        self.calculate_score(p1_aligns2, p1_aligns3) - self.calculate_score(p2_aligns2, p2_aligns3)
    }

    fn get_winner(&self) -> (winner: Option<u8>) {
        if self.last_played_coords.is_none() {
            return None;
        }
        let last_coords = match self.last_played_coords {
            Some(coords) => coords,
            None => unreached(),
        };
        match first_four_through(self, last_coords, 4) {
            Some(cells) => {
                self.board[cells[0].0][cells[0].1]
            },
            None => None,
        }
    }

    fn is_full(&self) -> (full: bool) {
        let mut i: usize = 0;
        while i < 7
            invariant
                i <= 7,
                forall|column: int|
                    0 <= column < i ==> (#[trigger] cell_at(self.board, 0, column)) is Some,
            decreases 7 - i,
        {
            if self.board[0][i].is_none() {
                assert(cell_at(self.board, 0, i as int) is None);
                return false;
            }
            i += 1;
        }
        true
    }

    /// The columns that have room, from left to right.
    fn possible_plays(&self) -> (moves: Vec<usize>) {
        let mut vec: Vec<usize> = Vec::new();
        let mut column: usize = 0;
        while column <= 6
            invariant
                column <= 7,
                forall|a: int, b: int| 0 <= a < b < vec@.len() ==> vec@[a] < vec@[b],
                forall|a: int|
                    0 <= a < vec@.len() ==> (#[trigger] vec@[a]) < column && self.column_open(
                        vec@[a],
                    ),
                forall|c: usize| c < column && self.column_open(c) ==> vec@.contains(c),
            decreases 7 - column,
        {
            let ghost before = vec@;
            if self.board[0][column].is_none() {
                vec.push(column);
                proof {
                    assert forall|c: usize| c < column + 1 && self.column_open(
                        c,
                    ) implies vec@.contains(c) by {
                        if c < column {
                            let a = choose|a: int| 0 <= a < before.len() && before[a] == c;
                            assert(vec@[a] == c);
                        } else {
                            assert(vec@[vec@.len() - 1] == c);
                        }
                    }
                }
            }
            column += 1;
        }
        vec
    }

    fn plays(&self) -> (count: u16) {
        self.plays
    }

    fn last_play(&self) -> (last: Option<usize>) {
        match self.last_played_coords {
            Some((_, column)) => Some(column),
            None => None,
        }
    }
}

/// Only the players 1 and 2 have pieces on the board.
pub open spec fn two_players(board: Board) -> bool {
    forall|row: int, column: int|
        (#[trigger] cell_at(board, row, column)) matches Some(player) ==> player == 1 || player
            == 2
}

/// On a board of the players 1 and 2, what counts for one on a line counts
/// against the other; and no more is counted than there are cells.
pub proof fn lemma_counts_on_line(board: Board, start: LineStart, n: int)
    requires
        two_players(board),
        0 <= n,
    ensures
        pairs_on(board, start, n, 1, true) == pairs_on(board, start, n, 2, false),
        pairs_on(board, start, n, 1, false) == pairs_on(board, start, n, 2, true),
        triples_on(board, start, n, 1, true) == triples_on(board, start, n, 2, false),
        triples_on(board, start, n, 1, false) == triples_on(board, start, n, 2, true),
        pairs_on(board, start, n, 1, true) + pairs_on(board, start, n, 1, false) <= n,
        triples_on(board, start, n, 1, true) + triples_on(board, start, n, 1, false) <= n,
    decreases n,
{
    if n > 0 {
        lemma_counts_on_line(board, start, n - 1);
    }
}

/// On a board of the players 1 and 2, what counts for one on the lines
/// counts against the other; and no more is counted than there are cells.
pub proof fn lemma_counts_in_lines(board: Board, lines: Seq<LineStart>, i: int)
    requires
        two_players(board),
        0 <= i <= lines.len(),
    ensures
        pairs_in(board, lines, i, 1, true) == pairs_in(board, lines, i, 2, false),
        pairs_in(board, lines, i, 1, false) == pairs_in(board, lines, i, 2, true),
        triples_in(board, lines, i, 1, true) == triples_in(board, lines, i, 2, false),
        triples_in(board, lines, i, 1, false) == triples_in(board, lines, i, 2, true),
        pairs_in(board, lines, i, 1, true) + pairs_in(board, lines, i, 1, false) <= 7 * i,
        triples_in(board, lines, i, 1, true) + triples_in(board, lines, i, 1, false) <= 7 * i,
    decreases i,
{
    if i > 0 {
        lemma_counts_in_lines(board, lines, i - 1);
        lemma_counts_on_line(board, lines[i - 1], 7);
    }
}

impl Power4 {
    /// The scores of the two players are opposite numbers as long as the
    /// board shows no four in a row and holds the pieces of players 1 and 2
    /// only.
    pub proof fn lemma_scores_are_opposite(self)
        requires
            two_players(self.board),
            first_four_player(self.board, all_lines()) is None,
        ensures
            self.score_spec(1) as int == -(self.score_spec(2) as int),
    {
        lemma_counts_in_lines(self.board, all_lines(), 26);
    }
}

/// The run that ends on a cell is the cell alone, or the cell and the run
/// that ends before it.
pub proof fn lemma_run_shows(board: Board, start: LineStart, n: int)
    requires
        0 <= n,
    ensures
        run_ending(board, start, n) >= 1 <==> line_piece(board, start, n) is Some,
        run_ending(board, start, n) >= 2 ==> line_piece(board, start, n - 1) == line_piece(
            board,
            start,
            n,
        ) && run_ending(board, start, n) == run_ending(board, start, n - 1) + 1,
        n >= 1 && line_piece(board, start, n) is Some && line_piece(board, start, n - 1)
            == line_piece(board, start, n) ==> run_ending(board, start, n) == run_ending(
            board,
            start,
            n - 1,
        ) + 1,
{
}

/// Nothing is counted on the cells of a line that are off the board.
pub proof fn lemma_nothing_off_board(
    board: Board,
    start: LineStart,
    n: int,
    m: int,
    player: u8,
    own: bool,
)
    requires
        0 <= start.1 <= 6,
        0 <= start.2 <= 5,
        0 <= n <= m,
        !on_board(line_cell(start, n).0, line_cell(start, n).1),
    ensures
        pairs_on(board, start, m, player, own) == pairs_on(board, start, n, player, own),
        triples_on(board, start, m, player, own) == triples_on(board, start, n, player, own),
    decreases m - n,
{
    if n < m {
        lemma_nothing_off_board(board, start, n, m - 1, player, own);
    }
}

} // verus!
