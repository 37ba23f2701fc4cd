//! Walking along a line of the board.

use crate::game::board::cell_at;
use crate::game::board::Board;
use crate::game::board::Grid;
use vstd::prelude::*;

verus! {

/// The four kinds of line, each walked from left to right, the vertical one
/// from the top down.
#[derive(Debug, Copy, Clone, PartialEq, Eq, Structural)]
pub enum P4IteratorType {
    Vertical,
    Horizontal,
    DiagonalDown,
    DiagonalUp,
}

/// Row and column of the cell `n` steps along a line of kind `kind` from the
/// cell at `row` and `column`.
pub open spec fn cell_along(kind: P4IteratorType, row: int, column: int, n: int) -> (int, int) {
    match kind {
        P4IteratorType::Horizontal => (row, column + n),
        P4IteratorType::Vertical => (row + n, column),
        P4IteratorType::DiagonalDown => (row + n, column + n),
        P4IteratorType::DiagonalUp => (row - n, column + n),
    }
}

/// The cell is on the board.
pub open spec fn on_board(row: int, column: int) -> bool {
    0 <= row < 6 && 0 <= column < 7
}

/// The character that stands for a cell.
pub open spec fn glyph(cell: Option<u8>) -> char {
    match cell {
        Some(player) => if player == 1 {
            '1'
        } else if player == 2 {
            '2'
        } else {
            '-'
        },
        None => 'X',
    }
}

/// How many cells of a line of this kind lie at or after the cell.
pub open spec fn cells_ahead(kind: P4IteratorType, row: int, column: int) -> int {
    if !on_board(row, column) {
        0
    } else if kind == P4IteratorType::Vertical {
        6 - row
    } else {
        7 - column
    }
}

/// The characters of the cells of a line, from the cell at `row` and
/// `column` to the edge of the board.
pub open spec fn text_from(board: Board, kind: P4IteratorType, row: int, column: int) -> Seq<
    char,
>
    decreases cells_ahead(kind, row, column),
{
    if on_board(row, column) {
        seq![glyph(cell_at(board, row, column))] + text_from(
            board,
            kind,
            cell_along(kind, row, column, 1).0,
            cell_along(kind, row, column, 1).1,
        )
    } else {
        Seq::empty()
    }
}

/// The start of a line: its kind, and the column and the row of its first
/// cell.
pub type LineStart = (P4IteratorType, int, int);

/// The cell `n` steps from the start of a line, as row and column.
pub open spec fn line_cell(start: LineStart, n: int) -> (int, int) {
    cell_along(start.0, start.2, start.1, n)
}

/// Who occupies the cell `n` steps from the start of a line.
pub open spec fn line_piece(board: Board, start: LineStart, n: int) -> Option<u8> {
    cell_at(board, line_cell(start, n).0, line_cell(start, n).1)
}

/// The four cells from the one `n` steps from the start of a line hold
/// pieces of one player.
pub open spec fn four_from(board: Board, start: LineStart, n: int) -> bool {
    &&& line_piece(board, start, n) is Some
    &&& line_piece(board, start, n + 1) == line_piece(board, start, n)
    &&& line_piece(board, start, n + 2) == line_piece(board, start, n)
    &&& line_piece(board, start, n + 3) == line_piece(board, start, n)
}

/// No four cells in a row of the line hold pieces of one player, among
/// those that begin before the cell `n` steps from its start.
pub open spec fn no_four_before(board: Board, start: LineStart, n: int) -> bool {
    forall|m: int| 0 <= m < n ==> !#[trigger] four_from(board, start, m)
}

/// No four cells in a row of the line hold pieces of one player.
pub open spec fn no_four_on(board: Board, start: LineStart) -> bool {
    forall|m: int| 0 <= m ==> !#[trigger] four_from(board, start, m)
}

/// `cells` are the four cells from the one `n` steps from the start of a
/// line.
pub open spec fn cells_from(cells: [(usize, usize); 4], start: LineStart, n: int) -> bool {
    forall|k: int|
        0 <= k < 4 ==> (#[trigger] cells[k]).0 == line_cell(start, n + k).0 && cells[k].1
            == line_cell(start, n + k).1
}

/// On the lines `lines`, taken in turn and each from its start, the first
/// four in a row of one player begin `n` steps into line `i`.
pub open spec fn is_first_four(board: Board, lines: Seq<LineStart>, i: int, n: int) -> bool {
    &&& 0 <= i < lines.len()
    &&& 0 <= n
    &&& four_from(board, lines[i], n)
    &&& no_four_before(board, lines[i], n)
    &&& forall|j: int| 0 <= j < i ==> no_four_on(board, #[trigger] lines[j])
}

/// Lines through the cell `coords`, each given by its start: the row, the
/// column, then the diagonal downwards and the diagonal upwards, each of the
/// two where it is long enough. With `x` columns to the left of the cell,
/// `l` to its right, `y` rows above it and `b` below, the diagonal downwards
/// is listed where `x + b` and `l + y` are both `reach` or more, and the
/// diagonal upwards where `x + y` and `l + b` are.
pub open spec fn lines_through(coords: (usize, usize), reach: int) -> Seq<LineStart> {
    let y = coords.0 as int;
    let x = coords.1 as int;
    let straight = seq![(P4IteratorType::Horizontal, 0int, y), (P4IteratorType::Vertical, x, 0int)];
    let down = if x + (5 - y) >= reach && (6 - x) + y >= reach {
        let back = if x < y {
            x
        } else {
            y
        };
        straight.push((P4IteratorType::DiagonalDown, x - back, y - back))
    } else {
        straight
    };
    if x + y >= reach && (6 - x) + (5 - y) >= reach {
        let back = if x < 5 - y {
            x
        } else {
            5 - y
        };
        down.push((P4IteratorType::DiagonalUp, x - back, y + back))
    } else {
        down
    }
}

/// The starts of all lines of four or more cells: the six rows, the seven
/// columns, seven diagonals downwards and six upwards.
pub open spec fn all_lines() -> Seq<LineStart> {
    Seq::new(6, |y: int| (P4IteratorType::Horizontal, 0int, y)) + Seq::new(
        7,
        |x: int| (P4IteratorType::Vertical, x, 0int),
    ) + Seq::new(4, |x: int| (P4IteratorType::DiagonalDown, x, 0int)) + Seq::new(
        3,
        |y: int| (P4IteratorType::DiagonalDown, 0int, y + 1),
    ) + Seq::new(3, |y: int| (P4IteratorType::DiagonalUp, 0int, y + 3)) + Seq::new(
        3,
        |x: int| (P4IteratorType::DiagonalUp, x + 1, 5int),
    )
}

/// `lines` are places on the board of `game` at the starts that `starts`
/// names.
pub open spec fn starts_of<G: Grid>(
    game: &G,
    lines: Seq<BoardIterator<G>>,
    starts: Seq<LineStart>,
) -> bool {
    &&& lines.len() == starts.len()
    &&& forall|i: int|
        0 <= i < lines.len() ==> {
            &&& (#[trigger] lines[i]).game == game
            &&& lines[i].iterator_type == starts[i].0
            &&& lines[i].x == starts[i].1
            &&& lines[i].y == starts[i].2
        }
}

/// The last four of the cells walked.
fn last_four(walked: &Vec<(isize, isize)>) -> (cells: [(usize, usize); 4])
    requires
        walked@.len() >= 4,
        forall|m: int|
            0 <= m < walked@.len() ==> 0 <= (#[trigger] walked@[m]).0 < 6 && 0 <= walked@[m].1
                < 7,
    ensures
        forall|k: int|
            0 <= k < 4 ==> (#[trigger] cells[k]).0 == walked@[walked@.len() - 4 + k].0
                && cells[k].1 == walked@[walked@.len() - 4 + k].1,
{
    let mut result = [(0usize, 0usize);4];
    let winner_coords_size = walked.len();
    let mut k: usize = 0;
    while k < 4
        invariant
            k <= 4,
            winner_coords_size == walked@.len(),
            winner_coords_size >= 4,
            forall|m: int|
                0 <= m < walked@.len() ==> 0 <= (#[trigger] walked@[m]).0 < 6 && 0
                    <= walked@[m].1 < 7,
            forall|j: int|
                0 <= j < k ==> (#[trigger] result[j]).0 == walked@[walked@.len() - 4 + j].0
                    && result[j].1 == walked@[walked@.len() - 4 + j].1,
        decreases 4 - k,
    {
        let (y, x) = walked[winner_coords_size - 4 + k];
        result[k] = (y as usize, x as usize);
        k += 1;
    }
    result
}

/// A place on a line of the board. The place may lie off the board.
pub struct BoardIterator<'a, G: Grid> {
    pub game: &'a G,
    pub iterator_type: P4IteratorType,
    pub y: isize,
    pub x: isize,
}

impl<'a, G: Grid> BoardIterator<'a, G> {
    /// Row and column of the place `offset` steps ahead.
    pub open spec fn coords_at(self, offset: int) -> (int, int) {
        cell_along(self.iterator_type, self.y as int, self.x as int, offset)
    }

    /// Row and column of the place `offset` steps ahead can be computed.
    pub open spec fn reaches(self, offset: int) -> bool {
        &&& isize::MIN <= self.coords_at(offset).0 <= isize::MAX
        &&& isize::MIN <= self.coords_at(offset).1 <= isize::MAX
    }

    /// The cell at the place `offset` steps ahead, if that place is on the
    /// board.
    pub open spec fn cell_ahead(self, offset: int) -> Option<Option<u8>> {
        let (row, column) = self.coords_at(offset);
        if on_board(row, column) {
            Some(cell_at(self.game.cells(), row, column))
        } else {
            None
        }
    }

    /// The place at column `x` and row `y` on the line of kind
    /// `iterator_type` through it.
    pub fn new_at(game: &'a G, iterator_type: P4IteratorType, x: isize, y: isize) -> (place:
        BoardIterator<'a, G>)
        ensures
            place.game == game,
            place.iterator_type == iterator_type,
            place.x == x,
            place.y == y,
    {
        BoardIterator { game, iterator_type, y, x }
    }

    /// Row and column of the place `offset` steps ahead.
    pub fn get_coords_with_offset(&self, offset: isize) -> (coords: (isize, isize))
        requires
            self.reaches(offset as int),
        ensures
            coords.0 == self.coords_at(offset as int).0,
            coords.1 == self.coords_at(offset as int).1,
    {
        match self.iterator_type {
            P4IteratorType::Horizontal => (self.y, self.x + offset),
            P4IteratorType::Vertical => (self.y + offset, self.x),
            P4IteratorType::DiagonalDown => (self.y + offset, self.x + offset),
            P4IteratorType::DiagonalUp => (self.y - offset, self.x + offset),
        }
    }

    /// Moves one step ahead and gives the new row and column.
    pub fn increment(&mut self) -> (coords: (isize, isize))
        requires
            old(self).reaches(1),
        ensures
            coords.0 == old(self).coords_at(1).0,
            coords.1 == old(self).coords_at(1).1,
            final(self).y == coords.0,
            final(self).x == coords.1,
            final(self).game == old(self).game,
            final(self).iterator_type == old(self).iterator_type,
    {
        let (y, x) = self.get_coords_with_offset(1);
        self.y = y;
        self.x = x;
        (y, x)
    }

    /// The cell `offset` steps ahead; `None` where that place is off the
    /// board.
    pub fn get_with_offset(&self, offset: isize) -> (cell: Option<Option<u8>>)
        requires
            self.reaches(offset as int),
        ensures
            cell == self.cell_ahead(offset as int),
    {
        let (y, x) = self.get_coords_with_offset(offset);
        if x < 0 || x >= 7 || y < 0 || y >= 6 {
            return None;
        }
        Some(self.game.get_isize((y, x)))
    }

    /// Moves one step ahead and gives the cell there; `None` where that
    /// place is off the board.
    pub fn next(&mut self) -> (cell: Option<Option<u8>>)
        requires
            old(self).reaches(1),
        ensures
            cell == old(self).cell_ahead(1),
            final(self).y == old(self).coords_at(1).0,
            final(self).x == old(self).coords_at(1).1,
            final(self).game == old(self).game,
            final(self).iterator_type == old(self).iterator_type,
    {
        let (y, x) = self.increment();
        if self.x < 0 || self.x >= 7 || self.y < 0 || self.y >= 6 {
            return None;
        }
        Some(self.game.get_isize((y, x)))
    }

    /// The cells after this place up to the edge of the board, one character
    /// each: `1` and `2` for the players, `-` for any other piece and `X`
    /// for an empty cell.
    pub fn to_string(self) -> (text: String)
        requires
            self.reaches(1),
        ensures
            text@ == text_from(
                self.game.cells(),
                self.iterator_type,
                self.coords_at(1).0,
                self.coords_at(1).1,
            ),
    {
        let mut place = self;
        let mut result: Vec<char> = Vec::new();
        loop
            invariant
                place.game == self.game,
                place.iterator_type == self.iterator_type,
                place.reaches(1),
                result@ + text_from(
                    place.game.cells(),
                    place.iterator_type,
                    place.coords_at(1).0,
                    place.coords_at(1).1,
                ) == text_from(
                    self.game.cells(),
                    self.iterator_type,
                    self.coords_at(1).0,
                    self.coords_at(1).1,
                ),
            decreases
                    cells_ahead(place.iterator_type, place.coords_at(1).0, place.coords_at(1).1),
        {
            match place.next() {
                Some(cell) => {
                    result.push(
                        match cell {
                            Some(player) => if player == 1 {
                                '1'
                            } else if player == 2 {
                                '2'
                            } else {
                                '-'
                            },
                            None => 'X',
                        },
                    );
                },
                None => {
                    return string_of(&result);
                },
            }
        }
    }

    /// Row and column of the place.
    pub fn coords(&self) -> (coords: (isize, isize))
        ensures
            coords == (self.y, self.x),
    {
        (self.y, self.x)
    }
}

/// Some four cells in a row on one of `lines` hold pieces of one player.
pub open spec fn has_four(board: Board, lines: Seq<LineStart>) -> bool {
    exists|i: int, n: int| is_first_four(board, lines, i, n)
}

/// The player of the first four in a row on `lines`, if there is one.
pub open spec fn first_four_player(board: Board, lines: Seq<LineStart>) -> Option<u8> {
    if has_four(board, lines) {
        let (i, n) = choose|i: int, n: int| is_first_four(board, lines, i, n);
        line_piece(board, lines[i], n)
    } else {
        None
    }
}

/// A place on the board of `game` at the start of each line of four or more
/// cells.
pub fn places_on_all_lines<G: Grid>(game: &G) -> (iterators: Vec<BoardIterator<'_, G>>)
    ensures
        starts_of(game, iterators@, all_lines()),
{
    // 6 horizontal + 7 vertical + 7 diagonal down + 6 diagonal up
    let mut iterators: Vec<BoardIterator<G>> = Vec::with_capacity(6 + 7 + 7 + 6);
    let mut y: isize = 0;
    while y < 6
        invariant
            0 <= y <= 6,
            starts_of(game, iterators@, all_lines().take(y as int)),
        decreases 6 - y,
    {
        iterators.push(BoardIterator::new_at(game, P4IteratorType::Horizontal, 0, y));
        y += 1;
    }
    let mut x: isize = 0;
    while x < 7
        invariant
            0 <= x <= 7,
            starts_of(game, iterators@, all_lines().take(6 + x as int)),
        decreases 7 - x,
    {
        iterators.push(BoardIterator::new_at(game, P4IteratorType::Vertical, x, 0));
        x += 1;
    }
    // Diagonal down -> starting here:
    // X  X  X  X  -  -  -
    // X  -  -  -  -  -  -
    // X  -  -  -  -  -  -
    // X  -  -  -  -  -  -
    // -  -  -  -  -  -  -
    // -  -  -  -  -  -  -
    let mut x: isize = 0;
    while x <= 3
        invariant
            0 <= x <= 4,
            starts_of(game, iterators@, all_lines().take(13 + x as int)),
        decreases 4 - x,
    {
        iterators.push(BoardIterator::new_at(game, P4IteratorType::DiagonalDown, x, 0));
        x += 1;
    }
    let mut y: isize = 1;
    while y <= 3
        invariant
            1 <= y <= 4,
            starts_of(game, iterators@, all_lines().take(16 + y as int)),
        decreases 4 - y,
    {
        iterators.push(BoardIterator::new_at(game, P4IteratorType::DiagonalDown, 0, y));
        y += 1;
    }
    // Diagonal up -> starting here:
    // -  -  -  -  -  -  -
    // -  -  -  -  -  -  -
    // -  -  -  -  -  -  -
    // X  -  -  -  -  -  -
    // X  -  -  -  -  -  -
    // X  X  X  X  -  -  -
    let mut y: isize = 3;
    while y <= 5
        invariant
            3 <= y <= 6,
            starts_of(game, iterators@, all_lines().take(17 + y as int)),
        decreases 6 - y,
    {
        iterators.push(BoardIterator::new_at(game, P4IteratorType::DiagonalUp, 0, y));
        y += 1;
    }
    let mut x: isize = 1;
    while x <= 3
        invariant
            1 <= x <= 4,
            starts_of(game, iterators@, all_lines().take(22 + x as int)),
        decreases 4 - x,
    {
        iterators.push(BoardIterator::new_at(game, P4IteratorType::DiagonalUp, x, 5));
        x += 1;
    }
    iterators
}

/// A place at the start of each of the lines through the cell `coords` that
/// `lines_through` lists for `reach`, on the board of `game` or beside it:
/// `coords` need not lie on the board, but fit the numbers that a place
/// counts in.
pub fn places_on_lines_through<G: Grid>(game: &G, coords: (usize, usize), reach: u8) -> (iterators:
    Vec<BoardIterator<'_, G>>)
    requires
        coords.0 <= isize::MAX,
        coords.1 <= isize::MAX,
    ensures
        starts_of(game, iterators@, lines_through(coords, reach as int)),
{
    let y = coords.0 as isize;
    let x = coords.1 as isize;
    let mut iterators = Vec::with_capacity(4);

    iterators.push(BoardIterator::new_at(game, P4IteratorType::Horizontal, 0, y));
    iterators.push(BoardIterator::new_at(game, P4IteratorType::Vertical, x, 0));

    // the room around the cell, in numbers wide enough for any cell
    let wide_x = x as i128;
    let wide_y = y as i128;
    let wide_reach = reach as i128;
    let x_from_left = 6 - wide_x;
    let y_from_bottom = 5 - wide_y;

    if wide_x + y_from_bottom >= wide_reach && x_from_left + wide_y >= wide_reach {
        let subtract = if x < y {
            x
        } else {
            y
        };
        // one of x - subtract or y - subtract is 0
        iterators.push(
            BoardIterator::new_at(game, P4IteratorType::DiagonalDown, x - subtract, y - subtract),
        );
    }
    if wide_x + wide_y >= wide_reach && x_from_left + y_from_bottom >= wide_reach {
        // the cell lies near the board: its row and column are small
        let below = 5 - y;
        let subtract = if x < below {
            x
        } else {
            below
        };
        iterators.push(
            BoardIterator::new_at(game, P4IteratorType::DiagonalUp, x - subtract, y + subtract),
        );
    }
    iterators
}

/// The first four cells in a row that hold pieces of one player, on the
/// line that starts at `start`, walked from there.
pub fn first_four_on<G: Grid>(start: &BoardIterator<G>) -> (cells: Option<[(usize, usize); 4]>)
    requires
        0 <= start.x <= 6,
        0 <= start.y <= 5,
    ensures
        match cells {
            Some(cells) => exists|n: int|
                {
                    &&& 0 <= n
                    &&& #[trigger] four_from(
                        start.game.cells(),
                        (start.iterator_type, start.x as int, start.y as int),
                        n,
                    )
                    &&& no_four_before(
                        start.game.cells(),
                        (start.iterator_type, start.x as int, start.y as int),
                        n,
                    )
                    &&& cells_from(cells, (start.iterator_type, start.x as int, start.y as int), n)
                },
            None => no_four_on(
                start.game.cells(),
                (start.iterator_type, start.x as int, start.y as int),
            ),
        },
{
    let ghost line = (start.iterator_type, start.x as int, start.y as int);
    let mut line_iterator = BoardIterator::new_at(start.game, start.iterator_type, start.x, start.y);
    let mut winner_coords: Vec<(isize, isize)> = Vec::with_capacity(2 * 4 - 1);
    let mut strike_player: u8 = 1;
    let mut strike: u8 = 0;
    let mut cell_option = line_iterator.get_with_offset(0);
    let ghost mut n: int = 0;
    while cell_option.is_some()
        invariant
            0 <= n <= 7,
            0 <= line.1 <= 6 && 0 <= line.2 <= 5,
            line_iterator.game == start.game,
            line_iterator.iterator_type == line.0,
            line_iterator.y == line_cell(line, n).0,
            line_iterator.x == line_cell(line, n).1,
            cell_option == line_iterator.cell_ahead(0),
            winner_coords@.len() == n,
            forall|m: int|
                0 <= m < n ==> (#[trigger] winner_coords@[m]).0 == line_cell(line, m).0
                    && winner_coords@[m].1 == line_cell(line, m).1 && on_board(
                    line_cell(line, m).0,
                    line_cell(line, m).1,
                ),
            line == (start.iterator_type, start.x as int, start.y as int),
            strike <= 3,
            strike <= n,
            forall|m: int|
                n - strike <= m < n ==> #[trigger] line_piece(start.game.cells(), line, m) == Some(
                    strike_player,
                ),
            0 < strike < n ==> line_piece(start.game.cells(), line, n - strike - 1) != Some(
                strike_player,
            ),
            strike == 0 && n > 0 ==> line_piece(start.game.cells(), line, n - 1) is None,
            no_four_before(start.game.cells(), line, n - 3),
        decreases 8 - n,
    {
        let cell = match cell_option {
            Some(cell) => cell,
            None => unreached(),
        };
        winner_coords.push(line_iterator.coords());
        if let Some(cell_player) = cell {
            if strike_player == cell_player {
                strike += 1;

                if strike == 4 {
                    let cells = last_four(&winner_coords);
                    proof {
                        assert(four_from(start.game.cells(), line, n - 3));
                        assert forall|k: int| 0 <= k < 4 implies (#[trigger] cells[k]).0
                            == line_cell(line, n - 3 + k).0 && cells[k].1
                            == line_cell(line, n - 3 + k).1 by {}
                    }
                    return Some(cells);
                }
            } else {
                strike_player = cell_player;

                strike = 1;
            }
        } else {
            strike = 0;
        }
        proof {
            // no four cells of one player end on this cell
            assert forall|m: int| 0 <= m < n + 1 - 3 implies !#[trigger] four_from(
                start.game.cells(),
                line,
                m,
            ) by {}
            n = n + 1;
        }
        cell_option = line_iterator.next();
    }
    proof {
        // the line ends here: no four cells begin on the last three
        assert forall|m: int| 0 <= m implies !#[trigger] four_from(start.game.cells(), line, m) by {}
    }
    None
}

/// The first four cells in a row that hold pieces of one player, on the
/// lines through the cell `coords` that `lines_through` lists for `reach`,
/// taken in turn and each walked from its start.
pub fn first_four_through<G: Grid>(game: &G, coords: (usize, usize), reach: u8) -> (cells:
    Option<[(usize, usize); 4]>)
    requires
        coords.0 < 6,
        coords.1 < 7,
    ensures
        match cells {
            Some(cells) => exists|i: int, n: int|
                {
                    &&& #[trigger] is_first_four(
                        game.cells(),
                        lines_through(coords, reach as int),
                        i,
                        n,
                    )
                    &&& cells_from(cells, lines_through(coords, reach as int)[i], n)
                },
            None => !has_four(game.cells(), lines_through(coords, reach as int)),
        },
{
    let ghost lines = lines_through(coords, reach as int);
    let iterators = places_on_lines_through(game, coords, reach);
    let mut i: usize = 0;
    while i < iterators.len()
        invariant
            i <= iterators@.len(),
            starts_of(game, iterators@, lines),
            lines == lines_through(coords, reach as int),
            coords.0 < 6,
            coords.1 < 7,
            forall|j: int| 0 <= j < i ==> no_four_on(game.cells(), #[trigger] lines[j]),
        decreases iterators@.len() - i,
    {
        match first_four_on(&iterators[i]) {
            Some(cells) => {
                proof {
                    let n = choose|n: int|
                        {
                            &&& 0 <= n
                            &&& #[trigger] four_from(game.cells(), lines[i as int], n)
                            &&& no_four_before(game.cells(), lines[i as int], n)
                            &&& cells_from(cells, lines[i as int], n)
                        };
                    assert(is_first_four(
                        game.cells(),
                        lines_through(coords, reach as int),
                        i as int,
                        n,
                    ));
                }
                return Some(cells);
            },
            None => {},
        }
        i += 1;
    }
    None
}

/// The string of the characters of `chars`, collected by `String::from_iter`.
#[verifier::external_body]
fn string_of(chars: &Vec<char>) -> (text: String)
    ensures
        text@ == chars@,
{
    String::from_iter(chars.iter())
}

} // verus!
