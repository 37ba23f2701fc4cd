//! The board of six rows and seven columns on which the pieces fall.

use vstd::array::spec_array_update;
use vstd::prelude::*;

verus! {

/// The cells of the board, by row and column. Row 0 is the top row.
pub type Board = [[Option<u8>; 7]; 6];

/// Who occupies the cell; nobody where the cell is off the board.
pub open spec fn cell_at(board: Board, row: int, column: int) -> Option<u8> {
    if 0 <= row < 6 && 0 <= column < 7 {
        board[row][column]
    } else {
        None
    }
}

/// No piece floats: below a piece lies a piece.
pub open spec fn settled_pieces(board: Board) -> bool {
    forall|row: int, column: int|
        0 <= row < 5 && 0 <= column < 7 && (#[trigger] cell_at(board, row, column)) is Some
            ==> cell_at(board, row + 1, column) is Some
}

/// The lowest free row of a column, or -1 where the column is full.
pub open spec fn landing_row(board: Board, column: int) -> int {
    if cell_at(board, 5, column) is None {
        5
    } else if cell_at(board, 4, column) is None {
        4
    } else if cell_at(board, 3, column) is None {
        3
    } else if cell_at(board, 2, column) is None {
        2
    } else if cell_at(board, 1, column) is None {
        1
    } else if cell_at(board, 0, column) is None {
        0
    } else {
        -1
    }
}

/// The board with a piece of `player` in the cell.
pub open spec fn with_piece(board: Board, row: int, column: int, player: u8) -> Board {
    spec_array_update(board, row, spec_array_update(board[row], column, Some(player)))
}

/// How many of the first `k` cells, counted row by row, are occupied.
pub open spec fn pieces_before(board: Board, k: int) -> nat
    decreases k,
{
    if k <= 0 {
        0
    } else {
        pieces_before(board, k - 1) + if cell_at(board, (k - 1) / 7, (k - 1) % 7) is Some {
            1nat
        } else {
            0nat
        }
    }
}

/// An empty board holds no piece.
pub proof fn lemma_empty_board(board: Board, k: int)
    requires
        forall|row: int, column: int| (#[trigger] cell_at(board, row, column)) is None,
    ensures
        pieces_before(board, k) == 0,
    decreases k,
{
    if k > 0 {
        lemma_empty_board(board, k - 1);
    }
}

/// Among `k` cells at most `k` are occupied.
pub proof fn lemma_pieces_bounded(board: Board, k: int)
    requires
        0 <= k,
    ensures
        pieces_before(board, k) <= k,
    decreases k,
{
    if k > 0 {
        lemma_pieces_bounded(board, k - 1);
    }
}

/// A piece in an empty cell is one piece more.
pub proof fn lemma_piece_counts(before: Board, after: Board, row: int, column: int, k: int)
    requires
        0 <= row < 6,
        0 <= column < 7,
        0 <= k,
        cell_at(before, row, column) is None,
        cell_at(after, row, column) is Some,
        forall|r: int, c: int|
            (r != row || c != column) ==> #[trigger] cell_at(after, r, c) == cell_at(before, r, c),
    ensures
        pieces_before(after, k) == pieces_before(before, k) + if k > row * 7 + column {
            1nat
        } else {
            0nat
        },
    decreases k,
{
    if k > 0 {
        lemma_piece_counts(before, after, row, column, k - 1);
    }
}

/// A piece dropped into a column with room lands on the lowest free cell,
/// changes no other cell, and leaves no piece floating.
pub proof fn lemma_piece_lands(board: Board, column: int, player: u8)
    requires
        settled_pieces(board),
        0 <= column < 7,
    ensures
        cell_at(board, 0, column) is None <==> landing_row(board, column) >= 0,
        landing_row(board, column) >= 0 ==> {
            let row = landing_row(board, column);
            let after = with_piece(board, row, column, player);
            &&& 0 <= row < 6
            &&& cell_at(board, row, column) is None
            &&& cell_at(after, row, column) == Some(player)
            &&& forall|r: int, c: int|
                (r != row || c != column) ==> #[trigger] cell_at(after, r, c) == cell_at(
                    board,
                    r,
                    c,
                )
            &&& settled_pieces(after)
        },
{
    let row = landing_row(board, column);
    if row >= 0 {
        let after = with_piece(board, row, column, player);
        vstd::array::axiom_spec_array_update(board[row], column, Some(player));
        vstd::array::axiom_spec_array_update(
            board,
            row,
            spec_array_update(board[row], column, Some(player)),
        );
        assert forall|r: int, c: int| (r != row || c != column) implies #[trigger] cell_at(
            after,
            r,
            c,
        ) == cell_at(board, r, c) by {}
        assert forall|r: int, c: int|
            0 <= r < 5 && 0 <= c < 7 && (#[trigger] cell_at(after, r, c)) is Some implies cell_at(
            after,
            r + 1,
            c,
        ) is Some by {}
    }
}

/// Something that holds a board.
pub trait Grid: Sized {
    /// The board.
    spec fn cells(&self) -> Board;

    /// Who occupies the cell at row and column `coordinate`; nobody where
    /// the cell is off the board.
    fn get_isize(&self, coordinate: (isize, isize)) -> (occupant: Option<u8>)
        ensures
            occupant == cell_at(self.cells(), coordinate.0 as int, coordinate.1 as int),
    ;
}

} // verus!
