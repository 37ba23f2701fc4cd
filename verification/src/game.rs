//! What the search asks of a game.

use crate::game::player::Player;
use crate::scalar::Scalar;
use vstd::prelude::*;
use vstd::std_specs::cmp::PartialEqSpec;

pub mod board;
pub mod connect4;
pub mod player;
pub mod power4;
pub mod state;

verus! {

/// A two-player, perfect-information board game. The `spec` functions are the
/// rules; each executable method computes one of them.
pub trait Game: Sized + Clone + Send + Sync {
    /// A cell of the board.
    type Coordinate;

    /// A move, as a player gives it.
    type InputCoordinate: Copy + PartialEq + Send + Sync;

    type Player: Player;

    type Score: Scalar;

    /// The position can occur in a game: what `new` builds and `play` keeps.
    spec fn valid(&self) -> bool;

    /// Who occupies a cell, if anyone does.
    spec fn cell(&self, coordinate: Self::Coordinate) -> Option<Self::Player>;

    /// The moves that `play` accepts here.
    spec fn legal_moves(&self) -> Set<Self::InputCoordinate>;

    /// The position after `player` has made the legal move `coordinate`.
    spec fn after_play(&self, player: Self::Player, coordinate: Self::InputCoordinate) -> Self;

    /// The game may list the moves of this position as `moves`, in that
    /// order: `possible_plays` gives such a list.
    spec fn may_offer(&self, moves: Seq<Self::InputCoordinate>) -> bool;

    /// The words with which `play` refuses the move `coordinate` here, where
    /// it is not legal.
    spec fn refusal(&self, coordinate: Self::InputCoordinate) -> Seq<char>;

    /// The player who has won, if one has.
    spec fn winner_spec(&self) -> Option<Self::Player>;

    /// No cell is left to play.
    spec fn full_spec(&self) -> bool;

    /// How good the position looks to `player`.
    spec fn score_spec(&self, player: Self::Player) -> Self::Score;

    /// How many moves were made.
    spec fn plays_spec(&self) -> nat;

    /// The last move, if any was made.
    spec fn last_play_spec(&self) -> Option<Self::InputCoordinate>;

    /// `==` on moves is equality.
    proof fn lemma_move_eq(a: Self::InputCoordinate, b: Self::InputCoordinate)
        ensures
            Self::InputCoordinate::obeys_eq_spec(),
            a.eq_spec(&b) <==> a == b,
    ;

    /// A clone is the same position.
    proof fn lemma_clone(model: &Self, copy: Self)
        requires
            call_ensures(Self::clone, (model,), copy),
        ensures
            copy == *model,
    ;

    /// A legal move leads to a position of the game, one move later.
    proof fn lemma_after_play(&self, player: Self::Player, coordinate: Self::InputCoordinate)
        requires
            self.valid(),
            self.legal_moves().contains(coordinate),
        ensures
            self.after_play(player, coordinate).valid(),
            self.after_play(player, coordinate).plays_spec() == self.plays_spec() + 1,
            self.after_play(player, coordinate).last_play_spec() == Some(coordinate),
    ;

    /// The moves of a game can be counted in a `u16`.
    proof fn lemma_plays_fit(&self)
        requires
            self.valid(),
        ensures
            self.plays_spec() <= u16::MAX,
    ;

    /// The board is full exactly where no move is left.
    proof fn lemma_full_board(&self)
        ensures
            self.full_spec() <==> self.legal_moves().is_empty(),
    ;

    /// A position offers finitely many moves.
    proof fn lemma_legal_moves_finite(&self)
        ensures
            self.legal_moves().finite(),
    ;

    /// The position before the first move.
    fn new() -> (game: Self)
        ensures
            game.valid(),
            game.plays_spec() == 0,
            game.last_play_spec() is None,
    ;

    fn get(&self, coordinate: Self::Coordinate) -> (occupant: Option<&Self::Player>)
        requires
            self.valid(),
        ensures
            match occupant {
                Some(player) => self.cell(coordinate) == Some(*player),
                None => self.cell(coordinate) is None,
            },
    ;

    /// Makes the move for `player` if it is legal; if it is not, leaves the
    /// position as it was and says why.
    fn play<'a>(&mut self, player: Self::Player, coordinate: Self::InputCoordinate) -> (result:
        Result<(), &'a str>)
        requires
            old(self).valid(),
        ensures
            final(self).valid(),
            result is Ok <==> old(self).legal_moves().contains(coordinate),
            result is Ok ==> *final(self) == old(self).after_play(player, coordinate),
            result is Err ==> *final(self) == *old(self),
            result matches Err(text) ==> text@ == old(self).refusal(coordinate),
    ;

    fn get_score(&self, player: Self::Player) -> (score: Self::Score)
        requires
            self.valid(),
        ensures
            score == self.score_spec(player),
    ;

    fn get_winner(&self) -> (winner: Option<Self::Player>)
        requires
            self.valid(),
        ensures
            winner == self.winner_spec(),
    ;

    fn is_full(&self) -> (full: bool)
        requires
            self.valid(),
        ensures
            full == self.full_spec(),
    ;

    /// The legal moves, each once, in the order in which the search is to
    /// try them. Two calls on one position may order them differently, each
    /// time in an order that `may_offer` admits.
    fn possible_plays(&self) -> (moves: Vec<Self::InputCoordinate>)
        requires
            self.valid(),
        ensures
            moves@.no_duplicates(),
            moves@.to_set() == self.legal_moves(),
            self.may_offer(moves@),
    ;

    /// Number of plays made in the game.
    fn plays(&self) -> (count: u16)
        requires
            self.valid(),
        ensures
            count == self.plays_spec(),
    ;

    /// Last play made in the game. `None` only if no play has been made yet.
    fn last_play(&self) -> (last: Option<Self::InputCoordinate>)
        requires
            self.valid(),
        ensures
            last == self.last_play_spec(),
    ;
}

} // verus!
