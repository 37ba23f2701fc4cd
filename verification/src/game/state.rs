//! The phase of a game at one node of the search tree.

use crate::game::player::Player;
use crate::game::Game;
use vstd::prelude::*;

verus! {

/// Whose turn it is, or how the game ended, with the move that led here.
#[derive(PartialEq, Eq)]
pub enum GameState<G: Game> {
    /// The player to move, and the last move; `None` where the node was not
    /// reached by a move of the search.
    PlayersTurn(G::Player, Option<G::InputCoordinate>),
    /// The player who moved last, and that move.
    Draw(G::Player, G::InputCoordinate),
    /// The winner, and the last move.
    WonBy(G::Player, G::InputCoordinate),
}

impl<G: Game> Clone for GameState<G> {
    fn clone(&self) -> (copy: Self)
        ensures
            copy == *self,
    {
        match self {
            GameState::PlayersTurn(player, input) => GameState::PlayersTurn(*player, *input),
            GameState::Draw(player, input) => GameState::Draw(*player, *input),
            GameState::WonBy(player, input) => GameState::WonBy(*player, *input),
        }
    }
}

impl<G: Game> Copy for GameState<G> {

}

impl<G: Game> GameState<G> {
    /// The move that led here, if one is recorded.
    pub open spec fn last_move(self) -> Option<G::InputCoordinate> {
        match self {
            GameState::PlayersTurn(_, input) => input,
            GameState::Draw(_, input) => Some(input),
            GameState::WonBy(_, input) => Some(input),
        }
    }

    /// Play goes on, and the move that led here is recorded: the phases that
    /// can be closed as a draw or a win.
    pub open spec fn can_end(self) -> bool {
        self matches GameState::PlayersTurn(_, Some(_))
    }

    /// The player who moved last (for a win: the winner) and the last move.
    pub fn get_last_play(&self) -> (last: (G::Player, Option<G::InputCoordinate>))
        ensures
            last == match *self {
                GameState::PlayersTurn(player, input) => (player.other_spec(), input),
                GameState::Draw(last_player, input) => (last_player, Some(input)),
                GameState::WonBy(player, input) => (player, Some(input)),
            },
    {
        match self {
            GameState::PlayersTurn(player, input) => (player.other(), *input),
            GameState::Draw(last_player, input) => (*last_player, Some(*input)),
            GameState::WonBy(player, input) => (*player, Some(*input)),
        }
    }

    /// The game ended undecided with the last move.
    pub fn to_draw(&self) -> (ended: GameState<G>)
        requires
            self.can_end(),
        ensures
            ended == GameState::<G>::Draw(
                self->PlayersTurn_0.other_spec(),
                self->PlayersTurn_1->0,
            ),
    {
        match self {
            GameState::PlayersTurn(current_player, Some(last_input)) => GameState::Draw(
                current_player.other(),
                *last_input,
            ),
            _ => unreached(),
        }
    }

    /// The player who moved last has won.
    pub fn to_win(&self) -> (ended: GameState<G>)
        requires
            self.can_end(),
        ensures
            ended == GameState::<G>::WonBy(
                self->PlayersTurn_0.other_spec(),
                self->PlayersTurn_1->0,
            ),
    {
        match self {
            GameState::PlayersTurn(current_player, Some(last_input)) => GameState::WonBy(
                current_player.other(),
                *last_input,
            ),
            _ => unreached(),
        }
    }

    /// `winner` has won.
    pub fn to_win_by(&self, winner: G::Player) -> (ended: GameState<G>)
        requires
            self.can_end(),
        ensures
            ended == GameState::<G>::WonBy(winner, self->PlayersTurn_1->0),
    {
        match self {
            GameState::PlayersTurn(_, Some(last_input)) => GameState::WonBy(winner, *last_input),
            _ => unreached(),
        }
    }
}

} // verus!
