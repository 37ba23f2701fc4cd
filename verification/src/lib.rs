//! A bounded-depth minimax search for two-player, perfect-information board
//! games, with the explored tree kept from one turn to the next.
//!
//! [`game::Game`] is what a game has to offer, and [`scalar::Scalar`] what
//! its scores are. [`min_max::value`] says what a position is worth;
//! [`min_max::node::GameNode`] is one position of the search tree, and the
//! search itself is in [`min_max`], with what holds of every search in
//! [`min_max::laws`]. [`bot::Bot`] drives one tree through a match.
//! [`game::connect4::ConnectFour`] and [`game::power4::Power4`] are two
//! games to play with it, on the board of [`game::board`].

pub mod bot;
pub mod game;
pub mod min_max;
pub mod scalar;
