//! The two sides of a game.

use vstd::prelude::*;
use vstd::std_specs::cmp::PartialEqSpec;

verus! {

/// One of the two players of a game.
pub trait Player: Sized + Copy + PartialEq + Send + Sync {
    /// The opponent.
    spec fn other_spec(self) -> Self;

    /// `==` on players is equality.
    proof fn lemma_player_eq(a: Self, b: Self)
        ensures
            Self::obeys_eq_spec(),
            a.eq_spec(&b) <==> a == b,
    ;

    /// The opponent of a player is another player.
    proof fn lemma_other_differs(self)
        ensures
            self.other_spec() != self,
    ;

    fn other(&self) -> (opponent: Self)
        ensures
            opponent == self.other_spec(),
    ;
}

/// Players 1 and 2. Any other number counts as a player whose opponent is 1.
impl Player for u8 {
    open spec fn other_spec(self) -> Self {
        if self == 1 {
            2
        } else {
            1
        }
    }

    proof fn lemma_player_eq(a: Self, b: Self) {
    }

    proof fn lemma_other_differs(self) {
    }

    fn other(&self) -> (opponent: Self) {
        if *self == 1 {
            2
        } else {
            1
        }
    }
}

} // verus!
