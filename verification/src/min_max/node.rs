//! One position of the search tree.

use crate::game::player::Player;
use crate::game::state::GameState;
use crate::game::Game;
use crate::min_max::value::is_draw;
use vstd::prelude::*;
use vstd::std_specs::cmp::PartialEqSpec;

verus! {

/// A node of the search tree: a position, the moves tried from it, and the
/// score the last search gave it.
pub struct GameNode<G: Game> {
    /// Plies from the start of the game.
    pub depth: u32,
    /// The score of the last search; `None` before the first.
    pub weight: Option<G::Score>,
    /// One child for each legal move, in the order in which the game offered
    /// them; empty before the node is expanded and after it was pruned.
    pub children: Vec<(G::InputCoordinate, GameNode<G>)>,
    /// The position. The search drops it from inner nodes to save memory and
    /// replays it from the parent when it is needed again.
    pub game: Option<G>,
    /// Who is to move, or how the game ended.
    pub game_state: GameState<G>,
}

/// Some child in `children` is reached by `play`.
pub open spec fn has_move<G: Game>(
    children: Seq<(G::InputCoordinate, GameNode<G>)>,
    play: G::InputCoordinate,
) -> bool {
    exists|i: int| 0 <= i < children.len() && (#[trigger] children[i]).0 == play
}

/// `i` is the first place in `children` of a child reached by `play`.
pub open spec fn is_first_place<G: Game>(
    children: Seq<(G::InputCoordinate, GameNode<G>)>,
    play: G::InputCoordinate,
    i: int,
) -> bool {
    &&& 0 <= i < children.len()
    &&& children[i].0 == play
    &&& forall|j: int| 0 <= j < i ==> (#[trigger] children[j]).0 != play
}

/// The first place in `children` of a child reached by `play`.
pub open spec fn first_place<G: Game>(
    children: Seq<(G::InputCoordinate, GameNode<G>)>,
    play: G::InputCoordinate,
) -> int {
    choose|i: int| is_first_place(children, play, i)
}

impl<G: Game> Clone for GameNode<G> {
    /// A copy of the node and of the whole tree below it.
    fn clone(&self) -> (copy: Self)
        ensures
            copy.same_tree(*self),
    {
        self.duplicate()
    }
}

impl<G: Game> GameNode<G> {
    /// The two nodes are alike, and so are the trees below them: child by
    /// child the same move leads to a like node.
    pub open spec fn same_tree(self, other: Self) -> bool
        decreases self,
    {
        &&& self.depth == other.depth
        &&& self.weight == other.weight
        &&& self.game == other.game
        &&& self.game_state == other.game_state
        &&& self.children@.len() == other.children@.len()
        &&& forall|i: int|
            0 <= i < self.children@.len() ==> (#[trigger] self.children@[i]).0
                == other.children@[i].0 && self.children@[i].1.same_tree(other.children@[i].1)
    }

    /// A copy of the node and of the whole tree below it.
    fn duplicate(&self) -> (copy: Self)
        ensures
            copy.same_tree(*self),
        decreases self,
    {
        let mut children: Vec<(G::InputCoordinate, GameNode<G>)> = Vec::with_capacity(
            self.children.len(),
        );
        let mut i: usize = 0;
        while i < self.children.len()
            invariant
                i <= self.children@.len(),
                children@.len() == i,
                forall|j: int|
                    0 <= j < i ==> (#[trigger] children@[j]).0 == self.children@[j].0
                        && children@[j].1.same_tree(self.children@[j].1),
            decreases self.children@.len() - i,
        {
            children.push((self.children[i].0, self.children[i].1.duplicate()));
            i += 1;
        }
        let game = match &self.game {
            Some(game) => {
                let copy = game.clone();
                proof {
                    G::lemma_clone(game, copy);
                }
                Some(copy)
            },
            None => None,
        };
        GameNode {
            depth: self.depth,
            weight: self.weight,
            children,
            game,
            game_state: self.game_state,
        }
    }

    /// The moves of the children, in their places.
    pub open spec fn plays(self) -> Seq<G::InputCoordinate> {
        Seq::new(self.children@.len(), |i: int| self.children@[i].0)
    }

    /// The node is a faithful record of the position `state`: its cached
    /// position, if it has one, is `state`; a recorded end of the game is the
    /// end of `state`; and where it has children, the game goes on, there is
    /// one child for each legal move, the children stand in an order in which
    /// the game may list the moves of `state`, and each child, one ply deeper
    /// and tagged with its move, records the position after that move.
    pub open spec fn represents(self, state: G) -> bool
        decreases self,
    {
        &&& state.valid()
        &&& self.game matches Some(cached) ==> cached == state
        &&& match self.game_state {
            GameState::PlayersTurn(_, _) => true,
            GameState::Draw(_, _) => is_draw(state),
            GameState::WonBy(winner, _) => state.winner_spec() == Some(winner),
        }
        &&& self.children@.len() > 0 ==> {
            &&& self.game_state is PlayersTurn
            &&& state.winner_spec() is None
            &&& !is_draw(state)
            &&& self.depth < u32::MAX
            &&& state.may_offer(self.plays())
            &&& forall|i: int, j: int|
                0 <= i < j < self.children@.len() ==> (#[trigger] self.children@[i]).0 != (
                #[trigger] self.children@[j]).0
            &&& forall|m: G::InputCoordinate| #[trigger]
                state.legal_moves().contains(m) ==> has_move(self.children@, m)
            &&& forall|i: int|
                0 <= i < self.children@.len() ==> {
                    &&& state.legal_moves().contains((#[trigger] self.children@[i]).0)
                    &&& self.children@[i].1.depth == self.depth + 1
                    &&& self.children@[i].1.game_state.last_move() == Some(self.children@[i].0)
                    &&& (self.children@[i].1.game_state matches GameState::PlayersTurn(next, _)
                        ==> next == self.game_state->PlayersTurn_0.other_spec())
                    &&& self.children@[i].1.represents(
                        state.after_play(self.game_state->PlayersTurn_0, self.children@[i].0),
                    )
                }
        }
    }

    /// The position that the node holds.
    pub open spec fn position(self) -> G
        recommends
            self.game is Some,
    {
        self.game->0
    }

    /// The node holds its position and is a faithful record of it.
    pub open spec fn rooted(self) -> bool {
        self.game is Some && self.represents(self.game->0)
    }

    /// A node without children.
    pub fn new(
        game: Option<G>,
        depth: u32,
        weight: Option<G::Score>,
        game_state: GameState<G>,
    ) -> (node: Self)
        ensures
            node.game == game,
            node.depth == depth,
            node.weight == weight,
            node.game_state == game_state,
            node.children@.len() == 0,
    {
        Self { depth, weight, children: Vec::new(), game, game_state }
    }

    /// An unexplored root at `depth` with `starting_player` to move.
    pub fn new_root(game: G, starting_player: G::Player, depth: u32) -> (node: Self)
        ensures
            node.game == Some(game),
            node.depth == depth,
            node.weight is None,
            node.game_state == GameState::<G>::PlayersTurn(starting_player, None),
            node.children@.len() == 0,
            game.valid() ==> node.rooted(),
    {
        GameNode::new(Some(game), depth, None, GameState::PlayersTurn(starting_player, None))
    }

    /// Gives the node its position back where the search had dropped it:
    /// `parent_game` after `player` has made the move that the node is tagged
    /// with.
    pub fn fill_play(&mut self, parent_game: G, player: G::Player)
        requires
            parent_game.valid(),
            old(self).game_state.last_move() is Some,
            parent_game.legal_moves().contains(old(self).game_state.last_move()->0),
            old(self).represents(
                parent_game.after_play(player, old(self).game_state.last_move()->0),
            ),
        ensures
            final(self).game == Some(
                parent_game.after_play(player, old(self).game_state.last_move()->0),
            ),
            final(self).depth == old(self).depth,
            final(self).weight == old(self).weight,
            final(self).children == old(self).children,
            final(self).game_state == old(self).game_state,
            final(self).rooted(),
    {
        if self.game.is_none() {
            let (_, last) = self.game_state.get_last_play();
            let mut game = parent_game;
            match last {
                Some(play) => {
                    let _ = game.play(player, play);
                },
                None => {},
            }
            self.game = Some(game);
        }
    }

    /// Moves the root along `play`: `(true, child)` with the first child that
    /// `play` leads to, holding the position after `play`, if the node has
    /// such a child; else `(false, self)`.
    pub fn try_into_child(self, play: G::InputCoordinate) -> (result: (bool, Self))
        requires
            self.rooted(),
        ensures
            result.0 == has_move(self.children@, play),
            !result.0 ==> result.1 == self,
            result.0 ==> {
                let child = self.children@[first_place(self.children@, play)].1;
                &&& self.game_state is PlayersTurn
                &&& self.game->0.legal_moves().contains(play)
                &&& result.1.game == Some(
                    self.game->0.after_play(self.game_state->PlayersTurn_0, play),
                )
                &&& result.1.depth == child.depth
                &&& result.1.weight == child.weight
                &&& result.1.children == child.children
                &&& result.1.game_state == child.game_state
                &&& result.1.rooted()
            },
    {
        let mut node = self;
        let mut i: usize = 0;
        while i < node.children.len()
            invariant
                node == self,
                self.rooted(),
                i <= node.children@.len(),
                forall|j: int| 0 <= j < i ==> (#[trigger] self.children@[j]).0 != play,
            decreases node.children@.len() - i,
        {
            proof {
                G::lemma_move_eq(node.children@[i as int].0, play);
            }
            if node.children[i].0 == play {
                proof {
                    lemma_first_place(self.children@, play, i as int);
                }
                match (node.game, node.game_state) {
                    (Some(game), GameState::PlayersTurn(player, _)) => {
                        let (_, mut child) = node.children.remove(i);
                        child.fill_play(game, player);
                        return (true, child);
                    },
                    _ => {
                        return unreached();
                    },
                }
            }
            i += 1;
        }
        (false, node)
    }

    // Getters

    pub fn depth(&self) -> (depth: u32)
        ensures
            depth == self.depth,
    {
        self.depth
    }

    pub fn weight(&self) -> (weight: Option<G::Score>)
        ensures
            weight == self.weight,
    {
        self.weight
    }

    pub fn children(&self) -> (children: &Vec<(G::InputCoordinate, Self)>)
        ensures
            *children == self.children,
    {
        &self.children
    }

    pub fn game(&self) -> (game: Option<&G>)
        ensures
            match game {
                Some(g) => self.game == Some(*g),
                None => self.game is None,
            },
    {
        self.game.as_ref()
    }

    pub fn expect_game(&self) -> (game: &G)
        requires
            self.game is Some,
        ensures
            self.game == Some(*game),
    {
        match &self.game {
            Some(game) => game,
            None => unreached(),
        }
    }

    pub fn expect_game_mut(&mut self) -> (game: &mut G)
        requires
            old(self).game is Some,
        ensures
            *game == old(self).game->0,
            final(self).game == Some(*final(game)),
            final(self).depth == old(self).depth,
            final(self).weight == old(self).weight,
            final(self).children == old(self).children,
            final(self).game_state == old(self).game_state,
    {
        match &mut self.game {
            Some(game) => game,
            None => unreached(),
        }
    }

    pub fn into_game(self) -> (game: Option<G>)
        ensures
            game == self.game,
    {
        self.game
    }

    pub fn into_expect_game(self) -> (game: G)
        requires
            self.game is Some,
        ensures
            self.game == Some(game),
    {
        match self.game {
            Some(game) => game,
            None => unreached(),
        }
    }

    // Setters

    pub fn set_weight(&mut self, weight: Option<G::Score>)
        ensures
            final(self).weight == weight,
            final(self).depth == old(self).depth,
            final(self).children == old(self).children,
            final(self).game == old(self).game,
            final(self).game_state == old(self).game_state,
    {
        self.weight = weight;
    }

    /// The height of the tree below the node, in plies.
    pub open spec fn height(self) -> nat
        decreases self,
    {
        self.height_of_first(self.children@.len() as int)
    }

    /// The greatest of the heights that the first `n` children add.
    pub open spec fn height_of_first(self, n: int) -> nat
        decreases self, n,
    {
        if n <= 0 || n > self.children@.len() {
            0
        } else {
            let before = self.height_of_first(n - 1);
            let here = self.children@[n - 1].1.height() + 1;
            if here > before {
                here
            } else {
                before
            }
        }
    }

    /// The height of the tree below the node, or `u32::MAX` where it is more.
    pub fn count_depth(&self) -> (height: u32)
        ensures
            height == if self.height() > u32::MAX {
                u32::MAX as nat
            } else {
                self.height()
            },
        decreases self,
    {
        let mut max_depth: u32 = 0;
        let mut i: usize = 0;
        while i < self.children.len()
            invariant
                i <= self.children@.len(),
                max_depth == if self.height_of_first(i as int) > u32::MAX {
                    u32::MAX as nat
                } else {
                    self.height_of_first(i as int)
                },
            decreases self.children@.len() - i,
        {
            let below = self.children[i].1.count_depth();
            let child_depth: u32 = if below < u32::MAX {
                below + 1
            } else {
                u32::MAX
            };
            if child_depth > max_depth {
                max_depth = child_depth;
            }
            i += 1;
        }
        max_depth
    }
}

/// A move that some child is reached by has a first place.
pub proof fn lemma_has_first_place<G: Game>(
    children: Seq<(G::InputCoordinate, GameNode<G>)>,
    play: G::InputCoordinate,
)
    requires
        has_move(children, play),
    ensures
        is_first_place(children, play, first_place(children, play)),
{
    let some = choose|i: int| 0 <= i < children.len() && (#[trigger] children[i]).0 == play;
    lemma_first_place_below(children, play, some);
}

/// A move that the child at `i` is reached by has a first place, at or
/// before `i`.
proof fn lemma_first_place_below<G: Game>(
    children: Seq<(G::InputCoordinate, GameNode<G>)>,
    play: G::InputCoordinate,
    i: int,
)
    requires
        0 <= i < children.len(),
        children[i].0 == play,
    ensures
        is_first_place(children, play, first_place(children, play)),
    decreases i,
{
    if exists|j: int| 0 <= j < i && (#[trigger] children[j]).0 == play {
        let j = choose|j: int| 0 <= j < i && (#[trigger] children[j]).0 == play;
        lemma_first_place_below(children, play, j);
    } else {
        assert(is_first_place(children, play, i));
    }
}

/// The first place of a move is the one place that meets the description.
pub proof fn lemma_first_place<G: Game>(
    children: Seq<(G::InputCoordinate, GameNode<G>)>,
    play: G::InputCoordinate,
    i: int,
)
    requires
        is_first_place(children, play, i),
    ensures
        has_move(children, play),
        first_place(children, play) == i,
{
}

} // verus!
