//! A player that searches: it owns one tree and follows the game through it.

use crate::game::player::Player;
use crate::game::state::GameState;
use crate::game::Game;
use crate::min_max::node::first_place;
use crate::min_max::node::has_move;
use crate::min_max::node::GameNode;
use crate::min_max::value::expands;
use crate::min_max::value::SearchConfig;
use crate::min_max::laws::is_unpruned_choice;
use crate::min_max::laws::lemma_pruning_keeps_best_move;
use crate::min_max::value::position_value;
use crate::min_max::value::reply_value;
use crate::scalar::Scalar;
use vstd::prelude::*;

verus! {

/// How a finished search lets the bot see the game.
#[derive(Clone, Copy, PartialEq, Eq, Debug)]
pub enum Outlook {
    /// The bot is close to a certain win.
    Winning,
    /// The bot is close to a certain loss.
    Losing,
    /// Neither.
    Open,
}

/// The sum of `times`.
pub open spec fn total(times: Seq<u64>) -> nat
    decreases times.len(),
{
    if times.len() == 0 {
        0
    } else {
        total(times.drop_last()) + times.last() as nat
    }
}

/// A bot for the game `G`: the side it plays, how deep it looks, the tree of
/// what it has explored, rooted at the position of the game, and how long
/// its moves took.
pub struct Bot<G: Game> {
    player: G::Player,
    /// game_tree is never None
    game_tree: Option<GameNode<G>>,
    max_depth: u32,
    use_heuristic_score: bool,
    times: Vec<u64>,
}

impl<G: Game> Bot<G> {
    /// The side of the bot.
    pub closed spec fn player(self) -> G::Player {
        self.player
    }

    /// How many plies deep the bot looks.
    pub closed spec fn max_depth(self) -> u32 {
        self.max_depth
    }

    /// Whether the bot scores a position at the depth limit as the game
    /// scores it.
    pub closed spec fn heuristic(self) -> bool {
        self.use_heuristic_score
    }

    /// The root of the tree.
    pub closed spec fn tree(self) -> GameNode<G> {
        self.game_tree->0
    }

    /// The times taken so far.
    pub closed spec fn times(self) -> Seq<u64> {
        self.times@
    }

    /// The setting of the bot's searches at the present position.
    pub open spec fn config(self) -> SearchConfig<G> {
        SearchConfig {
            bot_player: self.player(),
            max_depth: self.max_depth(),
            real_plays: self.tree().depth,
            use_heuristic_score: self.heuristic(),
        }
    }

    /// The bot is usable: its tree is rooted at a position, as deep as moves
    /// were played, and a search from there fits the machine.
    pub closed spec fn well_formed(self) -> bool {
        &&& self.game_tree is Some
        &&& self.tree().rooted()
        &&& self.tree().depth == self.tree().position().plays_spec()
        &&& self.max_depth + u16::MAX <= u32::MAX
    }

    /// A bot for `player` at the start of a game, to look `max_depth` plies
    /// deep.
    pub fn new(player: G::Player, max_depth: u32) -> (bot: Self)
        requires
            max_depth + u16::MAX <= u32::MAX,
        ensures
            bot.well_formed(),
            bot.player() == player,
            bot.max_depth() == max_depth,
            !bot.heuristic(),
            bot.times().len() == 0,
            bot.tree().depth == 0,
            bot.tree().weight is None,
            bot.tree().children@.len() == 0,
            bot.tree().game_state == GameState::<G>::PlayersTurn(player, None),
            bot.tree().game is Some,
            bot.tree().position().valid(),
            bot.tree().position().plays_spec() == 0,
            bot.tree().position().last_play_spec() is None,
    {
        Self {
            player,
            game_tree: Some(GameNode::new_root(G::new(), player, 0)),
            max_depth,
            use_heuristic_score: false,
            times: Vec::new(),
        }
    }

    /// Sets whether the bot scores a position at the depth limit as the game
    /// scores it, or as won, lost or neutral.
    pub fn set_use_heuristic_score(&mut self, use_heuristic_score: bool)
        ensures
            final(self).heuristic() == use_heuristic_score,
            final(self).player() == old(self).player(),
            final(self).max_depth() == old(self).max_depth(),
            final(self).times() == old(self).times(),
            final(self).tree() == old(self).tree(),
            old(self).well_formed() ==> final(self).well_formed(),
    {
        self.use_heuristic_score = use_heuristic_score;
    }

    /// Whether the bot has explored the moves open to the opponent and
    /// `play` is none of them: a move that it did not foresee.
    pub fn is_surprised_by(&self, play: G::InputCoordinate) -> (surprised: bool)
        requires
            self.well_formed(),
        ensures
            surprised == (self.tree().children@.len() > 0 && !has_move(
                self.tree().children@,
                play,
            )),
    {
        let tree = match &self.game_tree {
            Some(tree) => tree,
            None => unreached(),
        };
        let children = tree.children();
        let mut i: usize = 0;
        while i < children.len()
            invariant
                i <= children@.len(),
                children@ == self.tree().children@,
                forall|j: int| 0 <= j < i ==> (#[trigger] children@[j]).0 != play,
            decreases children@.len() - i,
        {
            proof {
                G::lemma_move_eq(children@[i as int].0, play);
            }
            if children[i].0 == play {
                return false;
            }
            i += 1;
        }
        children.len() > 0
    }

    /// Takes note of a move of the opponent. A move that the tree foresaw
    /// moves the root to the child it leads to, with all that was explored
    /// below. Any other move is made on the position, if the game accepts it,
    /// and a new tree starts there; if not, the refusal of the game is
    /// returned and the bot is as it was.
    pub fn other_played<'a>(&mut self, play: G::InputCoordinate) -> (result: Result<(), &'a str>)
        requires
            old(self).well_formed(),
        ensures
            final(self).well_formed(),
            final(self).player() == old(self).player(),
            final(self).max_depth() == old(self).max_depth(),
            final(self).heuristic() == old(self).heuristic(),
            final(self).times() == old(self).times(),
            result is Ok <==> old(self).tree().position().legal_moves().contains(play),
            result is Err ==> final(self).tree() == old(self).tree(),
            result matches Err(text) ==> text@ == old(self).tree().position().refusal(play),
            result is Ok ==> final(self).tree().depth == old(self).tree().depth + 1,
            result is Ok && has_move(old(self).tree().children@, play) ==> {
                let child = old(self).tree().children@[first_place(
                    old(self).tree().children@,
                    play,
                )].1;
                &&& final(self).tree().game == Some(
                    old(self).tree().position().after_play(
                        old(self).tree().game_state->PlayersTurn_0,
                        play,
                    ),
                )
                &&& final(self).tree().weight == child.weight
                &&& final(self).tree().children == child.children
                &&& final(self).tree().game_state == child.game_state
            },
            result is Ok && !has_move(old(self).tree().children@, play) ==> {
                &&& final(self).tree().game == Some(
                    old(self).tree().position().after_play(old(self).player().other_spec(), play),
                )
                &&& final(self).tree().weight is None
                &&& final(self).tree().children@.len() == 0
                &&& final(self).tree().game_state == GameState::<G>::PlayersTurn(
                    old(self).player(),
                    None,
                )
            },
    {
        let tree = match self.game_tree.take() {
            Some(tree) => tree,
            None => unreached(),
        };
        proof {
            if tree.position().legal_moves().contains(play) {
                tree.position().lemma_after_play(tree.game_state->PlayersTurn_0, play);
                tree.position().lemma_after_play(self.player.other_spec(), play);
            }
        }
        let (is_known_move, mut new_game_tree) = tree.try_into_child(play);
        if is_known_move {
            proof {
                crate::min_max::node::lemma_has_first_place(tree.children@, play);
            }
            self.game_tree = Some(new_game_tree);
            Ok(())
        } else {
            // the tree is handed back as it was: the move is new to it
            let opponent = self.player.other();
            let result = new_game_tree.expect_game_mut().play(opponent, play);
            match result {
                Err(err) => {
                    self.game_tree = Some(new_game_tree);
                    Err(err)
                },
                Ok(()) => {
                    proof {
                        new_game_tree.position().lemma_plays_fit();
                    }
                    let depth = new_game_tree.depth() + 1;
                    let game = new_game_tree.into_expect_game();
                    self.game_tree = Some(GameNode::new_root(game, self.player, depth));
                    Ok(())
                },
            }
        }
    }

    /// Whether the bot can move: it is somebody's turn, the bot looks at
    /// least one ply deep, nobody has won and a move is left. This is what
    /// `play` asks for.
    pub fn can_play(&self) -> (ready: bool)
        requires
            self.well_formed(),
        ensures
            ready == (self.tree().game_state is PlayersTurn && expands(
                self.tree().position(),
                self.config(),
                self.tree().depth as int,
            )),
    {
        let tree = match &self.game_tree {
            Some(tree) => tree,
            None => unreached(),
        };
        let game = tree.expect_game();
        let turn = match tree.game_state {
            GameState::PlayersTurn(_, _) => true,
            _ => false,
        };
        turn && self.max_depth > 0 && game.get_winner().is_none() && !game.is_full()
    }

    /// Searches from the position of the game and makes the move that the
    /// search finds best: a legal move that leads to a position whose value
    /// is the value of the present one. Of several such moves it makes the
    /// first, in the order of the children of the root: an order in which the
    /// game may list the moves, and the order that the tree had where the
    /// root had children before. The root of the tree moves to the child
    /// that this move leads to: the tree is what `into_best_child` gives of
    /// what the search has left.
    pub fn play(&mut self) -> (play: G::InputCoordinate)
        requires
            old(self).well_formed(),
            old(self).tree().game_state is PlayersTurn,
            expands(
                old(self).tree().position(),
                old(self).config(),
                old(self).tree().depth as int,
            ),
        ensures
            final(self).well_formed(),
            final(self).player() == old(self).player(),
            final(self).max_depth() == old(self).max_depth(),
            final(self).heuristic() == old(self).heuristic(),
            final(self).times() == old(self).times(),
            old(self).tree().position().legal_moves().contains(play),
            final(self).tree().game == Some(
                old(self).tree().position().after_play(
                    old(self).tree().game_state->PlayersTurn_0,
                    play,
                ),
            ),
            final(self).tree().depth == old(self).tree().depth + 1,
            final(self).tree().game_state.last_move() == Some(play),
            reply_value(
                old(self).tree().position(),
                old(self).tree().game_state->PlayersTurn_0,
                old(self).config(),
                old(self).tree().depth as int,
                play,
            ) == position_value(
                old(self).tree().position(),
                old(self).tree().game_state->PlayersTurn_0,
                old(self).config(),
                old(self).tree().depth as int,
            ),
            exists|searched: GameNode<G>|
                {
                    &&& #[trigger] searched.searched_from(old(self).tree(), old(self).config())
                    &&& searched.has_best_child()
                    &&& play == searched.children@[searched.best_place()].0
                    &&& old(self).tree().position().may_offer(searched.plays())
                    &&& is_unpruned_choice(
                        searched.children@,
                        old(self).tree().position(),
                        old(self).tree().game_state->PlayersTurn_0,
                        old(self).config(),
                        old(self).tree().depth as int,
                        searched.best_place(),
                    )
                    &&& final(self).tree().weight
                        == searched.children@[searched.best_place()].1.weight
                    &&& final(self).tree().children
                        == searched.children@[searched.best_place()].1.children
                    &&& final(self).tree().game_state
                        == searched.children@[searched.best_place()].1.game_state
                },
            final(self).tree().weight is Some,
            final(self).tree().weight->0.as_int() == position_value(
                old(self).tree().position(),
                old(self).tree().game_state->PlayersTurn_0,
                old(self).config(),
                old(self).tree().depth as int,
            ),
    {
        let mut game_tree = match self.game_tree.take() {
            Some(tree) => tree,
            None => unreached(),
        };
        let ghost before = game_tree;
        let real_plays = game_tree.expect_game().plays() as u32;
        game_tree.explore_children_with(
            self.player,
            self.max_depth,
            real_plays,
            self.use_heuristic_score,
        );
        proof {
            lemma_pruning_keeps_best_move(before, game_tree, old(self).config());
            let place = game_tree.best_place();
            before.position().lemma_after_play(
                before.game_state->PlayersTurn_0,
                game_tree.children@[place].0,
            );
        }
        let best = game_tree.into_best_child();
        let (_, last) = best.game_state.get_last_play();
        self.game_tree = Some(best);
        match last {
            Some(play) => play,
            None => unreached(),
        }
    }

    /// How the last search lets the bot see the game: as good as won where
    /// the root scores above a win moved 1000 toward zero, as good as lost
    /// where it scores below a loss moved 1000 toward zero.
    pub fn outlook(&self) -> (outlook: Outlook)
        requires
            self.well_formed(),
        ensures
            outlook == match self.tree().weight {
                Some(weight) => if weight.as_int() > crate::scalar::nudged_toward_zero(
                    G::Score::max_int(),
                    1000,
                    G::Score::min_int(),
                    G::Score::max_int(),
                ) {
                    Outlook::Winning
                } else if weight.as_int() < crate::scalar::nudged_toward_zero(
                    G::Score::min_int(),
                    1000,
                    G::Score::min_int(),
                    G::Score::max_int(),
                ) {
                    Outlook::Losing
                } else {
                    Outlook::Open
                },
                None => Outlook::Open,
            },
    {
        let tree = match &self.game_tree {
            Some(tree) => tree,
            None => unreached(),
        };
        match tree.weight() {
            Some(weight) => {
                let near_win = G::Score::MAX().add_towards_0(1000);
                let near_loss = G::Score::MIN().add_towards_0(1000);
                proof {
                    G::Score::lemma_order(weight, near_win);
                    G::Score::lemma_order(weight, near_loss);
                }
                if weight > near_win {
                    Outlook::Winning
                } else if weight < near_loss {
                    Outlook::Losing
                } else {
                    Outlook::Open
                }
            },
            None => Outlook::Open,
        }
    }

    /// Notes the time that a move took, in milliseconds.
    pub fn record_time(&mut self, millis: u64)
        ensures
            final(self).times() == old(self).times().push(millis),
            final(self).player() == old(self).player(),
            final(self).max_depth() == old(self).max_depth(),
            final(self).heuristic() == old(self).heuristic(),
            final(self).tree() == old(self).tree(),
            old(self).well_formed() ==> final(self).well_formed(),
    {
        self.times.push(millis);
    }

    /// The mean of the times noted, rounded down.
    pub fn average_time(&self) -> (mean: u64)
        requires
            self.times().len() > 0,
            total(self.times()) <= u64::MAX,
        ensures
            mean == total(self.times()) / self.times().len(),
    {
        let mut sum: u64 = 0;
        let mut i: usize = 0;
        while i < self.times.len()
            invariant
                i <= self.times@.len(),
                sum == total(self.times@.take(i as int)),
                total(self.times@) <= u64::MAX,
            decreases self.times@.len() - i,
        {
            proof {
                lemma_total_grows(self.times@, i as int + 1);
                assert(self.times@.take(i as int + 1).drop_last() =~= self.times@.take(i as int));
            }
            sum = sum + self.times[i];
            i += 1;
        }
        proof {
            assert(self.times@.take(i as int) =~= self.times@);
        }
        sum / self.times.len() as u64
    }

    /// The position of the game.
    pub fn expect_game(&self) -> (game: &G)
        requires
            self.well_formed(),
        ensures
            *game == self.tree().position(),
            game.valid(),
    {
        match &self.game_tree {
            Some(tree) => tree.expect_game(),
            None => unreached(),
        }
    }
}

/// The sum of the first `n` of `times` is at most the sum of all.
pub proof fn lemma_total_grows(times: Seq<u64>, n: int)
    requires
        0 <= n <= times.len(),
    ensures
        total(times.take(n)) <= total(times),
    decreases times.len() - n,
{
    if n < times.len() {
        lemma_total_grows(times, n + 1);
        assert(times.take(n + 1).drop_last() =~= times.take(n));
    } else {
        assert(times.take(n) =~= times);
    }
}

} // verus!
