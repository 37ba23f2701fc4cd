//! The search: exploring a tree of positions, choosing the best move, and
//! moving the root along the moves really played.

use crate::game::player::Player;
use crate::game::state::GameState;
use crate::game::Game;
use crate::min_max::bound::offer;
use crate::min_max::bound::SiblingBound;
use crate::min_max::node::GameNode;
use crate::min_max::node::has_move;
use crate::min_max::value::beats;
use crate::min_max::value::draw_value;
use crate::min_max::value::expands;
use crate::min_max::value::frontier_value;
use crate::min_max::value::is_best_reply_value;
use crate::min_max::value::is_draw;
use crate::min_max::value::lemma_best_reply_is_value;
use crate::min_max::value::lemma_value_is_best_reply;
use crate::min_max::value::position_value;
use crate::min_max::value::reply_value;
use crate::min_max::value::win_value;
use crate::min_max::value::worst_for;
use crate::min_max::value::SearchConfig;
use crate::scalar::Scalar;
use rayon::iter::IntoParallelRefMutIterator;
use rayon::iter::ParallelIterator;
use std::sync::Mutex;
use vstd::prelude::*;
use vstd::std_specs::cmp::PartialEqSpec;

pub mod bound;
pub mod laws;
pub mod node;
pub mod value;

verus! {

/// The phase after the end of the game was seen: closed with `ended` where
/// play went on and the last move is recorded, else as it was.
pub open spec fn closed_phase<G: Game>(before: GameState<G>, ended: GameState<G>) -> GameState<G> {
    if before.can_end() {
        ended
    } else {
        before
    }
}

impl<G: Game> GameNode<G> {
    /// The node can be searched: it holds its position and is a faithful
    /// record of it, has `now_playing` to move where play goes on, and lies
    /// at or below the root of the search, whose depth limit fits the
    /// machine.
    pub open spec fn searchable(self, now_playing: G::Player, cfg: SearchConfig<G>) -> bool {
        &&& self.rooted()
        &&& self.game_state matches GameState::PlayersTurn(player, _) ==> player == now_playing
        &&& self.depth >= cfg.real_plays
        &&& cfg.limit() <= u32::MAX
    }

    /// `after` is `before` with a new score and, maybe, a closed phase.
    pub open spec fn scored_from(after: Self, before: Self) -> bool {
        &&& after.weight is Some
        &&& after.depth == before.depth
        &&& after.children == before.children
        &&& after.game == before.game
    }

    /// The score of a win by `winner`.
    fn win_weight(winner: G::Player, bot_player: G::Player) -> (weight: G::Score)
        ensures
            weight.as_int() == win_value::<G>(winner, bot_player),
    {
        proof {
            G::Player::lemma_player_eq(winner, bot_player);
        }
        if winner == bot_player {
            G::Score::MAX()
        } else {
            G::Score::MIN()
        }
    }

    /// At the depth limit, scores the node by what the position shows now,
    /// moved toward zero by the plies below the root, and records a win if
    /// there is one. Returns whether the node is at the depth limit.
    fn check_max_depth(&mut self, cfg: &SearchConfig<G>) -> (reached: bool)
        requires
            old(self).rooted(),
            old(self).depth >= cfg.real_plays,
            cfg.limit() <= u32::MAX,
        ensures
            reached == (old(self).depth >= cfg.limit()),
            !reached ==> *final(self) == *old(self),
            reached ==> {
                let state = old(self).position();
                &&& Self::scored_from(*final(self), *old(self))
                &&& final(self).weight->0.as_int() == frontier_value(
                    state,
                    *cfg,
                    old(self).depth as int,
                )
                &&& final(self).game_state == match state.winner_spec() {
                    Some(winner) => closed_phase(
                        old(self).game_state,
                        GameState::WonBy(winner, old(self).game_state.last_move()->0),
                    ),
                    None => old(self).game_state,
                }
                &&& final(self).represents(state)
            },
    {
        if self.depth < cfg.max_depth + cfg.real_plays {
            return false;
        }
        let relative_depth: u32 = self.depth - cfg.real_plays;
        let nudge: i32 = if relative_depth > i32::MAX as u32 {
            i32::MAX
        } else {
            relative_depth as i32
        };
        let game = self.expect_game();
        let winner = game.get_winner();
        let raw = if cfg.use_heuristic_score {
            game.get_score(cfg.bot_player)
        } else {
            match winner {
                Some(winner) => Self::win_weight(winner, cfg.bot_player),
                None => G::Score::ZERO(),
            }
        };
        let weight = raw.add_towards_0(nudge);
        if let Some(winner) = winner {
            if let GameState::PlayersTurn(_, Some(_)) = self.game_state {
                self.game_state = self.game_state.to_win_by(winner);
            }
        }
        self.weight = Some(weight);
        true
    }

    /// Scores the node as won or lost if the game has a winner, and records
    /// the win. Returns whether it has one.
    fn check_winner(&mut self, bot_player: G::Player) -> (won: bool)
        requires
            old(self).rooted(),
        ensures
            won == (old(self).position().winner_spec() is Some),
            !won ==> *final(self) == *old(self),
            won ==> {
                let state = old(self).position();
                &&& Self::scored_from(*final(self), *old(self))
                &&& final(self).weight->0.as_int() == win_value::<G>(
                    state.winner_spec()->0,
                    bot_player,
                )
                &&& final(self).game_state == closed_phase(
                    old(self).game_state,
                    GameState::WonBy(state.winner_spec()->0, old(self).game_state.last_move()->0),
                )
                &&& final(self).represents(state)
            },
    {
        if let GameState::WonBy(winner, _) = self.game_state {
            self.weight = Some(Self::win_weight(winner, bot_player));
            return true;
        }
        let winner = self.expect_game().get_winner();
        if let Some(winner) = winner {
            self.weight = Some(Self::win_weight(winner, bot_player));
            if let GameState::PlayersTurn(_, Some(_)) = self.game_state {
                self.game_state = self.game_state.to_win_by(winner);
            }
            return true;
        }
        false
    }

    /// Scores the node as half a loss if nobody has won and nothing is left to
    /// play, and records the draw. Returns whether that is so.
    fn check_draw(&mut self) -> (drawn: bool)
        requires
            old(self).rooted(),
            old(self).position().winner_spec() is None,
        ensures
            drawn == is_draw(old(self).position()),
            !drawn ==> *final(self) == *old(self),
            drawn ==> {
                let state = old(self).position();
                &&& Self::scored_from(*final(self), *old(self))
                &&& final(self).weight->0.as_int() == draw_value::<G>()
                &&& final(self).game_state == closed_phase(
                    old(self).game_state,
                    GameState::Draw(
                        old(self).game_state->PlayersTurn_0.other_spec(),
                        old(self).game_state.last_move()->0,
                    ),
                )
                &&& final(self).represents(state)
            },
    {
        proof {
            G::Score::lemma_sentinels();
        }
        // a draw counts as a loss for the bot, but less than a real loss
        let half_loss = G::Score::MIN().div(2);
        if let GameState::Draw(_, _) = self.game_state {
            self.weight = Some(half_loss);
            return true;
        }
        let drawn = self.expect_game().is_full();
        if drawn {
            self.weight = Some(half_loss);
            if let GameState::PlayersTurn(_, Some(_)) = self.game_state {
                self.game_state = self.game_state.to_draw();
            }
        }
        drawn
    }
}

impl<G: Game> GameNode<G> {
    /// The child that the legal move `play` of `now_playing` leads to from
    /// `game`, for a node at `depth`.
    fn new_child(game: G, now_playing: G::Player, play: G::InputCoordinate, depth: u32) -> (child:
        Self)
        requires
            game.valid(),
            game.legal_moves().contains(play),
            depth < u32::MAX,
        ensures
            child.game == Some(game.after_play(now_playing, play)),
            child.depth == depth + 1,
            child.weight is None,
            child.children@.len() == 0,
            child.game_state == GameState::<G>::PlayersTurn(now_playing.other_spec(), Some(play)),
            child.rooted(),
    {
        let mut game = game;
        let _ = game.play(now_playing, play);
        GameNode::new(
            Some(game),
            depth + 1,
            None,
            GameState::PlayersTurn(now_playing.other(), Some(play)),
        )
    }

    /// `self` differs from `before` at most in holding its position.
    pub open spec fn regenerated_from(self, before: Self) -> bool {
        &&& self.depth == before.depth
        &&& self.weight == before.weight
        &&& self.children == before.children
        &&& self.game_state == before.game_state
        &&& before.game is Some ==> self.game == before.game
    }

    /// The children hold their positions: child `i` the one after its move
    /// from `state`.
    pub open spec fn children_hold(self, state: G, now_playing: G::Player) -> bool {
        forall|i: int|
            0 <= i < self.children@.len() ==> (#[trigger] self.children@[i]).1.game == Some(
                state.after_play(now_playing, self.children@[i].0),
            )
    }

    /// The children are new: none has a score or children of its own, and at
    /// each the opponent of `now_playing` is to move, after the move of the
    /// child.
    pub open spec fn children_new(self, now_playing: G::Player) -> bool {
        forall|i: int|
            0 <= i < self.children@.len() ==> {
                &&& (#[trigger] self.children@[i]).1.weight is None
                &&& self.children@[i].1.children@.len() == 0
                &&& self.children@[i].1.game_state == GameState::<G>::PlayersTurn(
                    now_playing.other_spec(),
                    Some(self.children@[i].0),
                )
            }
    }

    /// Expands a node without children by the list `moves` that the game gave
    /// for its position: one new child for each move, in the order of the
    /// list, each holding the position after its move. The node keeps its
    /// position where it is the root of the search or `keep_game` is set;
    /// elsewhere its last child takes the position over.
    pub fn expand_with(
        &mut self,
        moves: Vec<G::InputCoordinate>,
        now_playing: G::Player,
        real_plays: u32,
        keep_game: bool,
    )
        requires
            old(self).rooted(),
            old(self).children@.len() == 0,
            old(self).game_state matches GameState::PlayersTurn(player, _) && player == now_playing,
            old(self).position().winner_spec() is None,
            !is_draw(old(self).position()),
            old(self).depth < u32::MAX,
            moves@.no_duplicates(),
            moves@.to_set() == old(self).position().legal_moves(),
            old(self).position().may_offer(moves@),
        ensures
            final(self).plays() == moves@,
            final(self).represents(old(self).position()),
            final(self).depth == old(self).depth,
            final(self).weight == old(self).weight,
            final(self).game_state == old(self).game_state,
            final(self).children@.len() > 0,
            final(self).children_hold(old(self).position(), now_playing),
            final(self).game == if old(self).depth == real_plays || keep_game {
                old(self).game
            } else {
                None
            },
            final(self).children_new(now_playing),
    {
        let ghost state = old(self).position();
        let game: G = match self.game.take() {
            Some(game) => game,
            None => unreached(),
        };
        // the root keeps its position; below it the last child takes it over
        let take_game = self.depth != real_plays && !keep_game;
        let possibilities = moves.len();
        proof {
            state.lemma_full_board();
            if moves@.len() == 0 {
                assert(state.legal_moves() =~= Set::empty());
            }
        }
        let mut vec: Vec<(G::InputCoordinate, GameNode<G>)> = Vec::with_capacity(possibilities);
        let mut i: usize = 0;
        while i < possibilities - 1
            invariant
                possibilities == moves@.len(),
                possibilities > 0,
                i <= possibilities - 1,
                vec@.len() == i,
                game == state,
                state.valid(),
                self.depth < u32::MAX,
                moves@.to_set() == state.legal_moves(),
                forall|j: int|
                    0 <= j < i ==> {
                        &&& (#[trigger] vec@[j]).0 == moves@[j]
                        &&& vec@[j].1.game == Some(state.after_play(now_playing, vec@[j].0))
                        &&& vec@[j].1.depth == self.depth + 1
                        &&& vec@[j].1.weight is None
                        &&& vec@[j].1.children@.len() == 0
                        &&& vec@[j].1.game_state == GameState::<G>::PlayersTurn(
                            now_playing.other_spec(),
                            Some(vec@[j].0),
                        )
                        &&& vec@[j].1.rooted()
                    },
            decreases possibilities - i,
        {
            let input_coord = moves[i];
            let copy = game.clone();
            proof {
                G::lemma_clone(&game, copy);
            }
            vec.push((input_coord, Self::new_child(copy, now_playing, input_coord, self.depth)));
            i += 1;
        }
        let input_coord = moves[possibilities - 1];
        if take_game {
            vec.push((input_coord, Self::new_child(game, now_playing, input_coord, self.depth)));
        } else {
            let copy = game.clone();
            proof {
                G::lemma_clone(&game, copy);
            }
            vec.push((input_coord, Self::new_child(copy, now_playing, input_coord, self.depth)));
            self.game = Some(game);
        }
        self.children = vec;
        proof {
            assert(self.plays() =~= moves@);
            assert forall|m: G::InputCoordinate| #[trigger]
                state.legal_moves().contains(m) implies crate::min_max::node::has_move(
                self.children@,
                m,
            ) by {
                let k = choose|k: int| 0 <= k < moves@.len() && moves@[k] == m;
                assert(self.children@[k].0 == m);
            }
        }
    }

    /// Makes sure that the node has its children and that each of them holds
    /// its position: where there are none yet, asks the game for its moves
    /// and creates one child for each, in the order of that list; else gives
    /// back their positions to the children that lost them. A node below the root of the search gives up its own
    /// position, unless it is to keep it.
    fn fill_children_and_destroy_game(
        &mut self,
        now_playing: G::Player,
        real_plays: u32,
        keep_game: bool,
    )
        requires
            old(self).rooted(),
            old(self).game_state matches GameState::PlayersTurn(player, _) && player == now_playing,
            old(self).position().winner_spec() is None,
            !is_draw(old(self).position()),
            old(self).depth < u32::MAX,
        ensures
            final(self).represents(old(self).position()),
            final(self).depth == old(self).depth,
            final(self).weight == old(self).weight,
            final(self).game_state == old(self).game_state,
            final(self).children@.len() > 0,
            final(self).children_hold(old(self).position(), now_playing),
            final(self).game == if old(self).depth == real_plays || keep_game {
                old(self).game
            } else {
                None
            },
            old(self).children@.len() > 0 ==> {
                &&& final(self).children@.len() == old(self).children@.len()
                &&& forall|i: int|
                    0 <= i < old(self).children@.len() ==> {
                        &&& (#[trigger] final(self).children@[i]).0 == old(self).children@[i].0
                        &&& final(self).children@[i].1.regenerated_from(old(self).children@[i].1)
                    }
            },
            old(self).children@.len() == 0 ==> final(self).children_new(now_playing),
            old(self).position().may_offer(final(self).plays()),
    {
        let ghost state = old(self).position();
        if self.children.len() == 0 {
            let moves = match &self.game {
                Some(game) => game.possible_plays(),
                None => unreached(),
            };
            self.expand_with(moves, now_playing, real_plays, keep_game);
        } else {
            let game: G = match self.game.take() {
                Some(game) => game,
                None => unreached(),
            };
            // the root keeps its position; below it the game is dropped
            let take_game = self.depth != real_plays && !keep_game;
            let n = self.children.len();
            let mut i: usize = 0;
            while i < n
                invariant
                    n == self.children@.len(),
                    n == old(self).children@.len(),
                    i <= n,
                    game == state,
                    old(self).rooted(),
                    state == old(self).position(),
                    old(self).game_state == GameState::<G>::PlayersTurn(
                        now_playing,
                        old(self).game_state.last_move(),
                    ),
                    self.depth == old(self).depth,
                    self.weight == old(self).weight,
                    self.game_state == old(self).game_state,
                    self.game is None,
                    forall|j: int|
                        0 <= j < n ==> {
                            &&& (#[trigger] self.children@[j]).0 == old(self).children@[j].0
                            &&& self.children@[j].1.regenerated_from(old(self).children@[j].1)
                        },
                    forall|j: int|
                        0 <= j < i ==> (#[trigger] self.children@[j]).1.game == Some(
                            state.after_play(now_playing, self.children@[j].0),
                        ),
                    forall|j: int|
                        i <= j < n ==> #[trigger] self.children@[j] == old(self).children@[j],
                decreases n - i,
            {
                proof {
                    let before = old(self).children@[i as int];
                    assert(before.1.represents(state.after_play(now_playing, before.0)));
                }
                if self.children[i].1.game.is_none() {
                    let play = self.children[i].0;
                    let mut replay = game.clone();
                    proof {
                        G::lemma_clone(&game, replay);
                    }
                    let _ = replay.play(now_playing, play);
                    let child = &mut self.children[i].1;
                    child.game = Some(replay);
                }
                i += 1;
            }
            if !take_game {
                self.game = Some(game);
            }
            proof {
                assert forall|i: int| 0 <= i < self.children@.len() implies {
                    &&& state.legal_moves().contains((#[trigger] self.children@[i]).0)
                    &&& self.children@[i].1.depth == self.depth + 1
                    &&& self.children@[i].1.game_state.last_move() == Some(self.children@[i].0)
                    &&& (self.children@[i].1.game_state matches GameState::PlayersTurn(next, _)
                        ==> next == self.game_state->PlayersTurn_0.other_spec())
                    &&& self.children@[i].1.represents(
                        state.after_play(self.game_state->PlayersTurn_0, self.children@[i].0),
                    )
                } by {
                    let before = old(self).children@[i];
                    assert(before.1.represents(state.after_play(now_playing, before.0)));
                }
                assert forall|m: G::InputCoordinate| #[trigger]
                    state.legal_moves().contains(m) implies crate::min_max::node::has_move(
                    self.children@,
                    m,
                ) by {
                    let k = choose|k: int|
                        0 <= k < old(self).children@.len() && (#[trigger] old(self).children@[k]).0
                            == m;
                    assert(self.children@[k].0 == m);
                }
                assert(self.plays() =~= old(self).plays());
            }
        }
    }
}

/// How far below the root of a search the children of a node are explored
/// in parallel.
pub const FORK_DEPTH: u32 = 1;

/// Whether the search explores in parallel at all.
pub const MULTI_THREADING: bool = true;

/// The best, for the player who moves at `state`, of the values of the
/// positions after the first `i` of the moves `plays`; the worst score for
/// that player where `i` is 0.
pub open spec fn best_of_replies<G: Game>(
    state: G,
    now_playing: G::Player,
    cfg: SearchConfig<G>,
    depth: int,
    plays: Seq<G::InputCoordinate>,
    i: int,
) -> int
    decreases i,
{
    if i <= 0 {
        worst_for::<G>(now_playing == cfg.bot_player)
    } else {
        let before = best_of_replies(state, now_playing, cfg, depth, plays, i - 1);
        let here = reply_value(state, now_playing, cfg, depth, plays[i - 1]);
        if beats(now_playing == cfg.bot_player, here, before) {
            here
        } else {
            before
        }
    }
}

/// The children of a node at this depth are explored one after the other.
pub open spec fn explores_in_turn<G: Game>(depth: int, cfg: SearchConfig<G>) -> bool {
    !(depth - cfg.real_plays == FORK_DEPTH && MULTI_THREADING)
}

/// The score `w` that a search left on a child is settled against `best`,
/// the value of the parent. A child that was not cut short has `exact`, the
/// value of its position. A child that was cut short has a score between
/// `exact` and `best` that is worse for the parent than `best`: it could not
/// be the parent's choice, and its score is not the parent's.
pub open spec fn weight_settled(
    maximize: bool,
    cut_short: bool,
    w: int,
    exact: int,
    best: int,
) -> bool {
    if cut_short {
        beats(maximize, best, w) && !beats(maximize, exact, w)
    } else {
        w == exact
    }
}

/// A node whose side to choose is `maximize` can be given up against `bound`,
/// the best that its parent has found so far: the parent chooses for the
/// other side.
pub open spec fn prunable(maximize: bool, parent_maximize: bool) -> bool {
    maximize != parent_maximize
}

/// Whether `a` is strictly better than `b` for the side that chooses.
fn is_better<S: Scalar>(maximize: bool, a: S, b: S) -> (better: bool)
    ensures
        better == beats(maximize, a.as_int(), b.as_int()),
{
    proof {
        S::lemma_order(a, b);
    }
    if maximize {
        a > b
    } else {
        a < b
    }
}

impl<G: Game> GameNode<G> {
    /// The node was explored: no child is left without a score.
    pub open spec fn children_scored(self) -> bool {
        forall|i: int|
            0 <= i < self.children@.len() ==> (#[trigger] self.children@[i]).1.weight is Some
    }

    /// The scores of the children are settled against `best`, the value of
    /// `state`, the position of the node.
    pub open spec fn children_settled(
        self,
        state: G,
        now_playing: G::Player,
        cfg: SearchConfig<G>,
        best: int,
    ) -> bool {
        forall|i: int|
            0 <= i < self.children@.len() ==> {
                &&& (#[trigger] self.children@[i]).1.weight is Some
                &&& weight_settled(
                    now_playing == cfg.bot_player,
                    self.children@[i].1.cut_short(
                        state.after_play(now_playing, self.children@[i].0),
                        cfg,
                    ),
                    self.children@[i].1.weight->0.as_int(),
                    reply_value(state, now_playing, cfg, self.depth as int, self.children@[i].0),
                    best,
                )
            }
    }

    /// The phase that a search leaves on the node `before`: that of `before`
    /// where the search goes on below the node. At a node without children
    /// or at the depth limit, a win is recorded if the game has a winner;
    /// above the depth limit, a draw is recorded if the game is drawn. An
    /// end is recorded only where play went on and the last move is
    /// recorded.
    pub open spec fn phase_after(before: Self, cfg: SearchConfig<G>) -> GameState<G> {
        let state = before.position();
        let phase = before.game_state;
        if before.depth < cfg.limit() && before.children@.len() > 0 {
            phase
        } else {
            match state.winner_spec() {
                Some(winner) => closed_phase(
                    phase,
                    GameState::WonBy(winner, phase.last_move()->0),
                ),
                None => if before.depth < cfg.limit() && is_draw(state) {
                    closed_phase(
                        phase,
                        GameState::Draw(
                            phase->PlayersTurn_0.other_spec(),
                            phase.last_move()->0,
                        ),
                    )
                } else {
                    phase
                },
            }
        }
    }

    /// The position that a search leaves in the node `before`: its own, if
    /// the node is the root of the count of plies or the search does not go
    /// on below it, and else none: the node has given it to its children.
    pub open spec fn game_after(before: Self, cfg: SearchConfig<G>) -> Option<G> {
        if before.depth == cfg.real_plays || !expands(
            before.position(),
            cfg,
            before.depth as int,
        ) {
            before.game
        } else {
            None
        }
    }

    /// The scores at and below the node are exact wherever the search was
    /// not cut short: the node is scored; its score is the value of `state`,
    /// its position, unless the search went on below it and it has no
    /// children left; and where the search went on below it, the same holds
    /// of each of its children at the position after its move.
    pub open spec fn scored_exactly(
        self,
        state: G,
        now_playing: G::Player,
        cfg: SearchConfig<G>,
    ) -> bool
        decreases self,
    {
        &&& self.weight is Some
        &&& (!expands(state, cfg, self.depth as int) || self.children@.len() > 0)
            ==> self.weight->0.as_int() == position_value(
            state,
            now_playing,
            cfg,
            self.depth as int,
        )
        &&& expands(state, cfg, self.depth as int) ==> forall|i: int|
            0 <= i < self.children@.len() ==> (#[trigger] self.children@[i]).1.scored_exactly(
                state.after_play(now_playing, self.children@[i].0),
                now_playing.other_spec(),
                cfg,
            )
    }

    /// What a search leaves of `before`, a node with `now_playing` to move
    /// whose parent chooses for `parent_maximize`.
    ///
    /// The node is scored and still a faithful record of its position, at its
    /// depth, in the phase that `phase_after` names and with the position
    /// that `game_after` names. Let `v` be the value of the position. The
    /// node was cut short if the search went on below it and it has no
    /// children afterwards. A node that was not cut short has the score `v`,
    /// and where the search went on below it, the scores of its children are
    /// settled against `v`. A node is cut short only where its parent chooses
    /// for the other side, and its score is then not better than `v` for the
    /// side to move. Where the search did not go on below the node, it has
    /// the children that it had before. Below the node the scores are exact
    /// wherever the search was not cut short. A node that had no children
    /// before has below it the work of this one search, as `explored_afresh`
    /// says; one that had children and was not cut short has them in their
    /// places. The children of a node that was not cut short stand in an
    /// order in which the game may list the moves of its position. Where the
    /// children were explored one after the other, each was cut short exactly
    /// as `child_cut_in_turn` says.
    ///
    /// Where the node was told `bound`, the best that its parent had found so
    /// far, and the search went on below it, it was cut short exactly where
    /// its parent chooses for the other side and `v` is better than `bound`
    /// for the side to move, and its score is then better than `bound` too:
    /// the parent will not choose the node either way.
    pub open spec fn explored_from(
        self,
        before: Self,
        now_playing: G::Player,
        cfg: SearchConfig<G>,
        parent_maximize: bool,
        bound: Option<G::Score>,
    ) -> bool {
        let state = before.position();
        let depth = before.depth as int;
        let maximize = now_playing == cfg.bot_player;
        let v = position_value(state, now_playing, cfg, depth);
        let cut_short = expands(state, cfg, depth) && self.children@.len() == 0;
        &&& self.weight is Some
        &&& self.depth == before.depth
        &&& self.game_state == Self::phase_after(before, cfg)
        &&& self.represents(state)
        &&& self.scored_exactly(state, now_playing, cfg)
        &&& self.game == Self::game_after(before, cfg)
        &&& !cut_short ==> self.weight->0.as_int() == v
        &&& cut_short ==> prunable(maximize, parent_maximize) && !beats(
            maximize,
            self.weight->0.as_int(),
            v,
        )
        &&& expands(state, cfg, depth) && !cut_short ==> self.children_settled(
            state,
            now_playing,
            cfg,
            v,
        )
        &&& !expands(state, cfg, depth) ==> self.children == before.children
        &&& before.children@.len() == 0 ==> self.explored_afresh(state, now_playing, cfg)
        &&& expands(state, cfg, depth) && !cut_short ==> state.may_offer(self.plays())
        &&& expands(state, cfg, depth) && !cut_short && before.children@.len() > 0
            ==> self.plays() == before.plays()
        &&& expands(state, cfg, depth) && !cut_short && explores_in_turn(depth, cfg)
            ==> forall|j: int|
            0 <= j < self.children@.len() ==> #[trigger] self.child_cut_in_turn(
                j,
                state,
                now_playing,
                cfg,
            )
        &&& bound matches Some(known) ==> {
            &&& expands(state, cfg, depth) ==> (cut_short <==> prunable(maximize, parent_maximize)
                && beats(maximize, v, known.as_int()))
            &&& cut_short ==> beats(maximize, self.weight->0.as_int(), known.as_int())
        }
    }

    /// The phase of a node that was made for the move `last` and then
    /// explored, at `depth` and with `now_playing` to move at `state`: a win
    /// where the game has a winner, a draw where the node lies above the
    /// depth limit and the game is drawn, and else the turn of `now_playing`.
    pub open spec fn phase_afresh(
        state: G,
        now_playing: G::Player,
        last: G::InputCoordinate,
        cfg: SearchConfig<G>,
        depth: int,
    ) -> GameState<G> {
        match state.winner_spec() {
            Some(winner) => GameState::WonBy(winner, last),
            None => if depth < cfg.limit() && is_draw(state) {
                GameState::Draw(now_playing.other_spec(), last)
            } else {
                GameState::PlayersTurn(now_playing, Some(last))
            },
        }
    }

    /// The tree below the node is the work of one search from the node:
    /// where the search does not go on below a node, at the depth limit or
    /// at the end of the game, the node has no children; and each child is
    /// in the phase that `phase_afresh` names, with the same holding below
    /// it.
    pub open spec fn explored_afresh(
        self,
        state: G,
        now_playing: G::Player,
        cfg: SearchConfig<G>,
    ) -> bool
        decreases self,
    {
        &&& !expands(state, cfg, self.depth as int) ==> self.children@.len() == 0
        &&& forall|i: int|
            0 <= i < self.children@.len() ==> {
                &&& (#[trigger] self.children@[i]).1.game_state == Self::phase_afresh(
                    state.after_play(now_playing, self.children@[i].0),
                    now_playing.other_spec(),
                    self.children@[i].0,
                    cfg,
                    self.children@[i].1.depth as int,
                )
                &&& self.children@[i].1.explored_afresh(
                    state.after_play(now_playing, self.children@[i].0),
                    now_playing.other_spec(),
                    cfg,
                )
            }
    }

    /// Child `i` of the node is in the phase that `phase_afresh` names, and
    /// the tree below it is the work of one search.
    pub open spec fn child_afresh(
        self,
        i: int,
        state: G,
        now_playing: G::Player,
        cfg: SearchConfig<G>,
    ) -> bool {
        &&& self.children@[i].1.game_state == Self::phase_afresh(
            state.after_play(now_playing, self.children@[i].0),
            now_playing.other_spec(),
            self.children@[i].0,
            cfg,
            self.children@[i].1.depth as int,
        )
        &&& self.children@[i].1.explored_afresh(
            state.after_play(now_playing, self.children@[i].0),
            now_playing.other_spec(),
            cfg,
        )
    }

    /// Child `i` of the node, explored after the children before it, was cut
    /// short exactly where the search went on below it, it chooses for the
    /// other side than the node, and the value of its position is better for
    /// its side than the best of the values of the children before it.
    pub open spec fn child_cut_in_turn(
        self,
        i: int,
        state: G,
        now_playing: G::Player,
        cfg: SearchConfig<G>,
    ) -> bool {
        let play = self.children@[i].0;
        let child = self.children@[i].1;
        let reply = state.after_play(now_playing, play);
        let child_maximize = now_playing.other_spec() == cfg.bot_player;
        expands(reply, cfg, child.depth as int) ==> (child.cut_short(reply, cfg) <==> prunable(
            child_maximize,
            now_playing == cfg.bot_player,
        ) && beats(
            child_maximize,
            reply_value(state, now_playing, cfg, self.depth as int, play),
            best_of_replies(state, now_playing, cfg, self.depth as int, self.plays(), i),
        ))
    }

    /// Child `i` of the node was explored: it is scored, exactly wherever the
    /// search was not cut short, and it is a faithful record of the position
    /// after its move from `state`, one ply deeper, tagged with its move and
    /// with the opponent of `now_playing` to move where play goes on.
    pub open spec fn child_explored(
        self,
        i: int,
        state: G,
        now_playing: G::Player,
        cfg: SearchConfig<G>,
    ) -> bool {
        let play = self.children@[i].0;
        let child = self.children@[i].1;
        &&& child.weight is Some
        &&& child.depth == self.depth + 1
        &&& child.game_state.last_move() == Some(play)
        &&& (child.game_state matches GameState::PlayersTurn(next, _) ==> next
            == now_playing.other_spec())
        &&& child.represents(state.after_play(now_playing, play))
        &&& child.scored_exactly(state.after_play(now_playing, play), now_playing.other_spec(), cfg)
    }

    /// The score `best` is the best of the values of the first `i` children,
    /// and the scores of these children are settled against it.
    pub open spec fn best_of_first(
        self,
        i: int,
        state: G,
        now_playing: G::Player,
        cfg: SearchConfig<G>,
        best: int,
    ) -> bool {
        let maximize = now_playing == cfg.bot_player;
        &&& forall|j: int|
            0 <= j < i ==> {
                &&& (#[trigger] self.children@[j]).1.weight is Some
                &&& weight_settled(
                    maximize,
                    self.children@[j].1.cut_short(
                        state.after_play(now_playing, self.children@[j].0),
                        cfg,
                    ),
                    self.children@[j].1.weight->0.as_int(),
                    reply_value(state, now_playing, cfg, self.depth as int, self.children@[j].0),
                    best,
                )
                &&& !beats(
                    maximize,
                    reply_value(state, now_playing, cfg, self.depth as int, self.children@[j].0),
                    best,
                )
            }
        &&& i == 0 ==> best == worst_for::<G>(maximize)
        &&& i > 0 ==> exists|j: int|
            0 <= j < i && reply_value(
                state,
                now_playing,
                cfg,
                self.depth as int,
                (#[trigger] self.children@[j]).0,
            ) == best
    }

    /// The children of a node at this depth are explored in parallel.
    fn is_parallelize_depth(&self, real_plays: u32) -> (parallel: bool)
        requires
            self.depth >= real_plays,
        ensures
            parallel == (self.depth - real_plays == FORK_DEPTH && MULTI_THREADING),
    {
        self.depth - real_plays == FORK_DEPTH && MULTI_THREADING
    }

    /// Explores the node and what lies below it, down to the depth limit.
    ///
    /// # Parameters
    /// * `now_playing` - the player to move at this node
    /// * `parent_maximize` - whether the parent of the node chooses for the bot
    /// * `worst_sibling_score` - the best that the parent has found so far
    ///   among the siblings of the node: once the node is sure to be worse for
    ///   the parent, the rest of its children is left unexplored
    ///
    /// # Returns
    /// The weight of the node
    fn explore_children_recur(
        &mut self,
        cfg: &SearchConfig<G>,
        now_playing: G::Player,
        parent_maximize: bool,
        worst_sibling_score: &SiblingBound<G::Score>,
    ) -> (weight: G::Score)
        requires
            old(self).searchable(now_playing, *cfg),
        ensures
            final(self).weight == Some(weight),
            final(self).explored_from(
                *old(self),
                now_playing,
                *cfg,
                parent_maximize,
                worst_sibling_score.known(),
            ),
        decreases cfg.limit() - old(self).depth, 1int,
    {
        let ghost state = old(self).position();
        if self.check_max_depth(cfg) {
            return self.weight.unwrap();
        }
        if self.children.len() == 0 && (self.check_winner(cfg.bot_player) || self.check_draw()) {
            return self.weight.unwrap();
        }
        proof {
            G::Player::lemma_player_eq(now_playing, cfg.bot_player);
        }
        let maximize = now_playing == cfg.bot_player;
        let parallel = self.is_parallelize_depth(cfg.real_plays);
        // a node whose children are explored in parallel keeps its position
        // until they are done
        self.fill_children_and_destroy_game(now_playing, cfg.real_plays, parallel);
        let ghost filled = *self;
        let ghost explored;
        let (worst_child_score, auto_destroy) = if parallel {
            let best = self.explore_children_in_parallel(cfg, now_playing, Ghost(state));
            proof {
                explored = *self;
            }
            // now that the children are done, the node can give up its
            // position
            if self.depth != cfg.real_plays {
                self.game = None;
            }
            let against = worst_sibling_score.latest();
            (best, parent_maximize != maximize && is_better(maximize, best, against))
        } else {
            let explored_in_turn = self.explore_children_in_turn(
                cfg,
                now_playing,
                parent_maximize,
                worst_sibling_score,
                Ghost(state),
            );
            proof {
                explored = *self;
            }
            explored_in_turn
        };
        self.weight = Some(worst_child_score);
        if auto_destroy {
            self.children = Vec::new();
        }
        proof {
            assert forall|j: int| 0 <= j < self.children@.len() implies (
            #[trigger] self.children@[j]).1.scored_exactly(
                state.after_play(now_playing, self.children@[j].0),
                now_playing.other_spec(),
                *cfg,
            ) by {
                assert(explored.child_explored(j, state, now_playing, *cfg));
            }
            if !auto_destroy {
                assert(explored.plays() =~= filled.plays());
                if old(self).children@.len() > 0 {
                    assert(filled.plays() =~= old(self).plays());
                }
                if !parallel {
                    assert forall|j: int|
                        0 <= j < self.children@.len() implies #[trigger] self.child_cut_in_turn(
                        j,
                        state,
                        now_playing,
                        *cfg,
                    ) by {
                        assert(explored.child_cut_in_turn(j, state, now_playing, *cfg));
                    }
                }
            }
            if old(self).children@.len() == 0 {
                assert forall|j: int| 0 <= j < self.children@.len() implies {
                    &&& (#[trigger] self.children@[j]).1.game_state == Self::phase_afresh(
                        state.after_play(now_playing, self.children@[j].0),
                        now_playing.other_spec(),
                        self.children@[j].0,
                        *cfg,
                        self.children@[j].1.depth as int,
                    )
                    &&& self.children@[j].1.explored_afresh(
                        state.after_play(now_playing, self.children@[j].0),
                        now_playing.other_spec(),
                        *cfg,
                    )
                } by {
                    assert(explored.child_afresh(j, state, now_playing, *cfg));
                }
            }
        }
        worst_child_score
    }
}

impl<G: Game> GameNode<G> {
    /// The node is ready to have its children explored: it is a faithful
    /// record of `state`, where `now_playing` is to move and the search goes
    /// on, and its children are there and hold their positions.
    pub open spec fn expanded_at(
        self,
        state: G,
        now_playing: G::Player,
        cfg: SearchConfig<G>,
    ) -> bool {
        &&& self.represents(state)
        &&& self.game_state matches GameState::PlayersTurn(player, _) && player == now_playing
        &&& self.children@.len() > 0
        &&& self.children_hold(state, now_playing)
        &&& expands(state, cfg, self.depth as int)
        &&& self.depth >= cfg.real_plays
        &&& cfg.limit() <= u32::MAX
    }

    /// The node is `before` but for its children, which stand for the same
    /// moves in the same places.
    pub open spec fn same_but_children(self, before: Self) -> bool {
        &&& self.depth == before.depth
        &&& self.weight == before.weight
        &&& self.game == before.game
        &&& self.game_state == before.game_state
        &&& self.children@.len() == before.children@.len()
        &&& forall|j: int|
            0 <= j < self.children@.len() ==> (#[trigger] self.children@[j]).0
                == before.children@[j].0
    }

    /// All children of the node were explored, and `best` is the best of
    /// their values: the value of `state`, the position of the node, which
    /// the node is still a faithful record of.
    pub open spec fn children_explored(
        self,
        state: G,
        now_playing: G::Player,
        cfg: SearchConfig<G>,
        best: G::Score,
    ) -> bool {
        &&& self.represents(state)
        &&& best.as_int() == position_value(state, now_playing, cfg, self.depth as int)
        &&& self.children_settled(state, now_playing, cfg, best.as_int())
        &&& forall|j: int|
            0 <= j < self.children@.len() ==> #[trigger] self.child_explored(
                j,
                state,
                now_playing,
                cfg,
            )
    }

    /// A node that stands for the same moves as one that was a faithful
    /// record of `state`, with children that are faithful records of the
    /// positions after these moves, is a faithful record of `state` too.
    proof fn lemma_represents_with_children(
        self,
        before: Self,
        state: G,
        now_playing: G::Player,
        cfg: SearchConfig<G>,
    )
        requires
            before.expanded_at(state, now_playing, cfg),
            self.same_but_children(before),
            forall|j: int|
                0 <= j < self.children@.len() ==> #[trigger] self.child_explored(
                    j,
                    state,
                    now_playing,
                    cfg,
                ),
        ensures
            self.represents(state),
    {
        assert forall|m: G::InputCoordinate| #[trigger]
            state.legal_moves().contains(m) implies has_move(self.children@, m) by {
            let k = choose|k: int|
                0 <= k < before.children@.len() && (#[trigger] before.children@[k]).0 == m;
            assert(self.children@[k].0 == m);
        }
        assert forall|i: int| 0 <= i < self.children@.len() implies {
            &&& state.legal_moves().contains((#[trigger] self.children@[i]).0)
            &&& self.children@[i].1.depth == self.depth + 1
            &&& self.children@[i].1.game_state.last_move() == Some(self.children@[i].0)
            &&& (self.children@[i].1.game_state matches GameState::PlayersTurn(next, _) ==> next
                == self.game_state->PlayersTurn_0.other_spec())
            &&& self.children@[i].1.represents(
                state.after_play(self.game_state->PlayersTurn_0, self.children@[i].0),
            )
        } by {
            assert(self.child_explored(i, state, now_playing, cfg));
        }
        assert(self.plays() =~= before.plays());
    }

    /// The best of the first `i` children, all of them, is the value of the
    /// position.
    proof fn lemma_best_of_all(
        self,
        state: G,
        now_playing: G::Player,
        cfg: SearchConfig<G>,
        best: int,
    )
        requires
            self.represents(state),
            self.game_state matches GameState::PlayersTurn(player, _) && player == now_playing,
            self.children@.len() > 0,
            expands(state, cfg, self.depth as int),
            self.best_of_first(self.children@.len() as int, state, now_playing, cfg, best),
        ensures
            best == position_value(state, now_playing, cfg, self.depth as int),
            self.children_settled(state, now_playing, cfg, best),
    {
        lemma_best_reply_is_value(state, now_playing, cfg, self.depth as int, best);
    }

    /// Explores the children one after the other, each against the best of
    /// the scores of those before it, up to the child that shows that the
    /// parent will not choose this node. Returns the best of the scores, and
    /// whether the rest of the children was left for that reason.
    fn explore_children_in_turn(
        &mut self,
        cfg: &SearchConfig<G>,
        now_playing: G::Player,
        parent_maximize: bool,
        worst_sibling_score: &SiblingBound<G::Score>,
        Ghost(state): Ghost<G>,
    ) -> (result: (G::Score, bool))
        requires
            old(self).expanded_at(state, now_playing, *cfg),
        ensures
            final(self).same_but_children(*old(self)),
            !result.1 ==> final(self).children_explored(state, now_playing, *cfg, result.0),
            !result.1 && old(self).children_new(now_playing) ==> forall|j: int|
                0 <= j < final(self).children@.len() ==> #[trigger] final(self).child_afresh(
                    j,
                    state,
                    now_playing,
                    *cfg,
                ),
            !result.1 ==> forall|j: int|
                0 <= j < final(self).children@.len() ==> #[trigger] final(self).child_cut_in_turn(
                    j,
                    state,
                    now_playing,
                    *cfg,
                ),
            result.1 ==> prunable(now_playing == cfg.bot_player, parent_maximize) && !beats(
                now_playing == cfg.bot_player,
                result.0.as_int(),
                position_value(state, now_playing, *cfg, old(self).depth as int),
            ),
            worst_sibling_score.known() matches Some(known) ==> {
                &&& result.1 <==> prunable(now_playing == cfg.bot_player, parent_maximize)
                    && beats(
                    now_playing == cfg.bot_player,
                    position_value(state, now_playing, *cfg, old(self).depth as int),
                    known.as_int(),
                )
                &&& result.1 ==> beats(
                    now_playing == cfg.bot_player,
                    result.0.as_int(),
                    known.as_int(),
                )
            },
        decreases cfg.limit() - old(self).depth, 0int,
    {
        let ghost depth = old(self).depth as int;
        let ghost v = position_value(state, now_playing, *cfg, depth);
        proof {
            G::Player::lemma_player_eq(now_playing, cfg.bot_player);
            lemma_value_is_best_reply(state, now_playing, *cfg, depth);
        }
        let maximize = now_playing == cfg.bot_player;
        let next_player = now_playing.other();
        let mut worst_child_score = if maximize {
            G::Score::MIN()
        } else {
            G::Score::MAX()
        };
        let n = self.children.len();
        let mut auto_destroy = false;
        let mut i: usize = 0;
        proof {
            match worst_sibling_score.known() {
                Some(known) => {
                    G::Score::lemma_order(known, worst_child_score);
                },
                None => {},
            }
        }
        while i < n && !auto_destroy
            invariant
                n == self.children@.len(),
                i <= n,
                self.same_but_children(*old(self)),
                old(self).expanded_at(state, now_playing, *cfg),
                depth == old(self).depth,
                next_player == now_playing.other_spec(),
                maximize == (now_playing == cfg.bot_player),
                v == position_value(state, now_playing, *cfg, depth),
                is_best_reply_value(state, now_playing, *cfg, depth, v),
                forall|j: int| i <= j < n ==> #[trigger] self.children@[j] == old(self).children@[j],
                forall|j: int|
                    0 <= j < i ==> #[trigger] self.child_explored(j, state, now_playing, *cfg),
                old(self).children_new(now_playing) ==> forall|j: int|
                    0 <= j < i ==> #[trigger] self.child_afresh(j, state, now_playing, *cfg),
                self.plays() == old(self).plays(),
                worst_child_score.as_int() == best_of_replies(
                    state,
                    now_playing,
                    *cfg,
                    depth,
                    self.plays(),
                    i as int,
                ),
                forall|j: int|
                    0 <= j < i ==> #[trigger] self.child_cut_in_turn(j, state, now_playing, *cfg),
                self.best_of_first(
                    i as int,
                    state,
                    now_playing,
                    *cfg,
                    worst_child_score.as_int(),
                ),
                auto_destroy ==> i > 0 && prunable(maximize, parent_maximize),
                worst_sibling_score.known() matches Some(known) ==> (auto_destroy <==> prunable(
                    maximize,
                    parent_maximize,
                ) && beats(maximize, worst_child_score.as_int(), known.as_int())),
            decreases n - i,
        {
            let ghost before = *self;
            let ghost running = worst_child_score;
            let child = &mut self.children[i].1;
            let child_score = child.explore_children_recur(
                cfg,
                next_player,
                maximize,
                &SiblingBound::Known(worst_child_score),
            );
            proof {
                G::Score::lemma_order(child_score, worst_child_score);
            }
            if is_better(maximize, child_score, worst_child_score) {
                worst_child_score = child_score;
            }
            // the parent will not choose this node: leave the rest unexplored
            let against = worst_sibling_score.latest();
            if parent_maximize != maximize && is_better(maximize, worst_child_score, against) {
                auto_destroy = true;
            }
            i += 1;
            proof {
                assert forall|j: int| 0 <= j < i implies #[trigger] self.child_explored(
                    j,
                    state,
                    now_playing,
                    *cfg,
                ) by {
                    if j < i - 1 {
                        assert(before.child_explored(j, state, now_playing, *cfg));
                    }
                }
                if old(self).children_new(now_playing) {
                    assert forall|j: int| 0 <= j < i implies #[trigger] self.child_afresh(
                        j,
                        state,
                        now_playing,
                        *cfg,
                    ) by {
                        if j < i - 1 {
                            assert(before.child_afresh(j, state, now_playing, *cfg));
                        }
                    }
                }
                assert(self.plays() =~= before.plays());
                assert forall|j: int| 0 <= j < i implies #[trigger] self.child_cut_in_turn(
                    j,
                    state,
                    now_playing,
                    *cfg,
                ) by {
                    if j < i - 1 {
                        assert(before.child_cut_in_turn(j, state, now_playing, *cfg));
                    }
                }
                if worst_child_score != child_score && i > 1 {
                    let k = choose|k: int|
                        0 <= k < i - 1 && reply_value(
                            state,
                            now_playing,
                            *cfg,
                            depth,
                            (#[trigger] before.children@[k]).0,
                        ) == running.as_int();
                    assert(self.children@[k].0 == before.children@[k].0);
                }
            }
        }
        proof {
            if !auto_destroy {
                self.lemma_represents_with_children(*old(self), state, now_playing, *cfg);
            }
        }
        (worst_child_score, auto_destroy)
    }
}

impl<G: Game> GameNode<G> {
    /// The node was cut short by the search: the search went on below it,
    /// and it has no children.
    pub open spec fn cut_short(self, state: G, cfg: SearchConfig<G>) -> bool {
        expands(state, cfg, self.depth as int) && self.children@.len() == 0
    }

    /// Explores the node as one of the children that its parent has explored
    /// in parallel: against what `cell` holds whenever it is looked at, and
    /// notes its score there when it is done.
    fn explore_sharing(
        &mut self,
        cfg: &SearchConfig<G>,
        now_playing: G::Player,
        parent_maximize: bool,
        cell: &Mutex<G::Score>,
    )
        requires
            old(self).searchable(now_playing, *cfg),
        ensures
            final(self).explored_from(*old(self), now_playing, *cfg, parent_maximize, None),
    {
        let score = self.explore_children_recur(
            cfg,
            now_playing,
            parent_maximize,
            &SiblingBound::Shared(cell),
        );
        offer(cell, parent_maximize, score);
    }

    /// Whether the node looks as one that the search has cut short: above
    /// the depth `limit`, with play going on, and without children.
    fn looks_cut_short(&self, limit: u32) -> (cut: bool)
        ensures
            cut == (self.children@.len() == 0 && self.depth < limit
                && self.game_state is PlayersTurn),
    {
        self.children.len() == 0 && self.depth < limit && match self.game_state {
            GameState::PlayersTurn(_, _) => true,
            _ => false,
        }
    }

    /// What the parallel search has left of child `j` of the node `before`:
    /// the same move, and what `explored_from` says of a node that was told
    /// no bound.
    pub open spec fn child_explored_sharing(
        self,
        before: Self,
        j: int,
        now_playing: G::Player,
        cfg: SearchConfig<G>,
    ) -> bool {
        &&& self.children@[j].0 == before.children@[j].0
        &&& self.children@[j].1.explored_from(
            before.children@[j].1,
            now_playing.other_spec(),
            cfg,
            now_playing == cfg.bot_player,
            None,
        )
    }

    /// What follows of `child_explored_sharing` for a child: it is explored
    /// as `child_explored` says; it looks cut short exactly if it was; if it
    /// was not, its score is the value of its position, and if it was, its
    /// score is not worse for the parent than that value.
    proof fn lemma_child_explored_sharing(
        self,
        before: Self,
        j: int,
        state: G,
        now_playing: G::Player,
        cfg: SearchConfig<G>,
    )
        requires
            before.expanded_at(state, now_playing, cfg),
            self.depth == before.depth,
            0 <= j < before.children@.len(),
            self.children@.len() == before.children@.len(),
            self.child_explored_sharing(before, j, now_playing, cfg),
        ensures
            self.child_explored(j, state, now_playing, cfg),
            before.children_new(now_playing) ==> self.child_afresh(j, state, now_playing, cfg),
            self.children@[j].1.cut_short(
                state.after_play(now_playing, self.children@[j].0),
                cfg,
            ) <==> (self.children@[j].1.children@.len() == 0 && self.children@[j].1.depth
                < cfg.limit() && self.children@[j].1.game_state is PlayersTurn),
            !self.children@[j].1.cut_short(
                state.after_play(now_playing, self.children@[j].0),
                cfg,
            ) ==> self.children@[j].1.weight->0.as_int() == reply_value(
                state,
                now_playing,
                cfg,
                self.depth as int,
                self.children@[j].0,
            ),
            self.children@[j].1.cut_short(
                state.after_play(now_playing, self.children@[j].0),
                cfg,
            ) ==> !beats(
                now_playing == cfg.bot_player,
                reply_value(state, now_playing, cfg, self.depth as int, self.children@[j].0),
                self.children@[j].1.weight->0.as_int(),
            ),
    {
    }

    /// Explores the children in parallel, each against the best score that
    /// the others have noted when it looks, and takes the best of their
    /// scores. Nothing is taken on trust from what the children read in the
    /// cell that they share: a child that was cut short counts only if its
    /// score is worse than the best of the scores that are exact, and else is
    /// explored again, against that best.
    fn explore_children_in_parallel(
        &mut self,
        cfg: &SearchConfig<G>,
        now_playing: G::Player,
        Ghost(state): Ghost<G>,
    ) -> (best: G::Score)
        requires
            old(self).expanded_at(state, now_playing, *cfg),
            old(self).game == Some(state),
        ensures
            final(self).same_but_children(*old(self)),
            final(self).children_explored(state, now_playing, *cfg, best),
            old(self).children_new(now_playing) ==> forall|j: int|
                0 <= j < final(self).children@.len() ==> #[trigger] final(self).child_afresh(
                    j,
                    state,
                    now_playing,
                    *cfg,
                ),
        decreases cfg.limit() - old(self).depth, 0int,
    {
        let ghost depth = old(self).depth as int;
        proof {
            G::Player::lemma_player_eq(now_playing, cfg.bot_player);
        }
        let maximize = now_playing == cfg.bot_player;
        let next_player = now_playing.other();
        let limit = cfg.max_depth + cfg.real_plays;
        let seed = if maximize {
            G::Score::MIN()
        } else {
            G::Score::MAX()
        };
        let n = self.children.len();
        let cell = SiblingBound::share(seed);
        explore_each_in_parallel(&mut self.children, cfg, next_player, maximize, &cell);
        let ghost explored = *self;
        // the best of the scores of the children that were not cut short
        let mut best = seed;
        let mut i: usize = 0;
        while i < n
            invariant
                n == self.children@.len(),
                i <= n,
                *self == explored,
                explored.same_but_children(*old(self)),
                old(self).expanded_at(state, now_playing, *cfg),
                depth == old(self).depth,
                limit == cfg.limit(),
                maximize == (now_playing == cfg.bot_player),
                forall|j: int|
                    0 <= j < n ==> #[trigger] explored.child_explored_sharing(
                        *old(self),
                        j,
                        now_playing,
                        *cfg,
                    ),
                explored.sure_best_of_first(i as int, state, now_playing, *cfg, best.as_int()),
            decreases n - i,
        {
            proof {
                explored.lemma_child_explored_sharing(
                    *old(self),
                    i as int,
                    state,
                    now_playing,
                    *cfg,
                );
            }
            if !self.children[i].1.looks_cut_short(limit) {
                let score = match self.children[i].1.weight {
                    Some(score) => score,
                    None => unreached(),
                };
                if is_better(maximize, score, best) {
                    best = score;
                }
            }
            i += 1;
        }
        proof {
            assert forall|j: int| 0 <= j < n implies #[trigger] self.child_explored(
                j,
                state,
                now_playing,
                *cfg,
            ) && (old(self).children_new(now_playing) ==> self.child_afresh(
                j,
                state,
                now_playing,
                *cfg,
            )) by {}
        }
        // the children that were cut short: each is worse than the best of
        // the others, or it is explored again against that
        let mut i: usize = 0;
        while i < n
            invariant
                n == self.children@.len(),
                n > 0,
                i <= n,
                self.same_but_children(*old(self)),
                explored.same_but_children(*old(self)),
                old(self).expanded_at(state, now_playing, *cfg),
                old(self).game == Some(state),
                depth == old(self).depth,
                limit == cfg.limit(),
                next_player == now_playing.other_spec(),
                maximize == (now_playing == cfg.bot_player),
                forall|j: int| i <= j < n ==> #[trigger] self.children@[j] == explored.children@[j],
                forall|j: int|
                    0 <= j < n ==> #[trigger] explored.child_explored_sharing(
                        *old(self),
                        j,
                        now_playing,
                        *cfg,
                    ),
                forall|j: int|
                    0 <= j < n ==> #[trigger] self.child_explored(j, state, now_playing, *cfg),
                old(self).children_new(now_playing) ==> forall|j: int|
                    0 <= j < n ==> #[trigger] self.child_afresh(j, state, now_playing, *cfg),
                explored.sure_best_of_first(n as int, state, now_playing, *cfg, best.as_int())
                    || exists|j: int|
                    0 <= j < i && reply_value(
                        state,
                        now_playing,
                        *cfg,
                        depth,
                        (#[trigger] self.children@[j]).0,
                    ) == best.as_int(),
                forall|j: int|
                    0 <= j < n && !(#[trigger] explored.children@[j]).1.cut_short(
                        state.after_play(now_playing, explored.children@[j].0),
                        *cfg,
                    ) ==> !beats(
                        maximize,
                        reply_value(state, now_playing, *cfg, depth, explored.children@[j].0),
                        best.as_int(),
                    ),
                forall|j: int|
                    0 <= j < i ==> {
                        &&& weight_settled(
                            maximize,
                            self.children@[j].1.cut_short(
                                state.after_play(now_playing, self.children@[j].0),
                                *cfg,
                            ),
                            (#[trigger] self.children@[j]).1.weight->0.as_int(),
                            reply_value(state, now_playing, *cfg, depth, self.children@[j].0),
                            best.as_int(),
                        )
                        &&& !beats(
                            maximize,
                            reply_value(state, now_playing, *cfg, depth, self.children@[j].0),
                            best.as_int(),
                        )
                    },
            decreases n - i,
        {
            let ghost before = *self;
            let ghost running = best;
            proof {
                explored.lemma_child_explored_sharing(
                    *old(self),
                    i as int,
                    state,
                    now_playing,
                    *cfg,
                );
            }
            if self.children[i].1.looks_cut_short(limit) {
                let score = match self.children[i].1.weight {
                    Some(score) => score,
                    None => unreached(),
                };
                if !is_better(maximize, best, score) {
                    // what cut it short was a better score than could be
                    // had: explore it again, against what is sure
                    let mut replay = match &self.game {
                        Some(game) => game.clone(),
                        None => unreached(),
                    };
                    proof {
                        G::lemma_clone(&state, replay);
                    }
                    let _ = replay.play(now_playing, self.children[i].0);
                    let child = &mut self.children[i].1;
                    child.game = Some(replay);
                    let again = child.explore_children_recur(
                        cfg,
                        next_player,
                        maximize,
                        &SiblingBound::Known(best),
                    );
                    if is_better(maximize, again, best) {
                        best = again;
                    }
                }
            }
            i += 1;
            proof {
                assert forall|j: int| 0 <= j < n implies #[trigger] self.child_explored(
                    j,
                    state,
                    now_playing,
                    *cfg,
                ) by {
                    if j != i - 1 {
                        assert(before.child_explored(j, state, now_playing, *cfg));
                    }
                }
                if old(self).children_new(now_playing) {
                    assert forall|j: int| 0 <= j < n implies #[trigger] self.child_afresh(
                        j,
                        state,
                        now_playing,
                        *cfg,
                    ) by {
                        assert(before.child_afresh(j, state, now_playing, *cfg));
                    }
                }
                if best == running && exists|j: int|
                    0 <= j < i - 1 && reply_value(
                        state,
                        now_playing,
                        *cfg,
                        depth,
                        (#[trigger] before.children@[j]).0,
                    ) == running.as_int() {
                    let k = choose|j: int|
                        0 <= j < i - 1 && reply_value(
                            state,
                            now_playing,
                            *cfg,
                            depth,
                            (#[trigger] before.children@[j]).0,
                        ) == running.as_int();
                    assert(self.children@[k].0 == before.children@[k].0);
                }
            }
        }
        proof {
            self.lemma_represents_with_children(*old(self), state, now_playing, *cfg);
            self.lemma_sure_best_of_all(explored, state, now_playing, *cfg, best);
            self.lemma_best_of_all(state, now_playing, *cfg, best.as_int());
        }
        best
    }

    /// `best` is the worst score for the side that chooses, or the value of
    /// one of the first `i` children that was not cut short; and none of
    /// these has a value that is better.
    pub open spec fn sure_best_of_first(
        self,
        i: int,
        state: G,
        now_playing: G::Player,
        cfg: SearchConfig<G>,
        best: int,
    ) -> bool {
        let maximize = now_playing == cfg.bot_player;
        &&& forall|j: int|
            0 <= j < i && !(#[trigger] self.children@[j]).1.cut_short(
                state.after_play(now_playing, self.children@[j].0),
                cfg,
            ) ==> !beats(
                maximize,
                reply_value(state, now_playing, cfg, self.depth as int, self.children@[j].0),
                best,
            )
        &&& best == worst_for::<G>(maximize) || exists|j: int|
            0 <= j < i && !(#[trigger] self.children@[j]).1.cut_short(
                state.after_play(now_playing, self.children@[j].0),
                cfg,
            ) && reply_value(state, now_playing, cfg, self.depth as int, self.children@[j].0)
                == best
    }

    /// Once every child is settled against `best`, a score that is the worst
    /// for the side that chooses or the value of a child, `best` is the best
    /// of the values of the children.
    proof fn lemma_sure_best_of_all(
        self,
        explored: Self,
        state: G,
        now_playing: G::Player,
        cfg: SearchConfig<G>,
        best: G::Score,
    )
        requires
            self.children@.len() > 0,
            self.children@.len() == explored.children@.len(),
            self.depth == explored.depth,
            forall|j: int|
                0 <= j < self.children@.len() ==> (#[trigger] self.children@[j]).0
                    == explored.children@[j].0,
            forall|j: int|
                0 <= j < self.children@.len() ==> #[trigger] self.child_explored(
                    j,
                    state,
                    now_playing,
                    cfg,
                ),
            explored.sure_best_of_first(
                self.children@.len() as int,
                state,
                now_playing,
                cfg,
                best.as_int(),
            ) || exists|j: int|
                0 <= j < self.children@.len() && reply_value(
                    state,
                    now_playing,
                    cfg,
                    self.depth as int,
                    (#[trigger] self.children@[j]).0,
                ) == best.as_int(),
            forall|j: int|
                0 <= j < self.children@.len() ==> {
                    &&& weight_settled(
                        now_playing == cfg.bot_player,
                        self.children@[j].1.cut_short(
                            state.after_play(now_playing, self.children@[j].0),
                            cfg,
                        ),
                        (#[trigger] self.children@[j]).1.weight->0.as_int(),
                        reply_value(
                            state,
                            now_playing,
                            cfg,
                            self.depth as int,
                            self.children@[j].0,
                        ),
                        best.as_int(),
                    )
                    &&& !beats(
                        now_playing == cfg.bot_player,
                        reply_value(
                            state,
                            now_playing,
                            cfg,
                            self.depth as int,
                            self.children@[j].0,
                        ),
                        best.as_int(),
                    )
                },
        ensures
            self.best_of_first(
                self.children@.len() as int,
                state,
                now_playing,
                cfg,
                best.as_int(),
            ),
    {
        let depth = self.depth as int;
        let n = self.children@.len() as int;
        assert forall|j: int| 0 <= j < n implies (#[trigger] self.children@[j]).1.weight is Some by {
            assert(self.child_explored(j, state, now_playing, cfg));
        }
        if !exists|j: int|
            0 <= j < n && reply_value(state, now_playing, cfg, depth, (#[trigger] self.children@[j]).0)
                == best.as_int() {
            if exists|j: int|
                0 <= j < n && !(#[trigger] explored.children@[j]).1.cut_short(
                    state.after_play(now_playing, explored.children@[j].0),
                    cfg,
                ) && reply_value(state, now_playing, cfg, depth, explored.children@[j].0)
                    == best.as_int() {
                let k = choose|j: int|
                    0 <= j < n && !(#[trigger] explored.children@[j]).1.cut_short(
                        state.after_play(now_playing, explored.children@[j].0),
                        cfg,
                    ) && reply_value(state, now_playing, cfg, depth, explored.children@[j].0)
                        == best.as_int();
                assert(self.children@[k].0 == explored.children@[k].0);
            }
            // the best is the worst score: so is the value of the first child
            G::Score::lemma_order(self.children@[0].1.weight->0, best);
        }
    }
}

impl<G: Game> GameNode<G> {
    /// What a search from the root `before` leaves, for the player who is to
    /// move there: the root is scored with the value of its position and is
    /// still a faithful record of it, at its depth, in the phase that
    /// `phase_after` names and with the position that `game_after` names;
    /// below it the scores are exact wherever the search was not cut short.
    /// A root that had no children before has below it the work of this one
    /// search, as `explored_afresh` says; one that had children has them in
    /// their places. Where the children were explored one after the other,
    /// each was cut short exactly as `child_cut_in_turn` says. Where the
    /// search went on below the root, the root has its children, in an order
    /// in which the game may list the moves of its position, and their scores
    /// are settled against the value of the root; else its children are as
    /// they were.
    pub open spec fn searched_from(self, before: Self, cfg: SearchConfig<G>) -> bool {
        let state = before.position();
        let now_playing = before.game_state->PlayersTurn_0;
        let depth = before.depth as int;
        let v = position_value(state, now_playing, cfg, depth);
        &&& self.weight is Some
        &&& self.weight->0.as_int() == v
        &&& self.depth == before.depth
        &&& self.game_state == Self::phase_after(before, cfg)
        &&& self.represents(state)
        &&& self.scored_exactly(state, now_playing, cfg)
        &&& self.game == Self::game_after(before, cfg)
        &&& expands(state, cfg, depth) ==> {
            &&& self.children@.len() > 0
            &&& self.game_state == before.game_state
            &&& self.children_settled(state, now_playing, cfg, v)
        }
        &&& !expands(state, cfg, depth) ==> self.children == before.children
        &&& before.children@.len() == 0 ==> self.explored_afresh(state, now_playing, cfg)
        &&& expands(state, cfg, depth) ==> state.may_offer(self.plays())
        &&& expands(state, cfg, depth) && before.children@.len() > 0 ==> self.plays()
            == before.plays()
        &&& expands(state, cfg, depth) && explores_in_turn(depth, cfg) ==> forall|j: int|
            0 <= j < self.children@.len() ==> #[trigger] self.child_cut_in_turn(
                j,
                state,
                now_playing,
                cfg,
            )
    }

    /// Explores the tree below the node for `bot_player`, `max_depth` plies
    /// deep, and scores every node it visits. `real_plays` is the depth of
    /// the node. A position at the depth limit counts as won, lost or
    /// neutral.
    ///
    /// A node whose game is over is scored and not expanded. The end is
    /// written into its phase only where the node records the move that led
    /// to it: a root made by `new_root` records none and stays in the phase
    /// `PlayersTurn`, as `phase_after` says.
    pub fn explore_children(&mut self, bot_player: G::Player, max_depth: u32, real_plays: u32)
        requires
            old(self).rooted(),
            old(self).game_state is PlayersTurn,
            old(self).depth >= real_plays,
            max_depth + real_plays <= u32::MAX,
        ensures
            final(self).searched_from(
                *old(self),
                (SearchConfig { bot_player, max_depth, real_plays, use_heuristic_score: false }),
            ),
    {
        self.explore_children_with(bot_player, max_depth, real_plays, false)
    }

    /// Explores as [`Self::explore_children`] does; with
    /// `use_heuristic_score`, a position at the depth limit counts as the
    /// game scores it for `bot_player`. Here too a node whose game is over
    /// and which records no last move stays in the phase `PlayersTurn`.
    pub fn explore_children_with(
        &mut self,
        bot_player: G::Player,
        max_depth: u32,
        real_plays: u32,
        use_heuristic_score: bool,
    )
        requires
            old(self).rooted(),
            old(self).game_state is PlayersTurn,
            old(self).depth >= real_plays,
            max_depth + real_plays <= u32::MAX,
        ensures
            final(self).searched_from(
                *old(self),
                (SearchConfig { bot_player, max_depth, real_plays, use_heuristic_score }),
            ),
    {
        let now_playing = match self.game_state {
            GameState::PlayersTurn(playing_player, _) => playing_player,
            _ => unreached(),
        };
        let cfg = SearchConfig { bot_player, max_depth, real_plays, use_heuristic_score };
        let maximize = now_playing == bot_player;
        // the bound of a parent that the root does not have: never reached
        let bound = if maximize {
            G::Score::MAX()
        } else {
            G::Score::MIN()
        };
        let weight = self.explore_children_recur(
            &cfg,
            now_playing,
            !maximize,
            &SiblingBound::Known(bound),
        );
        proof {
            G::Score::lemma_order(weight, bound);
        }
    }

    /// Child `i` is the one that `into_best_child` chooses: the first whose
    /// score is the score of the node.
    pub open spec fn is_best_place(self, i: int) -> bool {
        &&& 0 <= i < self.children@.len()
        &&& self.weight is Some
        &&& self.children@[i].1.weight == self.weight
        &&& forall|j: int|
            0 <= j < i ==> (#[trigger] self.children@[j]).1.weight is Some
                && self.children@[j].1.weight != self.weight
    }

    /// The node is scored, and so is one of its children with the same
    /// score, and each child before that one with another.
    pub open spec fn has_best_child(self) -> bool {
        exists|i: int| self.is_best_place(i)
    }

    /// The place of the child that `into_best_child` chooses.
    pub open spec fn best_place(self) -> int {
        choose|i: int| self.is_best_place(i)
    }

    /// The best place is the one place that meets the description.
    pub proof fn lemma_best_place(self, i: int)
        requires
            self.is_best_place(i),
        ensures
            self.has_best_child(),
            self.best_place() == i,
    {
    }

    /// Descends one ply: gives the first child whose score is the score of
    /// the node, holding the position after its move.
    pub fn into_best_child(self) -> (best: Self)
        requires
            self.rooted(),
            self.has_best_child(),
        ensures
            self.is_best_place(self.best_place()),
            self.game_state is PlayersTurn,
            self.position().legal_moves().contains(self.children@[self.best_place()].0),
            best.game == Some(
                self.position().after_play(
                    self.game_state->PlayersTurn_0,
                    self.children@[self.best_place()].0,
                ),
            ),
            best.depth == self.children@[self.best_place()].1.depth,
            best.weight == self.children@[self.best_place()].1.weight,
            best.children == self.children@[self.best_place()].1.children,
            best.game_state == self.children@[self.best_place()].1.game_state,
            best.game_state.last_move() == Some(self.children@[self.best_place()].0),
            best.rooted(),
    {
        let mut node = self;
        let target_weight = match node.weight {
            Some(weight) => weight,
            None => unreached(),
        };
        let ghost place = self.best_place();
        let n = node.children.len();
        let mut i: usize = 0;
        loop
            invariant
                node == self,
                place < n,
                self.rooted(),
                self.is_best_place(place),
                self.weight == Some(target_weight),
                i <= place,
                forall|j: int|
                    0 <= j < i ==> (#[trigger] self.children@[j]).1.weight != self.weight,
            decreases place - i,
        {
            let child_weight = match node.children[i].1.weight {
                Some(weight) => weight,
                None => unreached(),
            };
            proof {
                G::Score::lemma_order(child_weight, target_weight);
            }
            if child_weight == target_weight {
                match (node.game, node.game_state) {
                    (Some(game), GameState::PlayersTurn(player, _)) => {
                        let (_, mut best_child) = node.children.remove(i);
                        best_child.fill_play(game, player);
                        return best_child;
                    },
                    _ => {
                        return unreached();
                    },
                }
            }
            i += 1;
        }
    }
}

/// After a search that went on below the root, `into_best_child` has a child
/// to give, one ply below the root, and the move of that child is legal at
/// the root: some child has the score of the root, every child is scored, and
/// every child stands for a legal move.
pub proof fn lemma_search_finds_best_child<G: Game>(
    before: GameNode<G>,
    after: GameNode<G>,
    cfg: SearchConfig<G>,
)
    requires
        before.rooted(),
        before.game_state is PlayersTurn,
        after.searched_from(before, cfg),
        expands(before.position(), cfg, before.depth as int),
    ensures
        after.has_best_child(),
        before.position().legal_moves().contains(after.children@[after.best_place()].0),
        after.children@[after.best_place()].1.depth == before.depth + 1,
        before.depth == cfg.real_plays ==> after.rooted(),
{
    let state = before.position();
    let now_playing = before.game_state->PlayersTurn_0;
    let depth = before.depth as int;
    let v = position_value(state, now_playing, cfg, depth);
    lemma_value_is_best_reply(state, now_playing, cfg, depth);
    let m = choose|m: G::InputCoordinate| #[trigger]
        state.legal_moves().contains(m) && reply_value(state, now_playing, cfg, depth, m) == v;
    let k = choose|k: int| 0 <= k < after.children@.len() && (#[trigger] after.children@[k]).0 == m;
    G::Score::lemma_order(after.children@[k].1.weight->0, after.weight->0);
    lemma_first_scored_as(after, k);
}

/// Where child `k` has the score of the node and every child is scored, the
/// node has a best child.
proof fn lemma_first_scored_as<G: Game>(node: GameNode<G>, k: int)
    requires
        node.children_scored(),
        node.weight is Some,
        0 <= k < node.children@.len(),
        node.children@[k].1.weight == node.weight,
    ensures
        node.is_best_place(node.best_place()),
    decreases k,
{
    if exists|j: int| 0 <= j < k && (#[trigger] node.children@[j]).1.weight == node.weight {
        let j = choose|j: int| 0 <= j < k && (#[trigger] node.children@[j]).1.weight == node.weight;
        lemma_first_scored_as(node, j);
    } else {
        assert(node.is_best_place(k));
    }
}

/// Explores every node of `children`, each on a thread of rayon's pool, by
/// `for_each` on `par_iter_mut`, which hands each element of the vector to
/// the closure once. The threads share `cell`; each node is explored by
/// [`GameNode::explore_sharing`], so what is left of it is what that function
/// leaves of it, whichever thread took it and in whatever order; the moves
/// stay in their places.
#[verifier::external_body]
fn explore_each_in_parallel<G: Game>(
    children: &mut Vec<(G::InputCoordinate, GameNode<G>)>,
    cfg: &SearchConfig<G>,
    now_playing: G::Player,
    parent_maximize: bool,
    cell: &Mutex<G::Score>,
)
    requires
        forall|i: int|
            0 <= i < old(children)@.len() ==> (#[trigger] old(children)@[i]).1.searchable(
                now_playing,
                *cfg,
            ),
    ensures
        final(children)@.len() == old(children)@.len(),
        forall|i: int|
            0 <= i < old(children)@.len() ==> {
                &&& (#[trigger] final(children)@[i]).0 == old(children)@[i].0
                &&& final(children)@[i].1.explored_from(
                    old(children)@[i].1,
                    now_playing,
                    *cfg,
                    parent_maximize,
                    None,
                )
            },
{
    children.par_iter_mut().for_each(
        |(_, child)|
            {
                child.explore_sharing(cfg, now_playing, parent_maximize, cell);
            },
    );
}

} // verus!
