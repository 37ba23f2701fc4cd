//! What a position is worth: the minimax value that an exhaustive search
//! without pruning finds within the depth budget.

use crate::game::player::Player;
use crate::game::Game;
use crate::scalar::nudged_toward_zero;
use crate::scalar::quotient_toward_zero;
use crate::scalar::Scalar;
use vstd::prelude::*;

verus! {

/// The setting of one search.
pub struct SearchConfig<G: Game> {
    /// The player whose gain the scores measure.
    pub bot_player: G::Player,
    /// How many plies below the root the search looks.
    pub max_depth: u32,
    /// The depth of the root: the plies really played so far.
    pub real_plays: u32,
    /// At the depth limit, take the game's own score in place of win, loss
    /// or neutral.
    pub use_heuristic_score: bool,
}

impl<G: Game> SearchConfig<G> {
    /// The depth at which the search stops.
    pub open spec fn limit(self) -> int {
        self.max_depth + self.real_plays
    }
}

/// The score of a position that `winner` has won.
pub open spec fn win_value<G: Game>(winner: G::Player, bot_player: G::Player) -> int {
    if winner == bot_player {
        G::Score::max_int()
    } else {
        G::Score::min_int()
    }
}

/// The score of a draw: half a loss.
pub open spec fn draw_value<G: Game>() -> int {
    quotient_toward_zero(G::Score::min_int(), 2)
}

/// By how much a score found `relative_depth` plies below the root is moved
/// toward zero.
pub open spec fn nudge_amount(relative_depth: int) -> int {
    if relative_depth > i32::MAX {
        i32::MAX as int
    } else {
        relative_depth
    }
}

/// The score of a position at the depth limit.
pub open spec fn frontier_value<G: Game>(state: G, cfg: SearchConfig<G>, depth: int) -> int {
    let raw = if cfg.use_heuristic_score {
        state.score_spec(cfg.bot_player).as_int()
    } else {
        match state.winner_spec() {
            Some(winner) => win_value::<G>(winner, cfg.bot_player),
            None => 0,
        }
    };
    nudged_toward_zero(
        raw,
        nudge_amount(depth - cfg.real_plays),
        G::Score::min_int(),
        G::Score::max_int(),
    )
}

/// Nobody has won and nothing is left to play.
pub open spec fn is_draw<G: Game>(state: G) -> bool {
    state.winner_spec() is None && state.full_spec()
}

/// The search goes on below this position: it is above the depth limit and
/// the game is not over.
pub open spec fn expands<G: Game>(state: G, cfg: SearchConfig<G>, depth: int) -> bool {
    depth < cfg.limit() && state.winner_spec() is None && !is_draw(state)
}

/// `a` is strictly better than `b` for the side that chooses.
pub open spec fn beats(maximize: bool, a: int, b: int) -> bool {
    if maximize {
        a > b
    } else {
        a < b
    }
}

/// The worst score for the side that chooses: where its choice starts.
pub open spec fn worst_for<G: Game>(maximize: bool) -> int {
    if maximize {
        G::Score::min_int()
    } else {
        G::Score::max_int()
    }
}

/// `v` is in `values`, and no member of `values` is better for the side that
/// chooses.
pub open spec fn is_best_in(values: Set<int>, maximize: bool, v: int) -> bool {
    &&& values.contains(v)
    &&& forall|x: int| #[trigger] values.contains(x) ==> !beats(maximize, x, v)
}

/// The best member of `values` for the side that chooses.
pub open spec fn best_in(values: Set<int>, maximize: bool) -> int {
    choose|v: int| is_best_in(values, maximize, v)
}

/// The values of the positions one legal move away from `state`.
pub open spec fn reply_values<G: Game>(
    state: G,
    to_play: G::Player,
    cfg: SearchConfig<G>,
    depth: int,
) -> Set<int>
    decreases cfg.limit() - depth, 0int,
{
    Set::new(
        |x: int|
            depth < cfg.limit() && exists|m: G::InputCoordinate| #[trigger]
                state.legal_moves().contains(m) && position_value(
                    state.after_play(to_play, m),
                    to_play.other_spec(),
                    cfg,
                    depth + 1,
                ) == x,
    )
}

/// The minimax value of `state`, `depth` plies into the game with `to_play`
/// to move: at the depth limit the frontier score, on a finished game the
/// score of its end, and elsewhere the best of the values of the positions
/// one move away, for the bot the greatest and for its opponent the least.
pub open spec fn position_value<G: Game>(
    state: G,
    to_play: G::Player,
    cfg: SearchConfig<G>,
    depth: int,
) -> int
    decreases cfg.limit() - depth, 1int,
{
    if depth >= cfg.limit() {
        frontier_value(state, cfg, depth)
    } else if state.winner_spec() is Some {
        win_value::<G>(state.winner_spec()->0, cfg.bot_player)
    } else if is_draw(state) {
        draw_value::<G>()
    } else {
        best_in(reply_values(state, to_play, cfg, depth), to_play == cfg.bot_player)
    }
}

/// The value of the position that the move `m` leads to.
pub open spec fn reply_value<G: Game>(
    state: G,
    to_play: G::Player,
    cfg: SearchConfig<G>,
    depth: int,
    m: G::InputCoordinate,
) -> int {
    position_value(state.after_play(to_play, m), to_play.other_spec(), cfg, depth + 1)
}

/// `v` is the value of the reply to some legal move, and no legal move has a
/// reply of a better value.
pub open spec fn is_best_reply_value<G: Game>(
    state: G,
    to_play: G::Player,
    cfg: SearchConfig<G>,
    depth: int,
    v: int,
) -> bool {
    &&& exists|m: G::InputCoordinate| #[trigger]
        state.legal_moves().contains(m) && reply_value(state, to_play, cfg, depth, m) == v
    &&& forall|m: G::InputCoordinate| #[trigger]
        state.legal_moves().contains(m) ==> !beats(
            to_play == cfg.bot_player,
            reply_value(state, to_play, cfg, depth, m),
            v,
        )
}

/// Where the search goes on, a best reply value is the value of the position.
pub proof fn lemma_best_reply_is_value<G: Game>(
    state: G,
    to_play: G::Player,
    cfg: SearchConfig<G>,
    depth: int,
    v: int,
)
    requires
        expands(state, cfg, depth),
        is_best_reply_value(state, to_play, cfg, depth, v),
    ensures
        position_value(state, to_play, cfg, depth) == v,
{
    let values = reply_values(state, to_play, cfg, depth);
    let maximize = to_play == cfg.bot_player;
    assert(is_best_in(values, maximize, v));
}

/// Among finitely many moves, one leads to a position whose value none of
/// the others beats.
proof fn lemma_best_reply_exists<G: Game>(
    state: G,
    to_play: G::Player,
    cfg: SearchConfig<G>,
    depth: int,
    moves: Set<G::InputCoordinate>,
) -> (best: G::InputCoordinate)
    requires
        moves.finite(),
        !moves.is_empty(),
    ensures
        moves.contains(best),
        forall|m: G::InputCoordinate| #[trigger]
            moves.contains(m) ==> !beats(
                to_play == cfg.bot_player,
                reply_value(state, to_play, cfg, depth, m),
                reply_value(state, to_play, cfg, depth, best),
            ),
    decreases moves.len(),
{
    let first = moves.choose();
    let rest = moves.remove(first);
    if rest.is_empty() {
        assert forall|m: G::InputCoordinate| #[trigger] moves.contains(m) implies m == first by {}
        first
    } else {
        let best_of_rest = lemma_best_reply_exists(state, to_play, cfg, depth, rest);
        let best = if beats(
            to_play == cfg.bot_player,
            reply_value(state, to_play, cfg, depth, first),
            reply_value(state, to_play, cfg, depth, best_of_rest),
        ) {
            first
        } else {
            best_of_rest
        };
        assert forall|m: G::InputCoordinate| #[trigger] moves.contains(m) implies !beats(
            to_play == cfg.bot_player,
            reply_value(state, to_play, cfg, depth, m),
            reply_value(state, to_play, cfg, depth, best),
        ) by {}
        best
    }
}

/// Where the search goes on, the value of the position is a best reply
/// value: some legal move leads to a position of that value, and none to a
/// better one.
pub proof fn lemma_value_is_best_reply<G: Game>(
    state: G,
    to_play: G::Player,
    cfg: SearchConfig<G>,
    depth: int,
)
    requires
        expands(state, cfg, depth),
    ensures
        is_best_reply_value(
            state,
            to_play,
            cfg,
            depth,
            position_value(state, to_play, cfg, depth),
        ),
{
    state.lemma_legal_moves_finite();
    state.lemma_full_board();
    let best = lemma_best_reply_exists(state, to_play, cfg, depth, state.legal_moves());
    let v = reply_value(state, to_play, cfg, depth, best);
    lemma_best_reply_is_value(state, to_play, cfg, depth, v);
}

/// The value of a position is a score: it lies between the score of a
/// certain loss and the score of a certain win.
pub proof fn lemma_value_in_range<G: Game>(
    state: G,
    to_play: G::Player,
    cfg: SearchConfig<G>,
    depth: int,
)
    ensures
        G::Score::min_int() <= position_value(state, to_play, cfg, depth) <= G::Score::max_int(),
    decreases cfg.limit() - depth,
{
    G::Score::lemma_sentinels();
    if depth >= cfg.limit() {
    } else if expands(state, cfg, depth) {
        lemma_value_is_best_reply(state, to_play, cfg, depth);
        let m = choose|m: G::InputCoordinate| #[trigger]
            state.legal_moves().contains(m) && reply_value(state, to_play, cfg, depth, m)
                == position_value(state, to_play, cfg, depth);
        lemma_value_in_range(state.after_play(to_play, m), to_play.other_spec(), cfg, depth + 1);
    }
}

} // verus!
