//! What holds of every search, whatever the game.

use crate::game::connect4::column_order_spec;
use crate::game::connect4::ConnectFour;
use crate::game::player::Player;
use crate::game::power4::Power4;
use crate::game::state::GameState;
use crate::game::Game;
use crate::min_max::lemma_search_finds_best_child;
use crate::min_max::node::GameNode;
use crate::min_max::value::beats;
use crate::min_max::value::expands;
use crate::min_max::value::is_draw;
use crate::min_max::value::lemma_best_reply_is_value;
use crate::min_max::value::lemma_value_in_range;
use crate::min_max::value::lemma_value_is_best_reply;
use crate::min_max::value::nudge_amount;
use crate::min_max::value::position_value;
use crate::min_max::value::reply_value;
use crate::min_max::value::SearchConfig;
use crate::scalar::nudged_toward_zero;
use crate::scalar::Scalar;
use vstd::prelude::*;

verus! {

/// Child `i` is the first whose position has the value of the parent's
/// position: the child that a search without pruning chooses.
pub open spec fn is_unpruned_choice<G: Game>(
    children: Seq<(G::InputCoordinate, GameNode<G>)>,
    state: G,
    now_playing: G::Player,
    cfg: SearchConfig<G>,
    depth: int,
    i: int,
) -> bool {
    let v = position_value(state, now_playing, cfg, depth);
    &&& 0 <= i < children.len()
    &&& reply_value(state, now_playing, cfg, depth, children[i].0) == v
    &&& forall|j: int|
        0 <= j < i ==> reply_value(state, now_playing, cfg, depth, (#[trigger] children[j]).0) != v
}

/// Pruning does not change the move that is chosen. After a search, a child
/// of the root has the score of the root exactly where the position of the
/// child has the value of the position of the root, as an exhaustive search
/// finds them; so the child that `into_best_child` gives is the first child
/// whose position has that value.
pub proof fn lemma_pruning_keeps_best_move<G: Game>(
    before: GameNode<G>,
    after: GameNode<G>,
    cfg: SearchConfig<G>,
)
    requires
        before.rooted(),
        before.game_state is PlayersTurn,
        after.searched_from(before, cfg),
        expands(before.position(), cfg, before.depth as int),
    ensures
        forall|i: int|
            0 <= i < after.children@.len() ==> ((#[trigger] after.children@[i]).1.weight
                == after.weight <==> reply_value(
                before.position(),
                before.game_state->PlayersTurn_0,
                cfg,
                before.depth as int,
                after.children@[i].0,
            ) == position_value(
                before.position(),
                before.game_state->PlayersTurn_0,
                cfg,
                before.depth as int,
            )),
        after.has_best_child(),
        is_unpruned_choice(
            after.children@,
            before.position(),
            before.game_state->PlayersTurn_0,
            cfg,
            before.depth as int,
            after.best_place(),
        ),
{
    let state = before.position();
    let now_playing = before.game_state->PlayersTurn_0;
    let depth = before.depth as int;
    let v = position_value(state, now_playing, cfg, depth);
    assert forall|i: int| 0 <= i < after.children@.len() implies ((
    #[trigger] after.children@[i]).1.weight == after.weight <==> reply_value(
        state,
        now_playing,
        cfg,
        depth,
        after.children@[i].0,
    ) == v) by {
        G::Score::lemma_order(after.children@[i].1.weight->0, after.weight->0);
    }
    lemma_search_finds_best_child(before, after, cfg);
}

/// A child that the search has cut short does not have the score of the
/// root: its score is worse for the player who moves at the root. So a child
/// with the score of the root was explored to the end, and its score is the
/// value of its position.
pub proof fn lemma_cut_short_child_is_not_chosen<G: Game>(
    before: GameNode<G>,
    after: GameNode<G>,
    cfg: SearchConfig<G>,
)
    requires
        before.rooted(),
        before.game_state is PlayersTurn,
        after.searched_from(before, cfg),
        expands(before.position(), cfg, before.depth as int),
    ensures
        forall|i: int|
            0 <= i < after.children@.len() && (#[trigger] after.children@[i]).1.cut_short(
                before.position().after_play(
                    before.game_state->PlayersTurn_0,
                    after.children@[i].0,
                ),
                cfg,
            ) ==> after.children@[i].1.weight != after.weight && beats(
                before.game_state->PlayersTurn_0 == cfg.bot_player,
                after.weight->0.as_int(),
                after.children@[i].1.weight->0.as_int(),
            ),
        forall|i: int|
            0 <= i < after.children@.len() && (#[trigger] after.children@[i]).1.weight
                == after.weight ==> after.children@[i].1.weight->0.as_int() == reply_value(
                before.position(),
                before.game_state->PlayersTurn_0,
                cfg,
                before.depth as int,
                after.children@[i].0,
            ),
{
}

/// No node at or below `node` lies deeper than `limit`.
pub open spec fn no_deeper_than<G: Game>(node: GameNode<G>, limit: int) -> bool
    decreases node,
{
    &&& node.depth <= limit
    &&& forall|i: int|
        0 <= i < node.children@.len() ==> no_deeper_than((#[trigger] node.children@[i]).1, limit)
}

/// A search does not go below its depth limit: in a tree that is the work of
/// one search from a node at or above the limit, no node lies deeper than
/// the limit.
pub proof fn lemma_search_stays_within_limit<G: Game>(
    node: GameNode<G>,
    state: G,
    now_playing: G::Player,
    cfg: SearchConfig<G>,
)
    requires
        node.represents(state),
        node.game_state matches GameState::PlayersTurn(player, _) ==> player == now_playing,
        node.explored_afresh(state, now_playing, cfg),
        node.depth <= cfg.limit(),
    ensures
        no_deeper_than(node, cfg.limit()),
    decreases node,
{
    assert forall|i: int| 0 <= i < node.children@.len() implies no_deeper_than(
        (#[trigger] node.children@[i]).1,
        cfg.limit(),
    ) by {
        lemma_search_stays_within_limit(
            node.children@[i].1,
            state.after_play(now_playing, node.children@[i].0),
            Player::other_spec(now_playing),
            cfg,
        );
    }
}

/// The move `winning` wins the game at once for the player who makes it.
pub open spec fn wins_at_once<G: Game>(
    state: G,
    player: G::Player,
    winning: G::InputCoordinate,
) -> bool {
    state.legal_moves().contains(winning) && state.after_play(player, winning).winner_spec()
        == Some(player)
}

/// The score of a win that is found `plies` plies below the root of a search
/// that ends there.
pub open spec fn nudged_win<G: Game>(plies: int) -> int {
    nudged_toward_zero(
        G::Score::max_int(),
        nudge_amount(plies),
        G::Score::min_int(),
        G::Score::max_int(),
    )
}

/// A win at hand is seen. Where the bot is to move and has a move that wins
/// at once, the search scores the root as a win: with the score of a win
/// where it looks two plies or more below the root, and with that score
/// moved toward zero where it looks one ply and counts by win and loss.
pub proof fn lemma_immediate_win_is_seen<G: Game>(
    before: GameNode<G>,
    after: GameNode<G>,
    cfg: SearchConfig<G>,
    winning: G::InputCoordinate,
)
    requires
        before.rooted(),
        before.game_state is PlayersTurn,
        before.game_state->PlayersTurn_0 == cfg.bot_player,
        after.searched_from(before, cfg),
        expands(before.position(), cfg, before.depth as int),
        wins_at_once(before.position(), cfg.bot_player, winning),
        cfg.limit() - before.depth >= 2 || !cfg.use_heuristic_score,
    ensures
        after.weight->0.as_int() == if cfg.limit() - before.depth >= 2 {
            G::Score::max_int()
        } else {
            nudged_win::<G>(before.depth + 1 - cfg.real_plays)
        },
{
    let state = before.position();
    let bot = cfg.bot_player;
    let depth = before.depth as int;
    lemma_value_is_best_reply(state, bot, cfg, depth);
    G::Score::lemma_order(after.weight->0, after.weight->0);
}

/// A win at hand is taken, where the search looks one or two plies below the
/// root and counts by win and loss, and the win is not so deep in the game
/// that moving its score toward zero leaves nothing of it: with the bot to
/// move and a move that wins at once, the move of the child that
/// `into_best_child` gives wins at once.
pub proof fn lemma_immediate_win_is_taken<G: Game>(
    before: GameNode<G>,
    after: GameNode<G>,
    cfg: SearchConfig<G>,
    winning: G::InputCoordinate,
)
    requires
        before.rooted(),
        before.game_state is PlayersTurn,
        before.game_state->PlayersTurn_0 == cfg.bot_player,
        after.searched_from(before, cfg),
        expands(before.position(), cfg, before.depth as int),
        wins_at_once(before.position(), cfg.bot_player, winning),
        !cfg.use_heuristic_score,
        cfg.limit() - before.depth <= 2,
        nudged_win::<G>(before.depth + 1 - cfg.real_plays) > 0,
        before.depth >= cfg.real_plays,
    ensures
        after.has_best_child(),
        wins_at_once(before.position(), cfg.bot_player, after.children@[after.best_place()].0),
{
    let state = before.position();
    let bot = cfg.bot_player;
    let depth = before.depth as int;
    lemma_immediate_win_is_seen(before, after, cfg, winning);
    lemma_pruning_keeps_best_move(before, after, cfg);
    G::Score::lemma_sentinels();
    let chosen = after.children@[after.best_place()].0;
    let reply = state.after_play(bot, chosen);
    let next = Player::other_spec(bot);
    if cfg.limit() - before.depth == 2 {
        if reply.winner_spec() is None && !is_draw(reply) {
            lemma_value_is_best_reply(reply, next, cfg, depth + 1);
        }
    }
}

/// After the move `m` of `player` at `state` the game goes on, and the
/// opponent has a reply after which someone other than `player` has won.
pub open spec fn loses_to_a_reply<G: Game>(
    state: G,
    player: G::Player,
    m: G::InputCoordinate,
) -> bool {
    let reply = state.after_play(player, m);
    &&& reply.winner_spec() is None
    &&& !is_draw(reply)
    &&& exists|r: G::InputCoordinate| #[trigger]
        reply.legal_moves().contains(r) && reply.after_play(
            Player::other_spec(player),
            r,
        ).winner_spec() is Some && reply.after_play(
            Player::other_spec(player),
            r,
        ).winner_spec() != Some(player)
}

/// The score of a loss that the opponent can force with its next move, in a
/// search that looks `plies` plies below the node where the bot is to move:
/// the score of a loss where the search looks further than the loss, and
/// that score moved toward zero where the loss lies at the depth limit,
/// `below_root` plies below the root of the count.
pub open spec fn forced_loss<G: Game>(plies: int, below_root: int) -> int {
    if plies >= 3 {
        G::Score::min_int()
    } else {
        nudged_toward_zero(
            G::Score::min_int(),
            nudge_amount(below_root),
            G::Score::min_int(),
            G::Score::max_int(),
        )
    }
}

/// A loss that cannot be averted scores as a loss. Where the bot is to move
/// and, whatever it plays, its opponent has a reply that wins, a search of two plies or more that counts by win and loss, or of
/// three or more, leaves the root and every one of its children with the
/// score of a loss: moved toward zero where the search ends at the loss.
pub proof fn lemma_forced_loss_scores_as_loss<G: Game>(
    before: GameNode<G>,
    after: GameNode<G>,
    cfg: SearchConfig<G>,
)
    requires
        before.rooted(),
        before.game_state is PlayersTurn,
        before.game_state->PlayersTurn_0 == cfg.bot_player,
        after.searched_from(before, cfg),
        expands(before.position(), cfg, before.depth as int),
        before.depth >= cfg.real_plays,
        cfg.limit() - before.depth >= 2,
        !cfg.use_heuristic_score || cfg.limit() - before.depth >= 3,
        forall|m: G::InputCoordinate| #[trigger]
            before.position().legal_moves().contains(m) ==> loses_to_a_reply(
                before.position(),
                cfg.bot_player,
                m,
            ),
    ensures
        after.weight->0.as_int() == forced_loss::<G>(
            cfg.limit() - before.depth,
            before.depth + 2 - cfg.real_plays,
        ),
        forall|i: int|
            0 <= i < after.children@.len() ==> (#[trigger] after.children@[i]).1.weight
                == after.weight,
{
    let state = before.position();
    let bot = cfg.bot_player;
    let depth = before.depth as int;
    let loss = forced_loss::<G>(cfg.limit() - depth, depth + 2 - cfg.real_plays);
    assert forall|m: G::InputCoordinate| #[trigger]
        state.legal_moves().contains(m) implies reply_value(state, bot, cfg, depth, m)
        == loss by {
        lemma_reply_to_forced_loss(state, cfg, depth, m);
    }
    lemma_value_is_best_reply(state, bot, cfg, depth);
    assert forall|i: int| 0 <= i < after.children@.len() implies (
    #[trigger] after.children@[i]).1.weight == after.weight by {
        G::Score::lemma_order(after.children@[i].1.weight->0, after.weight->0);
    }
}

/// The position after a move that loses to a reply has the value of a forced
/// loss.
proof fn lemma_reply_to_forced_loss<G: Game>(
    state: G,
    cfg: SearchConfig<G>,
    depth: int,
    m: G::InputCoordinate,
)
    requires
        loses_to_a_reply(state, cfg.bot_player, m),
        depth >= cfg.real_plays,
        cfg.limit() - depth >= 2,
        !cfg.use_heuristic_score || cfg.limit() - depth >= 3,
    ensures
        reply_value(state, cfg.bot_player, cfg, depth, m) == forced_loss::<G>(
            cfg.limit() - depth,
            depth + 2 - cfg.real_plays,
        ),
{
    let bot = cfg.bot_player;
    let next = Player::other_spec(bot);
    let reply = state.after_play(bot, m);
    bot.lemma_other_differs();
    lemma_value_is_best_reply(reply, next, cfg, depth + 1);
    lemma_value_in_range(reply, next, cfg, depth + 1);
}

/// The search reaches an end of the game on every line of play from `state`
/// before it reaches its depth limit.
pub open spec fn resolved_within<G: Game>(
    state: G,
    to_play: G::Player,
    cfg: SearchConfig<G>,
    depth: int,
) -> bool
    decreases cfg.limit() - depth,
{
    &&& depth < cfg.limit()
    &&& (state.winner_spec() is None && !is_draw(state)) ==> forall|m: G::InputCoordinate| #[trigger]
        state.legal_moves().contains(m) ==> resolved_within(
            state.after_play(to_play, m),
            Player::other_spec(to_play),
            cfg,
            depth + 1,
        )
}

/// A position that one search resolves down to the ends of the game has the
/// same value in every search for the same player that looks as deep or
/// deeper.
pub proof fn lemma_resolved_value_is_stable<G: Game>(
    state: G,
    to_play: G::Player,
    first: SearchConfig<G>,
    second: SearchConfig<G>,
    depth: int,
)
    requires
        resolved_within(state, to_play, first, depth),
        second.bot_player == first.bot_player,
        second.limit() >= first.limit(),
    ensures
        position_value(state, to_play, second, depth) == position_value(
            state,
            to_play,
            first,
            depth,
        ),
        resolved_within(state, to_play, second, depth),
    decreases first.limit() - depth,
{
    if state.winner_spec() is None && !is_draw(state) {
        let next = Player::other_spec(to_play);
        let v = position_value(state, to_play, first, depth);
        lemma_value_is_best_reply(state, to_play, first, depth);
        assert forall|m: G::InputCoordinate| #[trigger]
            state.legal_moves().contains(m) implies reply_value(state, to_play, second, depth, m)
            == reply_value(state, to_play, first, depth, m) && resolved_within(
            state.after_play(to_play, m),
            next,
            second,
            depth + 1,
        ) by {
            lemma_resolved_value_is_stable(
                state.after_play(to_play, m),
                next,
                first,
                second,
                depth + 1,
            );
        }
        lemma_best_reply_is_value(state, to_play, second, depth, v);
    }
}

/// Searching again keeps what was resolved. Take a node of the tree after
/// one search and a node after another that stand for one position at one
/// depth, neither given up by its search. If the two searches had one
/// setting, or if they were for the same player, the second reached as deep
/// or deeper, and the first resolved the position down to the ends of the
/// game, the two nodes have one score.
pub proof fn lemma_kept_score_is_stable<G: Game>(
    earlier: GameNode<G>,
    later: GameNode<G>,
    state: G,
    now_playing: G::Player,
    first: SearchConfig<G>,
    second: SearchConfig<G>,
)
    requires
        earlier.scored_exactly(state, now_playing, first),
        later.scored_exactly(state, now_playing, second),
        later.depth == earlier.depth,
        !expands(state, first, earlier.depth as int) || earlier.children@.len() > 0,
        !expands(state, second, later.depth as int) || later.children@.len() > 0,
        second == first || (second.bot_player == first.bot_player && second.limit()
            >= first.limit() && resolved_within(state, now_playing, first, earlier.depth as int)),
    ensures
        later.weight == earlier.weight,
{
    if second != first {
        lemma_resolved_value_is_stable(state, now_playing, first, second, earlier.depth as int);
    }
    G::Score::lemma_order(later.weight->0, earlier.weight->0);
}

/// Searching the same root again keeps its score. Of two searches in a row
/// from one root, for the same player and from the same depth, the second
/// with the setting of the first, or looking as deep or deeper where the
/// first resolved the root down to the ends of the game, the second leaves
/// the root with the score that the first gave it.
pub proof fn lemma_repeated_search_keeps_weight<G: Game>(
    before: GameNode<G>,
    between: GameNode<G>,
    after: GameNode<G>,
    first: SearchConfig<G>,
    second: SearchConfig<G>,
)
    requires
        before.rooted(),
        before.game_state is PlayersTurn,
        before.depth == first.real_plays,
        between.searched_from(before, first),
        between.game_state is PlayersTurn,
        after.searched_from(between, second),
        second == first || (second.bot_player == first.bot_player && second.limit()
            >= first.limit() && resolved_within(
            before.position(),
            before.game_state->PlayersTurn_0,
            first,
            before.depth as int,
        )),
    ensures
        after.weight == between.weight,
{
    if second != first {
        lemma_resolved_value_is_stable(
            before.position(),
            before.game_state->PlayersTurn_0,
            first,
            second,
            before.depth as int,
        );
    }
    G::Score::lemma_order(after.weight->0, between.weight->0);
}

/// Searching again keeps the scores of the children of the root that were
/// explored to the end. Of two searches in a row with one setting from a
/// root at the depth of the count, the second leaves each child of the root
/// that the first has not cut short in its place, not cut short, and with
/// the score that the first gave it.
pub proof fn lemma_repeated_search_keeps_child_weight<G: Game>(
    before: GameNode<G>,
    between: GameNode<G>,
    after: GameNode<G>,
    cfg: SearchConfig<G>,
    i: int,
)
    requires
        before.rooted(),
        before.game_state is PlayersTurn,
        before.depth == cfg.real_plays,
        expands(before.position(), cfg, before.depth as int),
        between.searched_from(before, cfg),
        after.searched_from(between, cfg),
        0 <= i < between.children@.len(),
        !between.children@[i].1.cut_short(
            before.position().after_play(
                before.game_state->PlayersTurn_0,
                between.children@[i].0,
            ),
            cfg,
        ),
    ensures
        after.children@.len() == between.children@.len(),
        after.children@[i].0 == between.children@[i].0,
        !after.children@[i].1.cut_short(
            before.position().after_play(
                before.game_state->PlayersTurn_0,
                between.children@[i].0,
            ),
            cfg,
        ),
        after.children@[i].1.weight == between.children@[i].1.weight,
{
    let state = before.position();
    let now_playing = before.game_state->PlayersTurn_0;
    assert(after.plays().len() == between.plays().len());
    assert(after.plays()[i] == between.plays()[i]);
    assert(between.child_cut_in_turn(i, state, now_playing, cfg));
    assert(after.child_cut_in_turn(i, state, now_playing, cfg));
    G::Score::lemma_order(after.children@[i].1.weight->0, between.children@[i].1.weight->0);
}

/// The children of a node of `Power4` stand from the leftmost open
/// column to the rightmost: where several moves are equally good, the search
/// takes the leftmost.
pub proof fn lemma_power4_children_ascend(node: GameNode<Power4>, state: Power4, i: int, j: int)
    requires
        node.represents(state),
        0 <= i < j < node.children@.len(),
    ensures
        node.children@[i].0 < node.children@[j].0,
{
    assert(node.plays()[i] == node.children@[i].0);
    assert(node.plays()[j] == node.children@[j].0);
}

/// The children of a node of `ConnectFour` stand in one of the three orders
/// of columns that the game draws from.
pub proof fn lemma_connect_four_children_order(node: GameNode<ConnectFour>, state: ConnectFour)
    requires
        node.represents(state),
        node.children@.len() > 0,
    ensures
        exists|choice: u8|
            choice <= 2 && node.plays() == state.open_columns(column_order_spec(choice), 7),
{
}

} // verus!
