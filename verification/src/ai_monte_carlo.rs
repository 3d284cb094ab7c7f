//! "Pure" Monte Carlo: each move is scored by playing the game out at random a
//! number of times.

use vstd::prelude::*;
use crate::ai::AIProgress;
use crate::game::{Game, GameState, Move, wf, outcome, children, lemma_children_wf};
use crate::ai_minimax::{with_outcome, wrapped, lemma_wrapped_step};
use crate::random::random_index;

verus! {

/// `b` is reached from `a` by `n` moves, each to a child node of the position
/// before it (with its state brought up to date).
pub open spec fn reached(a: Game, b: Game, n: nat) -> bool
    decreases n,
{
    if n == 0 {
        a == b
    } else {
        exists|c: Game| #[trigger] children(with_outcome(a), a.current_player).contains(c) && reached(c, b, (n - 1) as nat)
    }
}

/// What one random playout adds to the score of a move of `player`: a win
/// counts 1, a loss -1, a draw nothing.
pub open spec fn round_value_of(state: GameState, player: usize) -> int {
    match state {
        GameState::WinPlayer0 => if player == 0 { 1 } else { -1 },
        GameState::WinPlayer1 => if player == 1 { 1 } else { -1 },
        _ => 0,
    }
}

/// What one random playout of `n` moves from `node` can add to the score of a
/// move of `player`: the value of the decided game it reached; or nothing when
/// it gave up on the undecided game it reached, because the side to move had
/// no move or the playout ran for `usize::MAX` moves.
pub open spec fn playout_value(node: Game, player: usize, v: int, n: nat) -> bool {
    exists|last: Game| #[trigger] reached(node, last, n) && {
        let end = with_outcome(last);
        ||| end.state != GameState::Ongoing && v == round_value_of(end.state, player)
        ||| end.state == GameState::Ongoing && v == 0
            && (children(end, last.current_player).len() == 0 || n == usize::MAX)
    }
}

/// The sum of the values of a sequence of playouts (value, moves).
pub open spec fn total(vals: Seq<(int, nat)>) -> int
    decreases vals.len(),
{
    if vals.len() == 0 {
        0
    } else {
        total(vals.drop_last()) + vals.last().0
    }
}

/// The number of moves played in a sequence of playouts (value, moves).
pub open spec fn plies_of(vals: Seq<(int, nat)>) -> int
    decreases vals.len(),
{
    if vals.len() == 0 {
        0
    } else {
        plies_of(vals.drop_last()) + vals.last().1
    }
}

/// The number of moves played in all the playouts of all the moves.
pub open spec fn plies_all(all: Seq<Seq<(int, nat)>>) -> int
    decreases all.len(),
{
    if all.len() == 0 {
        0
    } else {
        plies_all(all.drop_last()) + plies_of(all.last())
    }
}

/// Move counts are never negative.
pub proof fn lemma_plies_of_nonneg(vals: Seq<(int, nat)>)
    ensures
        plies_of(vals) >= 0,
    decreases vals.len(),
{
    if vals.len() > 0 {
        lemma_plies_of_nonneg(vals.drop_last());
    }
}

/// Move counts over all moves are never negative.
pub proof fn lemma_plies_all_nonneg(all: Seq<Seq<(int, nat)>>)
    ensures
        plies_all(all) >= 0,
    decreases all.len(),
{
    if all.len() > 0 {
        lemma_plies_all_nonneg(all.drop_last());
        lemma_plies_of_nonneg(all.last());
    }
}

/// The first index of a largest score among the first `n`.
pub open spec fn first_best(scores: Seq<i64>, n: int) -> int
    decreases n,
{
    if n <= 1 {
        0
    } else {
        let prev = first_best(scores, n - 1);
        if scores[n - 1] > scores[prev] { n - 1 } else { prev }
    }
}

/// The first best index is in range, its score is the largest, and every
/// score before it is smaller.
pub proof fn lemma_first_best(scores: Seq<i64>, n: int)
    requires
        1 <= n <= scores.len(),
    ensures
        0 <= first_best(scores, n) < n,
        forall|k: int| 0 <= k < n ==> #[trigger] scores[k] <= scores[first_best(scores, n)],
        forall|k: int| 0 <= k < first_best(scores, n) ==> #[trigger] scores[k] < scores[first_best(scores, n)],
    decreases n,
{
    if n > 1 {
        lemma_first_best(scores, n - 1);
    }
}

/// The score of a move after `rounds` random playouts from the position it
/// leads to: the sum of what each playout added.
pub open spec fn is_playout_score(node: Game, player: usize, rounds: usize, vals: Seq<(int, nat)>, score: int) -> bool {
    &&& vals.len() == rounds
    &&& forall|r: int| 0 <= r < vals.len() ==> playout_value(node, player, (#[trigger] vals[r]).0, vals[r].1)
    &&& score == total(vals)
}

/// A Monte Carlo pick for `game` with `rounds` playouts per move: each child
/// node of the player to move is scored by the sum of `rounds` playouts from
/// it; the first child with the largest score is chosen, with its move as the
/// principal variation and its score as the score; the node count is the
/// number of moves played in all the playouts (a wrapping count).
pub open spec fn is_monte_carlo_pick(
    game: Game,
    rounds: usize,
    best: Option<Game>,
    pv: Seq<Move>,
    score: i64,
    nodes: usize,
) -> bool {
    let cs = children(game, game.current_player);
    exists|scores: Seq<i64>, vals: Seq<Seq<(int, nat)>>| {
        &&& #[trigger] scores.len() == cs.len()
        &&& #[trigger] vals.len() == cs.len()
        &&& forall|k: int| 0 <= k < scores.len()
            ==> is_playout_score(cs[k], game.current_player, rounds, #[trigger] vals[k], scores[k] as int)
        &&& best == Some(cs[first_best(scores, scores.len() as int)])
        &&& pv == seq![cs[first_best(scores, scores.len() as int)].last_move.unwrap()]
        &&& score == scores[first_best(scores, scores.len() as int)]
        &&& nodes == wrapped(plies_all(vals))
    }
}

pub struct AIMonteCarlo {
    game: Game,
    rounds: usize,
}

impl AIMonteCarlo {
    /// The position searched from.
    pub closed spec fn root(&self) -> Game {
        self.game
    }

    /// How many playouts score each move.
    pub closed spec fn playouts(&self) -> usize {
        self.rounds
    }

    pub fn new(game: Game, rounds: usize) -> (r: Self)
        ensures
            r.root() == game,
            r.playouts() == rounds,
    {
        Self { game, rounds }
    }

    /// Scores each move by random playouts and picks the first best-scoring
    /// one.
    pub fn think(&mut self) -> (r: AIProgress)
        requires
            wf(old(self).root()),
            children(old(self).root(), old(self).root().current_player).len() > 0,
            old(self).playouts() <= i64::MAX,
        ensures
            final(self).root() == old(self).root(),
            is_monte_carlo_pick(old(self).root(), old(self).playouts(), r.best_node, r.pv@, r.score, r.nodes),
            old(self).playouts() == 0 ==> r.nodes == 0 && r.score == 0
                && r.best_node == Some(children(old(self).root(), old(self).root().current_player)[0]),
            !r.is_complete,
    {
        let quiet = |_p: AIProgress, _done: usize, _total: usize| {};
        self.monte_carlo(self.rounds, &quiet)
    }

    /// As `think`, and after each move is scored, hands `report` the progress
    /// so far (the best move yet and its score, the positions visited) with the
    /// number of moves scored and the number of moves.
    pub fn think_reporting<F: Fn(AIProgress, usize, usize)>(&mut self, report: &F) -> (r: AIProgress)
        requires
            wf(old(self).root()),
            children(old(self).root(), old(self).root().current_player).len() > 0,
            old(self).playouts() <= i64::MAX,
            forall|p: AIProgress, done: usize, total: usize| call_requires(*report, (p, done, total)),
        ensures
            final(self).root() == old(self).root(),
            is_monte_carlo_pick(old(self).root(), old(self).playouts(), r.best_node, r.pv@, r.score, r.nodes),
            old(self).playouts() == 0 ==> r.nodes == 0 && r.score == 0
                && r.best_node == Some(children(old(self).root(), old(self).root().current_player)[0]),
            !r.is_complete,
    {
        self.monte_carlo(self.rounds, report)
    }

    fn monte_carlo<F: Fn(AIProgress, usize, usize)>(&mut self, rounds: usize, report: &F) -> (r: AIProgress)
        requires
            wf(old(self).game),
            children(old(self).game, old(self).game.current_player).len() > 0,
            rounds <= i64::MAX,
            forall|p: AIProgress, done: usize, total: usize| call_requires(*report, (p, done, total)),
        ensures
            *final(self) == *old(self),
            is_monte_carlo_pick(old(self).game, rounds, r.best_node, r.pv@, r.score, r.nodes),
            rounds == 0 ==> r.nodes == 0 && r.score == 0
                && r.best_node == Some(children(old(self).game, old(self).game.current_player)[0]),
            !r.is_complete,
    {
        let player = self.game.current_player;
        let child_nodes = self.game.child_nodes(player);
        proof {
            lemma_children_wf(self.game, player);
        }
        let mut visited: usize = 0;
        let mut scores: Vec<i64> = Vec::new();
        let ghost mut all: Seq<Seq<(int, nat)>> = seq![];
        let mut index: usize = 0;
        proof {
            vstd::arithmetic::div_mod::lemma_small_mod(0, usize::MAX as nat + 1);
        }
        while index < child_nodes.len()
            invariant
                index <= child_nodes.len(),
                scores@.len() == index,
                all.len() == index,
                rounds <= i64::MAX,
                player == self.game.current_player,
                child_nodes@ == children(self.game, player),
                forall|k: int| 0 <= k < child_nodes@.len() ==> wf(#[trigger] child_nodes@[k])
                    && child_nodes@[k].last_move is Some,
                forall|k: int| 0 <= k < scores@.len()
                    ==> is_playout_score(child_nodes@[k], player, rounds, #[trigger] all[k], scores@[k] as int),
                visited == wrapped(plies_all(all)),
                forall|p: AIProgress, done: usize, total: usize| call_requires(*report, (p, done, total)),
                rounds == 0 ==> visited == 0 && forall|k: int| 0 <= k < scores@.len() ==> #[trigger] scores@[k] == 0,
            decreases child_nodes.len() - index,
        {
            let node = child_nodes[index];
            let mut node_score: i64 = 0;
            let ghost mut vals: Seq<(int, nat)> = seq![];
            let mut round: usize = 0;
            while round < rounds
                invariant
                    round <= rounds,
                    rounds <= i64::MAX,
                    wf(node),
                    -(round as int) <= node_score <= round,
                    vals.len() == round,
                    node_score == total(vals),
                    forall|r: int| 0 <= r < vals.len() ==> playout_value(node, player, (#[trigger] vals[r]).0, vals[r].1),
                    visited == wrapped(plies_all(all) + plies_of(vals)),
                    rounds == 0 ==> visited == 0 && forall|k: int| 0 <= k < scores@.len() ==> #[trigger] scores@[k] == 0,
                decreases rounds - round,
            {
                let (end, plies) = Self::playout(node);
                proof {
                    lemma_plies_of_nonneg(vals);
                    lemma_plies_all_nonneg(all);
                    lemma_wrapped_step(visited, plies, plies_all(all) + plies_of(vals));
                }
                visited = visited.wrapping_add(plies);
                let mut value: i64 = 0;
                if let Some(end_node) = end {
                    value = Self::round_value(end_node.state, player);
                }
                proof {
                    if let Some(end_node) = end {
                        let last = choose|last: Game| reached(node, last, plies as nat) && end_node == with_outcome(last);
                        assert(reached(node, last, plies as nat));
                    } else {
                        let last = choose|last: Game| reached(node, last, plies as nat)
                            && with_outcome(last).state == GameState::Ongoing
                            && (children(with_outcome(last), last.current_player).len() == 0 || plies == usize::MAX);
                        assert(reached(node, last, plies as nat));
                    }
                    assert(playout_value(node, player, value as int, plies as nat));
                    assert(vals.push((value as int, plies as nat)).drop_last() =~= vals);
                    vals = vals.push((value as int, plies as nat));
                }
                node_score = node_score + value;
                round = round + 1;
            }
            scores.push(node_score);
            proof {
                assert(all.push(vals).drop_last() =~= all);
                all = all.push(vals);
            }
            // Report the best move so far.
            let mut so_far = Self::progress_for_scores(&child_nodes, &scores);
            so_far.best_node = None;
            so_far.nodes = visited;
            report(so_far, index + 1, child_nodes.len());
            index = index + 1;
        }
        let mut progress = Self::progress_for_scores(&child_nodes, &scores);
        progress.nodes = visited;
        proof {
            if rounds == 0 {
                lemma_first_best(scores@, scores@.len() as int);
                let fb = first_best(scores@, scores@.len() as int);
                if fb > 0 {
                    assert(scores@[0] < scores@[fb]);
                }
            }
            let cs = children(self.game, self.game.current_player);
            let ss = scores@;
            assert(ss.len() == cs.len());
            assert forall|k: int| 0 <= k < ss.len()
                implies is_playout_score(cs[k], self.game.current_player, rounds, #[trigger] all[k], ss[k] as int) by {
                assert(is_playout_score(child_nodes@[k], player, rounds, all[k], scores@[k] as int));
            }
        }
        progress
    }

    /// The progress report for the scores of the first moves: the first move
    /// with the largest score is chosen.
    pub fn progress_for_scores(child_nodes: &Vec<Game>, scores: &Vec<i64>) -> (r: AIProgress)
        requires
            0 < scores@.len() <= child_nodes@.len(),
            forall|k: int| 0 <= k < scores@.len() ==> (#[trigger] child_nodes@[k]).last_move is Some,
        ensures
            r.best_node == Some(child_nodes@[first_best(scores@, scores@.len() as int)]),
            r.pv@ == seq![child_nodes@[first_best(scores@, scores@.len() as int)].last_move.unwrap()],
            r.score == scores@[first_best(scores@, scores@.len() as int)],
            r.nodes == 0,
            !r.is_complete,
    {
        let mut progress = AIProgress::new();
        // The move to beat: with the least score, any move will do.
        let mut best: usize = 0;
        let mut best_score: i64 = i64::MIN;
        let mut index: usize = 0;
        while index < scores.len()
            invariant
                index <= scores@.len(),
                scores@.len() <= child_nodes@.len(),
                best < scores@.len(),
                index == 0 ==> best == 0 && best_score == i64::MIN,
                index > 0 ==> best == first_best(scores@, index as int) && best_score == scores@[best as int],
            decreases scores.len() - index,
        {
            if index == 0 || scores[index] > best_score {
                best_score = scores[index];
                best = index;
            }
            index = index + 1;
        }
        let node = child_nodes[best];
        progress.score = best_score;
        let mut pv: Vec<Move> = Vec::new();
        pv.push(node.last_move.unwrap());
        progress.pv = pv;
        progress.best_node = Some(node);
        progress
    }

    /// What a finished playout adds to the score of a move of `player`.
    pub fn round_value(state: GameState, player: usize) -> (r: i64)
        ensures
            r == round_value_of(state, player),
    {
        match state {
            GameState::WinPlayer0 => if player == 0 { 1 } else { -1 },
            GameState::WinPlayer1 => if player == 1 { 1 } else { -1 },
            _ => 0,
        }
    }

    /// One move of a playout: the child node drawn at `index` is taken.
    pub fn playout_step(sub_children: Vec<Game>, index: usize) -> (r: Game)
        requires
            index < sub_children@.len(),
        ensures
            r == sub_children@[index as int],
    {
        let mut sub_children = sub_children;
        sub_children.swap_remove(index)
    }

    /// Plays the game out from `node` by random moves until it is decided, and
    /// returns the final position and the number of moves played. The playout
    /// gives up (returns `None`) when the side to move has no move, or after
    /// `usize::MAX` moves.
    pub fn playout(node: Game) -> (r: (Option<Game>, usize))
        requires
            wf(node),
        ensures
            r.0 matches Some(end) ==> end.state != GameState::Ongoing && end.state == outcome(end)
                && exists|last: Game| reached(node, last, r.1 as nat) && end == with_outcome(last),
            r.0 is None ==> exists|last: Game| #[trigger] reached(node, last, r.1 as nat)
                && with_outcome(last).state == GameState::Ongoing
                && (children(with_outcome(last), last.current_player).len() == 0 || r.1 == usize::MAX),
    {
        let mut child = node;
        let mut plies: usize = 0;
        loop
            invariant
                wf(child),
                reached(node, child, plies as nat),
            decreases usize::MAX - plies,
        {
            let ghost before = child;
            let state = *child.update_state();
            if state != GameState::Ongoing {
                assert(child == with_outcome(before));
                return (Some(child), plies);
            }
            let sub_children = child.child_nodes(child.current_player);
            if sub_children.len() == 0 || plies == usize::MAX {
                // The side to move is stuck (or the playout is too long): give up.
                let res: (Option<Game>, usize) = (None, plies);
                assert(child == with_outcome(before));
                assert(reached(node, before, res.1 as nat));
                return res;
            }
            proof {
                lemma_children_wf(child, child.current_player);
            }
            let rand_index = random_index(sub_children.len());
            let next = Self::playout_step(sub_children, rand_index);
            proof {
                assert(children(with_outcome(before), before.current_player)[rand_index as int] == next);
                assert(children(with_outcome(before), before.current_player).contains(next));
                lemma_reached_extend(node, before, next, plies as nat);
            }
            child = next;
            plies = plies + 1;
        }
    }
}

/// A game reached in `n` moves, followed by one more move to a child, is
/// reached in `n + 1` moves.
pub proof fn lemma_reached_extend(a: Game, b: Game, c: Game, n: nat)
    requires
        reached(a, b, n),
        children(with_outcome(b), b.current_player).contains(c),
    ensures
        reached(a, c, n + 1),
    decreases n,
{
    if n == 0 {
        assert(reached(c, c, 0));
        assert(reached(a, c, 1));
    } else {
        let m = choose|m: Game| #[trigger] children(with_outcome(a), a.current_player).contains(m) && reached(m, b, (n - 1) as nat);
        lemma_reached_extend(m, b, c, (n - 1) as nat);
        assert(reached(a, c, n + 1));
    }
}

} // verus!
