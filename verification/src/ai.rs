//! What a search reports back, and the choice of search for a player.

use vstd::prelude::*;
use crate::game::{Game, Move, wf, children};
use crate::ai_minimax::{AIMinimax, MAX_DEPTH, is_minimax_result, alpha_beta_search, wrapped};
use crate::ai_random::{AIRandom, is_random_pick};
use crate::ai_monte_carlo::{AIMonteCarlo, is_monte_carlo_pick};

verus! {

/// The progress (and, once complete, the result) of a search: how many
/// positions it visited, its principal variation, its score and the position
/// it chose to move to.
#[derive(Debug)]
pub struct AIProgress {
    pub is_complete: bool,
    pub nodes: usize,
    pub pv: Vec<Move>,
    pub score: i64,
    pub best_node: Option<Game>,
}

impl AIProgress {
    pub fn new() -> (r: Self)
        ensures
            !r.is_complete,
            r.nodes == 0,
            r.pv@.len() == 0,
            r.score == 0,
            r.best_node is None,
    {
        Self { is_complete: false, nodes: 0, pv: Vec::new(), score: 0, best_node: None }
    }
}

/// The kinds of computer player.
#[derive(Debug, Clone, Copy, PartialEq, Eq, Structural)]
pub enum AIKind {
    AIRandom,
    AIMinimax,
    AIMonteCarlo,
}

/// The player that actually searches: a minimax search of depth zero is
/// replaced by a random pick. (A Monte Carlo player with zero rounds is left
/// as it is.)
pub open spec fn engine_for(kind: AIKind, search_depth: usize) -> AIKind {
    if kind == AIKind::AIMinimax && search_depth == 0 {
        AIKind::AIRandom
    } else {
        kind
    }
}

/// Runs the search a computer player asks for.
pub struct AI {}

impl AI {
    pub fn think(kind: AIKind, search_depth: usize, search_rounds: usize, game: Game) -> (r: AIProgress)
        requires
            wf(game),
            search_depth <= MAX_DEPTH,
            search_rounds <= i64::MAX,
            engine_for(kind, search_depth) != AIKind::AIMinimax ==> children(game, game.current_player).len() > 0,
        ensures
            engine_for(kind, search_depth) == AIKind::AIMinimax ==> !r.is_complete && is_minimax_result(
                game, game.current_player, search_depth, r.score, r.best_node, r.pv@, None)
                && r.nodes == wrapped(alpha_beta_search(game.current_player, search_depth as int, game,
                    search_depth as nat, true, i64::MIN as int, i64::MAX as int, seq![]).1 as int)
                && r.pv@ == alpha_beta_search(game.current_player, search_depth as int, game,
                    search_depth as nat, true, i64::MIN as int, i64::MAX as int, seq![]).2,
            engine_for(kind, search_depth) == AIKind::AIRandom ==> r.is_complete
                && is_random_pick(game, r.best_node, r.pv@)
                && r.nodes == children(game, game.current_player).len() && r.score == 0,
            engine_for(kind, search_depth) == AIKind::AIMonteCarlo ==> !r.is_complete && is_monte_carlo_pick(
                game, search_rounds, r.best_node, r.pv@, r.score, r.nodes),
    {
        let quiet = |_p: AIProgress, _done: usize, _total: usize| {};
        Self::think_reporting(kind, search_depth, search_rounds, game, &quiet)
    }

    /// As `think`, handing `report` the progress the search makes as it goes
    /// (for a random pick, the pick itself).
    pub fn think_reporting<F: Fn(AIProgress, usize, usize)>(
        kind: AIKind,
        search_depth: usize,
        search_rounds: usize,
        game: Game,
        report: &F,
    ) -> (r: AIProgress)
        requires
            wf(game),
            search_depth <= MAX_DEPTH,
            search_rounds <= i64::MAX,
            forall|p: AIProgress, done: usize, total: usize| call_requires(*report, (p, done, total)),
            engine_for(kind, search_depth) != AIKind::AIMinimax ==> children(game, game.current_player).len() > 0,
        ensures
            engine_for(kind, search_depth) == AIKind::AIMinimax ==> !r.is_complete && is_minimax_result(
                game, game.current_player, search_depth, r.score, r.best_node, r.pv@, None)
                && r.nodes == wrapped(alpha_beta_search(game.current_player, search_depth as int, game,
                    search_depth as nat, true, i64::MIN as int, i64::MAX as int, seq![]).1 as int)
                && r.pv@ == alpha_beta_search(game.current_player, search_depth as int, game,
                    search_depth as nat, true, i64::MIN as int, i64::MAX as int, seq![]).2,
            engine_for(kind, search_depth) == AIKind::AIRandom ==> r.is_complete
                && is_random_pick(game, r.best_node, r.pv@)
                && r.nodes == children(game, game.current_player).len() && r.score == 0,
            engine_for(kind, search_depth) == AIKind::AIMonteCarlo ==> !r.is_complete && is_monte_carlo_pick(
                game, search_rounds, r.best_node, r.pv@, r.score, r.nodes),
    {
        let mut engine = kind;
        if engine == AIKind::AIMinimax && search_depth == 0 {
            engine = AIKind::AIRandom;
        }
        match engine {
            AIKind::AIRandom => {
                let mut ai = AIRandom::new(game);
                let progress = ai.think();
                let pv_copy = progress.pv.clone();
                assert(pv_copy@ =~= progress.pv@);
                report(
                    AIProgress {
                        is_complete: progress.is_complete,
                        nodes: progress.nodes,
                        pv: pv_copy,
                        score: progress.score,
                        best_node: progress.best_node,
                    },
                    0,
                    0,
                );
                progress
            },
            AIKind::AIMinimax => {
                let mut ai = AIMinimax::new(game, search_depth);
                ai.think_reporting(report)
            },
            AIKind::AIMonteCarlo => {
                let mut ai = AIMonteCarlo::new(game, search_rounds);
                ai.think_reporting(report)
            },
        }
    }
}

} // verus!
