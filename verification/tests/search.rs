use mini_shogi::ai::{AIKind, AI};
use mini_shogi::ai_minimax::AIMinimax;
use mini_shogi::ai_monte_carlo::AIMonteCarlo;
use mini_shogi::ai_random::AIRandom;
use mini_shogi::game::{Game, GameState, Move};

fn started() -> Game {
    let mut game = Game::new();
    game.prepare();
    game
}

#[test]
fn minimax_depth_one_prefers_first_capture() {
    let game = started();
    let mut ai = AIMinimax::new(game, 1);
    let progress = ai.think();
    // A pawn capture moves a pawn from player 1 to player 0: +1 and -1.
    assert_eq!(progress.score, 2);
    let best = progress.best_node.unwrap();
    assert_eq!(best.last_move, Some(Move(5, 16, true)));
    assert_eq!(progress.pv, vec![Move(5, 16, true)]);
    assert!(!progress.is_complete);
    assert_eq!(progress.nodes, 16);
}

#[test]
fn minimax_depth_two_sees_recapture() {
    let game = started();
    let mut ai = AIMinimax::new(game, 2);
    let progress = ai.think();
    // Every capture can be answered by a capture; every quiet move loses a pawn.
    assert_eq!(progress.score, 0);
    assert_eq!(progress.best_node.unwrap().last_move, Some(Move(5, 16, true)));
    assert_eq!(progress.pv.len(), 2);
}

#[test]
fn minimax_depth_zero_evaluates_root() {
    let game = started();
    let mut ai = AIMinimax::new(game, 0);
    let progress = ai.think();
    assert_eq!(progress.score, 0);
    assert!(progress.best_node.is_none());
    assert!(progress.pv.is_empty());
}

#[test]
fn minimax_scores_a_won_game() {
    let mut game = started();
    game.pieces[13].player = 0; // player 1 no longer owns a king
    let mut ai = AIMinimax::new(game, 3);
    let progress = ai.think();
    assert_eq!(progress.score, 1000);
    assert!(progress.best_node.is_none());
    game.current_player = 1;
    let mut ai = AIMinimax::new(game, 3);
    assert_eq!(ai.think().score, -1000);
}

#[test]
fn minimax_finds_king_capture() {
    let mut game = started();
    // Player 0's gold stands next to player 1's king (square 27).
    game.grid[3] = mini_shogi::game::NONE;
    game.grid[22] = 3;
    game.pieces[3].location_index = 22;
    let mut ai = AIMinimax::new(game, 2);
    let progress = ai.think();
    // Capturing the king wins after one ply.
    assert_eq!(progress.score, 999);
    let best = progress.best_node.unwrap();
    assert_eq!(best.last_move, Some(Move(3, 27, true)));
    let mut best = best;
    assert_eq!(*best.update_state(), GameState::WinPlayer0);
}

#[test]
fn random_pick_is_a_child() {
    let game = started();
    let children = game.child_nodes(0);
    for _ in 0..20 {
        let mut ai = AIRandom::new(game);
        let progress = ai.think();
        assert!(progress.is_complete);
        assert_eq!(progress.nodes, 16);
        let best = progress.best_node.unwrap();
        let position = children.iter().position(|c| c.last_move == best.last_move).unwrap();
        assert_eq!(progress.pv, vec![children[position].last_move.unwrap()]);
    }
}

#[test]
fn random_progress_for_choice() {
    let game = started();
    let children = game.child_nodes(0);
    let progress = AIRandom::progress_for_choice(children.clone(), 3);
    assert_eq!(progress.best_node.unwrap().last_move, children[3].last_move);
    assert_eq!(progress.nodes, 16);
    assert_eq!(progress.score, 0);
}

#[test]
fn monte_carlo_progress_picks_first_best() {
    let game = started();
    let children = game.child_nodes(0);
    let mut scores = vec![0i64; 16];
    scores[4] = 3;
    scores[9] = 3;
    scores[2] = -1;
    let progress = AIMonteCarlo::progress_for_scores(&children, &scores);
    assert_eq!(progress.score, 3);
    assert_eq!(progress.best_node.unwrap().last_move, children[4].last_move);
    assert_eq!(progress.pv, vec![children[4].last_move.unwrap()]);
}

#[test]
fn monte_carlo_round_values() {
    assert_eq!(AIMonteCarlo::round_value(GameState::WinPlayer0, 0), 1);
    assert_eq!(AIMonteCarlo::round_value(GameState::WinPlayer0, 1), -1);
    assert_eq!(AIMonteCarlo::round_value(GameState::WinPlayer1, 1), 1);
    assert_eq!(AIMonteCarlo::round_value(GameState::WinPlayer1, 0), -1);
    assert_eq!(AIMonteCarlo::round_value(GameState::Draw, 0), 0);
}

#[test]
fn monte_carlo_playout_ends_decided() {
    let game = started();
    let (end, plies) = AIMonteCarlo::playout(game);
    if let Some(end) = end {
        assert_ne!(end.state, GameState::Ongoing);
        assert!(plies > 0);
    }
}

#[test]
fn monte_carlo_picks_a_child() {
    let game = started();
    let children = game.child_nodes(0);
    let mut ai = AIMonteCarlo::new(game, 2);
    let progress = ai.think();
    let best = progress.best_node.unwrap();
    assert!(children.iter().any(|c| c.last_move == best.last_move));
    assert!(progress.score >= -2 && progress.score <= 2);
}

#[test]
fn ai_dispatch() {
    let game = started();
    // Minimax with depth zero falls back to a random pick.
    let progress = AI::think(AIKind::AIMinimax, 0, 0, game);
    assert!(progress.is_complete);
    let progress = AI::think(AIKind::AIMinimax, 1, 0, game);
    assert_eq!(progress.score, 2);
    let progress = AI::think(AIKind::AIRandom, 3, 0, game);
    assert!(progress.best_node.is_some());
    let progress = AI::think(AIKind::AIMonteCarlo, 3, 1, game);
    assert!(progress.best_node.is_some());
}

#[test]
fn minimax_pv_starts_with_chosen_move() {
    let game = started();
    let mut ai = AIMinimax::new(game, 3);
    let progress = ai.think();
    let best = progress.best_node.unwrap();
    assert!(!progress.pv.is_empty());
    assert_eq!(progress.pv[0], best.last_move.unwrap());
    assert!(game.child_nodes(0).iter().any(|c| c.last_move == best.last_move));
}

#[test]
fn monte_carlo_score_sums_playouts() {
    // A won position for player 0 on every reply: each playout scores one.
    let mut game = started();
    game.current_player = 1;
    game.pieces[2].player = 1; // player 0 has lost its king already
    let children = game.child_nodes(1);
    let mut ai = AIMonteCarlo::new(game, 3);
    let progress = ai.think();
    assert_eq!(progress.score, 3);
    assert_eq!(progress.best_node.unwrap().last_move, children[0].last_move);
}

#[test]
fn monte_carlo_zero_rounds_takes_first_move() {
    let game = started();
    let children = game.child_nodes(0);
    let mut ai = AIMonteCarlo::new(game, 0);
    let progress = ai.think();
    assert_eq!(progress.best_node.unwrap().last_move, Some(Move(0, 5, false)));
    assert_eq!(progress.best_node.unwrap().last_move, children[0].last_move);
    assert_eq!(progress.pv, vec![Move(0, 5, false)]);
    assert_eq!(progress.score, 0);
    assert_eq!(progress.nodes, 0);
}

#[test]
fn monte_carlo_reports_each_move() {
    let game = started();
    let reports = std::cell::RefCell::new(Vec::new());
    let report = |p: mini_shogi::ai::AIProgress, done: usize, total: usize| {
        reports.borrow_mut().push((p.pv.clone(), done, total));
    };
    let mut ai = AIMonteCarlo::new(game, 0);
    let progress = ai.think_reporting(&report);
    let reports = reports.into_inner();
    assert_eq!(reports.len(), 16);
    for (k, (pv, done, total)) in reports.iter().enumerate() {
        assert_eq!(*done, k + 1);
        assert_eq!(*total, 16);
        assert_eq!(*pv, vec![Move(0, 5, false)]);
    }
    assert_eq!(progress.pv, vec![Move(0, 5, false)]);
}

#[test]
fn monte_carlo_playout_step_takes_drawn_child() {
    let game = started();
    let children = game.child_nodes(0);
    let next = AIMonteCarlo::playout_step(children.clone(), 7);
    assert_eq!(next.last_move, children[7].last_move);
}

#[test]
fn minimax_reports_improvements() {
    let game = started();
    let reports = std::cell::RefCell::new(Vec::new());
    let report = |p: mini_shogi::ai::AIProgress, done: usize, total: usize| {
        reports.borrow_mut().push((p.best_node.map(|b| b.last_move), done, total));
    };
    let mut ai = AIMinimax::new(game, 1);
    let progress = ai.think_reporting(&report);
    let reports = reports.into_inner();
    // The first move improves on the least score, the pawn capture on it.
    assert_eq!(reports.len(), 2);
    assert_eq!(reports[0], (Some(Some(Move(0, 5, false))), 1, 16));
    assert_eq!(reports[1].0, Some(Some(Move(5, 16, true))));
    assert_eq!(reports[1].2, 16);
    assert_eq!(progress.nodes, 16);
}

#[test]
fn minimax_base_case_counts_nothing() {
    let game = started();
    let mut ai = AIMinimax::new(game, 0);
    let progress = ai.think();
    assert_eq!(progress.nodes, 0);
    assert_eq!(progress.score, 0);
}

#[test]
fn minimax_pv_not_longer_than_depth() {
    let game = started();
    for depth in 1..4 {
        let mut ai = AIMinimax::new(game, depth);
        let progress = ai.think();
        assert!(progress.pv.len() <= depth);
        assert!(!progress.pv.is_empty());
    }
}
