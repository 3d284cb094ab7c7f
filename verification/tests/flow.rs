use mini_shogi::ai_minimax::AIMinimax;
use mini_shogi::controller::{AppState, Controller, PlayerKind, BAR_ABOUT_ID, BAR_QUIT_ID, BAR_RULES_ID, BAR_SETTINGS_ID};
use mini_shogi::ai_sender::should_send;
use mini_shogi::game::{Game, GameState, Move};
use mini_shogi::progress_text::{decimal_text, pv_text};

fn prepared() -> Controller {
    let mut c = Controller::new();
    assert!(c.state() == AppState::NextPlayer);
    c.prepare();
    c
}

#[test]
fn prepare_adds_human_and_computer() {
    let c = prepared();
    let players = c.players();
    assert_eq!(players.len(), 2);
    assert_eq!(players[0].kind, PlayerKind::Human);
    assert_eq!(players[1].kind, PlayerKind::AI);
    assert_eq!(players[1].search_depth, 3);
    assert_eq!(players[1].search_rounds, 500);
    assert_eq!(c.game().grid[2], 2);
}

#[test]
fn human_selects_and_captures() {
    let mut c = prepared();
    c.next_player();
    assert!(c.state() == AppState::HumanTurn);
    // Select own pawn 5: its only move is the capture on square 16.
    c.piece_selected(5);
    assert_eq!(c.selected_piece_id(), Some(5));
    assert_eq!(c.move_indices(), &vec![16]);
    assert!(c.is_move_index(16));
    assert!(!c.is_move_index(17));
    // Click the enemy pawn on 16.
    c.piece_selected(8);
    assert!(c.state() == AppState::WaitingOnAnimation);
    assert_eq!(c.selected_piece_id(), None);
    assert_eq!(c.game().last_move, Some(Move(5, 16, true)));
    assert_eq!(c.node_history().len(), 1);
    assert_eq!(c.game().current_player, 1);
}

#[test]
fn human_moves_to_empty_square() {
    let mut c = prepared();
    c.next_player();
    c.piece_selected(2); // king
    assert_eq!(c.move_indices(), &vec![7, 8, 6]);
    c.square_selected(8);
    assert!(c.state() == AppState::WaitingOnAnimation);
    assert_eq!(c.game().piece_for(2).location_index, 8);
    assert_eq!(c.game().last_move, Some(Move(2, 8, false)));
}

#[test]
fn clicking_elsewhere_drops_selection() {
    let mut c = prepared();
    c.next_player();
    c.piece_selected(0);
    c.square_selected(20);
    assert!(c.state() == AppState::HumanTurn);
    assert_eq!(c.selected_piece_id(), None);
    assert_eq!(c.node_history().len(), 0);
    // Clicking an enemy piece out of reach only drops the selection.
    c.piece_selected(0);
    c.piece_selected(15);
    assert!(c.state() == AppState::HumanTurn);
    assert_eq!(c.selected_piece_id(), None);
}

#[test]
fn clicks_ignored_outside_human_turn() {
    let mut c = prepared();
    c.piece_selected(5);
    assert_eq!(c.selected_piece_id(), None);
    assert!(!c.reserve_selected(0));
    c.next_player();
    assert!(c.reserve_selected(0));
    assert!(!c.reserve_selected(1));
}

#[test]
fn computer_turn_round_trip() {
    let mut c = prepared();
    c.next_player();
    c.piece_selected(2);
    c.square_selected(8);
    c.set_state(AppState::NextPlayer);
    c.next_player();
    assert!(c.state() == AppState::AITurnBegin);
    let (player, game) = c.begin_ai_turn();
    assert!(c.state() == AppState::AIThinking);
    assert_eq!(player.id, 1);
    let mut ai = AIMinimax::new(game, 1);
    let progress = ai.think();
    c.search_completed(progress.best_node.unwrap());
    assert!(c.state() == AppState::WaitingOnAnimation);
    assert_eq!(c.node_history().len(), 2);
    assert_eq!(c.game().current_player, 0);
}

#[test]
fn settings_replace_players() {
    let mut c = prepared();
    let mut players = c.players().clone();
    players[0].kind = PlayerKind::AI;
    c.settings_started(players);
    assert!(c.state() == AppState::AITurnBegin);
    assert_eq!(c.game().state, GameState::Ongoing);
}

#[test]
fn find_node_locates_move() {
    let c = prepared();
    let node = c.find_node(4, 9).unwrap();
    assert_eq!(node.last_move, Some(Move(4, 9, false)));
    assert!(c.find_node(4, 20).is_none());
}

#[test]
fn menu_buttons_change_state() {
    let mut c = prepared();
    let before = c.state();
    c.menu_selected(BAR_ABOUT_ID);
    assert!(c.state() == before);
    c.menu_selected(BAR_RULES_ID);
    assert!(c.state() == AppState::Rules);
    c.menu_selected(BAR_SETTINGS_ID);
    assert!(c.state() == AppState::Settings);
    c.menu_selected(BAR_QUIT_ID);
    assert!(c.state() == AppState::Exit);
}

#[test]
fn animation_end_passes_turn() {
    let mut c = prepared();
    c.set_state(AppState::WaitingOnAnimation);
    c.animation_updated(true);
    assert!(c.state() == AppState::WaitingOnAnimation);
    c.animation_updated(false);
    assert!(c.state() == AppState::NextPlayer);
    c.animation_updated(false);
    assert!(c.state() == AppState::NextPlayer);
}

#[test]
fn decided_game_needs_no_players() {
    let mut c = prepared();
    let mut won = c.game();
    won.pieces[13].player = 0; // player 1 no longer owns a king
    assert!(won.is_well_formed());
    c.search_completed(won);
    c.settings_started(Vec::new());
    assert!(c.state() == AppState::Player0Won);
    c.next_player();
    assert!(c.state() == AppState::Player0Won);
}

#[test]
fn progress_text_of_moves() {
    let mut game = Game::new();
    game.prepare();
    let pv = vec![Move(5, 16, true), Move(8, 11, true), Move(2, 7, false)];
    assert_eq!(pv_text(&game, &pv), "Px16, Px11, K7");
    assert_eq!(pv_text(&game, &Vec::new()), "");
    assert_eq!(decimal_text(0), "0");
    assert_eq!(decimal_text(27), "27");
    assert_eq!(decimal_text(1000), "1000");
    assert_eq!(decimal_text(usize::MAX), usize::MAX.to_string());
}

#[test]
fn sender_spaces_updates() {
    assert!(should_send(None, None));
    assert!(should_send(None, Some(5)));
    assert!(should_send(Some(100), None));
    assert!(!should_send(Some(100), Some(100)));
    assert!(should_send(Some(100), Some(101)));
}

#[test]
fn well_formed_check() {
    let mut game = Game::new();
    assert!(game.is_well_formed());
    game.prepare();
    assert!(game.is_well_formed());
    let mut broken = game;
    broken.grid[10] = 3; // piece 3 stands on square 3
    assert!(!broken.is_well_formed());
    let mut broken = game;
    broken.current_player = 2;
    assert!(!broken.is_well_formed());
}
