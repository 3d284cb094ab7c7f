use mini_shogi::action::{Action, ActionKind};
use mini_shogi::board::Board;
use mini_shogi::game::{Coord, Game, GameLocation, GameState, Move, NONE};
use mini_shogi::piece::{Piece, PieceKind};

fn started() -> Game {
    let mut game = Game::new();
    game.prepare();
    game
}

#[test]
fn new_game_is_empty() {
    let game = Game::new();
    assert!(game.grid.iter().all(|id| *id == NONE));
    assert!(game.reserves.iter().all(|r| r.iter().all(|id| *id == NONE)));
    assert_eq!(game.current_player, 0);
    assert_eq!(game.state, GameState::Ongoing);
    assert!(game.last_move.is_none());
    assert!(game.pieces.iter().all(|p| p.location == GameLocation::OutOfGame));
}

#[test]
fn prepare_sets_up_starting_position() {
    let game = started();
    let expected = "SGKGS------PPP--ppp------sgkgs";
    let mut id = 0;
    for (index, c) in expected.chars().enumerate() {
        if c == '-' {
            assert_eq!(game.grid[index], NONE);
        } else {
            assert_eq!(game.grid[index], id);
            let piece = game.piece_for(id);
            assert_eq!(piece.location, GameLocation::Board);
            assert_eq!(piece.location_index, index);
            assert_eq!(piece.player, if c.is_uppercase() { 0 } else { 1 });
            assert_eq!(piece.string_rep(), c.to_uppercase().to_string());
            id += 1;
        }
    }
    assert_eq!(id, 16);
}

#[test]
fn index_conversions_round_trip() {
    assert_eq!(Game::column_row_to_index(3, 4), 23);
    assert_eq!(Game::index_to_column_row(23), (3, 4));
    for index in 0..30 {
        let (x, y) = Game::index_to_column_row(index);
        assert_eq!(Game::column_row_to_index(x, y), index);
    }
}

#[test]
fn opening_moves_of_player_0() {
    let game = started();
    assert_eq!(game.move_indices_for_piece(0), vec![5, 6]); // silver
    assert_eq!(game.move_indices_for_piece(1), vec![6, 7, 5]); // gold
    assert_eq!(game.move_indices_for_piece(2), vec![7, 8, 6]); // king
    assert_eq!(game.move_indices_for_piece(3), vec![8, 9, 7]); // gold
    assert_eq!(game.move_indices_for_piece(4), vec![9, 8]); // silver
    assert_eq!(game.move_indices_for_piece(5), vec![16]); // pawn captures
    assert_eq!(game.child_nodes(0).len(), 16);
}

#[test]
fn opening_moves_of_player_1_are_mirrored() {
    let game = started();
    // Player 1's silver in the corner (0, 5) moves down the board.
    assert_eq!(game.move_indices_for_piece(11), vec![20, 21]);
    assert_eq!(game.move_indices_for_piece(8), vec![11]);
    assert_eq!(game.child_nodes(1).len(), 16);
}

#[test]
fn capture_sends_piece_to_reserve_and_passes_turn() {
    let game = started();
    let nodes = game.child_nodes_for_piece(5);
    assert_eq!(nodes.len(), 1);
    let node = nodes[0];
    assert_eq!(node.current_player, 1);
    assert_eq!(node.last_move, Some(Move(5, 16, true)));
    assert_eq!(node.grid[11], NONE);
    assert_eq!(node.grid[16], 5);
    let captured = node.piece_for(8);
    assert_eq!(captured.player, 0);
    assert_eq!(captured.location, GameLocation::Reserve);
    assert_eq!(captured.location_index, 0);
    assert_eq!(node.reserves[0][0], 8);
    // Not yet in the promotion zone.
    assert_eq!(node.piece_for(5).kind, PieceKind::Pawn);
}

#[test]
fn dropped_pawn_avoids_own_pawn_columns_and_last_row() {
    let game = started();
    let after_capture = game.child_nodes_for_piece(5)[0];
    // Player 1 answers with its silver; then player 0 may drop the captured pawn.
    let after_reply = after_capture.child_nodes_for_piece(11)[0];
    assert_eq!(after_reply.current_player, 0);
    let drops = after_reply.move_indices_for_piece(8);
    // Player 0 has pawns in columns 1 (square 16), 2 and 3; the last row (25..30) is barred.
    for index in &drops {
        assert_eq!(after_reply.grid[*index], NONE);
        let column = index % 5;
        assert!(column == 0 || column == 4);
        assert!(*index < 25);
    }
    assert!(drops.contains(&5) && drops.contains(&24) && drops.contains(&9));
    // A dropped piece does not promote even in the promotion zone.
    let dropped = after_reply.child_nodes_for_piece(8);
    let in_zone = dropped.iter().find(|g| g.piece_for(8).location_index == 24).unwrap();
    assert_eq!(in_zone.piece_for(8).kind, PieceKind::Pawn);
    assert_eq!(in_zone.reserves[0][0], NONE);
}

#[test]
fn non_pawn_drop_goes_to_any_empty_square() {
    let mut game = started();
    // Take player 1's gold (id 12) off the board into player 0's reserve.
    game.grid[26] = NONE;
    game.pieces[12].player = 0;
    game.pieces[12].location = GameLocation::Reserve;
    game.pieces[12].location_index = 0;
    game.reserves[0][0] = 12;
    let drops = game.move_indices_for_piece(12);
    let empties: Vec<usize> = (0..30).filter(|i| game.grid[*i] == NONE).collect();
    assert_eq!(drops, empties);
}

#[test]
fn promotion_in_far_rows() {
    let mut game = started();
    // Move player 0's pawn (id 6) next to the promotion zone: onto square 15.
    game.grid[12] = NONE;
    game.grid[15] = 6;
    game.pieces[6].location_index = 15;
    let moves = game.move_indices_for_piece(6);
    assert_eq!(moves, vec![20]);
    let node = game.child_nodes_for_piece(6)[0];
    assert_eq!(node.piece_for(6).kind, PieceKind::PawnPro);
    assert_eq!(node.piece_for(6).location_index, 20);
}

#[test]
fn captured_promoted_piece_is_demoted() {
    let mut game = started();
    // Player 1's pawn at 16 is promoted, and player 0's pawn at 11 takes it.
    game.pieces[8].kind = PieceKind::PawnPro;
    let node = game.child_nodes_for_piece(5)[0];
    assert_eq!(node.piece_for(8).kind, PieceKind::Pawn);
    assert_eq!(node.piece_for(8).player, 0);
}

#[test]
fn win_when_opponent_has_no_king() {
    let mut game = started();
    assert_eq!(*game.update_state(), GameState::Ongoing);
    // Player 1's king (id 13) changes sides, as when captured.
    game.pieces[13].player = 0;
    assert_eq!(*game.update_state(), GameState::WinPlayer0);
    assert_eq!(game.state, GameState::WinPlayer0);
    let mut game = started();
    game.pieces[2].player = 1;
    assert_eq!(*game.update_state(), GameState::WinPlayer1);
}

#[test]
fn next_player_alternates() {
    let mut game = started();
    game.next_player();
    assert_eq!(game.current_player, 1);
    game.next_player();
    assert_eq!(game.current_player, 0);
}

#[test]
fn create_piece_from_characters() {
    let p = Game::create_piece('g', 7);
    assert_eq!(p.id, 7);
    assert_eq!(p.kind, PieceKind::Gold);
    assert_eq!(p.player, 1);
    assert_eq!(p.location, GameLocation::OutOfGame);
    assert_eq!(p.location_index, usize::MAX);
    let p = Game::create_piece('P', 3);
    assert_eq!((p.kind, p.player), (PieceKind::Pawn, 0));
}

#[test]
fn piece_vectors_and_promotions() {
    let king = Piece::new(0, PieceKind::King, 0);
    assert_eq!(king.short_move_vectors().len(), 8);
    let silver0 = Piece::new(0, PieceKind::Silver, 0);
    let silver1 = Piece::new(1, PieceKind::Silver, 1);
    let flipped: Vec<(i8, i8)> = silver0.short_move_vectors().iter().map(|v| (v.0, -v.1)).collect();
    assert_eq!(silver1.short_move_vectors(), flipped);
    assert_eq!(Piece::new(0, PieceKind::Pawn, 1).short_move_vectors(), vec![(0, -1)]);
    let rook = Piece::new(0, PieceKind::Rook, 0);
    assert!(rook.short_move_vectors().is_empty());
    assert_eq!(rook.long_move_vectors(), vec![(1, 0), (0, 1), (-1, 0), (0, -1)]);
    assert_eq!(Piece::new(0, PieceKind::BishopPro, 0).short_move_vectors(), vec![(1, 0), (0, 1), (-1, 0), (0, -1)]);
    assert!(Piece::new(0, PieceKind::Gold, 0).long_move_vectors().is_empty());
    for kind in [PieceKind::Silver, PieceKind::Rook, PieceKind::Bishop, PieceKind::Pawn] {
        let promoted = Piece::new(0, kind, 0).promotion_kind().unwrap();
        assert_eq!(Piece::new(0, promoted, 0).demotion_kind(), Some(kind));
    }
    assert_eq!(Piece::new(0, PieceKind::King, 0).promotion_kind(), None);
    assert_eq!(Piece::new(0, PieceKind::Gold, 0).demotion_kind(), None);
    assert_eq!(Piece::new(0, PieceKind::RookPro, 0).string_rep(), "R+");
}

#[test]
fn sliding_pieces_stop_at_pieces() {
    let mut game = started();
    // Turn player 0's gold at square 1 into a rook.
    game.pieces[1].kind = PieceKind::Rook;
    // Right: own king; up: 6, 11 is own pawn? no: column 1 has pawn at 11 -> stops at 6.
    // Left: own silver. Down: off the board.
    assert_eq!(game.move_indices_for_piece(1), vec![6]);
    game.pieces[1].kind = PieceKind::Bishop;
    // Up-right: 7, 13 own pawn stops. Up-left: 5, then off the board.
    assert_eq!(game.move_indices_for_piece(1), vec![7, 5]);
}

#[test]
fn board_add_read_remove() {
    let mut board = Board::new(5, 6);
    assert!(board.piece_ids.is_empty());
    board.prepare();
    assert_eq!(board.piece_ids.len(), 30);
    let coord = Coord { x: 2, y: 3 };
    assert_eq!(coord.to_index(5), 17);
    assert_eq!(Coord::from_index(17, 5), coord);
    assert_eq!(board.piece_id_at(&coord), None);
    board.add_piece_id(4, &coord);
    assert_eq!(board.piece_id_at(&coord), Some(4));
    assert_eq!(board.empty_coords().len(), 29);
    let pieces: Vec<Piece> = (0..5).map(|i| Piece::new(i, PieceKind::Pawn, i % 2)).collect();
    assert!(board.is_player_piece_at(&coord, 0, &pieces));
    assert!(!board.is_player_piece_at(&coord, 1, &pieces));
    assert_eq!(board.remove_piece_id(&coord), Some(4));
    assert_eq!(board.piece_id_at(&coord), None);
    assert_eq!(board.remove_piece_id(&coord), None);
    let empties = board.empty_coords();
    assert_eq!(empties.len(), 30);
    assert_eq!(empties[7], Coord { x: 2, y: 1 });
}

#[test]
fn action_undo_round_trip() {
    let from = Coord { x: 1, y: 1 };
    let to = Coord { x: 1, y: 2 };
    let a = Action::new(ActionKind::MoveNoCapture, 3, Some(from), to, None, None);
    let u = a.undo();
    assert_eq!(u.from, Some(to));
    assert_eq!(u.to, from);
    let uu = u.undo();
    assert_eq!(uu.from, Some(from));
    assert_eq!(uu.to, to);
    let r = Action::new(ActionKind::FromReserve, 3, None, to, None, Some(2));
    let ru = r.undo();
    assert!(matches!(ru.kind, ActionKind::ToReserve));
    assert!(matches!(ru.undo().kind, ActionKind::FromReserve));
    assert_eq!(ru.reserve_index, Some(2));
}

#[test]
fn starting_position_is_undecided() {
    let mut game = started();
    assert_eq!(game.pieces[2].kind, PieceKind::King);
    assert_eq!(game.pieces[2].player, 0);
    assert_eq!(game.pieces[2].location_index, 2);
    assert_eq!(game.pieces[13].kind, PieceKind::King);
    assert_eq!(game.pieces[13].player, 1);
    assert_eq!(game.pieces[13].location_index, 27);
    assert_eq!(*game.update_state(), GameState::Ongoing);
}

#[test]
fn moves_keep_every_piece_placed_once() {
    let game = started();
    for node in game.child_nodes(0).iter().chain(game.child_nodes(1).iter()) {
        let mut seen = vec![0usize; 16];
        for id in node.grid.iter().chain(node.reserves[0].iter()).chain(node.reserves[1].iter()) {
            if *id != NONE {
                seen[*id] += 1;
            }
        }
        assert!(seen.iter().all(|n| *n == 1));
    }
}
