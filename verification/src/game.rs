//! The game state: pieces, the 5x6 grid, the two reserves, and the rules that
//! generate moves, make them, and decide the outcome.

use vstd::prelude::*;
use std::collections::HashSet;
use crate::piece::{
    Piece, PieceKind, short_vectors, long_vectors, is_unit_step, lemma_vectors_are_unit_steps, promoted, demoted,
    step_rule, lemma_short_vectors_rule,
};
use vstd::array::spec_array_update;

verus! {

broadcast use vstd::std_specs::hash::group_hash_axioms;

pub const COLS: usize = 5;
pub const ROWS: usize = 6;
pub const GRID_COUNT: usize = 30;
pub const PIECES_PER_PLAYER: usize = 8;

/// Marks an empty grid square or reserve slot.
pub const NONE: usize = usize::MAX;

#[derive(Clone, Copy, Debug, Eq, Hash, PartialEq, Structural)]
pub enum GameState {
    Ongoing,
    Draw,
    WinPlayer0,
    WinPlayer1,
}

#[derive(Debug, Clone, Copy, PartialEq, Eq, Hash, Structural)]
pub enum GameLocation {
    OutOfGame,
    Board,
    Reserve,
}

/// A move as recorded in `Game::last_move`: piece id, destination grid index,
/// and whether it captured.
#[derive(Debug, Clone, Copy, PartialEq, Eq, Hash, Structural)]
pub struct Move(pub usize, pub usize, pub bool);

/// A grid coordinate: column `x`, row `y`.
#[derive(Debug, Clone, Copy, PartialEq, Eq, Hash, Structural)]
pub struct Coord {
    pub x: usize,
    pub y: usize,
}

impl Coord {
    /// The coordinate of a row-major index on a grid of `columns` columns.
    pub fn from_index(index: usize, columns: usize) -> (r: Coord)
        requires
            columns > 0,
        ensures
            r.x == index % columns,
            r.y == index / columns,
    {
        Coord { x: index % columns, y: index / columns }
    }

    /// The row-major index of the coordinate on a grid of `columns` columns.
    pub fn to_index(&self, columns: usize) -> (r: usize)
        requires
            self.y * columns + self.x <= usize::MAX,
        ensures
            r == self.y * columns + self.x,
    {
        self.y * columns + self.x
    }
}

/// The game. It owns all the pieces; the grid and the reserves hold piece ids
/// (or `NONE`).
#[derive(Clone, Copy, Debug, Hash)]
pub struct Game {
    pub pieces: [Piece; 16],
    pub grid: [usize; 30],
    pub reserves: [[usize; 15]; 2],
    pub current_player: usize,
    pub state: GameState,
    pub last_move: Option<Move>,
}

// ---------------------------------------------------------------------------
// The model of a game.

/// The grid index of column `x`, row `y`.
pub open spec fn grid_index(x: int, y: int) -> int {
    y * 5 + x
}

pub open spec fn in_bounds(x: int, y: int) -> bool {
    0 <= x < 5 && 0 <= y < 6
}

/// The grid, the reserves and the pieces agree: every piece on the board or in
/// a reserve is found where its location says, under its own id, and every
/// occupied square or slot names such a piece.
pub open spec fn wf(g: Game) -> bool {
    &&& g.current_player <= 1
    &&& forall|i: int| 0 <= i < 16 ==> (#[trigger] g.pieces[i]).player <= 1 && g.pieces[i].id < 16
    &&& forall|i: int| 0 <= i < 16 && (#[trigger] g.pieces[i]).location != GameLocation::OutOfGame
        ==> g.pieces[i].id == i
    &&& forall|i: int| 0 <= i < 16 && (#[trigger] g.pieces[i]).location == GameLocation::Board
        ==> g.pieces[i].location_index < 30 && g.grid[g.pieces[i].location_index as int] == i
    &&& forall|i: int| 0 <= i < 16 && (#[trigger] g.pieces[i]).location == GameLocation::Reserve
        ==> g.pieces[i].location_index < 15
            && g.reserves[g.pieces[i].player as int][g.pieces[i].location_index as int] == i
    &&& forall|j: int| 0 <= j < 30 && #[trigger] g.grid[j] != NONE
        ==> g.grid[j] < 16 && g.pieces[g.grid[j] as int].location == GameLocation::Board
            && g.pieces[g.grid[j] as int].location_index == j
    &&& forall|p: int, k: int| 0 <= p < 2 && 0 <= k < 15 && #[trigger] g.reserves[p][k] != NONE
        ==> g.reserves[p][k] < 16
            && g.pieces[g.reserves[p][k] as int].location == GameLocation::Reserve
            && g.pieces[g.reserves[p][k] as int].player == p
            && g.pieces[g.reserves[p][k] as int].location_index == k
}

/// The indices a game holds are in range: the player to move and each owner
/// is 0 or 1, each id names one of the 16 pieces, a piece on the board or in a
/// reserve has a square or a slot, and every occupied square names a piece.
/// (`wf` asks in addition that the grid, the reserves and the pieces agree.)
pub open spec fn indices_in_range(g: Game) -> bool {
    &&& g.current_player <= 1
    &&& forall|i: int| 0 <= i < 16 ==> {
        &&& (#[trigger] g.pieces[i]).player <= 1
        &&& g.pieces[i].id < 16
        &&& g.pieces[i].location == GameLocation::Board ==> g.pieces[i].location_index < 30
        &&& g.pieces[i].location == GameLocation::Reserve ==> g.pieces[i].location_index < 15
    }
    &&& forall|j: int| 0 <= j < 30 && #[trigger] g.grid[j] != NONE ==> g.grid[j] < 16
}

/// Piece `i` agrees with the grid and the reserves (the piece part of `wf`).
pub open spec fn piece_agrees(g: Game, i: int) -> bool {
    &&& g.pieces[i].player <= 1 && g.pieces[i].id < 16
    &&& g.pieces[i].location != GameLocation::OutOfGame ==> g.pieces[i].id == i
    &&& g.pieces[i].location == GameLocation::Board
        ==> g.pieces[i].location_index < 30 && g.grid[g.pieces[i].location_index as int] == i
    &&& g.pieces[i].location == GameLocation::Reserve
        ==> g.pieces[i].location_index < 15
            && g.reserves[g.pieces[i].player as int][g.pieces[i].location_index as int] == i
}

/// Grid square `j` agrees with the pieces (the grid part of `wf`).
pub open spec fn square_agrees(g: Game, j: int) -> bool {
    g.grid[j] != NONE ==> g.grid[j] < 16 && g.pieces[g.grid[j] as int].location == GameLocation::Board
        && g.pieces[g.grid[j] as int].location_index == j
}

/// Reserve slot `k` of player `p` agrees with the pieces (the reserve part of `wf`).
pub open spec fn slot_agrees(g: Game, p: int, k: int) -> bool {
    g.reserves[p][k] != NONE ==> g.reserves[p][k] < 16
        && g.pieces[g.reserves[p][k] as int].location == GameLocation::Reserve
        && g.pieces[g.reserves[p][k] as int].player == p
        && g.pieces[g.reserves[p][k] as int].location_index == k
}

/// A game is well formed exactly when the player to move is 0 or 1 and every
/// piece, square and reserve slot agrees.
pub proof fn lemma_agrees_wf(g: Game)
    ensures
        wf(g) <==> g.current_player <= 1 && (forall|i: int| 0 <= i < 16 ==> piece_agrees(g, i))
            && (forall|j: int| 0 <= j < 30 ==> square_agrees(g, j))
            && (forall|p: int, k: int| 0 <= p < 2 && 0 <= k < 15 ==> slot_agrees(g, p, k)),
{
    if wf(g) {
        assert forall|i: int| 0 <= i < 16 implies piece_agrees(g, i) by {
            assert(g.pieces[i] == g.pieces[i]);
        }
        assert forall|j: int| 0 <= j < 30 implies square_agrees(g, j) by {
            if g.grid[j] != NONE {
                assert(g.grid[j] != NONE);
            }
        }
        assert forall|p: int, k: int| 0 <= p < 2 && 0 <= k < 15 implies slot_agrees(g, p, k) by {
            if g.reserves[p][k] != NONE {
                assert(g.reserves[p][k] != NONE);
            }
        }
    }
    if g.current_player <= 1 && (forall|i: int| 0 <= i < 16 ==> piece_agrees(g, i))
        && (forall|j: int| 0 <= j < 30 ==> square_agrees(g, j))
        && (forall|p: int, k: int| 0 <= p < 2 && 0 <= k < 15 ==> slot_agrees(g, p, k)) {
        assert forall|i: int| 0 <= i < 16 implies (#[trigger] g.pieces[i]).player <= 1 && g.pieces[i].id < 16 by {
            assert(piece_agrees(g, i));
        }
        assert forall|i: int| 0 <= i < 16 && (#[trigger] g.pieces[i]).location != GameLocation::OutOfGame
            implies g.pieces[i].id == i by {
            assert(piece_agrees(g, i));
        }
        assert forall|i: int| 0 <= i < 16 && (#[trigger] g.pieces[i]).location == GameLocation::Board
            implies g.pieces[i].location_index < 30 && g.grid[g.pieces[i].location_index as int] == i by {
            assert(piece_agrees(g, i));
        }
        assert forall|i: int| 0 <= i < 16 && (#[trigger] g.pieces[i]).location == GameLocation::Reserve
            implies g.pieces[i].location_index < 15
                && g.reserves[g.pieces[i].player as int][g.pieces[i].location_index as int] == i by {
            assert(piece_agrees(g, i));
        }
        assert forall|j: int| 0 <= j < 30 && #[trigger] g.grid[j] != NONE
            implies g.grid[j] < 16 && g.pieces[g.grid[j] as int].location == GameLocation::Board
                && g.pieces[g.grid[j] as int].location_index == j by {
            assert(square_agrees(g, j));
        }
        assert forall|p: int, k: int| 0 <= p < 2 && 0 <= k < 15 && #[trigger] g.reserves[p][k] != NONE
            implies g.reserves[p][k] < 16
                && g.pieces[g.reserves[p][k] as int].location == GameLocation::Reserve
                && g.pieces[g.reserves[p][k] as int].player == p
                && g.pieces[g.reserves[p][k] as int].location_index == k by {
            assert(slot_agrees(g, p, k));
        }
    }
}

/// The owner of the piece on grid square `j`, if any.
pub open spec fn owner_at(g: Game, j: int) -> Option<usize> {
    if g.grid[j] != NONE {
        Some(g.pieces[g.grid[j] as int].player)
    } else {
        None
    }
}

/// What a move of `player` onto (x, y) meets: -1 when it leaves the board or
/// lands on the player's own piece, 0 on an empty square, 1 on an enemy piece.
pub open spec fn probe(g: Game, player: usize, x: int, y: int) -> int {
    if !in_bounds(x, y) {
        -1
    } else {
        match owner_at(g, grid_index(x, y)) {
            None => 0,
            Some(p) => if p == player { -1 } else { 1 },
        }
    }
}

/// The destinations of the single-space vectors `vs` from (x0, y0), in order.
pub open spec fn short_moves(g: Game, player: usize, x0: int, y0: int, vs: Seq<(i8, i8)>) -> Seq<usize>
    decreases vs.len(),
{
    if vs.len() == 0 {
        seq![]
    } else {
        let v = vs.last();
        let rest = short_moves(g, player, x0, y0, vs.drop_last());
        if probe(g, player, x0 + v.0, y0 + v.1) != -1 {
            rest.push(grid_index(x0 + v.0, y0 + v.1) as usize)
        } else {
            rest
        }
    }
}

/// How many steps of (dx, dy) lead from (x, y) to the edge of the board.
pub open spec fn steps_to_edge(x: int, y: int, dx: int, dy: int) -> int {
    if dx == 1 {
        4 - x
    } else if dx == -1 {
        x
    } else if dy == 1 {
        5 - y
    } else if dy == -1 {
        y
    } else {
        0
    }
}

/// The squares a slide from (x, y) in direction (dx, dy) reaches: empty squares
/// up to and including the first enemy piece, stopping before the player's own
/// piece or the edge.
pub open spec fn ray(g: Game, player: usize, x: int, y: int, dx: int, dy: int) -> Seq<usize>
    decreases steps_to_edge(x, y, dx, dy),
{
    let nx = x + dx;
    let ny = y + dy;
    if !(-1 <= dx <= 1 && -1 <= dy <= 1 && (dx != 0 || dy != 0)) || !in_bounds(x, y) {
        seq![]
    } else {
        let r = probe(g, player, nx, ny);
        if r == -1 {
            seq![]
        } else if r == 1 {
            seq![grid_index(nx, ny) as usize]
        } else {
            seq![grid_index(nx, ny) as usize] + ray(g, player, nx, ny, dx, dy)
        }
    }
}

/// The slides along each of the vectors `vs` from (x0, y0), one after another.
pub open spec fn long_moves(g: Game, player: usize, x0: int, y0: int, vs: Seq<(i8, i8)>) -> Seq<usize>
    decreases vs.len(),
{
    if vs.len() == 0 {
        seq![]
    } else {
        let v = vs.last();
        long_moves(g, player, x0, y0, vs.drop_last()) + ray(g, player, x0, y0, v.0 as int, v.1 as int)
    }
}

/// The empty squares among the first `n`, in increasing order.
pub open spec fn empties(g: Game, n: int) -> Seq<usize>
    decreases n,
{
    if n <= 0 {
        seq![]
    } else if g.grid[n - 1] == NONE {
        empties(g, n - 1).push((n - 1) as usize)
    } else {
        empties(g, n - 1)
    }
}

/// The player has a pawn on the board in column `c`.
pub open spec fn pawn_in_column(g: Game, player: usize, c: int) -> bool {
    exists|i: int|
        0 <= i < 16 && (#[trigger] g.pieces[i]).player == player
            && g.pieces[i].location == GameLocation::Board && g.pieces[i].kind == PieceKind::Pawn
            && g.pieces[i].location_index % 5 == c
}

/// An empty square `j` may receive a dropped pawn of the player: not on the
/// player's last row, and not in a column where the player has a pawn.
pub open spec fn pawn_drop_allowed(g: Game, player: usize, j: int) -> bool {
    &&& !(player == 0 && j >= 25)
    &&& !(player == 1 && j < 5)
    &&& !pawn_in_column(g, player, j % 5)
}

/// The squares among `es` where a pawn of the player may be dropped.
pub open spec fn pawn_drops(g: Game, player: usize, es: Seq<usize>) -> Seq<usize>
    decreases es.len(),
{
    if es.len() == 0 {
        seq![]
    } else if pawn_drop_allowed(g, player, es.last() as int) {
        pawn_drops(g, player, es.drop_last()).push(es.last())
    } else {
        pawn_drops(g, player, es.drop_last())
    }
}

/// The grid indices the piece `id` may move to, in the order they are found:
/// from the board its single-space moves then its slides; from the reserve the
/// empty squares (for a pawn, those where it may be dropped).
pub open spec fn move_indices(g: Game, id: int) -> Seq<usize> {
    let piece = g.pieces[id];
    match piece.location {
        GameLocation::Board => {
            let x0 = piece.location_index as int % 5;
            let y0 = piece.location_index as int / 5;
            short_moves(g, piece.player, x0, y0, short_vectors(piece.kind, piece.player))
                + long_moves(g, piece.player, x0, y0, long_vectors(piece.kind))
        },
        GameLocation::Reserve => {
            if piece.kind != PieceKind::Pawn {
                empties(g, 30)
            } else {
                pawn_drops(g, piece.player, empties(g, 30))
            }
        },
        GameLocation::OutOfGame => seq![],
    }
}

/// The first free slot of a reserve, at or after `k`.
pub open spec fn first_free(r: [usize; 15], k: int) -> Option<usize>
    decreases 15 - k,
{
    if k >= 15 || k < 0 {
        None
    } else if r[k] == NONE {
        Some(k as usize)
    } else {
        first_free(r, k + 1)
    }
}

/// Column and row give back the grid index, and the grid index gives back the
/// column and row.
pub proof fn lemma_index_round_trip(x: int, y: int, i: int)
    requires
        0 <= x < 5,
        0 <= y,
        0 <= i,
    ensures
        (y * 5 + x) % 5 == x,
        (y * 5 + x) / 5 == y,
        (i / 5) * 5 + i % 5 == i,
{
    assert((y * 5 + x) % 5 == x && (y * 5 + x) / 5 == y) by (nonlinear_arith)
        requires
            0 <= x < 5,
            0 <= y,
    ;
    assert((i / 5) * 5 + i % 5 == i) by (nonlinear_arith)
        requires
            0 <= i,
    ;
}

/// The first free slot is free and in range, and every slot before it is taken;
/// when there is none, every slot from `k` on is taken.
pub proof fn lemma_first_free(r: [usize; 15], k: int)
    requires
        0 <= k,
    ensures
        first_free(r, k) matches Some(j) ==> k <= j < 15 && r[j as int] == NONE
            && forall|m: int| k <= m < j ==> r[m] != NONE,
        first_free(r, k) is None ==> forall|m: int| k <= m < 15 ==> r[m] != NONE,
    decreases 15 - k,
{
    if k < 15 && r[k] != NONE {
        lemma_first_free(r, k + 1);
    }
}

/// The squares where a player's pieces promote: the far two rows.
pub open spec fn promotion_zone(player: usize, j: int) -> bool {
    if player == 0 {
        j >= 20
    } else {
        j < 10
    }
}

/// The piece `cap` captured by `player`: it changes sides, reverts to its
/// unpromoted kind, and goes to the player's first free reserve slot (keeping
/// its old index when there is none).
pub open spec fn capture(g: Game, cap: int, player: usize) -> Game {
    let c = g.pieces[cap];
    let kind = match demoted(c.kind) {
        Some(k) => k,
        None => c.kind,
    };
    let taken = Piece { player: player, location: GameLocation::Reserve, kind: kind, ..c };
    match first_free(g.reserves[player as int], 0) {
        Some(k) => Game {
            pieces: spec_array_update(g.pieces, cap, Piece { location_index: k, ..taken }),
            reserves: spec_array_update(
                g.reserves,
                player as int,
                spec_array_update(g.reserves[player as int], k as int, cap as usize),
            ),
            ..g
        },
        None => Game { pieces: spec_array_update(g.pieces, cap, taken), ..g },
    }
}

/// The game after piece `id` moves to grid square `to`: any piece there is
/// captured, the mover leaves its square or reserve slot, lands on `to`,
/// promotes when it moved on the board into its promotion zone, the move is
/// recorded and the turn passes.
pub open spec fn make_move_result(g: Game, id: int, to: int) -> Game {
    let player = g.pieces[id].player;
    let cap = g.grid[to];
    let g1 = if cap != NONE { capture(g, cap as int, player) } else { g };
    let from = g1.pieces[id];
    let g2 = if from.location == GameLocation::Board {
        Game { grid: spec_array_update(g1.grid, from.location_index as int, NONE), ..g1 }
    } else {
        Game {
            reserves: spec_array_update(
                g1.reserves,
                player as int,
                spec_array_update(g1.reserves[player as int], from.location_index as int, NONE),
            ),
            ..g1
        }
    };
    let placed = Piece { location: GameLocation::Board, location_index: to as usize, ..g2.pieces[id] };
    let kind = if from.location == GameLocation::Board && promotion_zone(player, to) {
        match promoted(placed.kind) {
            Some(k) => k,
            None => placed.kind,
        }
    } else {
        placed.kind
    };
    Game {
        grid: spec_array_update(g2.grid, to, id as usize),
        pieces: spec_array_update(g2.pieces, id, Piece { kind: kind, ..placed }),
        last_move: Some(Move(id as usize, to as usize, cap != NONE)),
        current_player: (1 - g.current_player) as usize,
        ..g2
    }
}

/// The ids of the player's pieces among the first `n`, in order.
pub open spec fn pieces_ids(g: Game, player: usize, n: int) -> Seq<usize>
    decreases n,
{
    if n <= 0 {
        seq![]
    } else if g.pieces[n - 1].player == player {
        pieces_ids(g, player, n - 1).push(g.pieces[n - 1].id)
    } else {
        pieces_ids(g, player, n - 1)
    }
}

/// The games reached by each move of piece `id`, in the order of its moves.
pub open spec fn children_for_piece(g: Game, id: int) -> Seq<Game> {
    move_indices(g, id).map_values(|to: usize| make_move_result(g, id, to as int))
}

/// The games reached by the moves of each piece of `ids`, one piece after another.
pub open spec fn children_of(g: Game, ids: Seq<usize>) -> Seq<Game>
    decreases ids.len(),
{
    if ids.len() == 0 {
        seq![]
    } else {
        children_of(g, ids.drop_last()) + children_for_piece(g, ids.last() as int)
    }
}

/// Every game the player can reach in one move (the child nodes of the search).
pub open spec fn children(g: Game, player: usize) -> Seq<Game> {
    children_of(g, pieces_ids(g, player, 16))
}

/// The first king of `player` among the pieces from index `i` on, by id.
pub open spec fn first_king(g: Game, player: usize, i: int) -> Option<usize>
    decreases 16 - i,
{
    if i >= 16 || i < 0 {
        None
    } else if g.pieces[i].player == player && g.pieces[i].kind == PieceKind::King {
        Some(g.pieces[i].id)
    } else {
        first_king(g, player, i + 1)
    }
}

/// The player still owns a king (a captured king changes sides).
pub open spec fn has_king(g: Game, player: usize) -> bool {
    exists|i: int| 0 <= i < 16 && (#[trigger] g.pieces[i]).player == player && g.pieces[i].kind == PieceKind::King
}

/// The outcome of a position: a player wins once the other player owns no king.
pub open spec fn outcome(g: Game) -> GameState {
    if !has_king(g, 1) {
        GameState::WinPlayer0
    } else if !has_king(g, 0) {
        GameState::WinPlayer1
    } else {
        GameState::Ongoing
    }
}

/// A fresh game: every piece is a placeholder out of the game, the grid and the
/// reserves are empty, player 0 is to move.
pub open spec fn is_fresh(g: Game) -> bool {
    &&& forall|i: int| 0 <= i < 16 ==> #[trigger] g.pieces[i] == Piece {
        id: 0,
        kind: PieceKind::Pawn,
        player: 0,
        location: GameLocation::OutOfGame,
        location_index: usize::MAX,
    }
    &&& forall|j: int| 0 <= j < 30 ==> #[trigger] g.grid[j] == NONE
    &&& forall|p: int, k: int| 0 <= p < 2 && 0 <= k < 15 ==> #[trigger] g.reserves[p][k] == NONE
    &&& g.current_player == 0
    &&& g.state == GameState::Ongoing
    &&& g.last_move is None
}

/// The kind and owner a character of a position string stands for: upper case
/// for player 0, lower case for player 1.
pub open spec fn char_piece(c: char) -> Option<(PieceKind, usize)> {
    if c == 'K' {
        Some((PieceKind::King, 0usize))
    } else if c == 'G' {
        Some((PieceKind::Gold, 0usize))
    } else if c == 'S' {
        Some((PieceKind::Silver, 0usize))
    } else if c == 'P' {
        Some((PieceKind::Pawn, 0usize))
    } else if c == 'k' {
        Some((PieceKind::King, 1usize))
    } else if c == 'g' {
        Some((PieceKind::Gold, 1usize))
    } else if c == 's' {
        Some((PieceKind::Silver, 1usize))
    } else if c == 'p' {
        Some((PieceKind::Pawn, 1usize))
    } else {
        None
    }
}

/// The number of pieces in the first `n` characters of a position string.
pub open spec fn count_pieces(s: Seq<char>, n: int) -> int
    decreases n,
{
    if n <= 0 {
        0
    } else if s[n - 1] != '-' {
        count_pieces(s, n - 1) + 1
    } else {
        count_pieces(s, n - 1)
    }
}

/// A position string: one character per grid square, `-` for an empty square,
/// at most 16 pieces.
pub open spec fn valid_position(s: Seq<char>) -> bool {
    &&& s.len() <= 30
    &&& forall|i: int| 0 <= i < s.len() ==> (#[trigger] s[i] == '-' || char_piece(s[i]) is Some)
    &&& count_pieces(s, s.len() as int) <= 16
}

/// The game after the first `n` characters of `s` are set up: the k-th piece
/// of the string gets id k and stands on the square of its character.
pub open spec fn setup(g: Game, s: Seq<char>, n: int) -> Game
    decreases n,
{
    if n <= 0 {
        g
    } else {
        let prev = setup(g, s, n - 1);
        let c = s[n - 1];
        if c == '-' {
            prev
        } else {
            let id = count_pieces(s, n - 1);
            let (kind, player) = char_piece(c).unwrap();
            let piece = Piece {
                id: id as usize,
                kind: kind,
                player: player,
                location: GameLocation::Board,
                location_index: (n - 1) as usize,
            };
            Game {
                pieces: spec_array_update(prev.pieces, id, piece),
                grid: spec_array_update(prev.grid, n - 1, id as usize),
                ..prev
            }
        }
    }
}

/// The position the game starts from, row 0 first: player 0's back row, three
/// pawns each, player 1's back row.
pub open spec fn starting_position() -> Seq<char> {
    "SGKGS------PPP--ppp------sgkgs"@
}

/// Counting pieces over a longer prefix never gives fewer.
pub proof fn lemma_count_pieces_monotone(s: Seq<char>, m: int, n: int)
    requires
        0 <= m <= n,
    ensures
        0 <= count_pieces(s, m) <= count_pieces(s, n),
    decreases n,
{
    if m < n {
        lemma_count_pieces_monotone(s, m, n - 1);
    } else if m > 0 {
        lemma_count_pieces_monotone(s, m - 1, m - 1);
    }
}

/// Setting up a valid position on a fresh game gives a well-formed game: the
/// set-up prefix is placed, the rest of the grid and every later piece untouched.
pub proof fn lemma_setup_wf(g: Game, s: Seq<char>, n: int)
    requires
        is_fresh(g),
        valid_position(s),
        0 <= n <= s.len(),
    ensures
        wf(setup(g, s, n)),
        forall|j: int| n <= j < 30 ==> #[trigger] setup(g, s, n).grid[j] == NONE,
        forall|i: int| count_pieces(s, n) <= i < 16 ==> #[trigger] setup(g, s, n).pieces[i] == g.pieces[i],
        setup(g, s, n).reserves == g.reserves,
        setup(g, s, n).current_player == 0,
        setup(g, s, n).state == g.state,
        setup(g, s, n).last_move == g.last_move,
    decreases n,
{
    if n > 0 {
        lemma_setup_wf(g, s, n - 1);
        lemma_count_pieces_monotone(s, n, s.len() as int);
        let prev = setup(g, s, n - 1);
        let r = setup(g, s, n);
        if s[n - 1] != '-' {
            let id = count_pieces(s, n - 1);
            lemma_count_pieces_monotone(s, n - 1, n - 1);
            assert(count_pieces(s, n) == id + 1);
            assert(count_pieces(s, s.len() as int) <= 16);
            assert(0 <= id < 16);
            assert(prev.pieces[id] == g.pieces[id]);
            assert(prev.grid[n - 1] == NONE);
            assert forall|i: int| 0 <= i < 16 && (#[trigger] r.pieces[i]).location == GameLocation::Board
                implies r.pieces[i].location_index < 30 && r.grid[r.pieces[i].location_index as int] == i by {
                if i != id {
                    assert(prev.pieces[i].location == GameLocation::Board);
                }
            }
            assert forall|j: int| 0 <= j < 30 && #[trigger] r.grid[j] != NONE
                implies r.grid[j] < 16 && r.pieces[r.grid[j] as int].location == GameLocation::Board
                    && r.pieces[r.grid[j] as int].location_index == j by {
                if j != n - 1 {
                    assert(prev.grid[j] != NONE);
                    assert(prev.grid[j] != id);
                }
            }
            assert(wf(r));
        }
    }
}

/// A fresh game set up at the starting position is well formed.
pub proof fn lemma_starting_position_wf(g: Game)
    requires
        is_fresh(g),
    ensures
        wf(setup(g, starting_position(), 30)),
{
    reveal_strlit("SGKGS------PPP--ppp------sgkgs");
    reveal_with_fuel(count_pieces, 31);
    let s = starting_position();
    assert(count_pieces(s, 30) == 16);
    assert(valid_position(s));
    lemma_setup_wf(g, s, 30);
}

/// A new game set up at the starting position is undecided: each player owns
/// a king, player 0's on square 2 and player 1's on square 27.
pub proof fn lemma_starting_position_ongoing(g: Game)
    requires
        is_fresh(g),
    ensures
        ({
            let r = setup(g, starting_position(), 30);
            &&& r.pieces[2].kind == PieceKind::King && r.pieces[2].player == 0
            &&& r.pieces[2].location_index == 2
            &&& r.pieces[13].kind == PieceKind::King && r.pieces[13].player == 1
            &&& r.pieces[13].location_index == 27
            &&& outcome(r) == GameState::Ongoing
        }),
{
    reveal_strlit("SGKGS------PPP--ppp------sgkgs");
    reveal_with_fuel(count_pieces, 31);
    let s = starting_position();
    assert(count_pieces(s, 2) == 2);
    assert(count_pieces(s, 27) == 13);
    assert(count_pieces(s, 30) == 16);
    assert(valid_position(s));
    lemma_setup_wf(g, s, 30);
    let r = setup(g, s, 30);
    lemma_setup_keeps(g, s, 3, 30, 2);
    lemma_setup_keeps(g, s, 28, 30, 13);
    assert(r.pieces[2].kind == PieceKind::King && r.pieces[2].player == 0);
    assert(r.pieces[13].kind == PieceKind::King && r.pieces[13].player == 1);
    assert(has_king(r, 0));
    assert(has_king(r, 1));
}

/// Setting up more characters leaves the pieces already placed as they were.
pub proof fn lemma_setup_keeps(g: Game, s: Seq<char>, m: int, n: int, id: int)
    requires
        0 <= m <= n,
        0 <= id < count_pieces(s, m),
        count_pieces(s, n) <= 16,
    ensures
        setup(g, s, n).pieces[id] == setup(g, s, m).pieces[id],
    decreases n,
{
    if m < n {
        lemma_count_pieces_monotone(s, n - 1, n);
        lemma_count_pieces_monotone(s, m, n - 1);
        lemma_setup_keeps(g, s, m, n - 1, id);
    }
}

/// `to` is empty or holds a piece of the other side.
pub open spec fn legal_target(g: Game, player: usize, to: int) -> bool {
    0 <= to < 30 && (g.grid[to] == NONE || g.pieces[g.grid[to] as int].player != player)
}

/// Piece `id` may be moved to `to`: it is in play, the target is on the grid
/// and not its own side's, and a drop from the reserve lands on an empty square.
pub open spec fn legal_move(g: Game, id: int, to: int) -> bool {
    &&& 0 <= id < 16
    &&& g.pieces[id].location != GameLocation::OutOfGame
    &&& legal_target(g, g.pieces[id].player, to)
    &&& g.pieces[id].location == GameLocation::Reserve ==> g.grid[to] == NONE
}


// ---------------------------------------------------------------------------
// What every move keeps.

/// A reserve always has room for a capture: the mover and the captured piece
/// are both on the board, so at most 14 of the 16 pieces can fill the 15 slots.
pub proof fn lemma_reserve_has_room(g: Game, player: usize, a: int, b: int)
    requires
        wf(g),
        player < 2,
        0 <= a < 16,
        0 <= b < 16,
        a != b,
        g.pieces[a].location == GameLocation::Board,
        g.pieces[b].location == GameLocation::Board,
    ensures
        first_free(g.reserves[player as int], 0) is Some,
{
    lemma_first_free(g.reserves[player as int], 0);
    if first_free(g.reserves[player as int], 0) is None {
        let row = g.reserves[player as int];
        let f = |k: int| row[k] as int;
        let xs = vstd::set_lib::set_int_range(0, 15);
        let ys = xs.map(f);
        let zs = vstd::set_lib::set_int_range(0, 16).remove(a).remove(b);
        vstd::set_lib::lemma_int_range(0, 15);
        vstd::set_lib::lemma_int_range(0, 16);
        assert forall|k1: int, k2: int| xs.contains(k1) && xs.contains(k2) && #[trigger] f(k1) == #[trigger] f(k2)
            implies k1 == k2 by {
            assert(g.reserves[player as int][k1] != NONE);
            assert(g.reserves[player as int][k2] != NONE);
        }
        assert(vstd::relations::injective_on(f, xs));
        vstd::set_lib::lemma_map_size(xs, ys, f);
        assert forall|v: int| ys.contains(v) implies zs.contains(v) by {
            let k = choose|k: int| xs.contains(k) && f(k) == v;
            assert(g.reserves[player as int][k] != NONE);
        }
        assert(ys.subset_of(zs));
        vstd::set_lib::lemma_len_subset(ys, zs);
        assert(false);
    }
}

/// Every single-space destination is a legal target.
pub proof fn lemma_short_moves_legal(g: Game, player: usize, x0: int, y0: int, vs: Seq<(i8, i8)>)
    ensures
        forall|k: int| 0 <= k < short_moves(g, player, x0, y0, vs).len()
            ==> legal_target(g, player, #[trigger] short_moves(g, player, x0, y0, vs)[k] as int),
    decreases vs.len(),
{
    if vs.len() > 0 {
        lemma_short_moves_legal(g, player, x0, y0, vs.drop_last());
        let v = vs.last();
        let rest = short_moves(g, player, x0, y0, vs.drop_last());
        if probe(g, player, x0 + v.0, y0 + v.1) != -1 {
            let j = grid_index(x0 + v.0, y0 + v.1);
            assert(0 <= j < 30);
            assert(j as usize as int == j);
            assert(legal_target(g, player, j));
            let res = rest.push(j as usize);
            assert forall|k: int| 0 <= k < res.len() implies legal_target(g, player, #[trigger] res[k] as int) by {
                if k < rest.len() {
                    assert(res[k] == rest[k]);
                }
            }
        }
    }
}

/// Every square of a slide is a legal target.
pub proof fn lemma_ray_legal(g: Game, player: usize, x: int, y: int, dx: int, dy: int)
    ensures
        forall|k: int| 0 <= k < ray(g, player, x, y, dx, dy).len()
            ==> legal_target(g, player, #[trigger] ray(g, player, x, y, dx, dy)[k] as int),
    decreases steps_to_edge(x, y, dx, dy),
{
    if -1 <= dx <= 1 && -1 <= dy <= 1 && (dx != 0 || dy != 0) && in_bounds(x, y) {
        let j = grid_index(x + dx, y + dy);
        if probe(g, player, x + dx, y + dy) != -1 {
            assert(0 <= j < 30);
            assert(j as usize as int == j);
            assert(legal_target(g, player, j));
        }
        if probe(g, player, x + dx, y + dy) == 0 {
            lemma_ray_legal(g, player, x + dx, y + dy, dx, dy);
            let rest = ray(g, player, x + dx, y + dy, dx, dy);
            let res = seq![j as usize] + rest;
            assert forall|k: int| 0 <= k < res.len() implies legal_target(g, player, #[trigger] res[k] as int) by {
                if k > 0 {
                    assert(res[k] == rest[k - 1]);
                }
            }
        }
    }
}

/// Every sliding destination is a legal target.
pub proof fn lemma_long_moves_legal(g: Game, player: usize, x0: int, y0: int, vs: Seq<(i8, i8)>)
    ensures
        forall|k: int| 0 <= k < long_moves(g, player, x0, y0, vs).len()
            ==> legal_target(g, player, #[trigger] long_moves(g, player, x0, y0, vs)[k] as int),
    decreases vs.len(),
{
    if vs.len() > 0 {
        let v = vs.last();
        lemma_long_moves_legal(g, player, x0, y0, vs.drop_last());
        lemma_ray_legal(g, player, x0, y0, v.0 as int, v.1 as int);
        let a = long_moves(g, player, x0, y0, vs.drop_last());
        let b = ray(g, player, x0, y0, v.0 as int, v.1 as int);
        assert forall|k: int| 0 <= k < (a + b).len() implies legal_target(g, player, #[trigger] (a + b)[k] as int) by {
            if k >= a.len() {
                assert((a + b)[k] == b[k - a.len()]);
            }
        }
    }
}

/// The empty squares below `n` are empty, in range, and in increasing order.
pub proof fn lemma_empties(g: Game, n: int)
    requires
        n <= 30,
    ensures
        forall|k: int| 0 <= k < empties(g, n).len()
            ==> 0 <= #[trigger] empties(g, n)[k] < n && g.grid[empties(g, n)[k] as int] == NONE,
    decreases n,
{
    if n > 0 {
        lemma_empties(g, n - 1);
        let rest = empties(g, n - 1);
        if g.grid[n - 1] == NONE {
            let res = rest.push((n - 1) as usize);
            assert forall|k: int| 0 <= k < res.len()
                implies 0 <= #[trigger] res[k] < n && g.grid[res[k] as int] == NONE by {
                if k < rest.len() {
                    assert(res[k] == rest[k]);
                }
            }
        }
    }
}

/// The squares where a pawn may be dropped are among the given squares.
pub proof fn lemma_pawn_drops_subset(g: Game, player: usize, es: Seq<usize>)
    ensures
        forall|k: int| 0 <= k < pawn_drops(g, player, es).len()
            ==> es.contains(#[trigger] pawn_drops(g, player, es)[k]),
    decreases es.len(),
{
    if es.len() > 0 {
        lemma_pawn_drops_subset(g, player, es.drop_last());
        let rest = pawn_drops(g, player, es.drop_last());
        assert forall|k: int| 0 <= k < rest.len() implies es.contains(#[trigger] rest[k]) by {
            let j = choose|j: int| 0 <= j < es.drop_last().len() && es.drop_last()[j] == rest[k];
            assert(es[j] == rest[k]);
        }
        assert(es[es.len() - 1] == es.last());
    }
}

/// A square is among the empty squares below `n` exactly when it is below `n`
/// and empty.
pub proof fn lemma_empties_contains(g: Game, n: int, j: int)
    requires
        n <= 30,
    ensures
        empties(g, n).contains(j as usize) && 0 <= j <= usize::MAX <==> 0 <= j < n && g.grid[j] == NONE,
    decreases n,
{
    lemma_empties(g, n);
    if n > 0 {
        lemma_empties_contains(g, n - 1, j);
        let rest = empties(g, n - 1);
        if g.grid[n - 1] == NONE {
            let res = rest.push((n - 1) as usize);
            if 0 <= j < n - 1 && g.grid[j] == NONE {
                let k = choose|k: int| 0 <= k < rest.len() && rest[k] == j as usize;
                assert(res[k] == j as usize);
            }
            if j == n - 1 {
                assert(res[rest.len() as int] == j as usize);
            }
            if res.contains(j as usize) && 0 <= j <= usize::MAX && j != n - 1 {
                let k = choose|k: int| 0 <= k < res.len() && res[k] == j as usize;
                assert(k < rest.len());
                assert(rest[k] == j as usize);
            }
        }
    }
}

/// A square is among the pawn drops of `es` exactly when it is in `es` and a
/// pawn of the player may be dropped there.
pub proof fn lemma_pawn_drops_contains(g: Game, player: usize, es: Seq<usize>, j: usize)
    ensures
        pawn_drops(g, player, es).contains(j) <==> es.contains(j) && pawn_drop_allowed(g, player, j as int),
    decreases es.len(),
{
    if es.len() > 0 {
        lemma_pawn_drops_contains(g, player, es.drop_last(), j);
        let rest = pawn_drops(g, player, es.drop_last());
        let front = es.drop_last();
        if front.contains(j) {
            let k = choose|k: int| 0 <= k < front.len() && front[k] == j;
            assert(es[k] == j);
        }
        if es.contains(j) && j != es.last() {
            let k = choose|k: int| 0 <= k < es.len() && es[k] == j;
            assert(k < front.len());
            assert(front[k] == j);
        }
        if pawn_drop_allowed(g, player, es.last() as int) {
            let res = rest.push(es.last());
            assert(res[rest.len() as int] == es.last());
            if rest.contains(j) {
                let k = choose|k: int| 0 <= k < rest.len() && rest[k] == j;
                assert(res[k] == j);
            }
            if res.contains(j) && j != es.last() {
                let k = choose|k: int| 0 <= k < res.len() && res[k] == j;
                assert(k < rest.len());
                assert(rest[k] == j);
            }
        }
        assert(es[es.len() - 1] == es.last());
    }
}

/// A piece in the reserve may be dropped on exactly the empty squares, and a
/// pawn only on those of them outside its player's last row and outside the
/// columns where its player already has a pawn.
pub proof fn lemma_drops(g: Game, id: int, to: int)
    requires
        0 <= id < 16,
        g.pieces[id].location == GameLocation::Reserve,
    ensures
        move_indices(g, id).contains(to as usize) && 0 <= to <= usize::MAX
            <==> 0 <= to < 30 && g.grid[to] == NONE
                && (g.pieces[id].kind == PieceKind::Pawn ==> pawn_drop_allowed(g, g.pieces[id].player, to)),
{
    lemma_empties_contains(g, 30, to);
    if 0 <= to <= usize::MAX {
        lemma_pawn_drops_contains(g, g.pieces[id].player, empties(g, 30), to as usize);
    }
}

/// A square is among the single-space destinations exactly when some vector
/// leads there and does not leave the board or land on the player's own piece.
pub proof fn lemma_short_moves_contains(g: Game, player: usize, x0: int, y0: int, vs: Seq<(i8, i8)>, j: usize)
    ensures
        short_moves(g, player, x0, y0, vs).contains(j) <==> exists|k: int| 0 <= k < vs.len()
            && probe(g, player, x0 + (#[trigger] vs[k]).0, y0 + vs[k].1) != -1
            && j as int == grid_index(x0 + vs[k].0, y0 + vs[k].1),
    decreases vs.len(),
{
    if vs.len() > 0 {
        let front = vs.drop_last();
        lemma_short_moves_contains(g, player, x0, y0, front, j);
        let rest = short_moves(g, player, x0, y0, front);
        let v = vs.last();
        if exists|k: int| 0 <= k < front.len() && probe(g, player, x0 + (#[trigger] front[k]).0, y0 + front[k].1) != -1
            && j as int == grid_index(x0 + front[k].0, y0 + front[k].1) {
            let k = choose|k: int| 0 <= k < front.len() && probe(g, player, x0 + (#[trigger] front[k]).0, y0 + front[k].1)
                != -1 && j as int == grid_index(x0 + front[k].0, y0 + front[k].1);
            assert(vs[k] == front[k]);
        }
        if probe(g, player, x0 + v.0, y0 + v.1) != -1 {
            let res = rest.push(grid_index(x0 + v.0, y0 + v.1) as usize);
            assert(res[rest.len() as int] == grid_index(x0 + v.0, y0 + v.1) as usize);
            if rest.contains(j) {
                let m = choose|m: int| 0 <= m < rest.len() && rest[m] == j;
                assert(res[m] == j);
            }
            if res.contains(j) && !rest.contains(j) {
                let m = choose|m: int| 0 <= m < res.len() && res[m] == j;
                assert(m == rest.len());
                assert(vs[vs.len() - 1] == v);
            }
        }
        if exists|k: int| 0 <= k < vs.len() && probe(g, player, x0 + (#[trigger] vs[k]).0, y0 + vs[k].1) != -1
            && j as int == grid_index(x0 + vs[k].0, y0 + vs[k].1) {
            let k = choose|k: int| 0 <= k < vs.len() && probe(g, player, x0 + (#[trigger] vs[k]).0, y0 + vs[k].1) != -1
                && j as int == grid_index(x0 + vs[k].0, y0 + vs[k].1);
            if k < vs.len() - 1 {
                assert(front[k] == vs[k]);
            } else {
                assert(vs[k] == v);
                let res = rest.push(grid_index(x0 + v.0, y0 + v.1) as usize);
                assert(res[rest.len() as int] == j);
            }
        }
    }
}

/// A piece on the board may step to a neighbouring square that is on the
/// board and not held by its own side whenever the shogi rule for its kind
/// allows that step (forward being up the board for player 0 and down it for
/// player 1).
pub proof fn lemma_board_steps(g: Game, id: int, dx: int, dy: int)
    requires
        0 <= id < 16,
        g.pieces[id].location == GameLocation::Board,
        g.pieces[id].location_index < 30,
        g.pieces[id].player <= 1,
        -1 <= dx <= 1,
        -1 <= dy <= 1,
    ensures
        ({
            let p = g.pieces[id].player;
            let x = g.pieces[id].location_index % 5 + dx;
            let y = g.pieces[id].location_index / 5 + dy;
            let t = y * 5 + x;
            step_rule(g.pieces[id].kind, p, dx, dy) && 0 <= x < 5 && 0 <= y < 6
                && (g.grid[t] == NONE || g.pieces[g.grid[t] as int].player != p)
                ==> move_indices(g, id).contains(t as usize)
        }),
{
    let piece = g.pieces[id];
    let p = piece.player;
    let x0 = piece.location_index as int % 5;
    let y0 = piece.location_index as int / 5;
    let t = (y0 + dy) * 5 + x0 + dx;
    if step_rule(piece.kind, p, dx, dy) && 0 <= x0 + dx < 5 && 0 <= y0 + dy < 6
        && (g.grid[t] == NONE || g.pieces[g.grid[t] as int].player != p) {
        let vs = short_vectors(piece.kind, p);
        lemma_short_vectors_rule(piece.kind, p, dx, dy);
        let k = choose|k: int| 0 <= k < vs.len() && (#[trigger] vs[k]).0 == dx && vs[k].1 == dy;
        assert(probe(g, p, x0 + vs[k].0, y0 + vs[k].1) != -1);
        lemma_short_moves_contains(g, p, x0, y0, vs, t as usize);
        let a = short_moves(g, p, x0, y0, vs);
        let b = long_moves(g, p, x0, y0, long_vectors(piece.kind));
        let m = choose|m: int| 0 <= m < a.len() && a[m] == t as usize;
        assert((a + b)[m] == t as usize);
    }
}

/// A piece on the board that does not slide (anything but a rook or a
/// bishop, promoted or not) moves only one step the shogi rule for its kind
/// allows, onto the board and not onto its own side's piece.
pub proof fn lemma_board_steps_only(g: Game, id: int, j: usize)
    requires
        0 <= id < 16,
        g.pieces[id].location == GameLocation::Board,
        g.pieces[id].location_index < 30,
        g.pieces[id].player <= 1,
        g.pieces[id].kind != PieceKind::Rook && g.pieces[id].kind != PieceKind::RookPro,
        g.pieces[id].kind != PieceKind::Bishop && g.pieces[id].kind != PieceKind::BishopPro,
    ensures
        move_indices(g, id).contains(j) ==> exists|dx: int, dy: int| {
            let p = g.pieces[id].player;
            let x = g.pieces[id].location_index % 5 + dx;
            let y = g.pieces[id].location_index / 5 + dy;
            &&& -1 <= dx <= 1 && -1 <= dy <= 1
            &&& #[trigger] step_rule(g.pieces[id].kind, g.pieces[id].player, dx, dy)
            &&& 0 <= x < 5 && 0 <= y < 6
            &&& j == y * 5 + x
            &&& g.grid[y * 5 + x] == NONE || g.pieces[g.grid[y * 5 + x] as int].player != p
        },
{
    let piece = g.pieces[id];
    let p = piece.player;
    let x0 = piece.location_index as int % 5;
    let y0 = piece.location_index as int / 5;
    let vs = short_vectors(piece.kind, p);
    let a = short_moves(g, p, x0, y0, vs);
    assert(long_vectors(piece.kind).len() == 0);
    assert(long_moves(g, p, x0, y0, long_vectors(piece.kind)) =~= Seq::<usize>::empty());
    assert(move_indices(g, id) =~= a);
    if a.contains(j) {
        lemma_short_moves_contains(g, p, x0, y0, vs, j);
        let k = choose|k: int| 0 <= k < vs.len() && probe(g, p, x0 + (#[trigger] vs[k]).0, y0 + vs[k].1) != -1
            && j as int == grid_index(x0 + vs[k].0, y0 + vs[k].1);
        lemma_vectors_are_unit_steps(piece.kind, p);
        assert(is_unit_step(vs[k]));
        let dx = vs[k].0 as int;
        let dy = vs[k].1 as int;
        lemma_short_vectors_rule(piece.kind, p, dx, dy);
        assert(step_rule(piece.kind, p, dx, dy));
    }
}

/// A pawn in a reserve may be dropped on exactly the empty squares outside its
/// player's last row (squares 25..30 for player 0, 0..5 for player 1) and
/// outside every column where its player already has a pawn on the board.
pub proof fn lemma_pawn_drop_squares(g: Game, id: int, j: int)
    requires
        0 <= id < 16,
        g.pieces[id].location == GameLocation::Reserve,
        g.pieces[id].kind == PieceKind::Pawn,
    ensures
        move_indices(g, id).contains(j as usize) && 0 <= j <= usize::MAX <==> {
            let p = g.pieces[id].player;
            &&& 0 <= j < 30
            &&& g.grid[j] == NONE
            &&& !(p == 0 && j >= 25)
            &&& !(p == 1 && j < 5)
            &&& forall|i: int| 0 <= i < 16 && (#[trigger] g.pieces[i]).player == p
                && g.pieces[i].location == GameLocation::Board && g.pieces[i].kind == PieceKind::Pawn
                ==> g.pieces[i].location_index % 5 != j % 5
        },
{
    lemma_drops(g, id, j);
}

/// A move promotes the mover exactly when it moves on the board into its
/// player's far two rows (squares 20..30 for player 0, 0..10 for player 1)
/// and is a silver, rook, bishop or pawn, which become their promoted kinds; a
/// drop from the reserve never promotes.
pub proof fn lemma_promotion_rows(g: Game, id: int, to: int)
    requires
        wf(g),
        legal_move(g, id, to),
    ensures
        ({
            let k = g.pieces[id].kind;
            let p = g.pieces[id].player;
            let far = (p == 0 && to >= 20) || (p == 1 && to < 10);
            make_move_result(g, id, to).pieces[id].kind == if g.pieces[id].location == GameLocation::Board && far {
                match k {
                    PieceKind::Silver => PieceKind::SilverPro,
                    PieceKind::Rook => PieceKind::RookPro,
                    PieceKind::Bishop => PieceKind::BishopPro,
                    PieceKind::Pawn => PieceKind::PawnPro,
                    _ => k,
                }
            } else {
                k
            }
        }),
{
    let cap = g.grid[to];
    if cap != NONE {
        assert(cap != id);
        lemma_reserve_has_room(g, g.pieces[id].player, id, cap as int);
        lemma_first_free(g.reserves[g.pieces[id].player as int], 0);
    }
}

/// A slide from (x, y) in direction (dx, dy) reaches the `n`-th square along
/// it when that square is on the board and not held by the player's own piece
/// and every square before it is empty.
#[verifier::spinoff_prover]
#[verifier::rlimit(60)]
pub proof fn lemma_ray_reaches(g: Game, player: usize, x: int, y: int, dx: int, dy: int, n: int)
    requires
        -1 <= dx <= 1,
        -1 <= dy <= 1,
        dx != 0 || dy != 0,
        0 <= x < 5 && 0 <= y < 6,
        n >= 1,
        forall|m: int| 1 <= m < n ==> {
            let (a, b) = (x + #[trigger] (m * dx), y + m * dy);
            0 <= a < 5 && 0 <= b < 6 && g.grid[b * 5 + a] == NONE
        },
        0 <= x + n * dx < 5 && 0 <= y + n * dy < 6,
        g.grid[(y + n * dy) * 5 + x + n * dx] == NONE
            || g.pieces[g.grid[(y + n * dy) * 5 + x + n * dx] as int].player != player,
    ensures
        ray(g, player, x, y, dx, dy).contains(((y + n * dy) * 5 + x + n * dx) as usize),
    decreases n,
{
    let r = ray(g, player, x, y, dx, dy);
    let first = grid_index(x + dx, y + dy) as usize;
    if n == 1 {
        assert(1 * dx == dx && 1 * dy == dy);
        assert(r[0] == first);
    } else {
        assert(1 * dx == dx && 1 * dy == dy);
        assert(probe(g, player, x + dx, y + dy) == 0);
        assert forall|m: int| 1 <= m < n - 1 implies {
            let (a, b) = (x + dx + #[trigger] (m * dx), y + dy + m * dy);
            0 <= a < 5 && 0 <= b < 6 && g.grid[b * 5 + a] == NONE
        } by {
            assert((m + 1) * dx == m * dx + dx && (m + 1) * dy == m * dy + dy) by (nonlinear_arith);
            assert(1 <= m + 1 < n);
            let mm = m + 1;
            assert(0 <= x + mm * dx < 5);
        }
        assert(n * dx == (n - 1) * dx + dx && n * dy == (n - 1) * dy + dy) by (nonlinear_arith);
        lemma_ray_reaches(g, player, x + dx, y + dy, dx, dy, n - 1);
        let rest = ray(g, player, x + dx, y + dy, dx, dy);
        let t = ((y + n * dy) * 5 + x + n * dx) as usize;
        let k = choose|k: int| 0 <= k < rest.len() && rest[k] == t;
        assert(r == seq![first] + rest);
        assert(r[k + 1] == t);
    }
}

/// The slides along `vs` contain every square the slide along each of them
/// reaches.
pub proof fn lemma_long_moves_contains(g: Game, player: usize, x0: int, y0: int, vs: Seq<(i8, i8)>, k: int, j: usize)
    requires
        0 <= k < vs.len(),
        ray(g, player, x0, y0, vs[k].0 as int, vs[k].1 as int).contains(j),
    ensures
        long_moves(g, player, x0, y0, vs).contains(j),
    decreases vs.len(),
{
    let a = long_moves(g, player, x0, y0, vs.drop_last());
    let b = ray(g, player, x0, y0, vs.last().0 as int, vs.last().1 as int);
    if k < vs.len() - 1 {
        assert(vs.drop_last()[k] == vs[k]);
        lemma_long_moves_contains(g, player, x0, y0, vs.drop_last(), k, j);
        let m = choose|m: int| 0 <= m < a.len() && a[m] == j;
        assert((a + b)[m] == j);
    } else {
        assert(vs[k] == vs.last());
        let m = choose|m: int| 0 <= m < b.len() && b[m] == j;
        assert((a + b)[a.len() + m] == j);
    }
}

/// A rook (promoted or not) slides orthogonally and a bishop (promoted or not)
/// diagonally: along such a direction it reaches any square on the board that
/// is not held by its own side and has only empty squares before it.
pub proof fn lemma_board_slides(g: Game, id: int, dx: int, dy: int, n: int)
    requires
        0 <= id < 16,
        g.pieces[id].location == GameLocation::Board,
        g.pieces[id].location_index < 30,
        g.pieces[id].player <= 1,
        -1 <= dx <= 1,
        -1 <= dy <= 1,
        n >= 1,
        match g.pieces[id].kind {
            PieceKind::Rook | PieceKind::RookPro => (dx == 0) != (dy == 0),
            PieceKind::Bishop | PieceKind::BishopPro => dx != 0 && dy != 0,
            _ => false,
        },
    ensures
        ({
            let p = g.pieces[id].player;
            let x = g.pieces[id].location_index % 5;
            let y = g.pieces[id].location_index / 5;
            let t = (y + n * dy) * 5 + x + n * dx;
            (forall|m: int| 1 <= m < n ==> {
                let (a, b) = (x + #[trigger] (m * dx), y + m * dy);
                0 <= a < 5 && 0 <= b < 6 && g.grid[b * 5 + a] == NONE
            }) && 0 <= x + n * dx < 5 && 0 <= y + n * dy < 6
                && (g.grid[t] == NONE || g.pieces[g.grid[t] as int].player != p)
                ==> move_indices(g, id).contains(t as usize)
        }),
{
    let piece = g.pieces[id];
    let p = piece.player;
    let x0 = piece.location_index as int % 5;
    let y0 = piece.location_index as int / 5;
    let t = (y0 + n * dy) * 5 + x0 + n * dx;
    if (forall|m: int| 1 <= m < n ==> {
        let (a, b) = (x0 + #[trigger] (m * dx), y0 + m * dy);
        0 <= a < 5 && 0 <= b < 6 && g.grid[b * 5 + a] == NONE
    }) && 0 <= x0 + n * dx < 5 && 0 <= y0 + n * dy < 6
        && (g.grid[t] == NONE || g.pieces[g.grid[t] as int].player != p) {
        lemma_ray_reaches(g, p, x0, y0, dx, dy, n);
        let vs = long_vectors(piece.kind);
        let k: int = if piece.kind == PieceKind::Rook || piece.kind == PieceKind::RookPro {
            if dx == 1 { 0 } else if dy == 1 { 1 } else if dx == -1 { 2 } else { 3 }
        } else {
            if dx == 1 && dy == 1 { 0 } else if dx == -1 && dy == 1 { 1 } else if dx == -1 { 2 } else { 3 }
        };
        assert(vs[k].0 as int == dx && vs[k].1 as int == dy);
        lemma_long_moves_contains(g, p, x0, y0, vs, k, t as usize);
        let a = short_moves(g, p, x0, y0, short_vectors(piece.kind, p));
        let b = long_moves(g, p, x0, y0, vs);
        let m = choose|m: int| 0 <= m < b.len() && b[m] == t as usize;
        assert((a + b)[a.len() + m] == t as usize);
    }
}

/// Every move the rules generate for a piece is legal.
pub proof fn lemma_move_indices_legal(g: Game, id: int)
    requires
        0 <= id < 16,
    ensures
        forall|k: int| 0 <= k < move_indices(g, id).len()
            ==> legal_move(g, id, #[trigger] move_indices(g, id)[k] as int),
{
    let piece = g.pieces[id];
    let ms = move_indices(g, id);
    if piece.location == GameLocation::Board {
        let x0 = piece.location_index as int % 5;
        let y0 = piece.location_index as int / 5;
        let a = short_moves(g, piece.player, x0, y0, short_vectors(piece.kind, piece.player));
        let b = long_moves(g, piece.player, x0, y0, long_vectors(piece.kind));
        lemma_short_moves_legal(g, piece.player, x0, y0, short_vectors(piece.kind, piece.player));
        lemma_long_moves_legal(g, piece.player, x0, y0, long_vectors(piece.kind));
        assert forall|k: int| 0 <= k < ms.len() implies legal_move(g, id, #[trigger] ms[k] as int) by {
            if k >= a.len() {
                assert(ms[k] == b[k - a.len()]);
            } else {
                assert(ms[k] == a[k]);
            }
        }
    } else if piece.location == GameLocation::Reserve {
        lemma_empties(g, 30);
        let es = empties(g, 30);
        lemma_pawn_drops_subset(g, piece.player, es);
        assert forall|k: int| 0 <= k < ms.len() implies legal_move(g, id, #[trigger] ms[k] as int) by {
            if piece.kind == PieceKind::Pawn {
                let j = choose|j: int| 0 <= j < es.len() && es[j] == ms[k];
                assert(es[j] == ms[k]);
            } else {
                assert(es[k] == ms[k]);
            }
        }
    }
}

/// The moves of a piece do not depend on the recorded state of the game.
pub proof fn lemma_move_indices_ignore_state(g: Game, st: GameState, id: int)
    ensures
        move_indices(Game { state: st, ..g }, id) == move_indices(g, id),
{
    let h = Game { state: st, ..g };
    let piece = g.pieces[id];
    let x0 = piece.location_index as int % 5;
    let y0 = piece.location_index as int / 5;
    lemma_short_moves_ignore_state(g, st, piece.player, x0, y0, short_vectors(piece.kind, piece.player));
    lemma_long_moves_ignore_state(g, st, piece.player, x0, y0, long_vectors(piece.kind));
    lemma_empties_ignore_state(g, st, 30);
    lemma_pawn_drops_ignore_state(g, st, piece.player, empties(g, 30));
}

pub proof fn lemma_short_moves_ignore_state(g: Game, st: GameState, player: usize, x0: int, y0: int, vs: Seq<(i8, i8)>)
    ensures
        short_moves(Game { state: st, ..g }, player, x0, y0, vs) == short_moves(g, player, x0, y0, vs),
    decreases vs.len(),
{
    if vs.len() > 0 {
        lemma_short_moves_ignore_state(g, st, player, x0, y0, vs.drop_last());
    }
}

pub proof fn lemma_ray_ignore_state(g: Game, st: GameState, player: usize, x: int, y: int, dx: int, dy: int)
    ensures
        ray(Game { state: st, ..g }, player, x, y, dx, dy) == ray(g, player, x, y, dx, dy),
    decreases steps_to_edge(x, y, dx, dy),
{
    if -1 <= dx <= 1 && -1 <= dy <= 1 && (dx != 0 || dy != 0) && in_bounds(x, y) {
        if probe(g, player, x + dx, y + dy) == 0 {
            lemma_ray_ignore_state(g, st, player, x + dx, y + dy, dx, dy);
        }
    }
}

pub proof fn lemma_long_moves_ignore_state(g: Game, st: GameState, player: usize, x0: int, y0: int, vs: Seq<(i8, i8)>)
    ensures
        long_moves(Game { state: st, ..g }, player, x0, y0, vs) == long_moves(g, player, x0, y0, vs),
    decreases vs.len(),
{
    if vs.len() > 0 {
        let v = vs.last();
        lemma_long_moves_ignore_state(g, st, player, x0, y0, vs.drop_last());
        lemma_ray_ignore_state(g, st, player, x0, y0, v.0 as int, v.1 as int);
    }
}

pub proof fn lemma_empties_ignore_state(g: Game, st: GameState, n: int)
    ensures
        empties(Game { state: st, ..g }, n) == empties(g, n),
    decreases n,
{
    if n > 0 {
        lemma_empties_ignore_state(g, st, n - 1);
    }
}

pub proof fn lemma_pawn_drops_ignore_state(g: Game, st: GameState, player: usize, es: Seq<usize>)
    ensures
        pawn_drops(Game { state: st, ..g }, player, es) == pawn_drops(g, player, es),
    decreases es.len(),
{
    if es.len() > 0 {
        lemma_pawn_drops_ignore_state(g, st, player, es.drop_last());
    }
}

/// Making a legal move keeps the game well formed.
pub proof fn lemma_make_move_wf(g: Game, id: int, to: int)
    requires
        wf(g),
        legal_move(g, id, to),
    ensures
        wf(make_move_result(g, id, to)),
{
    let player = g.pieces[id].player;
    let cap = g.grid[to];
    let r = make_move_result(g, id, to);
    let from = g.pieces[id];
    if cap != NONE {
        assert(cap != id);
        lemma_reserve_has_room(g, player, id, cap as int);
        lemma_first_free(g.reserves[player as int], 0);
    }
    let g1 = if cap != NONE { capture(g, cap as int, player) } else { g };
    assert(g1.pieces[id] == from);
    assert forall|i: int| 0 <= i < 16 implies (#[trigger] r.pieces[i]).player <= 1 && r.pieces[i].id < 16 by {}
    assert forall|i: int| 0 <= i < 16 && (#[trigger] r.pieces[i]).location != GameLocation::OutOfGame
        implies r.pieces[i].id == i by {}
    assert forall|i: int| 0 <= i < 16 && (#[trigger] r.pieces[i]).location == GameLocation::Board
        implies r.pieces[i].location_index < 30 && r.grid[r.pieces[i].location_index as int] == i by {
        if i != id && i != cap {
            assert(g.pieces[i].location == GameLocation::Board);
            assert(g.grid[g.pieces[i].location_index as int] == i);
        }
    }
    assert forall|i: int| 0 <= i < 16 && (#[trigger] r.pieces[i]).location == GameLocation::Reserve
        implies r.pieces[i].location_index < 15
            && r.reserves[r.pieces[i].player as int][r.pieces[i].location_index as int] == i by {
        if i != id && i != cap {
            assert(g.pieces[i].location == GameLocation::Reserve);
            assert(g.reserves[g.pieces[i].player as int][g.pieces[i].location_index as int] == i);
        }
    }
    assert forall|j: int| 0 <= j < 30 && #[trigger] r.grid[j] != NONE
        implies r.grid[j] < 16 && r.pieces[r.grid[j] as int].location == GameLocation::Board
            && r.pieces[r.grid[j] as int].location_index == j by {
        if j != to {
            assert(g.grid[j] != NONE);
            assert(g.grid[j] != id);
        }
    }
    assert forall|p: int, k: int| 0 <= p < 2 && 0 <= k < 15 && #[trigger] r.reserves[p][k] != NONE
        implies r.reserves[p][k] < 16
            && r.pieces[r.reserves[p][k] as int].location == GameLocation::Reserve
            && r.pieces[r.reserves[p][k] as int].player == p
            && r.pieces[r.reserves[p][k] as int].location_index == k by {
        if !(cap != NONE && p == player && Some(k as usize) == first_free(g.reserves[player as int], 0)) {
            assert(g.reserves[p][k] != NONE);
            assert(g.reserves[p][k] != cap);
            assert(g.reserves[p][k] != id);
        }
    }
}

/// What a legal move does: the mover lands on the target square (promoting
/// only when it moved on the board into its promotion zone); a piece captured
/// there changes sides, reverts to its unpromoted kind and is placed in the
/// capturer's reserve; every other piece stays where it was; the move is
/// recorded and the other player is to move.
pub proof fn lemma_make_move_effects(g: Game, id: int, to: int)
    requires
        wf(g),
        legal_move(g, id, to),
    ensures
        ({
            let r = make_move_result(g, id, to);
            let player = g.pieces[id].player;
            let cap = g.grid[to];
            &&& r.grid[to] == id
            &&& r.pieces[id].location == GameLocation::Board
            &&& r.pieces[id].location_index == to
            &&& r.pieces[id].player == player
            &&& r.pieces[id].kind != g.pieces[id].kind ==> g.pieces[id].location == GameLocation::Board
                && promotion_zone(player, to) && promoted(g.pieces[id].kind) == Some(r.pieces[id].kind)
            &&& cap != NONE ==> {
                &&& r.pieces[cap as int].player == player
                &&& r.pieces[cap as int].location == GameLocation::Reserve
                &&& r.reserves[player as int][r.pieces[cap as int].location_index as int] == cap
                &&& r.pieces[cap as int].kind == match g.pieces[cap as int].kind {
                    PieceKind::SilverPro => PieceKind::Silver,
                    PieceKind::RookPro => PieceKind::Rook,
                    PieceKind::BishopPro => PieceKind::Bishop,
                    PieceKind::PawnPro => PieceKind::Pawn,
                    k => k,
                }
            }
            &&& forall|i: int| 0 <= i < 16 && i != id && i != cap ==> #[trigger] r.pieces[i] == g.pieces[i]
            &&& r.last_move == Some(Move(id as usize, to as usize, cap != NONE))
            &&& r.current_player == 1 - g.current_player
        }),
{
    let cap = g.grid[to];
    if cap != NONE {
        lemma_reserve_has_room(g, g.pieces[id].player, id, cap as int);
        lemma_first_free(g.reserves[g.pieces[id].player as int], 0);
    }
    lemma_make_move_wf(g, id, to);
}

/// Piece `i` is placed on the grid or in a reserve.
pub open spec fn placed(g: Game, i: int) -> bool {
    &&& 0 <= i < 16
    &&& (exists|j: int| 0 <= j < 30 && #[trigger] g.grid[j] == i)
        || (exists|p: int, k: int| 0 <= p < 2 && 0 <= k < 15 && #[trigger] g.reserves[p][k] == i)
}

/// No piece id is placed twice: not on two squares, not in two reserve slots,
/// not both on the grid and in a reserve.
pub open spec fn placed_once(g: Game) -> bool {
    &&& forall|j1: int, j2: int| 0 <= j1 < 30 && 0 <= j2 < 30 && g.grid[j1] != NONE
        && #[trigger] g.grid[j1] == #[trigger] g.grid[j2] ==> j1 == j2
    &&& forall|p1: int, k1: int, p2: int, k2: int| 0 <= p1 < 2 && 0 <= k1 < 15 && 0 <= p2 < 2 && 0 <= k2 < 15
        && g.reserves[p1][k1] != NONE && #[trigger] g.reserves[p1][k1] == #[trigger] g.reserves[p2][k2]
        ==> p1 == p2 && k1 == k2
    &&& forall|j: int, p: int, k: int| 0 <= j < 30 && 0 <= p < 2 && 0 <= k < 15 && g.grid[j] != NONE
        ==> #[trigger] g.grid[j] != #[trigger] g.reserves[p][k]
}

/// In a well-formed game every piece id is placed at most once, and a piece is
/// placed exactly when it is in play.
pub proof fn lemma_wf_placed(g: Game)
    requires
        wf(g),
    ensures
        placed_once(g),
        forall|i: int| #[trigger] placed(g, i) <==> 0 <= i < 16 && g.pieces[i].location != GameLocation::OutOfGame,
{
    assert forall|j1: int, j2: int| 0 <= j1 < 30 && 0 <= j2 < 30 && g.grid[j1] != NONE
        && #[trigger] g.grid[j1] == #[trigger] g.grid[j2] implies j1 == j2 by {
        assert(g.pieces[g.grid[j1] as int].location_index == j1);
    }
    assert forall|p1: int, k1: int, p2: int, k2: int| 0 <= p1 < 2 && 0 <= k1 < 15 && 0 <= p2 < 2 && 0 <= k2 < 15
        && g.reserves[p1][k1] != NONE && #[trigger] g.reserves[p1][k1] == #[trigger] g.reserves[p2][k2]
        implies p1 == p2 && k1 == k2 by {
        assert(g.reserves[p2][k2] != NONE);
    }
    assert forall|j: int, p: int, k: int| 0 <= j < 30 && 0 <= p < 2 && 0 <= k < 15 && g.grid[j] != NONE
        implies #[trigger] g.grid[j] != #[trigger] g.reserves[p][k] by {
        if g.grid[j] == g.reserves[p][k] {
            assert(g.reserves[p][k] != NONE);
        }
    }
    assert forall|i: int| #[trigger] placed(g, i) <==> 0 <= i < 16 && g.pieces[i].location != GameLocation::OutOfGame by {
        if 0 <= i < 16 && g.pieces[i].location == GameLocation::Board {
            assert(g.grid[g.pieces[i].location_index as int] == i);
        }
        if 0 <= i < 16 && g.pieces[i].location == GameLocation::Reserve {
            assert(g.reserves[g.pieces[i].player as int][g.pieces[i].location_index as int] == i);
        }
        if placed(g, i) {
            if exists|j: int| 0 <= j < 30 && #[trigger] g.grid[j] == i {
                let j = choose|j: int| 0 <= j < 30 && #[trigger] g.grid[j] == i;
                assert(g.grid[j] != NONE);
            } else {
                let (p, k) = choose|p: int, k: int| 0 <= p < 2 && 0 <= k < 15 && #[trigger] g.reserves[p][k] == i;
                assert(g.reserves[p][k] != NONE);
            }
        }
    }
}

/// A legal move loses no piece and duplicates none: the pieces placed on the
/// grid and in the reserves are the same before and after, each placed once.
pub proof fn lemma_make_move_keeps_pieces(g: Game, id: int, to: int)
    requires
        wf(g),
        legal_move(g, id, to),
    ensures
        placed_once(make_move_result(g, id, to)),
        forall|i: int| #[trigger] placed(make_move_result(g, id, to), i) <==> placed(g, i),
{
    let r = make_move_result(g, id, to);
    lemma_make_move_wf(g, id, to);
    lemma_make_move_effects(g, id, to);
    lemma_wf_placed(g);
    lemma_wf_placed(r);
    assert forall|i: int| #[trigger] placed(r, i) <==> placed(g, i) by {
        if 0 <= i < 16 && i != id && i != g.grid[to] {
            assert(r.pieces[i] == g.pieces[i]);
        }
        if i == g.grid[to] && g.grid[to] != NONE {
            assert(g.pieces[i].location == GameLocation::Board);
        }
    }
}

/// The ids of a well-formed game's pieces are in range.
pub proof fn lemma_pieces_ids_in_range(g: Game, player: usize, n: int)
    requires
        indices_in_range(g),
        n <= 16,
    ensures
        forall|k: int| 0 <= k < pieces_ids(g, player, n).len() ==> #[trigger] pieces_ids(g, player, n)[k] < 16,
    decreases n,
{
    if n > 0 {
        lemma_pieces_ids_in_range(g, player, n - 1);
        let rest = pieces_ids(g, player, n - 1);
        assert(g.pieces[n - 1].id < 16);
        if g.pieces[n - 1].player == player {
            let res = rest.push(g.pieces[n - 1].id);
            assert forall|k: int| 0 <= k < res.len() implies #[trigger] res[k] < 16 by {
                if k < rest.len() {
                    assert(res[k] == rest[k]);
                }
            }
        }
    }
}

/// Each game reached by one move of a well-formed game is well formed, is the
/// result of a legal move, and has the other player to move.
pub proof fn lemma_children_of_wf(g: Game, ids: Seq<usize>)
    requires
        wf(g),
        forall|k: int| 0 <= k < ids.len() ==> #[trigger] ids[k] < 16,
    ensures
        forall|k: int| 0 <= k < children_of(g, ids).len() ==> {
            &&& wf(#[trigger] children_of(g, ids)[k])
            &&& children_of(g, ids)[k].current_player == 1 - g.current_player
            &&& children_of(g, ids)[k].last_move is Some
            &&& exists|id: int, to: int| legal_move(g, id, to) && children_of(g, ids)[k] == make_move_result(g, id, to)
        },
    decreases ids.len(),
{
    if ids.len() > 0 {
        let last = ids.last() as int;
        lemma_children_of_wf(g, ids.drop_last());
        lemma_move_indices_legal(g, last);
        let a = children_of(g, ids.drop_last());
        let b = children_for_piece(g, last);
        let ms = move_indices(g, last);
        assert forall|k: int| 0 <= k < (a + b).len() implies {
            &&& wf(#[trigger] (a + b)[k])
            &&& (a + b)[k].current_player == 1 - g.current_player
            &&& (a + b)[k].last_move is Some
            &&& exists|id: int, to: int| legal_move(g, id, to) && (a + b)[k] == make_move_result(g, id, to)
        } by {
            if k >= a.len() {
                let m = k - a.len();
                assert((a + b)[k] == b[m]);
                assert(b[m] == make_move_result(g, last, ms[m] as int));
                assert(legal_move(g, last, ms[m] as int));
                lemma_make_move_wf(g, last, ms[m] as int);
            } else {
                assert((a + b)[k] == a[k]);
            }
        }
    }
}

/// Every child node of a well-formed game is a well-formed game, reached by a
/// legal move, with the other player to move.
pub proof fn lemma_children_wf(g: Game, player: usize)
    requires
        wf(g),
    ensures
        forall|k: int| 0 <= k < children(g, player).len() ==> {
            &&& wf(#[trigger] children(g, player)[k])
            &&& children(g, player)[k].current_player == 1 - g.current_player
            &&& children(g, player)[k].last_move is Some
            &&& exists|id: int, to: int| legal_move(g, id, to) && children(g, player)[k] == make_move_result(g, id, to)
        },
{
    lemma_pieces_ids_in_range(g, player, 16);
    lemma_children_of_wf(g, pieces_ids(g, player, 16));
}

impl Game {
    pub fn new() -> (r: Self)
        ensures
            is_fresh(r),
            wf(r),
    {
        // Replaced by the proper pieces during `prepare`.
        let default_piece = Piece::new(0, PieceKind::Pawn, 0);
        Self {
            pieces: [default_piece; 16],
            grid: [NONE; 30],
            reserves: [[NONE; 15]; 2],
            current_player: 0,
            state: GameState::Ongoing,
            last_move: None,
        }
    }

    pub fn create_piece(kind: char, id: usize) -> (r: Piece)
        requires
            char_piece(kind) is Some,
        ensures
            r == (Piece {
                id: id,
                kind: char_piece(kind).unwrap().0,
                player: char_piece(kind).unwrap().1,
                location: GameLocation::OutOfGame,
                location_index: usize::MAX,
            }),
    {
        match kind {
            'K' => Piece::new(id, PieceKind::King, 0),
            'G' => Piece::new(id, PieceKind::Gold, 0),
            'S' => Piece::new(id, PieceKind::Silver, 0),
            'P' => Piece::new(id, PieceKind::Pawn, 0),
            'k' => Piece::new(id, PieceKind::King, 1),
            'g' => Piece::new(id, PieceKind::Gold, 1),
            's' => Piece::new(id, PieceKind::Silver, 1),
            _ => Piece::new(id, PieceKind::Pawn, 1),
        }
    }

    /// Gets the id of the player's king, if the player owns one.
    fn king_id_(&self, player: usize) -> (r: Option<usize>)
        ensures
            r == first_king(*self, player, 0),
            r is Some <==> has_king(*self, player),
    {
        let mut i: usize = 0;
        while i < 16
            invariant
                i <= 16,
                first_king(*self, player, 0) == first_king(*self, player, i as int),
                forall|m: int| 0 <= m < i ==> !((#[trigger] self.pieces[m]).player == player
                    && self.pieces[m].kind == PieceKind::King),
            decreases 16 - i,
        {
            if self.pieces[i].player == player && self.pieces[i].kind == PieceKind::King {
                return Some(self.pieces[i].id);
            }
            i = i + 1;
        }
        // Not found: the king must have been captured.
        None
    }

    /// The player has won when the opponent owns no king.
    fn is_win(&self, player: usize) -> (r: bool)
        requires
            player <= 1,
        ensures
            r == !has_king(*self, (1 - player) as usize),
    {
        let king_id = self.king_id_(1 - player);
        if king_id.is_some() {
            return false;
        }
        true
    }

    /// Whether the game is well formed: the grid, the reserves and the pieces
    /// agree (`wf`).
    pub fn is_well_formed(&self) -> (r: bool)
        ensures
            r == wf(*self),
    {
        if self.current_player > 1 {
            return false;
        }
        let mut i: usize = 0;
        while i < 16
            invariant
                i <= 16,
                self.current_player <= 1,
                forall|m: int| 0 <= m < i ==> piece_agrees(*self, m),
            decreases 16 - i,
        {
            let piece = self.pieces[i];
            if piece.player > 1 || piece.id >= 16 {
                return false;
            }
            if piece.location != GameLocation::OutOfGame && piece.id != i {
                return false;
            }
            if piece.location == GameLocation::Board {
                if piece.location_index >= 30 || self.grid[piece.location_index] != i {
                    return false;
                }
            }
            if piece.location == GameLocation::Reserve {
                if piece.location_index >= 15 || self.reserves[piece.player][piece.location_index] != i {
                    return false;
                }
            }
            i = i + 1;
        }
        let mut j: usize = 0;
        while j < 30
            invariant
                j <= 30,
                self.current_player <= 1,
                forall|m: int| 0 <= m < 16 ==> piece_agrees(*self, m),
                forall|m: int| 0 <= m < j ==> square_agrees(*self, m),
            decreases 30 - j,
        {
            let id = self.grid[j];
            if id != NONE {
                if id >= 16 || self.pieces[id].location != GameLocation::Board || self.pieces[id].location_index != j {
                    return false;
                }
            }
            j = j + 1;
        }
        let mut p: usize = 0;
        while p < 2
            invariant
                p <= 2,
                self.current_player <= 1,
                forall|m: int| 0 <= m < 16 ==> piece_agrees(*self, m),
                forall|m: int| 0 <= m < 30 ==> square_agrees(*self, m),
                forall|q: int, k: int| 0 <= q < p && 0 <= k < 15 ==> slot_agrees(*self, q, k),
            decreases 2 - p,
        {
            let mut k: usize = 0;
            while k < 15
                invariant
                    p < 2,
                    k <= 15,
                    self.current_player <= 1,
                    forall|m: int| 0 <= m < 16 ==> piece_agrees(*self, m),
                    forall|m: int| 0 <= m < 30 ==> square_agrees(*self, m),
                    forall|q: int, l: int| 0 <= q < p && 0 <= l < 15 ==> slot_agrees(*self, q, l),
                    forall|l: int| 0 <= l < k ==> slot_agrees(*self, p as int, l),
                decreases 15 - k,
            {
                let id = self.reserves[p][k];
                if id != NONE {
                    if id >= 16 || self.pieces[id].location != GameLocation::Reserve || self.pieces[id].player != p
                        || self.pieces[id].location_index != k {
                        return false;
                    }
                }
                k = k + 1;
            }
            p = p + 1;
        }
        proof {
            lemma_agrees_wf(*self);
        }
        true
    }

    /// Updates and returns the `state` field.
    pub fn update_state(&mut self) -> (r: &GameState)
        ensures
            *final(self) == (Game { state: outcome(*old(self)), ..*old(self) }),
            *r == outcome(*old(self)),
            *r == GameState::WinPlayer0 <==> !(exists|i: int| 0 <= i < 16
                && (#[trigger] old(self).pieces[i]).player == 1 && old(self).pieces[i].kind == PieceKind::King),
            *r == GameState::WinPlayer1 <==> (exists|i: int| 0 <= i < 16
                && (#[trigger] old(self).pieces[i]).player == 1 && old(self).pieces[i].kind == PieceKind::King)
                && !(exists|i: int| 0 <= i < 16 && (#[trigger] old(self).pieces[i]).player == 0
                    && old(self).pieces[i].kind == PieceKind::King),
            *r != GameState::Draw,
    {
        self.state = GameState::Ongoing;
        // Check for wins before checking for out-of-moves.
        if self.is_win(0) {
            self.state = GameState::WinPlayer0;
        } else if self.is_win(1) {
            self.state = GameState::WinPlayer1;
        }
        &self.state
    }

    /// Get the board ready for a new game.
    pub fn prepare(&mut self)
        ensures
            *final(self) == setup(*old(self), starting_position(), 30),
            is_fresh(*old(self)) ==> wf(*final(self)),
    {
        proof {
            if is_fresh(*self) {
                lemma_starting_position_wf(*self);
            }
        }
        proof {
            reveal_strlit("SGKGS------PPP--ppp------sgkgs");
            reveal_with_fuel(count_pieces, 31);
            let s = starting_position();
            assert(s.len() == 30);
            assert(count_pieces(s, 30) == 16);
            assert(valid_position(s));
        }
        self.setup_position("SGKGS------PPP--ppp------sgkgs");
    }

    fn setup_position(&mut self, position: &str)
        requires
            valid_position(position@),
        ensures
            *final(self) == setup(*old(self), position@, position@.len() as int),
    {
        let ghost g0 = *self;
        let mut piece_id: usize = 0;
        let mut index: usize = 0;
        for kind in it: position.chars()
            invariant
                valid_position(position@),
                it.seq() == position@,
                index == it.index(),
                index <= position@.len(),
                piece_id == count_pieces(position@, index as int),
                *self == setup(g0, position@, index as int),
        {
            proof {
                lemma_count_pieces_monotone(position@, index as int + 1, position@.len() as int);
            }
            if kind != '-' {
                let mut piece = Game::create_piece(kind, piece_id);
                piece.location = GameLocation::Board;
                piece.location_index = index;
                self.pieces[piece_id] = piece;
                self.grid[index] = piece.id;
                piece_id = piece_id + 1;
            }
            index = index + 1;
        }
    }

    pub fn column_row_to_index(x: usize, y: usize) -> (r: usize)
        requires
            y * 5 + x <= usize::MAX,
        ensures
            r == y * 5 + x,
    {
        y * COLS + x
    }

    pub fn index_to_column_row(index: usize) -> (r: (usize, usize))
        ensures
            r == (index % 5, index / 5),
    {
        (index % COLS, index / COLS)
    }

    pub fn piece_for(&self, id: usize) -> (r: &Piece)
        requires
            id < 16,
        ensures
            *r == self.pieces[id as int],
    {
        &self.pieces[id]
    }

    pub fn player_for_piece_id(&self, id: usize) -> (r: usize)
        requires
            id < 16,
        ensures
            r == self.pieces[id as int].player,
    {
        self.pieces[id].player
    }

    fn player_for_location_index(&self, index: usize) -> (r: Option<usize>)
        requires
            indices_in_range(*self),
            index < 30,
        ensures
            r == owner_at(*self, index as int),
    {
        let id = self.grid[index];
        if id != NONE {
            return Some(self.player_for_piece_id(id));
        }
        None
    }

    pub fn location_index_for(&self, id: usize) -> (r: usize)
        requires
            id < 16,
        ensures
            r == self.pieces[id as int].location_index,
    {
        self.pieces[id].location_index
    }

    /// Checks the move-to square (x, y) for `player`: -1 when out of bounds or
    /// on the player's own piece, 0 when empty, 1 when capturing.
    fn validate_move_coord(&self, player: usize, x: i8, y: i8) -> (r: i8)
        requires
            indices_in_range(*self),
        ensures
            r == probe(*self, player, x as int, y as int),
    {
        if x < 0 || x as usize >= COLS || y < 0 || y as usize >= ROWS {
            return -1;
        }
        let to_index = Game::column_row_to_index(x as usize, y as usize);
        let onto_player = self.player_for_location_index(to_index);
        if onto_player.is_none() {
            return 0;
        }
        if onto_player.unwrap() == player {
            return -1;
        }
        1
    }

    fn pieces_ids_for(&self, player: usize) -> (r: Vec<usize>)
        ensures
            r@ == pieces_ids(*self, player, 16),
    {
        let mut ids: Vec<usize> = Vec::new();
        let mut i: usize = 0;
        while i < 16
            invariant
                i <= 16,
                ids@ == pieces_ids(*self, player, i as int),
            decreases 16 - i,
        {
            if self.pieces[i].player == player {
                ids.push(self.pieces[i].id);
            }
            i = i + 1;
        }
        ids
    }

    /// All child nodes (possible game states) for the given player.
    pub fn child_nodes(&self, player: usize) -> (r: Vec<Game>)
        requires
            indices_in_range(*self),
        ensures
            r@ == children(*self, player),
    {
        let mut nodes: Vec<Game> = Vec::new();
        let ids = self.pieces_ids_for(player);
        proof {
            lemma_pieces_ids_in_range(*self, player, 16);
        }
        let mut k: usize = 0;
        while k < ids.len()
            invariant
                indices_in_range(*self),
                k <= ids.len(),
                ids@ == pieces_ids(*self, player, 16),
                forall|m: int| 0 <= m < ids@.len() ==> #[trigger] ids@[m] < 16,
                nodes@ == children_of(*self, ids@.take(k as int)),
            decreases ids.len() - k,
        {
            let mut piece_nodes = self.child_nodes_for_piece(ids[k]);
            nodes.append(&mut piece_nodes);
            assert(ids@.take(k + 1).drop_last() =~= ids@.take(k as int));
            k = k + 1;
        }
        assert(ids@.take(ids.len() as int) =~= ids@);
        nodes
    }

    /// All the child nodes (possible game states) for the given piece id.
    pub fn child_nodes_for_piece(&self, id: usize) -> (r: Vec<Game>)
        requires
            indices_in_range(*self),
            id < 16,
        ensures
            r@ == children_for_piece(*self, id as int),
    {
        let mut nodes: Vec<Game> = Vec::new();
        let indices = self.move_indices_for_piece(id);
        proof {
            lemma_move_indices_legal(*self, id as int);
        }
        let mut i: usize = 0;
        while i < indices.len()
            invariant
                indices_in_range(*self),
                id < 16,
                i <= indices.len(),
                indices@ == move_indices(*self, id as int),
                forall|k: int| 0 <= k < indices@.len() ==> legal_move(*self, id as int, #[trigger] indices@[k] as int),
                nodes@ =~= indices@.take(i as int).map_values(
                    |to: usize| make_move_result(*self, id as int, to as int),
                ),
            decreases indices.len() - i,
        {
            let to_index = indices[i];
            assert(legal_move(*self, id as int, indices@[i as int] as int));
            let mut node = *self;
            node.make_move(id, to_index);
            nodes.push(node);
            i = i + 1;
        }
        nodes
    }

    /// All the position indices the given piece may move to, excluding
    /// positions occupied by the player's own pieces.
    pub fn move_indices_for_piece(&self, id: usize) -> (r: Vec<usize>)
        requires
            indices_in_range(*self),
            id < 16,
        ensures
            r@ == move_indices(*self, id as int),
    {
        let mut move_indices: Vec<usize> = Vec::new();
        let piece = self.piece_for(id);
        match piece.location {
            GameLocation::Board => {
                let (x0, y0) = Game::index_to_column_row(piece.location_index);
                proof {
                    lemma_vectors_are_unit_steps(piece.kind, piece.player);
                }
                // Single-space moves.
                let short_v = piece.short_move_vectors();
                let mut i: usize = 0;
                while i < short_v.len()
                    invariant
                        indices_in_range(*self),
                        *piece == self.pieces[id as int],
                        x0 < 5 && y0 < 6,
                        x0 == piece.location_index % 5,
                        y0 == piece.location_index / 5,
                        short_v@ == short_vectors(piece.kind, piece.player),
                        forall|j: int| 0 <= j < short_v@.len() ==> is_unit_step(#[trigger] short_v@[j]),
                        i <= short_v.len(),
                        move_indices@ == short_moves(*self, piece.player, x0 as int, y0 as int, short_v@.take(i as int)),
                    decreases short_v.len() - i,
                {
                    let (x, y) = short_v[i];
                    assert(is_unit_step(short_v@[i as int]));
                    let move_x = x0 as i8 + x;
                    let move_y = y0 as i8 + y;
                    let result = self.validate_move_coord(piece.player, move_x, move_y);
                    if result != -1 {
                        let to_index = Game::column_row_to_index(move_x as usize, move_y as usize);
                        move_indices.push(to_index);
                    }
                    assert(short_v@.take(i + 1).drop_last() =~= short_v@.take(i as int));
                    i = i + 1;
                }
                assert(short_v@.take(short_v.len() as int) =~= short_v@);
                // Multiple-space (long) moves.
                let long_v = piece.long_move_vectors();
                let ghost short_part = move_indices@;
                let mut i: usize = 0;
                while i < long_v.len()
                    invariant
                        indices_in_range(*self),
                        *piece == self.pieces[id as int],
                        x0 < 5 && y0 < 6,
                        long_v@ == long_vectors(piece.kind),
                        forall|j: int| 0 <= j < long_v@.len() ==> is_unit_step(#[trigger] long_v@[j]),
                        i <= long_v.len(),
                        move_indices@ == short_part + long_moves(*self, piece.player, x0 as int, y0 as int, long_v@.take(i as int)),
                    decreases long_v.len() - i,
                {
                    let (x, y) = long_v[i];
                    assert(is_unit_step(long_v@[i as int]));
                    let mut loop_x: i8 = x0 as i8;
                    let mut loop_y: i8 = y0 as i8;
                    let ghost before = move_indices@;
                    loop
                        invariant_except_break
                            in_bounds(loop_x as int, loop_y as int),
                            move_indices@ + ray(*self, piece.player, loop_x as int, loop_y as int, x as int, y as int)
                                == before + ray(*self, piece.player, x0 as int, y0 as int, x as int, y as int),
                        invariant
                            indices_in_range(*self),
                            *piece == self.pieces[id as int],
                            is_unit_step((x, y)),
                        ensures
                            move_indices@ == before + ray(*self, piece.player, x0 as int, y0 as int, x as int, y as int),
                        decreases steps_to_edge(loop_x as int, loop_y as int, x as int, y as int),
                    {
                        let ghost (ox, oy) = (loop_x as int, loop_y as int);
                        loop_x = loop_x + x;
                        loop_y = loop_y + y;
                        let result = self.validate_move_coord(piece.player, loop_x, loop_y);
                        // Add if empty square or capture.
                        if result == 0 || result == 1 {
                            let to_index = Game::column_row_to_index(loop_x as usize, loop_y as usize);
                            move_indices.push(to_index);
                        }
                        // Stop at an illegal square or a capture.
                        if result == -1 || result == 1 {
                            assert(move_indices@ =~= before + ray(*self, piece.player, x0 as int, y0 as int, x as int, y as int));
                            break;
                        }
                    }
                    assert(long_v@.take(i + 1).drop_last() =~= long_v@.take(i as int));
                    i = i + 1;
                }
                assert(long_v@.take(long_v.len() as int) =~= long_v@);
            },
            GameLocation::Reserve => {
                if piece.kind != PieceKind::Pawn {
                    let mut es = self.empty_grid_indices();
                    move_indices.append(&mut es);
                } else {
                    // Pawns may not be dropped in a column that holds one of
                    // the player's pawns.
                    let mut columns = HashSet::<usize>::new();
                    let mut k: usize = 0;
                    while k < 16
                        invariant
                            k <= 16,
                            *piece == self.pieces[id as int],
                            forall|c: usize| #[trigger] columns@.contains(c) <==> exists|i: int|
                                0 <= i < k && (#[trigger] self.pieces[i]).player == piece.player
                                    && self.pieces[i].location == GameLocation::Board
                                    && self.pieces[i].kind == PieceKind::Pawn
                                    && self.pieces[i].location_index % 5 == c,
                        decreases 16 - k,
                    {
                        let p = &self.pieces[k];
                        if !(p.player != piece.player || p.location != GameLocation::Board || p.kind != PieceKind::Pawn) {
                            let (c, _) = Game::index_to_column_row(p.location_index);
                            columns.insert(c);
                        }
                        k = k + 1;
                    }
                    let es = self.empty_grid_indices();
                    let mut i: usize = 0;
                    while i < es.len()
                        invariant
                            i <= es.len(),
                            *piece == self.pieces[id as int],
                            es@ == empties(*self, 30),
                            forall|c: usize| #[trigger] columns@.contains(c) <==> pawn_in_column(*self, piece.player, c as int),
                            move_indices@ == pawn_drops(*self, piece.player, es@.take(i as int)),
                        decreases es.len() - i,
                    {
                        let empty = es[i];
                        // The pawn may not be dropped on the player's last row.
                        if !(piece.player == 0 && empty >= GRID_COUNT - COLS) && !(piece.player == 1 && empty < COLS) {
                            let (empty_c, _) = Game::index_to_column_row(empty);
                            if !columns.contains(&empty_c) {
                                move_indices.push(empty);
                            }
                        }
                        assert(es@.take(i + 1).drop_last() =~= es@.take(i as int));
                        i = i + 1;
                    }
                    assert(es@.take(es.len() as int) =~= es@);
                }
            },
            _ => {},
        }
        move_indices
    }

    fn make_move(&mut self, piece_id: usize, to_index: usize)
        requires
            indices_in_range(*old(self)),
            legal_move(*old(self), piece_id as int, to_index as int),
        ensures
            *final(self) == make_move_result(*old(self), piece_id as int, to_index as int),
    {
        let ghost g0 = *self;
        let player = self.player_for_piece_id(piece_id);
        let captured_id = self.grid[to_index];

        // Capture?
        let mut is_capture = false;
        if captured_id != NONE {
            is_capture = true;
            let mut taken = self.pieces[captured_id];
            taken.player = player;
            taken.location = GameLocation::Reserve;
            // Demote?
            if let Some(demote_kind) = taken.demotion_kind() {
                taken.kind = demote_kind;
            }
            // Find a spot for the captured piece.
            if let Some(available_index) = self.available_reserve_index(player) {
                proof { lemma_first_free(self.reserves[player as int], 0); }
                taken.location_index = available_index;
                self.pieces[captured_id] = taken;
                let mut row = self.reserves[player];
                row[available_index] = captured_id;
                self.reserves[player] = row;
            } else {
                self.pieces[captured_id] = taken;
            }
        }
        let ghost g1 = *self;
        assert(g1 == (if captured_id != NONE { capture(g0, captured_id as int, player) } else { g0 }));

        let mut check_for_promotion = true;
        // Remove from the old location.
        let mut mover = self.pieces[piece_id];
        let location_index = mover.location_index;
        match mover.location {
            GameLocation::Board => {
                self.grid[location_index] = NONE;
            },
            GameLocation::Reserve => {
                let mut row = self.reserves[player];
                row[location_index] = NONE;
                self.reserves[player] = row;
                check_for_promotion = false;
            },
            _ => {},
        }
        // Move to the new location.
        self.grid[to_index] = piece_id;
        mover.location = GameLocation::Board;
        mover.location_index = to_index;
        // Promote?
        if check_for_promotion && self.is_promotion_zone(player, to_index) {
            if let Some(promo_kind) = mover.promotion_kind() {
                mover.kind = promo_kind;
            }
        }
        self.pieces[piece_id] = mover;
        self.last_move = Some(Move(piece_id, to_index, is_capture));
        self.next_player();
    }

    /// The first free slot of the player's reserve.
    fn available_reserve_index(&self, player: usize) -> (r: Option<usize>)
        requires
            player < 2,
        ensures
            r == first_free(self.reserves[player as int], 0),
    {
        let mut index: usize = 0;
        while index < 15
            invariant
                index <= 15,
                player < 2,
                first_free(self.reserves[player as int], 0) == first_free(self.reserves[player as int], index as int),
            decreases 15 - index,
        {
            if self.reserves[player][index] == NONE {
                return Some(index);
            }
            index = index + 1;
        }
        None
    }

    fn is_promotion_zone(&self, player: usize, location_index: usize) -> (r: bool)
        ensures
            r == promotion_zone(player, location_index as int),
    {
        if player == 0 {
            return location_index >= GRID_COUNT - COLS * 2;
        }
        location_index < COLS * 2
    }

    /// Advance to the next player.
    pub fn next_player(&mut self)
        requires
            old(self).current_player <= 1,
        ensures
            *final(self) == (Game { current_player: (1 - old(self).current_player) as usize, ..*old(self) }),
    {
        self.current_player = 1 - self.current_player;
    }

    /// The empty squares of the grid, in increasing order.
    fn empty_grid_indices(&self) -> (r: Vec<usize>)
        ensures
            r@ == empties(*self, 30),
    {
        let mut empties_v: Vec<usize> = Vec::new();
        let mut index: usize = 0;
        while index < 30
            invariant
                index <= 30,
                empties_v@ == empties(*self, index as int),
            decreases 30 - index,
        {
            if self.grid[index] == NONE {
                empties_v.push(index);
            }
            index = index + 1;
        }
        empties_v
    }
}

} // verus!
