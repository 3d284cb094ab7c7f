//! The flow of a game between a human and a computer player: whose turn it
//! is, what a click on a piece or a square does, and how a chosen position is
//! taken over. The windows, the animations and the thread that runs the
//! search live with the caller.

use vstd::prelude::*;
use crate::game::{
    Game, GameState, wf, is_fresh, move_indices, children, children_of, children_for_piece,
    pieces_ids, make_move_result, outcome, lemma_children_wf, lemma_move_indices_legal,
};
use crate::piece::PieceKind;

verus! {

#[derive(Clone, Copy)]
pub struct Player {
    pub id: usize,
    pub kind: PlayerKind,
    pub search_depth: usize,
    pub search_rounds: usize,
}

#[derive(PartialEq, Clone, Copy, Structural)]
pub enum AppState {
    Intro,
    Settings,
    Rules,
    HumanTurn,
    AITurnBegin,
    AIThinking,
    WaitingOnAnimation,
    NextPlayer,
    Player0Won,
    Player1Won,
    Draw,
    Exit,
}

#[derive(Debug, Copy, Clone, PartialEq, Structural)]
pub enum PlayerKind {
    Human,
    AI,
}

/// The buttons of the menu bar.
pub const BAR_ABOUT_ID: usize = 0;
pub const BAR_RULES_ID: usize = 1;
pub const BAR_SETTINGS_ID: usize = 2;
pub const BAR_QUIT_ID: usize = 3;

/// The state a menu button leads to: the rules, the settings or the exit;
/// the about button changes nothing.
pub open spec fn menu_state(button_id: usize, state: AppState) -> AppState {
    if button_id == BAR_RULES_ID {
        AppState::Rules
    } else if button_id == BAR_SETTINGS_ID {
        AppState::Settings
    } else if button_id == BAR_QUIT_ID {
        AppState::Exit
    } else {
        state
    }
}

/// The first of `cs` in which piece `id` stands at `location_index`.
pub open spec fn first_node_with(cs: Seq<Game>, id: int, location_index: usize) -> Option<Game>
    decreases cs.len(),
{
    if cs.len() == 0 {
        None
    } else if cs[0].pieces[id].location_index == location_index {
        Some(cs[0])
    } else {
        first_node_with(cs.drop_first(), id, location_index)
    }
}

/// When some node of `cs` has piece `id` at `location_index`, there is a first one.
pub proof fn lemma_first_node_with(cs: Seq<Game>, id: int, location_index: usize, k: int)
    requires
        0 <= k < cs.len(),
        cs[k].pieces[id].location_index == location_index,
    ensures
        first_node_with(cs, id, location_index) is Some,
    decreases cs.len(),
{
    if cs[0].pieces[id].location_index != location_index {
        assert(cs.drop_first()[k - 1] == cs[k]);
        lemma_first_node_with(cs.drop_first(), id, location_index, k - 1);
    }
}

/// The player's pieces (by id) are among the ids searched for moves.
pub proof fn lemma_pieces_ids_contains(g: Game, player: usize, n: int, s: int)
    requires
        0 <= s < n <= 16,
        g.pieces[s].player == player,
    ensures
        pieces_ids(g, player, n).contains(g.pieces[s].id),
    decreases n,
{
    if s < n - 1 {
        lemma_pieces_ids_contains(g, player, n - 1, s);
        let rest = pieces_ids(g, player, n - 1);
        let k = choose|k: int| 0 <= k < rest.len() && rest[k] == g.pieces[s].id;
        if g.pieces[n - 1].player == player {
            assert(rest.push(g.pieces[n - 1].id)[k] == g.pieces[s].id);
        }
    } else {
        let rest = pieces_ids(g, player, n - 1);
        assert(rest.push(g.pieces[n - 1].id)[rest.len() as int] == g.pieces[s].id);
    }
}

/// Every move of each piece of `ids` is among the child nodes built from `ids`.
pub proof fn lemma_children_of_contains(g: Game, ids: Seq<usize>, k: int, c: Game)
    requires
        0 <= k < ids.len(),
        children_for_piece(g, ids[k] as int).contains(c),
    ensures
        children_of(g, ids).contains(c),
    decreases ids.len(),
{
    let a = children_of(g, ids.drop_last());
    let b = children_for_piece(g, ids.last() as int);
    if k < ids.len() - 1 {
        assert(ids.drop_last()[k] == ids[k]);
        lemma_children_of_contains(g, ids.drop_last(), k, c);
        let j = choose|j: int| 0 <= j < a.len() && a[j] == c;
        assert((a + b)[j] == c);
    } else {
        let j = choose|j: int| 0 <= j < b.len() && b[j] == c;
        assert((a + b)[a.len() + j] == c);
    }
}

/// The model side of the app: the players, the game, the app's state, the
/// positions played so far, and the human's current selection.
pub struct Controller {
    players: Vec<Player>,
    game: Game,
    state: AppState,
    previous_state: Option<AppState>,
    node_history: Vec<Game>,
    selected_piece: Option<usize>,
    move_indices: Vec<usize>,
}

impl Controller {
    pub closed spec fn game_of(&self) -> Game {
        self.game
    }

    pub closed spec fn state_of(&self) -> AppState {
        self.state
    }

    pub closed spec fn players_of(&self) -> Seq<Player> {
        self.players@
    }

    pub closed spec fn previous_state_of(&self) -> Option<AppState> {
        self.previous_state
    }

    pub closed spec fn history_of(&self) -> Seq<Game> {
        self.node_history@
    }

    pub closed spec fn selected_of(&self) -> Option<usize> {
        self.selected_piece
    }

    pub closed spec fn move_indices_of(&self) -> Seq<usize> {
        self.move_indices@
    }

    /// The game is well formed and a selected piece belongs to the player to
    /// move, with its moves as the highlighted squares.
    pub closed spec fn inv(&self) -> bool {
        &&& wf(self.game)
        &&& self.selected_piece matches Some(s) ==> s < 16
            && self.game.pieces[s as int].player == self.game.current_player
            && self.move_indices@ == move_indices(self.game, s as int)
    }

    pub fn new() -> (r: Self)
        ensures
            r.inv(),
            is_fresh(r.game_of()),
            r.players_of().len() == 0,
            r.state_of() == AppState::NextPlayer,
            r.previous_state_of() is None,
            r.history_of().len() == 0,
            r.selected_of() is None,
            r.move_indices_of().len() == 0,
    {
        Self {
            players: Vec::new(),
            game: Game::new(),
            state: AppState::NextPlayer,
            previous_state: None,
            node_history: Vec::new(),
            selected_piece: None,
            move_indices: Vec::new(),
        }
    }

    /// Adds the two players (a human, then the computer) and sets up the game.
    pub fn prepare(&mut self)
        requires
            is_fresh(old(self).game_of()),
            old(self).selected_of() is None,
        ensures
            final(self).inv(),
            final(self).players_of() == old(self).players_of()
                + seq![
                    Player { id: 0, kind: PlayerKind::Human, search_depth: 3, search_rounds: 500 },
                    Player { id: 1, kind: PlayerKind::AI, search_depth: 3, search_rounds: 500 },
                ],
            final(self).game_of() == crate::game::setup(old(self).game_of(), crate::game::starting_position(), 30),
            final(self).state_of() == old(self).state_of(),
            final(self).history_of() == old(self).history_of(),
            final(self).selected_of() is None,
    {
        self.players.push(Player { id: 0, kind: PlayerKind::Human, search_depth: 3, search_rounds: 500 });
        self.players.push(Player { id: 1, kind: PlayerKind::AI, search_depth: 3, search_rounds: 500 });
        self.game.prepare();
    }

    pub fn game(&self) -> (r: Game)
        ensures
            r == self.game_of(),
    {
        self.game
    }

    pub fn state(&self) -> (r: AppState)
        ensures
            r == self.state_of(),
    {
        self.state
    }

    pub fn players(&self) -> (r: &Vec<Player>)
        ensures
            r@ == self.players_of(),
    {
        &self.players
    }

    pub fn previous_state(&self) -> (r: Option<AppState>)
        ensures
            r == self.previous_state_of(),
    {
        self.previous_state
    }

    pub fn node_history(&self) -> (r: &Vec<Game>)
        ensures
            r@ == self.history_of(),
    {
        &self.node_history
    }

    pub fn selected_piece_id(&self) -> (r: Option<usize>)
        ensures
            r == self.selected_of(),
    {
        self.selected_piece
    }

    pub fn move_indices(&self) -> (r: &Vec<usize>)
        ensures
            r@ == self.move_indices_of(),
    {
        &self.move_indices
    }

    /// Whether `index` is a square the selected piece may move to.
    pub fn is_move_index(&self, index: usize) -> (r: bool)
        ensures
            r == self.move_indices_of().contains(index),
    {
        let mut i: usize = 0;
        while i < self.move_indices.len()
            invariant
                i <= self.move_indices@.len(),
                forall|k: int| 0 <= k < i ==> self.move_indices@[k] != index,
            decreases self.move_indices@.len() - i,
        {
            if self.move_indices[i] == index {
                return true;
            }
            i = i + 1;
        }
        false
    }

    /// Sets the app's state (menu choices, quitting).
    pub fn set_state(&mut self, state: AppState)
        requires
            old(self).inv(),
        ensures
            final(self).inv(),
            final(self).state_of() == state,
            final(self).game_of() == old(self).game_of(),
            final(self).players_of() == old(self).players_of(),
            final(self).previous_state_of() == old(self).previous_state_of(),
            final(self).history_of() == old(self).history_of(),
            final(self).selected_of() == old(self).selected_of(),
            final(self).move_indices_of() == old(self).move_indices_of(),
    {
        self.state = state;
    }

    /// A button of the menu bar was pushed.
    pub fn menu_selected(&mut self, button_id: usize)
        requires
            old(self).inv(),
            button_id <= BAR_QUIT_ID,
        ensures
            final(self).inv(),
            final(self).state_of() == menu_state(button_id, old(self).state_of()),
            final(self).game_of() == old(self).game_of(),
            final(self).players_of() == old(self).players_of(),
            final(self).previous_state_of() == old(self).previous_state_of(),
            final(self).history_of() == old(self).history_of(),
            final(self).selected_of() == old(self).selected_of(),
            final(self).move_indices_of() == old(self).move_indices_of(),
    {
        if button_id == BAR_RULES_ID {
            self.state = AppState::Rules;
        } else if button_id == BAR_SETTINGS_ID {
            self.state = AppState::Settings;
        } else if button_id == BAR_QUIT_ID {
            self.state = AppState::Exit;
        }
    }

    /// The animations advanced a frame; `active` tells whether any still runs.
    /// Once a move's animation has ended, the next player's turn comes.
    pub fn animation_updated(&mut self, active: bool)
        requires
            old(self).inv(),
        ensures
            final(self).inv(),
            final(self).state_of() == (if !active && old(self).state_of() == AppState::WaitingOnAnimation {
                AppState::NextPlayer
            } else {
                old(self).state_of()
            }),
            final(self).game_of() == old(self).game_of(),
            final(self).players_of() == old(self).players_of(),
            final(self).previous_state_of() == old(self).previous_state_of(),
            final(self).history_of() == old(self).history_of(),
            final(self).selected_of() == old(self).selected_of(),
            final(self).move_indices_of() == old(self).move_indices_of(),
    {
        if !active && self.state == AppState::WaitingOnAnimation {
            self.state = AppState::NextPlayer;
        }
    }

    /// The settings were confirmed: the players are replaced and the game goes on.
    pub fn settings_started(&mut self, players: Vec<Player>)
        requires
            old(self).inv(),
            outcome(old(self).game_of()) == GameState::Ongoing ==> old(self).game_of().current_player < players@.len(),
        ensures
            final(self).inv(),
            final(self).players_of() == players@,
            final(self).game_of() == (Game { state: outcome(old(self).game_of()), ..old(self).game_of() }),
            final(self).state_of() == next_state(old(self).game_of(), players@),
            final(self).history_of() == old(self).history_of(),
    {
        self.players = players;
        self.next_player();
    }

    /// The rules window was closed: back to the state before it opened.
    pub fn rules_closed(&mut self)
        requires
            old(self).inv(),
            old(self).previous_state_of() is Some,
        ensures
            final(self).inv(),
            final(self).state_of() == old(self).previous_state_of().unwrap(),
            final(self).game_of() == old(self).game_of(),
            final(self).history_of() == old(self).history_of(),
    {
        self.state = self.previous_state.unwrap();
    }

    /// A piece was clicked. During the human's turn, an own piece is selected
    /// and its moves highlighted; an enemy piece on a highlighted square is
    /// captured by the selected piece; then the selection is dropped.
    pub fn piece_selected(&mut self, id: usize)
        requires
            old(self).inv(),
            id < 16,
        ensures
            final(self).inv(),
            final(self).players_of() == old(self).players_of(),
            old(self).state_of() != AppState::HumanTurn ==> *final(self) == *old(self),
            old(self).state_of() == AppState::HumanTurn
                && old(self).game_of().pieces[id as int].player == old(self).game_of().current_player ==> {
                &&& final(self).selected_of() == Some(id)
                &&& final(self).move_indices_of() == move_indices(old(self).game_of(), id as int)
                &&& final(self).game_of() == old(self).game_of()
                &&& final(self).state_of() == old(self).state_of()
                &&& final(self).history_of() == old(self).history_of()
            },
            old(self).state_of() == AppState::HumanTurn
                && old(self).game_of().pieces[id as int].player != old(self).game_of().current_player ==> {
                let loc = old(self).game_of().pieces[id as int].location_index;
                &&& final(self).selected_of() is None
                &&& final(self).move_indices_of() == old(self).move_indices_of()
                &&& old(self).move_indices_of().contains(loc) ==> final(self).state_of() == AppState::WaitingOnAnimation
                &&& !old(self).move_indices_of().contains(loc) ==> final(self).state_of() == old(self).state_of()
                    && final(self).game_of() == old(self).game_of()
                    && final(self).history_of() == old(self).history_of()
                &&& old(self).move_indices_of().contains(loc) && old(self).selected_of() is None
                    ==> final(self).game_of() == old(self).game_of() && final(self).history_of() == old(self).history_of()
                &&& old(self).selected_of() matches Some(s) ==> (old(self).move_indices_of().contains(loc) ==> ({
                    let node = first_node_with(children(old(self).game_of(), old(self).game_of().current_player), s as int, loc);
                    &&& node is Some
                    &&& final(self).game_of() == node.unwrap()
                    &&& final(self).history_of() == old(self).history_of().push(node.unwrap())
                }))
            },
    {
        if self.state != AppState::HumanTurn {
            return;
        }
        if self.game.player_for_piece_id(id) == self.game.current_player {
            // Select it and highlight its move-to squares.
            self.selected_piece = Some(id);
            let indices = self.game.move_indices_for_piece(id);
            self.move_indices = indices;
        } else {
            // An opponent's piece. Is it on a move-to square?
            let location_index = self.game.location_index_for(id);
            let selected = self.selected_piece;
            // Unselect everything.
            self.selected_piece = None;
            if self.is_move_index(location_index) {
                // Capture.
                if let Some(piece_id) = selected {
                    self.perform_move(piece_id, location_index);
                }
                self.state = AppState::WaitingOnAnimation;
            }
        }
    }

    /// A square was clicked. During the human's turn, a highlighted square
    /// receives the selected piece; in any case the selection is dropped.
    pub fn square_selected(&mut self, index: usize)
        requires
            old(self).inv(),
        ensures
            final(self).inv(),
            final(self).players_of() == old(self).players_of(),
            old(self).state_of() != AppState::HumanTurn ==> *final(self) == *old(self),
            old(self).state_of() == AppState::HumanTurn ==> {
                &&& final(self).selected_of() is None
                &&& final(self).move_indices_of() == old(self).move_indices_of()
                &&& old(self).selected_of() matches Some(s) ==> (old(self).move_indices_of().contains(index) ==> ({
                    let node = first_node_with(children(old(self).game_of(), old(self).game_of().current_player), s as int, index);
                    &&& node is Some
                    &&& final(self).game_of() == node.unwrap()
                    &&& final(self).history_of() == old(self).history_of().push(node.unwrap())
                    &&& final(self).state_of() == AppState::WaitingOnAnimation
                }))
                &&& !(old(self).move_indices_of().contains(index) && old(self).selected_of() is Some) ==> ({
                    &&& final(self).game_of() == old(self).game_of()
                    &&& final(self).history_of() == old(self).history_of()
                    &&& final(self).state_of() == old(self).state_of()
                })
            },
    {
        if self.state != AppState::HumanTurn {
            return;
        }
        let selected = self.selected_piece;
        // Regardless, unselect everything.
        self.selected_piece = None;
        if self.is_move_index(index) {
            if let Some(piece_id) = selected {
                self.perform_move(piece_id, index);
                self.state = AppState::WaitingOnAnimation;
            }
        }
    }

    /// A reserve box was clicked: true when it is the human's turn and the
    /// box is the player to move's (the click selects nothing).
    pub fn reserve_selected(&self, player: usize) -> (r: bool)
        ensures
            r == (self.state_of() == AppState::HumanTurn && player == self.game_of().current_player),
    {
        if self.state != AppState::HumanTurn {
            return false;
        }
        if player != self.game.current_player {
            return false;
        }
        true
    }

    /// The first child node of the player to move in which piece `id` stands
    /// at `location_index`.
    pub fn find_node(&self, id: usize, location_index: usize) -> (r: Option<Game>)
        requires
            wf(self.game_of()),
            id < 16,
        ensures
            r == first_node_with(children(self.game_of(), self.game_of().current_player), id as int, location_index),
    {
        let nodes = self.game.child_nodes(self.game.current_player);
        let ghost cs = nodes@;
        assert(cs.skip(0) =~= cs);
        let mut i: usize = 0;
        while i < nodes.len()
            invariant
                i <= nodes@.len(),
                cs == nodes@,
                cs == children(self.game, self.game.current_player),
                id < 16,
                first_node_with(cs, id as int, location_index) == first_node_with(cs.skip(i as int), id as int, location_index),
            decreases nodes@.len() - i,
        {
            let node = nodes[i];
            assert(cs.skip(i as int)[0] == node);
            if node.piece_for(id).location_index == location_index {
                assert(cs.skip(i as int).len() > 0);
                assert(first_node_with(cs.skip(i as int), id as int, location_index) == Some(node));
                return Some(node);
            }
            assert(cs.skip(i as int).drop_first() =~= cs.skip(i + 1));
            i = i + 1;
        }
        assert(cs.skip(i as int).len() == 0);
        None
    }

    /// Plays the move of the selected piece `id` to `location_index`.
    fn perform_move(&mut self, id: usize, location_index: usize)
        requires
            wf(old(self).game),
            old(self).selected_piece is None,
            id < 16,
            old(self).game.pieces[id as int].player == old(self).game.current_player,
            move_indices(old(self).game, id as int).contains(location_index),
        ensures
            ({
                let node = first_node_with(children(old(self).game, old(self).game.current_player), id as int, location_index);
                &&& node is Some
                &&& final(self).game == node.unwrap()
                &&& final(self).node_history@ == old(self).node_history@.push(node.unwrap())
            }),
            wf(final(self).game),
            final(self).players == old(self).players,
            final(self).state == old(self).state,
            final(self).previous_state == old(self).previous_state,
            final(self).selected_piece == old(self).selected_piece,
            final(self).move_indices == old(self).move_indices,
    {
        proof {
            let g = self.game;
            let ms = move_indices(g, id as int);
            let j = choose|j: int| 0 <= j < ms.len() && ms[j] == location_index;
            let c = make_move_result(g, id as int, location_index as int);
            assert(g.pieces[id as int].location != crate::game::GameLocation::OutOfGame);
            assert(children_for_piece(g, id as int)[j] == c);
            assert(children_for_piece(g, id as int).contains(c));
            lemma_pieces_ids_contains(g, g.current_player, 16, id as int);
            let ids = pieces_ids(g, g.current_player, 16);
            let k = choose|k: int| 0 <= k < ids.len() && ids[k] == g.pieces[id as int].id;
            lemma_children_of_contains(g, ids, k, c);
            let cs = children(g, g.current_player);
            let m = choose|m: int| 0 <= m < cs.len() && cs[m] == c;
            lemma_first_node_with(cs, id as int, location_index, m);
            lemma_children_wf(g, g.current_player);
            lemma_first_node_in(cs, id as int, location_index);
        }
        let node_option = self.find_node(id, location_index);
        match node_option {
            Some(node) => {
                self.use_node(node);
            },
            None => {},
        }
    }

    /// Takes over the given position as the game and records it.
    fn use_node(&mut self, node: Game)
        requires
            wf(node),
        ensures
            final(self).game == node,
            final(self).node_history@ == old(self).node_history@.push(node),
            final(self).players == old(self).players,
            final(self).state == old(self).state,
            final(self).previous_state == old(self).previous_state,
            final(self).selected_piece == old(self).selected_piece,
            final(self).move_indices == old(self).move_indices,
    {
        self.node_history.push(node);
        self.game = node;
    }

    /// The search finished with `node` as the position to move to. A piece
    /// still selected belonged to the position before and is dropped.
    pub fn search_completed(&mut self, node: Game)
        requires
            old(self).inv(),
            wf(node),
        ensures
            final(self).inv(),
            final(self).game_of() == node,
            final(self).history_of() == old(self).history_of().push(node),
            final(self).state_of() == AppState::WaitingOnAnimation,
            final(self).players_of() == old(self).players_of(),
            final(self).selected_of() is None,
    {
        self.selected_piece = None;
        self.use_node(node);
        self.state = AppState::WaitingOnAnimation;
    }

    /// Decides the next state: a decided game ends, otherwise it is the turn
    /// of the player to move, a human or the computer.
    pub fn next_player(&mut self)
        requires
            old(self).inv(),
            outcome(old(self).game_of()) == GameState::Ongoing
                ==> old(self).game_of().current_player < old(self).players_of().len(),
        ensures
            final(self).inv(),
            final(self).game_of() == (Game { state: outcome(old(self).game_of()), ..old(self).game_of() }),
            final(self).state_of() == next_state(old(self).game_of(), old(self).players_of()),
            final(self).players_of() == old(self).players_of(),
            final(self).history_of() == old(self).history_of(),
            final(self).selected_of() == old(self).selected_of(),
            final(self).move_indices_of() == old(self).move_indices_of(),
    {
        let mut game = self.game;
        let state = *game.update_state();
        proof {
            if let Some(s) = self.selected_piece {
                crate::game::lemma_move_indices_ignore_state(self.game, state, s as int);
            }
        }
        self.game = game;
        match state {
            GameState::Draw => {
                self.state = AppState::Draw;
            },
            GameState::WinPlayer0 => {
                self.state = AppState::Player0Won;
            },
            GameState::WinPlayer1 => {
                self.state = AppState::Player1Won;
            },
            _ => {
                let p = self.game.current_player;
                if self.players[p].kind == PlayerKind::Human {
                    self.state = AppState::HumanTurn;
                } else {
                    self.state = AppState::AITurnBegin;
                }
            },
        }
    }

    /// The computer starts thinking: returns the player to search for and a
    /// copy of the game to search.
    pub fn begin_ai_turn(&mut self) -> (r: (Player, Game))
        requires
            old(self).inv(),
            old(self).game_of().current_player < old(self).players_of().len(),
        ensures
            final(self).inv(),
            final(self).state_of() == AppState::AIThinking,
            r.0 == old(self).players_of()[old(self).game_of().current_player as int],
            r.1 == old(self).game_of(),
            final(self).game_of() == old(self).game_of(),
            final(self).players_of() == old(self).players_of(),
            final(self).history_of() == old(self).history_of(),
            final(self).selected_of() == old(self).selected_of(),
    {
        self.state = AppState::AIThinking;
        let player = self.players[self.game.current_player];
        (player, self.game)
    }
}

/// The state a game calls for: the end of the game when decided, otherwise the
/// turn of the player to move.
pub open spec fn next_state(g: Game, players: Seq<Player>) -> AppState {
    match outcome(g) {
        GameState::WinPlayer0 => AppState::Player0Won,
        GameState::WinPlayer1 => AppState::Player1Won,
        GameState::Draw => AppState::Draw,
        GameState::Ongoing => if players[g.current_player as int].kind == PlayerKind::Human {
            AppState::HumanTurn
        } else {
            AppState::AITurnBegin
        },
    }
}

/// When the game is decided, the winner announced is the player who still
/// owns a king: player 0 wins once player 1 owns no king, player 1 wins once
/// it owns a king and player 0 none; otherwise it is the turn of the player to
/// move, a human's or the computer's as the player to move is. No game is
/// announced as a draw.
pub proof fn lemma_winner_announced(g: Game, players: Seq<Player>)
    ensures
        next_state(g, players) == AppState::Player0Won <==> !(exists|i: int| 0 <= i < 16
            && (#[trigger] g.pieces[i]).player == 1 && g.pieces[i].kind == PieceKind::King),
        next_state(g, players) == AppState::Player1Won <==> (exists|i: int| 0 <= i < 16
            && (#[trigger] g.pieces[i]).player == 1 && g.pieces[i].kind == PieceKind::King)
            && !(exists|i: int| 0 <= i < 16 && (#[trigger] g.pieces[i]).player == 0
                && g.pieces[i].kind == PieceKind::King),
        next_state(g, players) != AppState::Draw,
        next_state(g, players) == AppState::HumanTurn || next_state(g, players) == AppState::AITurnBegin
            <==> (exists|i: int| 0 <= i < 16 && (#[trigger] g.pieces[i]).player == 1
                && g.pieces[i].kind == PieceKind::King)
            && (exists|i: int| 0 <= i < 16 && (#[trigger] g.pieces[i]).player == 0
                && g.pieces[i].kind == PieceKind::King),
        next_state(g, players) == AppState::HumanTurn ==> players[g.current_player as int].kind == PlayerKind::Human,
        next_state(g, players) == AppState::AITurnBegin ==> players[g.current_player as int].kind == PlayerKind::AI,
{
}

/// The node found among well-formed nodes is well formed.
pub proof fn lemma_first_node_in(cs: Seq<Game>, id: int, location_index: usize)
    ensures
        first_node_with(cs, id, location_index) matches Some(n) ==> cs.contains(n),
    decreases cs.len(),
{
    if cs.len() > 0 && cs[0].pieces[id].location_index != location_index {
        lemma_first_node_in(cs.drop_first(), id, location_index);
        if first_node_with(cs, id, location_index) is Some {
            let n = first_node_with(cs, id, location_index).unwrap();
            let k = choose|k: int| 0 <= k < cs.drop_first().len() && cs.drop_first()[k] == n;
            assert(cs[k + 1] == n);
        }
    }
}

} // verus!
