//! A player action (a move, a capture, a drop from or a return to the reserve)
//! and its undo.

use vstd::prelude::*;
use crate::game::Coord;

verus! {

#[derive(Debug, Clone, Copy)]
pub enum ActionKind {
    MoveNoCapture,
    MoveWithCapture,
    FromReserve,
    ToReserve,  // the undo of FromReserve
}

#[derive(Debug, Clone, Copy)]
pub struct Action {
    pub kind: ActionKind,
    pub piece_id: usize,
    pub from: Option<Coord>,
    pub to: Coord,
    pub captured_id: Option<usize>,
    pub reserve_index: Option<usize>,
}

/// A board move records where it came from.
pub open spec fn undoable(a: Action) -> bool {
    match a.kind {
        ActionKind::MoveNoCapture | ActionKind::MoveWithCapture => a.from is Some,
        _ => true,
    }
}

/// The action that reverses `a`: a board move goes back from `to` to `from`; a
/// drop from the reserve becomes a return to it, and the other way round.
pub open spec fn undo_of(a: Action) -> Action {
    match a.kind {
        ActionKind::MoveNoCapture | ActionKind::MoveWithCapture => Action {
            from: Some(a.to),
            to: a.from.unwrap(),
            ..a
        },
        ActionKind::FromReserve => Action { kind: ActionKind::ToReserve, ..a },
        ActionKind::ToReserve => Action { kind: ActionKind::FromReserve, ..a },
    }
}

impl Action {
    pub fn new(
        action_kind: ActionKind,
        piece_id: usize,
        from: Option<Coord>,
        to: Coord,
        captured_id: Option<usize>,
        reserve_index: Option<usize>,
    ) -> (r: Self)
        ensures
            r == (Action { kind: action_kind, piece_id, from, to, captured_id, reserve_index }),
    {
        Self { kind: action_kind, piece_id, from, to, captured_id, reserve_index }
    }

    pub fn undo(&self) -> (r: Action)
        requires
            undoable(*self),
        ensures
            r == undo_of(*self),
    {
        match self.kind {
            ActionKind::MoveNoCapture => Action { from: Some(self.to), to: self.from.unwrap(), ..*self },
            ActionKind::MoveWithCapture => Action { from: Some(self.to), to: self.from.unwrap(), ..*self },
            ActionKind::FromReserve => Action { kind: ActionKind::ToReserve, ..*self },
            ActionKind::ToReserve => Action { kind: ActionKind::FromReserve, ..*self },
        }
    }
}

/// Undoing an undo gives back the action itself, and an undo can itself be
/// undone.
pub proof fn lemma_undo_involution(a: Action)
    requires
        undoable(a),
    ensures
        undoable(undo_of(a)),
        undo_of(undo_of(a)) == a,
{
}

} // verus!
