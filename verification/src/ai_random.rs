//! A player that picks a random move.

use vstd::prelude::*;
use crate::ai::AIProgress;
use crate::game::{Game, Move, wf, children, lemma_children_wf};
use crate::random::random_index;

verus! {

/// A random pick for `game`: one of the child nodes of the player to move,
/// with its move as the principal variation.
pub open spec fn is_random_pick(game: Game, best: Option<Game>, pv: Seq<Move>) -> bool {
    let cs = children(game, game.current_player);
    exists|k: int| 0 <= k < cs.len() && best == Some(#[trigger] cs[k]) && pv == seq![cs[k].last_move.unwrap()]
}

pub struct AIRandom {
    game: Game,
}

impl AIRandom {
    /// The position a move is picked for.
    pub closed spec fn root(&self) -> Game {
        self.game
    }

    pub fn new(game: Game) -> (r: Self)
        ensures
            r.root() == game,
    {
        Self { game }
    }

    /// Picks one of the moves of the player to move at random.
    pub fn think(&mut self) -> (r: AIProgress)
        requires
            wf(old(self).root()),
            children(old(self).root(), old(self).root().current_player).len() > 0,
        ensures
            final(self).root() == old(self).root(),
            is_random_pick(old(self).root(), r.best_node, r.pv@),
            r.nodes == children(old(self).root(), old(self).root().current_player).len(),
            r.is_complete,
            r.score == 0,
    {
        let child_nodes = self.game.child_nodes(self.game.current_player);
        proof {
            lemma_children_wf(self.game, self.game.current_player);
        }
        let index = random_index(child_nodes.len());
        let r = Self::progress_for_choice(child_nodes, index);
        assert(r.best_node == Some(children(self.game, self.game.current_player)[index as int]));
        r
    }

    /// The progress report of a random pick: the node at `index` is chosen,
    /// all the nodes were looked at.
    pub fn progress_for_choice(child_nodes: Vec<Game>, index: usize) -> (r: AIProgress)
        requires
            index < child_nodes@.len(),
            child_nodes@[index as int].last_move is Some,
        ensures
            r.best_node == Some(child_nodes@[index as int]),
            r.pv@ == seq![child_nodes@[index as int].last_move.unwrap()],
            r.nodes == child_nodes@.len(),
            r.is_complete,
            r.score == 0,
    {
        let mut child_nodes = child_nodes;
        let len = child_nodes.len();
        let node = child_nodes.swap_remove(index);
        let mut progress = AIProgress::new();
        progress.nodes = child_nodes.len() + 1;
        let mut pv: Vec<Move> = Vec::new();
        pv.push(node.last_move.unwrap());
        progress.pv = pv;
        progress.best_node = Some(node);
        progress.is_complete = true;
        progress
    }
}

} // verus!
