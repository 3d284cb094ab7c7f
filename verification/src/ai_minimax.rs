//! Minimax search with alpha-beta pruning.

use vstd::prelude::*;
use crate::ai::AIProgress;
use crate::game::{Game, GameState, Move, wf, outcome, children, lemma_children_wf};
use crate::piece::PieceKind;

verus! {

/// The score of a win (less the plies it takes) or, negated, of a loss.
pub const WIN_LOSS_VAL: i64 = 1000;

/// The deepest search the scores are computed for without overflow.
pub const MAX_DEPTH: usize = 0xffff_ffff;

/// The material value of a kind.
pub open spec fn piece_value(kind: PieceKind) -> int {
    match kind {
        PieceKind::Gold => 9,
        PieceKind::Silver => 6,
        PieceKind::SilverPro => 7,
        PieceKind::Pawn => 1,
        PieceKind::PawnPro => 5,
        _ => 0,
    }
}

/// The material among the first `n` pieces owned by player 0 (`zero`) or by
/// the other player (`!zero`).
pub open spec fn material(g: Game, zero: bool, n: int) -> int
    decreases n,
{
    if n <= 0 {
        0
    } else {
        material(g, zero, n - 1) + if (g.pieces[n - 1].player == 0) == zero {
            piece_value(g.pieces[n - 1].kind)
        } else {
            0
        }
    }
}

/// The material balance from the point of view of `search_player`.
pub open spec fn material_balance(g: Game, search_player: usize) -> int {
    let p0 = material(g, true, 16);
    let p1 = material(g, false, 16);
    if search_player == 0 {
        p0 - p1
    } else {
        p1 - p0
    }
}

/// The score of a position for `search_player` reached after `ply` plies: a
/// win is worth more the sooner it comes, a loss less the later it comes, a
/// draw nothing, and an ongoing game its material balance.
pub open spec fn evaluation(search_player: usize, g: Game, ply: int) -> int {
    match g.state {
        GameState::Draw => 0,
        GameState::WinPlayer0 => if search_player == 0 { 1000 - ply } else { -1000 + ply },
        GameState::WinPlayer1 => if search_player == 1 { 1000 - ply } else { -1000 + ply },
        GameState::Ongoing => material_balance(g, search_player),
    }
}

/// The game with its state brought up to date.
pub open spec fn with_outcome(g: Game) -> Game {
    Game { state: outcome(g), ..g }
}

pub open spec fn larger(a: int, b: int) -> int {
    if a >= b { a } else { b }
}

pub open spec fn smaller(a: int, b: int) -> int {
    if a <= b { a } else { b }
}

/// The minimax value of `g` searched `d` more plies deep in a search of depth
/// `root_depth` for `search_player`: a finished game or the search horizon is
/// evaluated; otherwise the best value of the children for the side to move
/// (the largest when maximizing, the smallest when minimizing; with no
/// children, the least or the greatest `i64`).
pub open spec fn minimax(search_player: usize, root_depth: int, g: Game, d: nat, maximizing: bool) -> int
    decreases d, 1nat, 0nat,
{
    let g2 = with_outcome(g);
    if g2.state != GameState::Ongoing || d == 0 {
        evaluation(search_player, g2, root_depth - d)
    } else {
        minimax_fold(search_player, root_depth, g2, d, maximizing, children(g2, g2.current_player).len())
    }
}

/// The best value among the first `n` children of `g2`.
pub open spec fn minimax_fold(search_player: usize, root_depth: int, g2: Game, d: nat, maximizing: bool, n: nat) -> int
    decreases d, 0nat, n,
{
    if d == 0 || n == 0 {
        if maximizing { i64::MIN as int } else { i64::MAX as int }
    } else {
        let prev = minimax_fold(search_player, root_depth, g2, d, maximizing, (n - 1) as nat);
        let child = children(g2, g2.current_player)[n - 1];
        let v = minimax(search_player, root_depth, child, (d - 1) as nat, !maximizing);
        if maximizing { larger(prev, v) } else { smaller(prev, v) }
    }
}

/// Material sums stay within 0..=9n.
pub proof fn lemma_material_bounds(g: Game, zero: bool, n: int)
    requires
        0 <= n,
    ensures
        0 <= material(g, zero, n) <= 9 * n,
    decreases n,
{
    if n > 0 {
        lemma_material_bounds(g, zero, n - 1);
    }
}

/// Minimax values are `i64` values.
pub proof fn lemma_minimax_bounds(search_player: usize, root_depth: int, g: Game, d: nat, maximizing: bool)
    requires
        d <= root_depth <= MAX_DEPTH,
    ensures
        i64::MIN <= minimax(search_player, root_depth, g, d, maximizing) <= i64::MAX,
    decreases d, 1nat, 0nat,
{
    let g2 = with_outcome(g);
    if g2.state != GameState::Ongoing || d == 0 {
        lemma_material_bounds(g2, true, 16);
        lemma_material_bounds(g2, false, 16);
    } else {
        lemma_minimax_fold_bounds(search_player, root_depth, g2, d, maximizing, children(g2, g2.current_player).len());
    }
}

pub proof fn lemma_minimax_fold_bounds(search_player: usize, root_depth: int, g2: Game, d: nat, maximizing: bool, n: nat)
    requires
        d <= root_depth <= MAX_DEPTH,
    ensures
        i64::MIN <= minimax_fold(search_player, root_depth, g2, d, maximizing, n) <= i64::MAX,
    decreases d, 0nat, n,
{
    if d > 0 && n > 0 {
        lemma_minimax_fold_bounds(search_player, root_depth, g2, d, maximizing, (n - 1) as nat);
        let child = children(g2, g2.current_player)[n - 1];
        lemma_minimax_bounds(search_player, root_depth, child, (d - 1) as nat, !maximizing);
    }
}

/// Over more children the best value only gets better for the side to move,
/// and it is at least as good as each child's value.
pub proof fn lemma_minimax_fold_monotone(search_player: usize, root_depth: int, g2: Game, d: nat, maximizing: bool, m: nat, n: nat)
    requires
        0 < d,
        m <= n,
    ensures
        maximizing ==> minimax_fold(search_player, root_depth, g2, d, maximizing, m)
            <= minimax_fold(search_player, root_depth, g2, d, maximizing, n),
        !maximizing ==> minimax_fold(search_player, root_depth, g2, d, maximizing, m)
            >= minimax_fold(search_player, root_depth, g2, d, maximizing, n),
    decreases n,
{
    if m < n {
        lemma_minimax_fold_monotone(search_player, root_depth, g2, d, maximizing, m, (n - 1) as nat);
    }
}

/// A decided game scores for its winner 1000 less the plies it took to reach
/// it, and the negation of that for the loser; a draw scores nothing; an
/// undecided game scores opposite amounts for the two players.
pub proof fn lemma_win_scores(g: Game, ply: int)
    ensures
        g.state == GameState::WinPlayer0 ==> evaluation(0, g, ply) == 1000 - ply && evaluation(1, g, ply) == ply - 1000,
        g.state == GameState::WinPlayer1 ==> evaluation(1, g, ply) == 1000 - ply && evaluation(0, g, ply) == ply - 1000,
        g.state == GameState::Draw ==> evaluation(0, g, ply) == 0 && evaluation(1, g, ply) == 0,
        g.state == GameState::Ongoing ==> evaluation(0, g, ply) == -evaluation(1, g, ply),
{
}

/// When the side to move can capture the opponent's last king (a move after
/// which it owns a king and the opponent none), a search of any depth of at
/// least one ply scores at least 999, the value of winning after one ply.
pub proof fn lemma_king_capture_found(g: Game, d: nat, c: Game)
    requires
        1 <= d,
        g.current_player <= 1,
        outcome(g) == GameState::Ongoing,
        children(with_outcome(g), g.current_player).contains(c),
        exists|i: int| 0 <= i < 16 && c.pieces[i].player == g.current_player && c.pieces[i].kind == PieceKind::King,
        forall|i: int| 0 <= i < 16 ==> !(c.pieces[i].player == 1 - g.current_player
            && c.pieces[i].kind == PieceKind::King),
    ensures
        minimax(g.current_player, d as int, g, d, true) >= 999,
{
    let p = g.current_player;
    let g2 = with_outcome(g);
    let cs = children(g2, g2.current_player);
    let k = choose|k: int| 0 <= k < cs.len() && cs[k] == c;
    let i = choose|i: int| 0 <= i < 16 && c.pieces[i].player == p && c.pieces[i].kind == PieceKind::King;
    assert(crate::game::has_king(c, p));
    if p == 0 {
        assert(!crate::game::has_king(c, 1));
    } else {
        assert(!crate::game::has_king(c, 0));
    }
    assert(with_outcome(c).state != GameState::Ongoing);
    assert(minimax(p, d as int, c, (d - 1) as nat, false) == 999);
    assert(minimax_fold(p, d as int, g2, d, true, (k + 1) as nat) >= 999);
    lemma_minimax_fold_monotone(p, d as int, g2, d, true, (k + 1) as nat, cs.len());
}

/// A count kept in a `usize` that wraps around: the count modulo 2^BITS.
pub open spec fn wrapped(n: int) -> int {
    n % (usize::MAX as int + 1)
}

/// Adding to a wrapped count is wrapping the sum.
pub proof fn lemma_wrapped_add(x: int, y: int)
    requires
        0 <= x,
        0 <= y,
    ensures
        wrapped(wrapped(x) + y) == wrapped(x + y),
        0 <= wrapped(x) <= usize::MAX,
{
    let m = usize::MAX as int + 1;
    vstd::arithmetic::div_mod::lemma_add_mod_noop_right(y, x, m);
    vstd::arithmetic::div_mod::lemma_mod_bound(x, m);
}

/// A `usize` counter advanced by `wrapping_add(b)` keeps the wrapped count.
pub proof fn lemma_wrapped_step(a: usize, b: usize, x: int)
    requires
        0 <= x,
        a == wrapped(x),
    ensures
        a.wrapping_add(b) == wrapped(x + b),
{
    let m = usize::MAX as int + 1;
    lemma_wrapped_add(x, b as int);
    if a + b < m {
        vstd::arithmetic::div_mod::lemma_small_mod((a + b) as nat, m as nat);
    } else {
        vstd::arithmetic::div_mod::lemma_mod_add_multiples_vanish(a + b - m, m);
        vstd::arithmetic::div_mod::lemma_small_mod((a + b - m) as nat, m as nat);
    }
}

/// The alpha-beta search of `g`, `d` more plies deep in a search of depth
/// `root_depth` for `search_player`, within the window (`alpha`, `beta`),
/// handed the principal variation `pv`: its value, how many child positions it
/// scores (each child once, counted after the search below it), and the
/// principal variation it hands back. A finished game or the horizon is
/// evaluated, with an empty variation; otherwise the children are scored in
/// order until the window closes.
pub open spec fn alpha_beta_search(
    search_player: usize,
    root_depth: int,
    g: Game,
    d: nat,
    maximizing: bool,
    alpha: int,
    beta: int,
    pv: Seq<Move>,
) -> (int, nat, Seq<Move>)
    decreases d, 1nat, 0nat,
{
    let g2 = with_outcome(g);
    if g2.state != GameState::Ongoing || d == 0 {
        (evaluation(search_player, g2, root_depth - d), 0, seq![])
    } else {
        alpha_beta_fold(search_player, root_depth, g2, d, maximizing, alpha, beta, 0, pv, seq![])
    }
}

/// The alpha-beta scoring of the children of `g2` from the `k`-th on: the
/// maximizing side raises `alpha`, the minimizing side lowers `beta`, and the
/// scoring stops once `beta <= alpha`. Each child is searched with `below`, the
/// variation the child searched before it left behind (empty after a better
/// move); a child that moves the bound makes the variation its move followed
/// by the child's own variation.
pub open spec fn alpha_beta_fold(
    search_player: usize,
    root_depth: int,
    g2: Game,
    d: nat,
    maximizing: bool,
    alpha: int,
    beta: int,
    k: nat,
    pv: Seq<Move>,
    below: Seq<Move>,
) -> (int, nat, Seq<Move>)
    decreases d, 0nat, (children(g2, g2.current_player).len() - k) as nat,
{
    let cs = children(g2, g2.current_player);
    if d == 0 || k >= cs.len() {
        (if maximizing { alpha } else { beta }, 0, pv)
    } else {
        let c = alpha_beta_search(
            search_player, root_depth, cs[k as int], (d - 1) as nat, !maximizing, alpha, beta, below);
        let better = if maximizing { c.0 > alpha } else { c.0 < beta };
        let pv2 = if better { seq![cs[k as int].last_move.unwrap()] + c.2 } else { pv };
        let below2 = if better { Seq::<Move>::empty() } else { c.2 };
        if maximizing {
            let a2 = if better { c.0 } else { alpha };
            if beta <= a2 {
                (a2, c.1 + 1, pv2)
            } else {
                let rest = alpha_beta_fold(search_player, root_depth, g2, d, maximizing, a2, beta, k + 1, pv2, below2);
                (rest.0, c.1 + 1 + rest.1, rest.2)
            }
        } else {
            let b2 = if better { c.0 } else { beta };
            if b2 <= alpha {
                (b2, c.1 + 1, pv2)
            } else {
                let rest = alpha_beta_fold(search_player, root_depth, g2, d, maximizing, alpha, b2, k + 1, pv2, below2);
                (rest.0, c.1 + 1 + rest.1, rest.2)
            }
        }
    }
}

/// A search result of depth `depth` from `game` for `search_player`: the score
/// is the minimax value; the chosen position is the first child whose minimax
/// value is the score (every child before it scores less), and the principal
/// variation starts with the move to it; or, when the search chose none (the
/// root was decided, the depth zero, or every child scored the least `i64`),
/// the position is the one chosen before and the principal variation is
/// empty. The principal variation is never longer than the depth.
pub open spec fn is_minimax_result(
    game: Game,
    search_player: usize,
    depth: usize,
    score: i64,
    best: Option<Game>,
    pv: Seq<Move>,
    before: Option<Game>,
) -> bool {
    let cs = children(with_outcome(game), game.current_player);
    &&& score == minimax(search_player, depth as int, game, depth as nat, true)
    &&& pv.len() <= depth
    &&& (best == before && pv.len() == 0
            && (depth == 0 || outcome(game) != GameState::Ongoing || score == i64::MIN))
        || (exists|k: int| 0 <= k < cs.len() && best == Some(cs[k])
            && #[trigger] minimax(search_player, depth as int, cs[k], (depth - 1) as nat, false) == score
            && (forall|j: int| 0 <= j < k
                ==> #[trigger] minimax(search_player, depth as int, cs[j], (depth - 1) as nat, false) < score)
            && pv.len() > 0 && pv[0] == cs[k].last_move.unwrap())
}

pub struct AIMinimax {
    game: Game,
    depth: usize,
    search_player: usize,
    progress: AIProgress,
}

impl AIMinimax {
    /// The position searched from.
    pub closed spec fn root(&self) -> Game {
        self.game
    }

    /// How many plies deep the search looks.
    pub closed spec fn search_depth(&self) -> usize {
        self.depth
    }

    /// The player the scores are computed for: the one to move at the root.
    pub closed spec fn searcher(&self) -> usize {
        self.search_player
    }

    /// The position chosen so far.
    pub closed spec fn best(&self) -> Option<Game> {
        self.progress.best_node
    }

    /// Whether the progress is marked complete (a minimax search never marks it).
    pub closed spec fn completed(&self) -> bool {
        self.progress.is_complete
    }

    /// How many positions the searches so far have scored (a wrapping count).
    pub closed spec fn visited(&self) -> usize {
        self.progress.nodes
    }

    pub fn new(game: Game, depth: usize) -> (r: Self)
        ensures
            r.root() == game,
            r.search_depth() == depth,
            r.searcher() == game.current_player,
            r.best() is None,
            !r.completed(),
            r.visited() == 0,
    {
        let p = game.current_player;
        Self { game, depth, search_player: p, progress: AIProgress::new() }
    }

    /// Searches the position to the set depth. The score is the minimax value
    /// of the position; the chosen position is the first child whose minimax
    /// value is that score; the node count goes up by the number of positions
    /// the alpha-beta search scores.
    pub fn think(&mut self) -> (r: AIProgress)
        requires
            wf(old(self).root()),
            old(self).search_depth() <= MAX_DEPTH,
        ensures
            final(self).root() == old(self).root(),
            final(self).search_depth() == old(self).search_depth(),
            final(self).searcher() == old(self).searcher(),
            final(self).completed() == old(self).completed(),
            r.best_node == final(self).best(),
            r.is_complete == old(self).completed(),
            r.nodes == final(self).visited(),
            r.nodes == wrapped(old(self).visited() + alpha_beta_search(old(self).searcher(),
                old(self).search_depth() as int, old(self).root(), old(self).search_depth() as nat, true,
                i64::MIN as int, i64::MAX as int, seq![]).1),
            r.pv@ == alpha_beta_search(old(self).searcher(), old(self).search_depth() as int, old(self).root(),
                old(self).search_depth() as nat, true, i64::MIN as int, i64::MAX as int, seq![]).2,
            is_minimax_result(old(self).root(), old(self).searcher(), old(self).search_depth(), r.score,
                r.best_node, r.pv@, old(self).best()),
    {
        let quiet = |_p: AIProgress, _done: usize, _total: usize| {};
        self.think_reporting(&quiet)
    }

    /// As `think`, and each time a maximizing position finds a better move,
    /// hands `report` the progress so far (the principal variation below that
    /// position, the positions visited, the best root move yet) with the number
    /// of root moves searched and the number of root moves.
    pub fn think_reporting<F: Fn(AIProgress, usize, usize)>(&mut self, report: &F) -> (r: AIProgress)
        requires
            wf(old(self).root()),
            old(self).search_depth() <= MAX_DEPTH,
            forall|p: AIProgress, done: usize, total: usize| call_requires(*report, (p, done, total)),
        ensures
            final(self).root() == old(self).root(),
            final(self).search_depth() == old(self).search_depth(),
            final(self).searcher() == old(self).searcher(),
            final(self).completed() == old(self).completed(),
            r.best_node == final(self).best(),
            r.is_complete == old(self).completed(),
            r.nodes == final(self).visited(),
            r.nodes == wrapped(old(self).visited() + alpha_beta_search(old(self).searcher(),
                old(self).search_depth() as int, old(self).root(), old(self).search_depth() as nat, true,
                i64::MIN as int, i64::MAX as int, seq![]).1),
            r.pv@ == alpha_beta_search(old(self).searcher(), old(self).search_depth() as int, old(self).root(),
                old(self).search_depth() as nat, true, i64::MIN as int, i64::MAX as int, seq![]).2,
            is_minimax_result(old(self).root(), old(self).searcher(), old(self).search_depth(), r.score,
                r.best_node, r.pv@, old(self).best()),
    {
        let mut pv: Vec<Move> = Vec::new();
        let score = self.alpha_beta(self.game, self.depth, true, i64::MIN, i64::MAX, &mut pv, report, 0, 0);
        proof {
            lemma_minimax_bounds(self.search_player, self.depth as int, self.game, self.depth as nat, true);
        }
        self.progress.pv = pv;
        self.progress.score = score;
        let pv_copy = self.progress.pv.clone();
        assert(pv_copy@ =~= self.progress.pv@);
        AIProgress {
            is_complete: self.progress.is_complete,
            nodes: self.progress.nodes,
            pv: pv_copy,
            score: score,
            best_node: self.progress.best_node,
        }
    }

    /// The alpha-beta search of `node`, `depth` more plies deep, within the
    /// window (`alpha`, `beta`). The value is exact inside the window and on
    /// the right side of it outside (fail-soft); `pv` receives the principal
    /// variation; at the root the best child found is recorded.
    fn alpha_beta<F: Fn(AIProgress, usize, usize)>(
        &mut self,
        node: Game,
        depth: usize,
        maximizing: bool,
        alpha: i64,
        beta: i64,
        pv: &mut Vec<Move>,
        report: &F,
        done: usize,
        total: usize,
    ) -> (r: i64)
        requires
            forall|p: AIProgress, d: usize, t: usize| call_requires(*report, (p, d, t)),
            wf(node),
            alpha < beta,
            depth <= old(self).depth,
            old(self).depth <= MAX_DEPTH,
            depth == old(self).depth ==> beta == i64::MAX && maximizing && old(pv)@.len() == 0,
        ensures
            final(self).game == old(self).game,
            final(self).depth == old(self).depth,
            final(self).search_player == old(self).search_player,
            final(self).progress.is_complete == old(self).progress.is_complete,
            ({
                let s = alpha_beta_search(old(self).search_player, old(self).depth as int, node, depth as nat,
                    maximizing, alpha as int, beta as int, old(pv)@);
                &&& r == s.0
                &&& final(self).progress.nodes == wrapped(old(self).progress.nodes + s.1)
                &&& final(pv)@ == s.2
            }),
            ({
                let v = minimax(old(self).search_player, old(self).depth as int, node, depth as nat, maximizing);
                &&& alpha < v < beta ==> r == v
                &&& v <= alpha ==> r <= alpha
                &&& v >= beta ==> r >= beta
                &&& outcome(node) == GameState::Ongoing && depth > 0 && alpha < v < beta ==> final(pv)@.len() > 0
                    && exists|c: Game| #[trigger] children(with_outcome(node), node.current_player).contains(c)
                        && final(pv)@[0] == c.last_move.unwrap()
                        && minimax(old(self).search_player, old(self).depth as int, c, (depth - 1) as nat,
                            !maximizing) == r
            }),
            outcome(node) != GameState::Ongoing || depth == 0 ==> r == evaluation(old(self).search_player,
                with_outcome(node), old(self).depth - depth) && final(self).progress == old(self).progress
                && final(pv)@.len() == 0,
            old(pv)@.len() <= depth ==> final(pv)@.len() <= depth,
            outcome(node) == GameState::Ongoing && depth > 0 && (if maximizing { r == alpha } else { r == beta })
                ==> final(pv)@ == old(pv)@,
            depth < old(self).depth ==> final(self).progress.best_node == old(self).progress.best_node,
            depth == old(self).depth ==> ({
                let cs = children(with_outcome(node), node.current_player);
                ||| final(self).progress.best_node == old(self).progress.best_node && final(pv)@.len() == 0
                    && (depth == 0 || outcome(node) != GameState::Ongoing || r == alpha)
                ||| exists|k: int| 0 <= k < cs.len() && final(self).progress.best_node == Some(cs[k])
                    && #[trigger] minimax(old(self).search_player, old(self).depth as int, cs[k], (depth - 1) as nat,
                        false) == r
                    && (forall|j: int| 0 <= j < k ==> #[trigger] minimax(old(self).search_player,
                        old(self).depth as int, cs[j], (depth - 1) as nat, false) < r)
                    && final(pv)@.len() > 0 && final(pv)@[0] == cs[k].last_move.unwrap()
            }),
        decreases depth,
    {
        let ghost g_in = node;
        let ghost sp = self.search_player;
        let ghost rd = self.depth as int;
        let ghost old_best = self.progress.best_node;
        let ghost n0 = self.progress.nodes;
        let ghost pv_in = pv@;
        let mut node = node;
        let state = *node.update_state();
        if state != GameState::Ongoing || depth == 0 {
            pv.clear();
            proof {
                vstd::arithmetic::div_mod::lemma_small_mod(n0 as nat, usize::MAX as nat + 1);
            }
            return self.evaluate(&node, self.depth - depth);
        }
        let mut child_pv: Vec<Move> = Vec::new();
        let child_nodes = node.child_nodes(node.current_player);
        let ghost cs = child_nodes@;
        let ghost mut acc: nat = 0;
        proof {
            lemma_children_wf(node, node.current_player);
            assert(node == with_outcome(g_in));
            vstd::arithmetic::div_mod::lemma_small_mod(n0 as nat, usize::MAX as nat + 1);
        }
        if maximizing {
            let mut alpha = alpha;
            let ghost a0 = alpha;
            let mut index: usize = 0;
            while index < child_nodes.len()
                invariant_except_break
                    alpha < beta,
                    alpha == larger(a0 as int, minimax_fold(sp, rd, node, depth as nat, true, index as nat)),
                    alpha_beta_fold(sp, rd, node, depth as nat, true, a0 as int, beta as int, 0, pv_in, seq![]) == (
                        alpha_beta_fold(sp, rd, node, depth as nat, true, alpha as int, beta as int, index as nat,
                            pv@, child_pv@).0,
                        acc + alpha_beta_fold(sp, rd, node, depth as nat, true, alpha as int, beta as int,
                            index as nat, pv@, child_pv@).1,
                        alpha_beta_fold(sp, rd, node, depth as nat, true, alpha as int, beta as int, index as nat,
                            pv@, child_pv@).2,
                    ),
                    forall|j: int| 0 <= j < index ==> #[trigger] minimax(sp, rd, cs[j], (depth - 1) as nat, false)
                        <= alpha,
                    alpha == a0 ==> pv@ == pv_in && self.progress.best_node == old_best,
                invariant
                    index <= child_nodes.len(),
                    cs == child_nodes@,
                    cs == children(node, node.current_player),
                    forall|k: int| 0 <= k < cs.len() ==> wf(#[trigger] cs[k]) && cs[k].last_move is Some,
                    self.game == old(self).game,
                    self.depth == old(self).depth,
                    self.search_player == sp,
                    sp == old(self).search_player,
                    rd == self.depth,
                    0 < depth <= rd <= MAX_DEPTH,
                    depth == rd ==> beta == i64::MAX && pv_in.len() == 0,
                    depth < rd ==> self.progress.best_node == old_best,
                    self.progress.is_complete == old(self).progress.is_complete,
                    self.progress.nodes == wrapped(n0 + acc),
                    forall|p: AIProgress, d: usize, t: usize| call_requires(*report, (p, d, t)),
                    a0 < beta,
                    a0 <= alpha,
                    node.state == GameState::Ongoing,
                    child_pv@.len() < depth,
                    pv_in.len() <= depth ==> pv@.len() <= depth,
                    alpha > a0 && (alpha < beta || depth == rd) ==> exists|k: int| 0 <= k <= index && k < cs.len()
                        && pv@.len() > 0 && pv@[0] == cs[k].last_move.unwrap()
                        && #[trigger] minimax(sp, rd, cs[k], (depth - 1) as nat, false) == alpha
                        && (forall|j: int| 0 <= j < k ==> #[trigger] minimax(sp, rd, cs[j], (depth - 1) as nat, false)
                            < alpha)
                        && (depth == rd ==> self.progress.best_node == Some(cs[k])),
                ensures
                    ({
                        let v = minimax_fold(sp, rd, node, depth as nat, true, cs.len());
                        &&& a0 < v < beta ==> alpha == v
                        &&& v <= a0 ==> alpha <= a0
                        &&& v >= beta ==> alpha >= beta
                    }),
                    alpha_beta_fold(sp, rd, node, depth as nat, true, a0 as int, beta as int, 0, pv_in, seq![])
                        == (alpha as int, acc, pv@),
                    alpha == a0 ==> pv@ == pv_in && self.progress.best_node == old_best,
                decreases child_nodes.len() - index,
            {
                let child = child_nodes[index];
                let ghost prev_alpha = alpha;
                let ghost nb = self.progress.nodes;
                let (child_done, child_total) = if depth == self.depth {
                    (index, child_nodes.len())
                } else {
                    (done, total)
                };
                let ghost below = child_pv@;
                let child_score = self.alpha_beta(
                    child, depth - 1, false, alpha, beta, &mut child_pv, report, child_done, child_total);
                let ghost vk = minimax(sp, rd, child, (depth - 1) as nat, false);
                let ghost cr = alpha_beta_search(
                    sp, rd, child, (depth - 1) as nat, false, alpha as int, beta as int, below);
                proof {
                    lemma_minimax_bounds(sp, rd, child, (depth - 1) as nat, false);
                    lemma_minimax_fold_monotone(sp, rd, node, depth as nat, true, (index + 1) as nat, cs.len());
                    lemma_wrapped_add(n0 + acc, cr.1 as int);
                    lemma_wrapped_step(self.progress.nodes, 1, n0 + acc + cr.1);
                    acc = acc + cr.1 + 1;
                }
                self.progress.nodes = self.progress.nodes.wrapping_add(1);
                if child_score > alpha {
                    alpha = child_score;
                    pv.clear();
                    pv.push(child.last_move.unwrap());
                    pv.append(&mut child_pv);
                    if depth == self.depth {
                        self.progress.best_node = Some(child);
                        assert(vk == alpha);
                    }
                    // Report the better move.
                    let so_far = AIProgress {
                        is_complete: self.progress.is_complete,
                        nodes: self.progress.nodes,
                        pv: pv.clone(),
                        score: self.progress.score,
                        best_node: self.progress.best_node,
                    };
                    if depth == self.depth {
                        report(so_far, index + 1, child_nodes.len());
                    } else {
                        report(so_far, done, total);
                    }
                    assert(pv@[0] == cs[index as int].last_move.unwrap());
                    assert forall|j: int| 0 <= j < index implies #[trigger] minimax(sp, rd, cs[j], (depth - 1) as nat,
                        false) < alpha by {
                        assert(minimax(sp, rd, cs[j], (depth - 1) as nat, false) <= prev_alpha);
                    }
                    proof {
                        if alpha < beta || depth == rd {
                            assert(minimax(sp, rd, cs[index as int], (depth - 1) as nat, false) == alpha);
                        }
                    }
                }
                if beta <= alpha {
                    assert(vk >= beta);
                    break;
                }
                index = index + 1;
            }
            proof {
                if a0 < alpha && alpha < beta {
                    let k = choose|k: int| 0 <= k <= index && k < cs.len() && pv@.len() > 0
                        && pv@[0] == cs[k].last_move.unwrap()
                        && #[trigger] minimax(sp, rd, cs[k], (depth - 1) as nat, false) == alpha;
                    assert(cs.contains(cs[k]));
                }
            }
            alpha
        } else {
            let mut beta = beta;
            let ghost b0 = beta;
            let mut index: usize = 0;
            while index < child_nodes.len()
                invariant_except_break
                    alpha < beta,
                    beta == smaller(b0 as int, minimax_fold(sp, rd, node, depth as nat, false, index as nat)),
                    alpha_beta_fold(sp, rd, node, depth as nat, false, alpha as int, b0 as int, 0, pv_in, seq![]) == (
                        alpha_beta_fold(sp, rd, node, depth as nat, false, alpha as int, beta as int, index as nat,
                            pv@, child_pv@).0,
                        acc + alpha_beta_fold(sp, rd, node, depth as nat, false, alpha as int, beta as int,
                            index as nat, pv@, child_pv@).1,
                        alpha_beta_fold(sp, rd, node, depth as nat, false, alpha as int, beta as int, index as nat,
                            pv@, child_pv@).2,
                    ),
                    beta == b0 ==> pv@ == pv_in,
                invariant
                    index <= child_nodes.len(),
                    cs == child_nodes@,
                    cs == children(node, node.current_player),
                    forall|k: int| 0 <= k < cs.len() ==> wf(#[trigger] cs[k]) && cs[k].last_move is Some,
                    self.game == old(self).game,
                    self.depth == old(self).depth,
                    self.search_player == sp,
                    sp == old(self).search_player,
                    rd == self.depth,
                    0 < depth < rd,
                    rd <= MAX_DEPTH,
                    self.progress.best_node == old_best,
                    self.progress.is_complete == old(self).progress.is_complete,
                    self.progress.nodes == wrapped(n0 + acc),
                    forall|p: AIProgress, d: usize, t: usize| call_requires(*report, (p, d, t)),
                    alpha < b0,
                    beta <= b0,
                    node.state == GameState::Ongoing,
                    child_pv@.len() < depth,
                    pv_in.len() <= depth ==> pv@.len() <= depth,
                    alpha < beta < b0 ==> exists|k: int| 0 <= k < index
                        && pv@.len() > 0 && pv@[0] == cs[k].last_move.unwrap()
                        && #[trigger] minimax(sp, rd, cs[k], (depth - 1) as nat, true) == beta,
                ensures
                    ({
                        let v = minimax_fold(sp, rd, node, depth as nat, false, cs.len());
                        &&& alpha < v < b0 ==> beta == v
                        &&& v <= alpha ==> beta <= alpha
                        &&& v >= b0 ==> beta >= b0
                    }),
                    alpha_beta_fold(sp, rd, node, depth as nat, false, alpha as int, b0 as int, 0, pv_in, seq![])
                        == (beta as int, acc, pv@),
                    beta == b0 ==> pv@ == pv_in,
                decreases child_nodes.len() - index,
            {
                let child = child_nodes[index];
                let ghost below = child_pv@;
                let child_score = self.alpha_beta(child, depth - 1, true, alpha, beta, &mut child_pv, report, done, total);
                let ghost vk = minimax(sp, rd, child, (depth - 1) as nat, true);
                let ghost cr = alpha_beta_search(
                    sp, rd, child, (depth - 1) as nat, true, alpha as int, beta as int, below);
                proof {
                    lemma_minimax_bounds(sp, rd, child, (depth - 1) as nat, true);
                    lemma_minimax_fold_monotone(sp, rd, node, depth as nat, false, (index + 1) as nat, cs.len());
                    lemma_wrapped_add(n0 + acc, cr.1 as int);
                    lemma_wrapped_step(self.progress.nodes, 1, n0 + acc + cr.1);
                    acc = acc + cr.1 + 1;
                }
                self.progress.nodes = self.progress.nodes.wrapping_add(1);
                if child_score < beta {
                    beta = child_score;
                    pv.clear();
                    pv.push(child.last_move.unwrap());
                    pv.append(&mut child_pv);
                    assert(pv@[0] == cs[index as int].last_move.unwrap());
                }
                if beta <= alpha {
                    assert(vk <= alpha);
                    break;
                }
                index = index + 1;
            }
            proof {
                if alpha < beta && beta < b0 {
                    let k = choose|k: int| 0 <= k < index && pv@.len() > 0 && pv@[0] == cs[k].last_move.unwrap()
                        && #[trigger] minimax(sp, rd, cs[k], (depth - 1) as nat, true) == beta;
                    assert(cs.contains(cs[k]));
                }
            }
            beta
        }
    }

    /// Scores the game from the point of view of the search player. `depth` is
    /// the number of plies from the root: winning sooner and losing later score
    /// higher.
    fn evaluate(&self, node: &Game, depth: usize) -> (r: i64)
        requires
            depth <= MAX_DEPTH,
        ensures
            r == evaluation(self.search_player, *node, depth as int),
    {
        match node.state {
            GameState::Draw => 0,
            GameState::WinPlayer0 => {
                if self.search_player == 0 {
                    WIN_LOSS_VAL - depth as i64
                } else {
                    -WIN_LOSS_VAL + depth as i64
                }
            },
            GameState::WinPlayer1 => {
                if self.search_player == 1 {
                    WIN_LOSS_VAL - depth as i64
                } else {
                    -WIN_LOSS_VAL + depth as i64
                }
            },
            GameState::Ongoing => self.evaluate_pieces(node),
        }
    }

    fn evaluate_pieces(&self, node: &Game) -> (r: i64)
        ensures
            r == material_balance(*node, self.search_player),
    {
        let mut p0: i64 = 0;
        let mut p1: i64 = 0;
        let mut i: usize = 0;
        while i < 16
            invariant
                i <= 16,
                p0 == material(*node, true, i as int),
                p1 == material(*node, false, i as int),
            decreases 16 - i,
        {
            proof {
                lemma_material_bounds(*node, true, i as int);
                lemma_material_bounds(*node, false, i as int);
            }
            let piece = &node.pieces[i];
            let val: i64 = match piece.kind {
                PieceKind::King => 0,
                PieceKind::Gold => 9,
                PieceKind::Silver => 6,
                PieceKind::SilverPro => 7,
                PieceKind::Pawn => 1,
                PieceKind::PawnPro => 5,
                _ => 0,
            };
            if piece.player == 0 {
                p0 = p0 + val;
            } else {
                p1 = p1 + val;
            }
            i = i + 1;
        }
        proof {
            lemma_material_bounds(*node, true, 16);
            lemma_material_bounds(*node, false, 16);
        }
        if self.search_player == 0 {
            return p0 - p1;
        }
        p1 - p0
    }
}

} // verus!
