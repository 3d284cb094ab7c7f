//! The pieces of the game: their kinds, how they move, promote and demote.

use vstd::prelude::*;
use crate::game::GameLocation;

verus! {

/// The kinds of pieces. Each promotable kind has a promoted counterpart.
#[derive(Debug, Clone, Copy, PartialEq, Eq, Hash, Structural)]
pub enum PieceKind {
    King,
    Gold,
    Silver,
    SilverPro,
    Rook,
    RookPro,
    Bishop,
    BishopPro,
    Pawn,
    PawnPro,
}

/// A piece, identified by `id`, owned by `player` (0 or 1), found at `location`
/// under `location_index` (a grid index or a reserve slot).
#[derive(Debug, Clone, Copy, PartialEq, Eq, Hash, Structural)]
pub struct Piece {
    pub id: usize,
    pub kind: PieceKind,
    pub player: usize,
    pub location: GameLocation,
    pub location_index: usize,
}

/// The single-space moves of a kind, seen from player 0 (forward is +y).
pub open spec fn base_short_vectors(kind: PieceKind) -> Seq<(i8, i8)> {
    match kind {
        PieceKind::King => seq![(1i8, 0i8), (0i8, 1i8), (-1i8, 0i8), (0i8, -1i8), (1i8, 1i8), (-1i8, 1i8), (-1i8, -1i8), (1i8, -1i8)],
        PieceKind::Gold => seq![(1i8, 0i8), (0i8, 1i8), (-1i8, 0i8), (0i8, -1i8), (1i8, 1i8), (-1i8, 1i8)],
        PieceKind::Silver => seq![(0i8, 1i8), (1i8, 1i8), (-1i8, 1i8), (-1i8, -1i8), (1i8, -1i8)],
        PieceKind::SilverPro => seq![(1i8, 0i8), (0i8, 1i8), (-1i8, 0i8), (0i8, -1i8), (1i8, 1i8), (-1i8, 1i8)],
        PieceKind::RookPro => seq![(1i8, 1i8), (-1i8, 1i8), (-1i8, -1i8), (1i8, -1i8)],
        PieceKind::BishopPro => seq![(1i8, 0i8), (0i8, 1i8), (-1i8, 0i8), (0i8, -1i8)],
        PieceKind::Pawn => seq![(0i8, 1i8)],
        PieceKind::PawnPro => seq![(1i8, 0i8), (0i8, 1i8), (-1i8, 0i8), (0i8, -1i8), (1i8, 1i8), (-1i8, 1i8)],
        _ => seq![],
    }
}

/// A vector mirrored along the y axis.
pub open spec fn flip_y(v: (i8, i8)) -> (i8, i8) {
    (v.0, (-v.1) as i8)
}

/// The single-space moves of a kind for a player: player 1 moves toward -y.
pub open spec fn short_vectors(kind: PieceKind, player: usize) -> Seq<(i8, i8)> {
    if player == 1 {
        base_short_vectors(kind).map_values(|v: (i8, i8)| flip_y(v))
    } else {
        base_short_vectors(kind)
    }
}

/// The sliding directions of a kind (the same for both players).
pub open spec fn long_vectors(kind: PieceKind) -> Seq<(i8, i8)> {
    match kind {
        PieceKind::Rook | PieceKind::RookPro => seq![(1i8, 0i8), (0i8, 1i8), (-1i8, 0i8), (0i8, -1i8)],
        PieceKind::Bishop | PieceKind::BishopPro => seq![(1i8, 1i8), (-1i8, 1i8), (-1i8, -1i8), (1i8, -1i8)],
        _ => seq![],
    }
}

/// The kind a piece becomes when promoted, if it can be promoted.
pub open spec fn promoted(kind: PieceKind) -> Option<PieceKind> {
    match kind {
        PieceKind::Silver => Some(PieceKind::SilverPro),
        PieceKind::Rook => Some(PieceKind::RookPro),
        PieceKind::Bishop => Some(PieceKind::BishopPro),
        PieceKind::Pawn => Some(PieceKind::PawnPro),
        _ => None,
    }
}

/// The kind a promoted piece reverts to when captured, if it is promoted.
pub open spec fn demoted(kind: PieceKind) -> Option<PieceKind> {
    match kind {
        PieceKind::SilverPro => Some(PieceKind::Silver),
        PieceKind::RookPro => Some(PieceKind::Rook),
        PieceKind::BishopPro => Some(PieceKind::Bishop),
        PieceKind::PawnPro => Some(PieceKind::Pawn),
        _ => None,
    }
}

/// The short name of a kind: its letter, with `+` when promoted.
pub open spec fn kind_name(kind: PieceKind) -> Seq<char> {
    match kind {
        PieceKind::King => "K"@,
        PieceKind::Gold => "G"@,
        PieceKind::Silver => "S"@,
        PieceKind::SilverPro => "S+"@,
        PieceKind::Rook => "R"@,
        PieceKind::RookPro => "R+"@,
        PieceKind::Bishop => "B"@,
        PieceKind::BishopPro => "B+"@,
        PieceKind::Pawn => "P"@,
        PieceKind::PawnPro => "P+"@,
    }
}

/// Every move vector has components in -1..=1 and is not the null vector.
pub open spec fn is_unit_step(v: (i8, i8)) -> bool {
    &&& -1 <= v.0 <= 1
    &&& -1 <= v.1 <= 1
    &&& (v.0 != 0 || v.1 != 0)
}

impl Piece {
    pub fn new(id: usize, kind: PieceKind, player: usize) -> (r: Self)
        ensures
            r.id == id,
            r.kind == kind,
            r.player == player,
            r.location == GameLocation::OutOfGame,
            r.location_index == usize::MAX,
    {
        Self { id, kind, player, location: GameLocation::OutOfGame, location_index: usize::MAX }
    }

    /// Single-space piece moves, mirrored for player 1.
    pub fn short_move_vectors(&self) -> (r: Vec<(i8, i8)>)
        ensures
            r@ == short_vectors(self.kind, self.player),
    {
        let mut vectors: Vec<(i8, i8)> = match self.kind {
            PieceKind::King => vec![(1, 0), (0, 1), (-1, 0), (0, -1), (1, 1), (-1, 1), (-1, -1), (1, -1)],
            PieceKind::Gold => vec![(1, 0), (0, 1), (-1, 0), (0, -1), (1, 1), (-1, 1)],
            PieceKind::Silver => vec![(0, 1), (1, 1), (-1, 1), (-1, -1), (1, -1)],
            PieceKind::SilverPro => vec![(1, 0), (0, 1), (-1, 0), (0, -1), (1, 1), (-1, 1)],
            PieceKind::RookPro => vec![(1, 1), (-1, 1), (-1, -1), (1, -1)],
            PieceKind::BishopPro => vec![(1, 0), (0, 1), (-1, 0), (0, -1)],
            PieceKind::Pawn => vec![(0, 1)],
            PieceKind::PawnPro => vec![(1, 0), (0, 1), (-1, 0), (0, -1), (1, 1), (-1, 1)],
            _ => vec![],
        };
        assert(vectors@ =~= base_short_vectors(self.kind));
        if self.player == 1 {
            let ghost base = vectors@;
            let n = vectors.len();
            let mut i: usize = 0;
            while i < n
                invariant
                    n == vectors.len(),
                    base == base_short_vectors(self.kind),
                    base.len() == n,
                    i <= n,
                    forall|j: int| 0 <= j < i ==> vectors@[j] == flip_y(base[j]),
                    forall|j: int| i <= j < n ==> vectors@[j] == base[j],
                    forall|j: int| 0 <= j < n ==> is_unit_step(#[trigger] base[j]),
                decreases n - i,
            {
                let v = vectors[i];
                assert(is_unit_step(base[i as int]));
                vectors.set(i, (v.0, -v.1));
                i = i + 1;
            }
            assert(vectors@ =~= base.map_values(|v: (i8, i8)| flip_y(v)));
        }
        vectors
    }

    /// Sliding piece moves; each is followed until a piece or the edge stops it.
    pub fn long_move_vectors(&self) -> (r: Vec<(i8, i8)>)
        ensures
            r@ == long_vectors(self.kind),
    {
        let r: Vec<(i8, i8)> = match self.kind {
            PieceKind::Rook | PieceKind::RookPro => vec![(1, 0), (0, 1), (-1, 0), (0, -1)],
            PieceKind::Bishop | PieceKind::BishopPro => vec![(1, 1), (-1, 1), (-1, -1), (1, -1)],
            _ => Vec::new(),
        };
        assert(r@ =~= long_vectors(self.kind));
        r
    }

    pub fn promotion_kind(&self) -> (r: Option<PieceKind>)
        ensures
            r == promoted(self.kind),
    {
        match self.kind {
            PieceKind::Silver => Some(PieceKind::SilverPro),
            PieceKind::Rook => Some(PieceKind::RookPro),
            PieceKind::Bishop => Some(PieceKind::BishopPro),
            PieceKind::Pawn => Some(PieceKind::PawnPro),
            PieceKind::King | PieceKind::Gold | PieceKind::SilverPro | PieceKind::RookPro
            | PieceKind::BishopPro | PieceKind::PawnPro => None,
        }
    }

    pub fn demotion_kind(&self) -> (r: Option<PieceKind>)
        ensures
            r == demoted(self.kind),
    {
        match self.kind {
            PieceKind::SilverPro => Some(PieceKind::Silver),
            PieceKind::RookPro => Some(PieceKind::Rook),
            PieceKind::BishopPro => Some(PieceKind::Bishop),
            PieceKind::PawnPro => Some(PieceKind::Pawn),
            PieceKind::King | PieceKind::Gold | PieceKind::Silver | PieceKind::Rook
            | PieceKind::Bishop | PieceKind::Pawn => None,
        }
    }

    pub fn string_rep(&self) -> (r: &'static str)
        ensures
            r@ == kind_name(self.kind),
    {
        match self.kind {
            PieceKind::King => "K",
            PieceKind::Gold => "G",
            PieceKind::Silver => "S",
            PieceKind::SilverPro => "S+",
            PieceKind::Rook => "R",
            PieceKind::RookPro => "R+",
            PieceKind::Bishop => "B",
            PieceKind::BishopPro => "B+",
            PieceKind::Pawn => "P",
            PieceKind::PawnPro => "P+",
        }
    }
}

/// The shogi rule for one step of (dx, dy) by a piece of `kind` owned by
/// `player`, forward being +y for player 0 and -y for player 1: a king steps
/// anywhere; a gold (and a promoted silver or pawn) anywhere but diagonally
/// backward; a silver diagonally or straight forward; a pawn straight forward;
/// a promoted rook diagonally, a promoted bishop orthogonally; an unpromoted
/// rook or bishop only slides.
pub open spec fn step_rule(kind: PieceKind, player: usize, dx: int, dy: int) -> bool {
    let forward = if player == 0 { 1int } else { -1int };
    (dx != 0 || dy != 0) && match kind {
        PieceKind::King => true,
        PieceKind::Gold | PieceKind::SilverPro | PieceKind::PawnPro => !(dy == -forward && dx != 0),
        PieceKind::Silver => (dx != 0 && dy != 0) || (dx == 0 && dy == forward),
        PieceKind::Pawn => dx == 0 && dy == forward,
        PieceKind::RookPro => dx != 0 && dy != 0,
        PieceKind::BishopPro => dx == 0 || dy == 0,
        PieceKind::Rook | PieceKind::Bishop => false,
    }
}

/// Whether one of the first `n` vectors of `vs` is (dx, dy).
pub open spec fn has_step(vs: Seq<(i8, i8)>, dx: int, dy: int, n: int) -> bool
    decreases n,
{
    if n <= 0 {
        false
    } else {
        (vs[n - 1].0 == dx && vs[n - 1].1 == dy) || has_step(vs, dx, dy, n - 1)
    }
}

/// The step (dx, dy) is among the kind's single-space moves exactly when the
/// rule allows it.
pub open spec fn step_matches(kind: PieceKind, player: usize, dx: int, dy: int) -> bool {
    let vs = short_vectors(kind, player);
    has_step(vs, dx, dy, vs.len() as int) == step_rule(kind, player, dx, dy)
}

pub open spec fn steps_match(kind: PieceKind, player: usize) -> bool {
    &&& step_matches(kind, player, -1, -1) && step_matches(kind, player, -1, 0) && step_matches(kind, player, -1, 1)
    &&& step_matches(kind, player, 0, -1) && step_matches(kind, player, 0, 0) && step_matches(kind, player, 0, 1)
    &&& step_matches(kind, player, 1, -1) && step_matches(kind, player, 1, 0) && step_matches(kind, player, 1, 1)
}

proof fn lemma_steps_match_kind(kind: PieceKind, player: usize)
    requires
        player <= 1,
    ensures
        steps_match(kind, player),
{
    reveal_with_fuel(has_step, 10);
    let vs = short_vectors(kind, player);
    match kind {
        PieceKind::King => {
            if player == 0 {
                assert(vs =~= seq![(1i8, 0i8), (0i8, 1i8), (-1i8, 0i8), (0i8, -1i8), (1i8, 1i8), (-1i8, 1i8), (-1i8, -1i8), (1i8, -1i8)]);
            } else {
                assert(vs =~= seq![(1i8, 0i8), (0i8, -1i8), (-1i8, 0i8), (0i8, 1i8), (1i8, -1i8), (-1i8, -1i8), (-1i8, 1i8), (1i8, 1i8)]);
            }
            assert(step_matches(kind, player, -1, -1));
            assert(step_matches(kind, player, -1, 0));
            assert(step_matches(kind, player, -1, 1));
            assert(step_matches(kind, player, 0, -1));
            assert(step_matches(kind, player, 0, 1));
            assert(step_matches(kind, player, 1, -1));
            assert(step_matches(kind, player, 1, 0));
            assert(step_matches(kind, player, 1, 1));
        },
        PieceKind::Gold => {
            if player == 0 {
                assert(vs =~= seq![(1i8, 0i8), (0i8, 1i8), (-1i8, 0i8), (0i8, -1i8), (1i8, 1i8), (-1i8, 1i8)]);
            } else {
                assert(vs =~= seq![(1i8, 0i8), (0i8, -1i8), (-1i8, 0i8), (0i8, 1i8), (1i8, -1i8), (-1i8, -1i8)]);
            }
        },
        PieceKind::Silver => {
            if player == 0 {
                assert(vs =~= seq![(0i8, 1i8), (1i8, 1i8), (-1i8, 1i8), (-1i8, -1i8), (1i8, -1i8)]);
            } else {
                assert(vs =~= seq![(0i8, -1i8), (1i8, -1i8), (-1i8, -1i8), (-1i8, 1i8), (1i8, 1i8)]);
            }
        },
        PieceKind::SilverPro => {
            if player == 0 {
                assert(vs =~= seq![(1i8, 0i8), (0i8, 1i8), (-1i8, 0i8), (0i8, -1i8), (1i8, 1i8), (-1i8, 1i8)]);
            } else {
                assert(vs =~= seq![(1i8, 0i8), (0i8, -1i8), (-1i8, 0i8), (0i8, 1i8), (1i8, -1i8), (-1i8, -1i8)]);
            }
        },
        PieceKind::Rook => {
            if player == 0 {
                assert(vs =~= Seq::<(i8, i8)>::empty());
            } else {
                assert(vs =~= Seq::<(i8, i8)>::empty());
            }
        },
        PieceKind::RookPro => {
            if player == 0 {
                assert(vs =~= seq![(1i8, 1i8), (-1i8, 1i8), (-1i8, -1i8), (1i8, -1i8)]);
            } else {
                assert(vs =~= seq![(1i8, -1i8), (-1i8, -1i8), (-1i8, 1i8), (1i8, 1i8)]);
            }
        },
        PieceKind::Bishop => {
            if player == 0 {
                assert(vs =~= Seq::<(i8, i8)>::empty());
            } else {
                assert(vs =~= Seq::<(i8, i8)>::empty());
            }
        },
        PieceKind::BishopPro => {
            if player == 0 {
                assert(vs =~= seq![(1i8, 0i8), (0i8, 1i8), (-1i8, 0i8), (0i8, -1i8)]);
            } else {
                assert(vs =~= seq![(1i8, 0i8), (0i8, -1i8), (-1i8, 0i8), (0i8, 1i8)]);
            }
        },
        PieceKind::Pawn => {
            if player == 0 {
                assert(vs =~= seq![(0i8, 1i8)]);
            } else {
                assert(vs =~= seq![(0i8, -1i8)]);
            }
        },
        PieceKind::PawnPro => {
            if player == 0 {
                assert(vs =~= seq![(1i8, 0i8), (0i8, 1i8), (-1i8, 0i8), (0i8, -1i8), (1i8, 1i8), (-1i8, 1i8)]);
            } else {
                assert(vs =~= seq![(1i8, 0i8), (0i8, -1i8), (-1i8, 0i8), (0i8, 1i8), (1i8, -1i8), (-1i8, -1i8)]);
            }
        },
    }
}

proof fn lemma_has_step(vs: Seq<(i8, i8)>, dx: int, dy: int, n: int)
    requires
        0 <= n <= vs.len(),
    ensures
        has_step(vs, dx, dy, n) <==> exists|k: int| 0 <= k < n && (#[trigger] vs[k]).0 == dx && vs[k].1 == dy,
    decreases n,
{
    if n > 0 {
        lemma_has_step(vs, dx, dy, n - 1);
    }
}

/// A piece's single-space moves are exactly the steps the shogi rule allows
/// its kind, mirrored for player 1.
pub proof fn lemma_short_vectors_rule(kind: PieceKind, player: usize, dx: int, dy: int)
    requires
        player <= 1,
        -1 <= dx <= 1,
        -1 <= dy <= 1,
    ensures
        (exists|k: int| 0 <= k < short_vectors(kind, player).len()
            && (#[trigger] short_vectors(kind, player)[k]).0 == dx && short_vectors(kind, player)[k].1 == dy)
            <==> step_rule(kind, player, dx, dy),
{
    lemma_steps_match_kind(kind, player);
    let vs = short_vectors(kind, player);
    lemma_has_step(vs, dx, dy, vs.len() as int);
    assert(step_matches(kind, player, dx, dy));
}

/// Promotion followed by demotion gives back the kind it started from, and the other
/// way round.
pub proof fn lemma_promote_demote_inverse(kind: PieceKind)
    ensures
        promoted(kind) matches Some(p) ==> demoted(p) == Some(kind),
        demoted(kind) matches Some(d) ==> promoted(d) == Some(kind),
{
}

/// Player 1's single-space moves are player 0's mirrored along the y axis.
pub proof fn lemma_short_vectors_mirrored(kind: PieceKind)
    ensures
        short_vectors(kind, 1).len() == short_vectors(kind, 0).len(),
        forall|i: int| 0 <= i < short_vectors(kind, 0).len()
            ==> #[trigger] short_vectors(kind, 1)[i] == flip_y(short_vectors(kind, 0)[i]),
{
}

/// Every move vector is a unit step in some direction.
pub proof fn lemma_vectors_are_unit_steps(kind: PieceKind, player: usize)
    ensures
        forall|i: int| 0 <= i < short_vectors(kind, player).len()
            ==> is_unit_step(#[trigger] short_vectors(kind, player)[i]),
        forall|i: int| 0 <= i < long_vectors(kind).len()
            ==> is_unit_step(#[trigger] long_vectors(kind)[i]),
{
}

} // verus!
