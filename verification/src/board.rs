//! A grid of squares, each holding at most one piece id, addressed by 2D
//! coordinates.

use vstd::prelude::*;
use crate::game::Coord;
use crate::piece::Piece;

verus! {

#[derive(Debug, Clone)]
pub struct Board {
    pub columns: usize,
    pub rows: usize,
    pub piece_ids: Vec<Option<usize>>,
}

/// The row-major index of a coordinate on a grid of `columns` columns.
pub open spec fn coord_index(c: Coord, columns: usize) -> int {
    c.y * columns + c.x
}

/// A coordinate names a square of the board.
pub open spec fn on_board(b: &Board, c: Coord) -> bool {
    0 <= coord_index(c, b.columns) < b.piece_ids@.len() && coord_index(c, b.columns) <= usize::MAX
}

/// The coordinates of the empty squares among the first `n` entries, in order.
pub open spec fn empty_coords_upto(ids: Seq<Option<usize>>, columns: usize, n: int) -> Seq<Coord>
    decreases n,
{
    if n <= 0 {
        seq![]
    } else if ids[n - 1] is None {
        empty_coords_upto(ids, columns, n - 1).push(
            Coord { x: ((n - 1) % columns as int) as usize, y: ((n - 1) / columns as int) as usize },
        )
    } else {
        empty_coords_upto(ids, columns, n - 1)
    }
}

impl Board {
    pub fn new(columns: usize, rows: usize) -> (r: Self)
        requires
            columns * rows <= usize::MAX,
        ensures
            r.columns == columns,
            r.rows == rows,
            r.piece_ids@ == Seq::<Option<usize>>::empty(),
    {
        Self { columns, rows, piece_ids: Vec::<Option<usize>>::with_capacity(columns * rows) }
    }

    /// Sets up the board for use: one empty square per column and row.
    pub fn prepare(&mut self)
        requires
            old(self).columns * old(self).rows <= usize::MAX,
            old(self).piece_ids@.len() + old(self).columns * old(self).rows <= usize::MAX,
        ensures
            final(self).columns == old(self).columns,
            final(self).rows == old(self).rows,
            final(self).piece_ids@ == old(self).piece_ids@ + Seq::new(
                (old(self).columns * old(self).rows) as nat,
                |i: int| None::<usize>,
            ),
    {
        let n = self.columns * self.rows;
        let ghost start = self.piece_ids@;
        let mut k: usize = 0;
        while k < n
            invariant
                k <= n,
                n == old(self).columns * old(self).rows,
                self.columns == old(self).columns,
                self.rows == old(self).rows,
                start == old(self).piece_ids@,
                start.len() + n <= usize::MAX,
                self.piece_ids@ =~= start + Seq::new(k as nat, |i: int| None::<usize>),
            decreases n - k,
        {
            self.piece_ids.push(None);
            k = k + 1;
        }
    }

    /// The coordinates that hold no piece, in index order.
    pub fn empty_coords(&self) -> (r: Vec<Coord>)
        requires
            self.columns > 0 || forall|i: int| 0 <= i < self.piece_ids@.len() ==> self.piece_ids@[i] is Some,
        ensures
            r@ == empty_coords_upto(self.piece_ids@, self.columns, self.piece_ids@.len() as int),
    {
        let mut coords: Vec<Coord> = Vec::new();
        let mut index: usize = 0;
        while index < self.piece_ids.len()
            invariant
                index <= self.piece_ids@.len(),
                self.columns > 0 || forall|i: int| 0 <= i < self.piece_ids@.len() ==> self.piece_ids@[i] is Some,
                coords@ == empty_coords_upto(self.piece_ids@, self.columns, index as int),
            decreases self.piece_ids@.len() - index,
        {
            if self.piece_ids[index].is_none() {
                coords.push(Coord::from_index(index, self.columns));
            }
            index = index + 1;
        }
        coords
    }

    /// The piece id at the given coordinate.
    pub fn piece_id_at(&mut self, coord: &Coord) -> (r: Option<usize>)
        requires
            on_board(old(self), *coord),
        ensures
            *final(self) == *old(self),
            r == old(self).piece_ids@[coord_index(*coord, old(self).columns)],
    {
        self.piece_ids[coord.to_index(self.columns)]
    }

    /// Puts the piece id on the given coordinate, which must be empty.
    pub fn add_piece_id(&mut self, id: usize, coord: &Coord)
        requires
            on_board(old(self), *coord),
            old(self).piece_ids@[coord_index(*coord, old(self).columns)] is None,
        ensures
            final(self).columns == old(self).columns,
            final(self).rows == old(self).rows,
            final(self).piece_ids@ == old(self).piece_ids@.update(coord_index(*coord, old(self).columns), Some(id)),
    {
        let index = coord.to_index(self.columns);
        self.piece_ids.set(index, Some(id));
    }

    /// Empties the given coordinate and returns the id it held.
    pub fn remove_piece_id(&mut self, coord: &Coord) -> (r: Option<usize>)
        requires
            on_board(old(self), *coord),
        ensures
            final(self).columns == old(self).columns,
            final(self).rows == old(self).rows,
            final(self).piece_ids@ == old(self).piece_ids@.update(coord_index(*coord, old(self).columns), None),
            r == old(self).piece_ids@[coord_index(*coord, old(self).columns)],
    {
        let index = coord.to_index(self.columns);
        let previous = self.piece_ids[index];
        self.piece_ids.set(index, None);
        previous
    }

    /// Whether a piece of the given player stands on the coordinate.
    pub fn is_player_piece_at(&mut self, coord: &Coord, player: usize, pieces: &[Piece]) -> (r: bool)
        requires
            on_board(old(self), *coord),
            old(self).piece_ids@[coord_index(*coord, old(self).columns)] matches Some(id) ==> id < pieces@.len(),
        ensures
            *final(self) == *old(self),
            r == (old(self).piece_ids@[coord_index(*coord, old(self).columns)] matches Some(id)
                && pieces@[id as int].player == player),
    {
        let id = self.piece_id_at(coord);
        id.is_some() && pieces[id.unwrap()].player == player
    }
}

/// Reading a square just filled gives the id put there; emptying it again gives
/// that id back and leaves the squares as they were before the piece was added.
pub proof fn lemma_add_then_remove(ids: Seq<Option<usize>>, i: int, id: usize)
    requires
        0 <= i < ids.len(),
        ids[i] is None,
    ensures
        ids.update(i, Some(id))[i] == Some(id),
        ids.update(i, Some(id)).update(i, None) == ids,
{
    assert(ids.update(i, Some(id)).update(i, None) =~= ids);
}

} // verus!
