use vstd::prelude::*;
use crate::pieces::{Piece, PieceType, Side};
use crate::error::BoardError;
use crate::tiles::{posn, Axis, Coords, Tile};

verus! {

/// The largest board side: one letter per column.
pub const MAX_DIM: u8 = 26;

/// A square board of a fixed dimension, holding at most one piece on each tile.
#[derive(Debug, Clone)]
pub struct Board {
    dim: u8,
    cells: Vec<Option<Piece>>,
}

proof fn lemma_index_in_range(dim: int, row: int, col: int)
    requires
        0 <= row < dim,
        0 <= col < dim,
    ensures
        0 <= row * dim + col < dim * dim,
{
    assert(row * dim + col < dim * dim) by (nonlinear_arith)
        requires
            0 <= row < dim,
            0 <= col < dim,
    ;
    assert(0 <= row * dim) by (nonlinear_arith)
        requires
            0 <= row,
            0 <= dim,
    ;
}

proof fn lemma_area(dim: int)
    requires
        0 <= dim <= MAX_DIM,
    ensures
        dim * dim <= MAX_DIM * MAX_DIM,
{
    assert(dim * dim <= MAX_DIM * MAX_DIM) by (nonlinear_arith)
        requires
            0 <= dim <= MAX_DIM,
    ;
}

proof fn lemma_index_injective(dim: int, r1: int, c1: int, r2: int, c2: int)
    requires
        0 <= r1 < dim,
        0 <= c1 < dim,
        0 <= r2 < dim,
        0 <= c2 < dim,
        r1 * dim + c1 == r2 * dim + c2,
    ensures
        r1 == r2 && c1 == c2,
{
    assert(r1 == r2) by (nonlinear_arith)
        requires
            0 <= r1 < dim,
            0 <= c1 < dim,
            0 <= r2 < dim,
            0 <= c2 < dim,
            r1 * dim + c1 == r2 * dim + c2,
    ;
}

/// The tile `d` steps from `t` along `axis` (the other coordinate kept).
pub open spec fn step_along(t: Tile, axis: Axis, d: int) -> Tile {
    match axis {
        Axis::Vertical => Tile { row: (t.row + d) as u8, col: t.col },
        Axis::Horizontal => Tile { row: t.row, col: (t.col + d) as u8 },
    }
}

/// What stands on a tile in Brandubh's starting position.
pub open spec fn brandubh_piece(t: Tile) -> Option<Piece> {
    let cross = (t.row == 3) != (t.col == 3);
    let off = if t.row == 3 {
        t.col
    } else {
        t.row
    };
    if t.row == 3 && t.col == 3 {
        Some(Piece { piece_type: PieceType::King, side: Side::Defender })
    } else if cross && (off == 2 || off == 4) {
        Some(Piece { piece_type: PieceType::Soldier, side: Side::Defender })
    } else if cross && off <= 6 {
        Some(Piece { piece_type: PieceType::Soldier, side: Side::Attacker })
    } else {
        None
    }
}

impl Board {
    /// The board's side length.
    pub closed spec fn size(&self) -> nat {
        self.dim as nat
    }

    /// What stands on a tile of the board.
    pub closed spec fn at(&self, t: Tile) -> Option<Piece> {
        self.cells@[t.row * self.dim + t.col]
    }

    pub closed spec fn wf(&self) -> bool {
        &&& 1 <= self.dim <= MAX_DIM
        &&& self.cells@.len() == self.dim * self.dim
    }

    pub open spec fn on_board(&self, t: Tile) -> bool {
        t.row < self.size() && t.col < self.size()
    }

    /// The centre tile of a board of odd size.
    pub open spec fn is_throne_spec(&self, t: Tile) -> bool {
        &&& self.size() % 2 == 1
        &&& t.row == self.size() / 2
        &&& t.col == self.size() / 2
    }

    pub open spec fn is_corner_spec(&self, t: Tile) -> bool {
        &&& t.row == 0 || t.row + 1 == self.size()
        &&& t.col == 0 || t.col + 1 == self.size()
    }

    pub open spec fn is_edge_spec(&self, t: Tile) -> bool {
        &&& self.on_board(t)
        &&& (t.row == 0 || t.row + 1 == self.size() || t.col == 0 || t.col + 1 == self.size())
    }

    /// A piece of the given side stands on the tile.
    pub open spec fn holds_side(&self, t: Tile, side: Side) -> bool {
        self.at(t) matches Some(p) && p.side == side
    }

    /// The board is `other` but for what stands on `t`, which is `v`.
    pub open spec fn is_update(&self, other: &Board, t: Tile, v: Option<Piece>) -> bool {
        &&& self.wf()
        &&& self.size() == other.size()
        &&& self.at(t) == v
        &&& forall|u: Tile| self.on_board(u) && u != t ==> #[trigger] self.at(u) == other.at(u)
    }

    pub proof fn lemma_wf_size(&self)
        requires
            self.wf(),
        ensures
            1 <= self.size() <= MAX_DIM,
    {
    }

    fn index(&self, t: Tile) -> (r: usize)
        requires
            self.wf(),
            self.on_board(t),
        ensures
            r == t.row * self.dim + t.col,
            r < self.cells@.len(),
    {
        proof {
            lemma_index_in_range(self.dim as int, t.row as int, t.col as int);
            lemma_area(self.dim as int);
        }
        t.row as usize * self.dim as usize + t.col as usize
    }

    /// An empty board of the given size.
    pub fn new(dim: u8) -> (r: Board)
        requires
            1 <= dim <= MAX_DIM,
        ensures
            r.wf(),
            r.size() == dim,
            forall|t: Tile| r.on_board(t) ==> #[trigger] r.at(t) is None,
    {
        proof {
            lemma_area(dim as int);
        }
        let n: usize = dim as usize * dim as usize;
        let mut cells: Vec<Option<Piece>> = Vec::new();
        let mut i: usize = 0;
        while i < n
            invariant
                n == dim * dim,
                i <= n,
                cells@.len() == i,
                forall|k: int| 0 <= k < i ==> cells@[k] is None,
            decreases n - i,
        {
            cells.push(None);
            i = i + 1;
        }
        let r = Board { dim, cells };
        assert forall|t: Tile| r.on_board(t) implies #[trigger] r.at(t) is None by {
            lemma_index_in_range(dim as int, t.row as int, t.col as int);
        }
        r
    }

    /// The board's side length.
    pub fn dimension(&self) -> (r: u8)
        requires
            self.wf(),
        ensures
            r == self.size(),
            1 <= r <= MAX_DIM,
    {
        self.dim
    }

    /// Whether the tile lies on the board.
    pub fn contains_tile(&self, t: Tile) -> (r: bool)
        ensures
            r == self.on_board(t),
    {
        t.row < self.dim && t.col < self.dim
    }

    /// The piece on a tile, if any.
    pub fn piece_at(&self, t: Tile) -> (r: Option<Piece>)
        requires
            self.wf(),
            self.on_board(t),
        ensures
            r == self.at(t),
    {
        let i = self.index(t);
        self.cells[i]
    }

    /// Whether no piece stands on the tile.
    pub fn is_empty(&self, t: Tile) -> (r: bool)
        requires
            self.wf(),
            self.on_board(t),
        ensures
            r == (self.at(t) is None),
    {
        let i = self.index(t);
        self.cells[i].is_none()
    }

    fn set(&mut self, t: Tile, v: Option<Piece>)
        requires
            old(self).wf(),
            old(self).on_board(t),
        ensures
            final(self).is_update(&*old(self), t, v),
    {
        let i = self.index(t);
        self.cells.set(i, v);
        assert forall|u: Tile| self.on_board(u) && u != t implies #[trigger] self.at(u) == old(self).at(u) by {
            lemma_index_in_range(self.dim as int, u.row as int, u.col as int);
            if u.row * self.dim + u.col == t.row * self.dim + t.col {
                lemma_index_injective(
                    self.dim as int,
                    u.row as int,
                    u.col as int,
                    t.row as int,
                    t.col as int,
                );
            }
        }
    }

    /// Put a piece on a tile, replacing whatever stood there.
    pub fn place(&mut self, t: Tile, piece: Piece)
        requires
            old(self).wf(),
            old(self).on_board(t),
        ensures
            final(self).is_update(&*old(self), t, Some(piece)),
    {
        self.set(t, Some(piece));
    }

    /// Take whatever stands on a tile off the board.
    pub fn remove(&mut self, t: Tile)
        requires
            old(self).wf(),
            old(self).on_board(t),
        ensures
            final(self).is_update(&*old(self), t, None),
    {
        self.set(t, None);
    }

    /// Whether the tile is the throne, the centre of a board of odd size.
    pub fn is_throne(&self, t: Tile) -> (r: bool)
        ensures
            r == self.is_throne_spec(t),
    {
        self.dim % 2 == 1 && t.row == self.dim / 2 && t.col == self.dim / 2
    }

    /// Whether the tile is one of the four corners.
    pub fn is_corner(&self, t: Tile) -> (r: bool)
        requires
            self.wf(),
        ensures
            r == self.is_corner_spec(t),
    {
        (t.row == 0 || t.row == self.dim - 1) && (t.col == 0 || t.col == self.dim - 1)
    }

    /// Whether the tile lies on the board's outer ring.
    pub fn is_edge(&self, t: Tile) -> (r: bool)
        requires
            self.wf(),
        ensures
            r == self.is_edge_spec(t),
    {
        t.row < self.dim && t.col < self.dim && (t.row == 0 || t.row == self.dim - 1 || t.col
            == 0 || t.col == self.dim - 1)
    }

    /// The tile at the given coordinates, or `OutOfBounds` where they lie off the board.
    pub fn tile_at(&self, c: Coords) -> (r: Result<Tile, BoardError>)
        ensures
            (0 <= c.row < self.size() && 0 <= c.col < self.size()) ==> r == Ok::<Tile, BoardError>(
                Tile { row: c.row as u8, col: c.col as u8 },
            ),
            !(0 <= c.row < self.size() && 0 <= c.col < self.size()) ==> r == Err::<Tile, BoardError>(
                BoardError::OutOfBounds,
            ),
    {
        if c.row < 0 || c.col < 0 || c.row as u8 >= self.dim || c.col as u8 >= self.dim {
            Err(BoardError::OutOfBounds)
        } else {
            Ok(Tile { row: c.row as u8, col: c.col as u8 })
        }
    }

    /// The tiles strictly between `from` and `to` along `axis`, in order from `from`; none
    /// where the two tiles do not lie on one line along that axis.
    pub fn tiles_between(&self, from: Tile, to: Tile, axis: Axis) -> (r: Vec<Tile>)
        ensures
            posn(from, axis.other_spec()) != posn(to, axis.other_spec()) ==> r@.len() == 0,
            posn(from, axis.other_spec()) == posn(to, axis.other_spec()) ==> {
                let a = posn(from, axis) as int;
                let b = posn(to, axis) as int;
                &&& r@.len() == if a == b {
                    0
                } else if a < b {
                    b - a - 1
                } else {
                    a - b - 1
                }
                &&& forall|k: int|
                    0 <= k < r@.len() ==> #[trigger] r@[k] == step_along(
                        from,
                        axis,
                        if a < b {
                            k + 1
                        } else {
                            -(k + 1)
                        },
                    )
            },
    {
        let mut r: Vec<Tile> = Vec::new();
        let a = from.posn_on_axis(axis) as i16;
        let b = to.posn_on_axis(axis) as i16;
        if from.posn_on_axis(axis.other()) != to.posn_on_axis(axis.other()) || a == b {
            return r;
        }
        let forward = a < b;
        let n: i16 = if forward {
            b - a - 1
        } else {
            a - b - 1
        };
        let mut k: i16 = 0;
        while k < n
            invariant
                0 <= k <= n,
                forward == (a < b),
                n == if forward {
                    b - a - 1
                } else {
                    a - b - 1
                },
                a == posn(from, axis),
                b == posn(to, axis),
                a != b,
                r@.len() == k,
                forall|j: int|
                    0 <= j < k ==> #[trigger] r@[j] == step_along(
                        from,
                        axis,
                        if forward {
                            j + 1
                        } else {
                            -(j + 1)
                        },
                    ),
            decreases n - k,
        {
            let v: u8 = if forward {
                (a + k + 1) as u8
            } else {
                (a - k - 1) as u8
            };
            let t = match axis {
                Axis::Vertical => Tile { row: v, col: from.col },
                Axis::Horizontal => Tile { row: from.row, col: v },
            };
            r.push(t);
            k = k + 1;
        }
        r
    }

    /// The tiles that hold a piece of the given side, with the pieces, row by row.
    pub fn pieces_of(&self, side: Side) -> (r: Vec<(Tile, Piece)>)
        requires
            self.wf(),
        ensures
            forall|k: int|
                0 <= k < r@.len() ==> {
                    let (t, p) = #[trigger] r@[k];
                    self.on_board(t) && self.at(t) == Some(p) && p.side == side
                },
            forall|t: Tile|
                self.on_board(t) && #[trigger] self.holds_side(t, side) ==> exists|k: int|
                    0 <= k < r@.len() && r@[k].0 == t,
    {
        let mut r: Vec<(Tile, Piece)> = Vec::new();
        let mut row: u8 = 0;
        while row < self.dim
            invariant
                self.wf(),
                row <= self.dim,
                forall|k: int|
                    0 <= k < r@.len() ==> {
                        let (t, p) = #[trigger] r@[k];
                        self.on_board(t) && self.at(t) == Some(p) && p.side == side
                    },
                forall|t: Tile|
                    self.on_board(t) && t.row < row && #[trigger] self.holds_side(t, side)
                        ==> exists|k: int| 0 <= k < r@.len() && r@[k].0 == t,
            decreases self.dim - row,
        {
            let mut col: u8 = 0;
            while col < self.dim
                invariant
                    self.wf(),
                    row < self.dim,
                    col <= self.dim,
                    forall|k: int|
                        0 <= k < r@.len() ==> {
                            let (t, p) = #[trigger] r@[k];
                            self.on_board(t) && self.at(t) == Some(p) && p.side == side
                        },
                    forall|t: Tile|
                        self.on_board(t) && (t.row < row || (t.row == row && t.col < col))
                            && #[trigger] self.holds_side(t, side) ==> exists|k: int|
                            0 <= k < r@.len() && r@[k].0 == t,
                decreases self.dim - col,
            {
                let t = Tile { row, col };
                let ghost before = r@;
                match self.piece_at(t) {
                    Some(p) => {
                        if p.side == side {
                            r.push((t, p));
                            assert forall|u: Tile|
                                self.on_board(u) && (u.row < row || (u.row == row && u.col < col
                                    + 1)) && #[trigger] self.holds_side(u, side) implies exists|k: int|
                                0 <= k < r@.len() && r@[k].0 == u by {
                                if u == t {
                                    assert(r@[before.len() as int].0 == u);
                                } else {
                                    let k = choose|k: int| 0 <= k < before.len() && before[k].0 == u;
                                    assert(r@[k].0 == u);
                                }
                            }
                        }
                    },
                    None => {},
                }
                col = col + 1;
            }
            row = row + 1;
        }
        r
    }

    /// The starting position of Brandubh: a 7x7 board with the king on the throne, a
    /// defender on each side of it, and two attackers in line beyond each defender.
    pub fn brandubh_start() -> (r: Board)
        ensures
            r.wf(),
            r.size() == 7,
            forall|t: Tile| r.on_board(t) ==> #[trigger] r.at(t) == brandubh_piece(t),
    {
        let mut b = Board::new(7);
        let soldier_d = Piece { piece_type: PieceType::Soldier, side: Side::Defender };
        let soldier_a = Piece { piece_type: PieceType::Soldier, side: Side::Attacker };
        b.place(Tile { row: 2, col: 3 }, soldier_d);
        b.place(Tile { row: 4, col: 3 }, soldier_d);
        b.place(Tile { row: 3, col: 2 }, soldier_d);
        b.place(Tile { row: 3, col: 4 }, soldier_d);
        b.place(Tile { row: 0, col: 3 }, soldier_a);
        b.place(Tile { row: 1, col: 3 }, soldier_a);
        b.place(Tile { row: 5, col: 3 }, soldier_a);
        b.place(Tile { row: 6, col: 3 }, soldier_a);
        b.place(Tile { row: 3, col: 0 }, soldier_a);
        b.place(Tile { row: 3, col: 1 }, soldier_a);
        b.place(Tile { row: 3, col: 5 }, soldier_a);
        b.place(Tile { row: 3, col: 6 }, soldier_a);
        b.place(Tile { row: 3, col: 3 }, Piece { piece_type: PieceType::King, side: Side::Defender });
        b
    }
}

} // verus!
