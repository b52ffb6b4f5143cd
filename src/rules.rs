use vstd::prelude::*;
use crate::board::{Board, MAX_DIM};
use crate::game::special_hostile;
use crate::tiles::Tile;
use crate::pieces::{Piece, PieceSet, PieceType, Side};

verus! {

/// How hard the king is to capture.
#[derive(Debug, Copy, Clone, PartialEq, Eq, Structural)]
pub enum KingStrength {
    /// Captured like any other piece, between two hostile tiles.
    Weak,
    /// Captured only when hostile tiles stand on all four sides of it.
    Strong,
    /// Strong on the throne and next to it, weak elsewhere.
    StrongNearThrone,
}

/// Which pieces may end a move on the throne.
#[derive(Debug, Copy, Clone, PartialEq, Eq, Structural)]
pub enum ThroneRule {
    KingOnly,
    Anyone,
}

/// Which empty special tiles count as hostile to a piece next to them.
#[derive(Debug, Copy, Clone, PartialEq, Eq, Structural)]
pub struct HostilityRules {
    pub corners: bool,
    pub empty_throne: bool,
}

/// The configuration of one tafl variant.
#[derive(Debug, Copy, Clone)]
pub struct Ruleset {
    /// The side length of the board.
    pub dimension: u8,
    pub king_strength: KingStrength,
    pub throne_rule: ThroneRule,
    pub hostility: HostilityRules,
    /// Only the king may end a move on a corner.
    pub corners_king_only: bool,
    /// The pieces that the variant plays with.
    pub pieces: PieceSet,
    /// The number of repetitions by one side that ends the game.
    pub repetition_limit: usize,
    /// Whether reaching the repetition limit loses the game for the repeating side (else it
    /// is a draw).
    pub repetition_loses: bool,
    /// Whether a side that has no legal play loses (else the game is a draw).
    pub no_plays_loses: bool,
    /// Whether an attacker's move can capture a whole line of defenders along an edge,
    /// flanked at both ends by attackers.
    pub shield_wall: bool,
}

impl Ruleset {
    /// A sound configuration: a board that fits, a positive repetition limit, and a king that
    /// belongs to the defenders alone.
    pub open spec fn valid(&self) -> bool {
        &&& 1 <= self.dimension <= MAX_DIM
        &&& self.repetition_limit >= 1
        &&& self.pieces@.contains(Piece { piece_type: PieceType::King, side: Side::Defender })
        &&& !self.pieces@.contains(Piece { piece_type: PieceType::King, side: Side::Attacker })
    }

    pub fn is_valid(&self) -> (r: bool)
        ensures
            r == self.valid(),
    {
        1 <= self.dimension && self.dimension <= MAX_DIM && self.repetition_limit >= 1
            && self.pieces.contains(Piece { piece_type: PieceType::King, side: Side::Defender })
            && !self.pieces.contains(Piece { piece_type: PieceType::King, side: Side::Attacker })
    }

    /// The Federation Brandubh rules: a 7x7 board, a king that is strong on and next to the
    /// throne, only the king on the throne and the corners, both hostile when empty.
    pub fn federation_brandubh() -> (r: Ruleset)
        ensures
            r.valid(),
            r.dimension == 7,
            r.king_strength == KingStrength::StrongNearThrone,
            r.throne_rule == ThroneRule::KingOnly,
            r.hostility == (HostilityRules { corners: true, empty_throne: true }),
            r.corners_king_only,
            r.repetition_limit == 3,
            r.repetition_loses,
            r.no_plays_loses,
            !r.shield_wall,
    {
        let mut pieces = PieceSet::from_piece_type(PieceType::Soldier);
        pieces.set_piece(Piece { piece_type: PieceType::King, side: Side::Defender });
        Ruleset {
            dimension: 7,
            king_strength: KingStrength::StrongNearThrone,
            throne_rule: ThroneRule::KingOnly,
            hostility: HostilityRules { corners: true, empty_throne: true },
            corners_king_only: true,
            pieces,
            repetition_limit: 3,
            repetition_loses: true,
            no_plays_loses: true,
            shield_wall: false,
        }
    }

    pub open spec fn may_occupy_throne(&self, piece: Piece) -> bool {
        self.throne_rule == ThroneRule::Anyone || piece.piece_type == PieceType::King
    }

    /// Whether the piece may end a move on the throne.
    pub fn can_occupy_throne(&self, piece: Piece) -> (r: bool)
        ensures
            r == self.may_occupy_throne(piece),
    {
        match self.throne_rule {
            ThroneRule::Anyone => true,
            ThroneRule::KingOnly => match piece.piece_type {
                PieceType::King => true,
                _ => false,
            },
        }
    }

    /// Whether the tile is hostile to the piece on the board as it stands: it holds a piece of
    /// the other side, or it is an empty corner or throne that these rules make hostile.
    pub fn is_hostile_to(&self, board: &Board, piece: Piece, tile: Tile) -> (r: bool)
        requires
            board.wf(),
        ensures
            r == (board.on_board(tile) && match board.at(tile) {
                Some(q) => q.side != piece.side,
                None => special_hostile(board, *self, tile.row as int, tile.col as int),
            }),
    {
        if !board.contains_tile(tile) {
            return false;
        }
        match board.piece_at(tile) {
            Some(q) => q.side != piece.side,
            None => {
                let d = board.dimension();
                (self.hostility.corners && (tile.row == 0 || tile.row + 1 == d) && (tile.col == 0
                    || tile.col + 1 == d)) || (self.hostility.empty_throne && d % 2 == 1
                    && tile.row == d / 2 && tile.col == d / 2)
            },
        }
    }

    /// Whether only the king may end a move on a corner.
    pub fn corner_restricted_to_king(&self) -> (r: bool)
        ensures
            r == self.corners_king_only,
    {
        self.corners_king_only
    }

    /// Whether the king needs hostile tiles on all four sides, given whether it stands on or
    /// next to the throne.
    pub open spec fn king_is_strong(&self, near_throne: bool) -> bool {
        match self.king_strength {
            KingStrength::Weak => false,
            KingStrength::Strong => true,
            KingStrength::StrongNearThrone => near_throne,
        }
    }

    /// Whether the king is captured, given how many hostile tiles stand around it, whether
    /// the tile beyond it from the capturing piece is hostile, and whether it stands on or
    /// next to the throne.
    pub fn king_strength(&self, hostile_neighbours: u8, far_side_hostile: bool, near_throne: bool) -> (r: bool)
        ensures
            r == if self.king_is_strong(near_throne) {
                hostile_neighbours >= 4
            } else {
                far_side_hostile
            },
    {
        let strong = match self.king_strength {
            KingStrength::Weak => false,
            KingStrength::Strong => true,
            KingStrength::StrongNearThrone => near_throne,
        };
        if strong {
            hostile_neighbours >= 4
        } else {
            far_side_hostile
        }
    }
}

} // verus!
