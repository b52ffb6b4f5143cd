pub mod board;
pub mod error;
pub mod game;
pub mod game_state;
pub mod pieces;
pub mod play;
pub mod rules;
pub mod text;
pub mod tiles;

pub use crate::error::{BoardError, IntErrorKind, ParseError, PlayError};
pub use crate::pieces::{Piece, PieceSet, PieceType, Side};
pub use crate::tiles::{Axis, Coords, Tile};
pub use crate::play::Play;
pub use crate::game_state::{RepetitionTracker, ShortPlayRecord};
pub use crate::board::Board;
pub use crate::rules::{HostilityRules, KingStrength, Ruleset, ThroneRule};
pub use crate::game::{DrawReason, Game, GameOutcome, InvalidMove, PlayOutcome, PlayRecord, WinReason};
