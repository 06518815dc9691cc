//! A shogi position with incrementally kept attack maps, and a generator of
//! the moves that may be played from it.

use vstd::prelude::*;

pub mod koma_inf;
pub mod koma_info;
pub mod koma_moves;
pub mod logic;
pub mod te;
pub mod kyokumen;
pub mod control;
pub mod rays;
pub mod slides;
pub mod edits;
pub mod follow;
pub mod advance;
pub mod gen_spec;
pub mod movegen;
pub mod drops;
pub mod check;
pub mod legal;
pub mod ready;
pub mod generated;
pub mod complete;
pub mod answers;
pub mod pins;
pub mod legality;
pub mod distinct;
pub mod rules;
pub mod promotions;
pub mod game;

pub use koma_inf::KomaInf;
pub use koma_info::KomaInfo;
pub use te::Te;
pub use kyokumen::Kyokumen;

verus! {

/// Squares of the board, counted from the top left of the padded board.
pub type USquare = usize;

/// Offsets between squares.
pub type ISquare = isize;

/// A number of moves.
pub type TeNum = usize;

/// A bit set of the pieces that reach a square.
pub type Kiki = usize;

/// Length of the padded board: 16 per file, eleven files.
pub const BAN_LEN: usize = 176;

/// Length of the pieces-in-hand table: indexed by piece code up to the
/// second player's rook.
pub const HAND_LEN: usize = 40;

} // verus!
