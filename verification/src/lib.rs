//! Tic-tac-toe board states under a bijective base-3 encoding.
//!
//! A board of nine cells is encoded into a single integer in `[0, 19682]`
//! (a nine-digit base-3 number), decoded back, tested for winning lines,
//! and filtered for rule legality. The full hash space can be swept to
//! enumerate every legal winning position.

pub mod enumerate;
pub mod game;
pub mod win_check;
