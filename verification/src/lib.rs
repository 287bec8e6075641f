//! A falling-sand cellular automaton: a dense grid of occupied and empty
//! cells, the rule by which sand falls and settles, the pointer edits that
//! add or remove sand, and the frame timer that paces the simulation.

pub mod bitarr;
pub mod grid;
pub mod input;
pub mod random;
pub mod sand;
pub mod screen;
pub mod timer;

pub use bitarr::{BitArray2D, TrueValuesIterator};
pub use grid::GridView;
pub use input::{Mouse, UserMode};
pub use random::BoolSource;
pub use sand::{fall_at, is_free, update_sand, user_input_sand, Fall};
pub use timer::Timer;
