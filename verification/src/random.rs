//! Where the simulation gets its coin tosses from.

use vstd::prelude::*;

verus! {

/// A source of booleans. The simulation asks it once for each grain that
/// could slide to either side, and promises nothing about the answers.
pub trait BoolSource {
    /// The next boolean of the source.
    fn next_bool(&mut self) -> bool;
}

} // verus!
