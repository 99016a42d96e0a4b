//! The callbacks that the combat log host calls.
pub mod combat;

use vstd::prelude::*;

verus! {

/// Called on every frame of the overlay; the flag tells whether the game is
/// neither at character select nor loading. Nothing is done with it.
pub fn imgui(_not_charsel_or_loading: bool) {
}

} // verus!
