//! Which updates of the game's shared link data are passed on.
use vstd::prelude::*;

verus! {

/// Only every hundredth interface tick is passed on; the others come too
/// often.
pub fn should_publish(ui_tick: u32) -> (b: bool)
    ensures
        b == (ui_tick % 100 == 0),
{
    ui_tick % 100 == 0
}

} // verus!
