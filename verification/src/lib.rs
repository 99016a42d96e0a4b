//! Combat and map information of Guild Wars 2, encoded and tracked for the
//! websocket clients and the rich presence of the player.
pub mod bytes;
pub mod codec;
pub mod decimal;
pub mod discord_presence;
pub mod exports;
pub mod fractal_level;
pub mod mumblelink;
pub mod websockets;

use vstd::prelude::*;

verus! {

/// Releases what the add-on holds when the game exits.
pub fn release() {
    discord_presence::teardown();
}

} // verus!
