# dessa

Combat and map information of Guild Wars 2 for websocket clients and the
player's rich presence, with its logic verified by Verus.

- `src/` is the verified library:
  - `exports/combat.rs` encodes combat events into byte messages and proves
    that a message can be read back into what it was made from;
  - `fractal_level.rs` tells fractal maps from link messages, decides when a
    fractal run starts and ends, converts and crops screenshots and turns them
    into the PNG data URL that is read for the fractal level;
  - `discord_presence.rs` keeps the names of maps, races and specialisations
    and builds the presence texts and API addresses;
  - `websockets.rs`, `mumblelink.rs`, `bytes.rs`, `decimal.rs` and `codec.rs`
    hold the client count, the link publishing rule, little-endian and decimal
    text, and the PNG and base64 encoders.
- `app/` is the add-on around it: the host's exports and callbacks, screen
  capture, HTTP, websockets, the presence client and logging.
- `tests/` runs the library on concrete values.
