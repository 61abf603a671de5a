use vstd::prelude::*;

verus! {

/// Binary event: a player's id and skin.
pub const USER_DATA_EVENT: u8 = 0;

/// Binary event: a player died.
pub const DIED_OF_DEATH: u8 = 2;

/// Binary event: a cake was spawned for one player.
pub const CAKE_SPAWN_EVENT: u8 = 3;

/// Binary event: a guest left the room.
pub const PLAYER_LEAVE_EVENT: u8 = 5;

/// Binary event: the host starts the lobby.
pub const START_LOBBY_EVENT: u8 = 7;

/// Text event: a chat message (the first character of the text).
pub const TXT_MESSAGE_CREATE: u16 = 8;

/// Text event: a player's name.
pub const USER_NAME_EVENT: u16 = 9;

/// Binary event: a barricade was spawned.
pub const BARRICADE_SPAWN_EVENT: u8 = 12;

/// Binary event: a barricade is gone.
pub const BARRICADE_GONE_EVENT: u8 = 14;

/// Binary event sent to a guest on joining, followed by the room's seed.
pub const GERMINATION_EVENT: u8 = 42;

/// Binary event sent to the player who created a room: they are its host.
pub const IS_HOST_EVENT: u8 = 69;

} // verus!
