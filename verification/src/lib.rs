//! The core of a server on which two players at a time play noughts and
//! crosses: the board and its evaluation, the game session as a state
//! machine, the registry that pairs the players who arrive, and what the
//! server needs to tell a request for the game's socket from one for a file.
//!
//! Each type has a mathematical view, and each operation states in its
//! contract what it makes of that view. The outside world is met in three
//! places: a player's mailbox is the sending half of a channel, an inbound
//! message is read as JSON, and the key that accepts a socket is derived by
//! the websocket library.

pub mod board;
pub mod handshake;
pub mod message;
pub mod registry;
pub mod resources;
pub mod session;
