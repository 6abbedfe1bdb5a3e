//! Session logic of a real-time multiplayer quiz server: per-player slide
//! decks, the session state machine with its message fan-out, and the
//! registry of running sessions keyed by join code.
pub mod deck;
pub mod template;
pub mod session;
pub mod stored;
pub mod lobby;
pub mod protocol;
