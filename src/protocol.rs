//! What clients send, decoded into plain values.
use vstd::prelude::*;

verus! {

/// A request from a client connection.
#[derive(Debug, PartialEq)]
pub enum Command {
    Host { session_id: String },
    Start,
    Join { user_id: String, nickname: String, registered_player: bool, game_code: u32 },
    Answer { answer: Vec<usize>, slide_index: usize },
    End,
    Leave,
    Kick { player_id: String },
}

/// The phase of a game.
#[derive(Debug, Clone, Copy, PartialEq, Eq, Structural)]
pub enum GameStage {
    Lobby,
    Game,
    End,
}

} // verus!
