//! The session record as the store keeps it, in plain values.
use crate::template::Slide;
use vstd::prelude::*;

verus! {

/// A stored quiz; `created` and `last_updated` are milliseconds since the
/// Unix epoch.
#[derive(Debug)]
pub struct StoredGameTemplate {
    pub _id: String,
    pub name: String,
    pub tags: Vec<String>,
    pub slides: Vec<Slide>,
    pub author: String,
    pub author_id: String,
    pub flagged: bool,
    pub created: i64,
    pub last_updated: i64,
    pub public: bool,
}

#[derive(Debug)]
pub struct StoredPlayer {
    pub registered_player: bool,
    pub player_id: String,
    pub nickname: String,
}

#[derive(Debug)]
pub struct StoredPlayerAnswers {
    pub question_index: u32,
    pub answers: Vec<u32>,
    pub time: u32,
}

/// A stored session: its join code, host id and quiz.
#[derive(Debug)]
pub struct StoredGameSession {
    pub _id: String,
    pub code: u32,
    pub active: bool,
    pub host: String,
    pub players: Vec<StoredPlayer>,
    pub template: StoredGameTemplate,
    pub player_answers: Vec<StoredPlayerAnswers>,
}

} // verus!
