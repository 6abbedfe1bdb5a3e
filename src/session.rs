//! The state machine of one running quiz session: the host, the roster of
//! players, their decks and answers, and which messages each operation sends
//! to whom.
use crate::deck::{CurrentSlide, SlideStack, is_permutation_of_range};
use crate::stored::StoredGameSession;
use crate::template::{GameTemplate, Slide, answer_is_correct, copy_indices, covers, same_slide};
use axum::extract::ws::Message;
use tokio::sync::mpsc::Sender;
use vstd::prelude::*;

verus! {

/// tokio's bounded `mpsc::Sender`: the outbound queue of one live
/// connection. Only moved and handed out here, never looked into.
#[verifier::external_type_specification]
#[verifier::external_body]
#[verifier::reject_recursive_types(T)]
pub struct ExSender<T>(Sender<T>);

/// axum's websocket `Message`, the item type of a connection's queue.
#[verifier::external_type_specification]
#[verifier::external_body]
pub struct ExMessage(Message);

/// The sending half of a player's outbound message queue.
pub type Tx = Sender<Message>;

/// A participant: stable id, display name, and the outbound queue of their
/// connection when they have one.
#[derive(Clone, Debug)]
pub struct Player {
    player_id: String,
    nickname: String,
    connection: Option<Tx>,
}

impl Player {
    pub closed spec fn id(&self) -> Seq<char> {
        self.player_id@
    }

    pub closed spec fn nickname(&self) -> Seq<char> {
        self.nickname@
    }

    /// The player has a live channel that messages can be delivered to.
    pub closed spec fn connected(&self) -> bool {
        self.connection is Some
    }

    pub fn new(player_id: String, nickname: String, tx: Option<Tx>) -> (r: Self)
        ensures
            r.id() == player_id@,
            r.nickname() == nickname@,
            r.connected() == tx is Some,
    {
        Player { player_id, nickname, connection: tx }
    }

    /// Replaces the player's outbound queue with a new one.
    pub fn new_connection(&mut self, tx: Tx)
        ensures
            final(self).id() == old(self).id(),
            final(self).nickname() == old(self).nickname(),
            final(self).connected(),
    {
        self.connection = Some(tx);
    }

    pub fn get_id(&self) -> (r: &str)
        ensures
            r@ == self.id(),
    {
        self.player_id.as_str()
    }

    pub fn get_nickname(&self) -> (r: &str)
        ensures
            r@ == self.nickname(),
    {
        self.nickname.as_str()
    }

    pub fn has_connection(&self) -> (r: bool)
        ensures
            r == self.connected(),
    {
        self.connection.is_some()
    }

    /// The queue to deliver this player's messages to, if they are connected.
    pub fn connection(&self) -> (r: Option<&Tx>)
        ensures
            r is Some == self.connected(),
    {
        match &self.connection {
            Some(tx) => Some(tx),
            None => None,
        }
    }
}

/// Where a roster member stands in the game.
#[derive(Debug, Clone, Copy, PartialEq, Eq, Structural)]
pub enum PlayerStatus {
    Connected,
    Disconnected,
    Finished,
}

/// One submission as it was accepted; never edited afterwards. Times are
/// milliseconds on the server's monotonic clock.
#[derive(Debug)]
pub struct PlayerAnswer {
    pub player_id: String,
    pub slide_index: usize,
    pub slide_start_time: u64,
    pub answer: Vec<usize>,
    pub answer_submit_time: u64,
}

/// A roster entry: the player, their status, their accepted answers and
/// their private deck.
pub struct SessionPlayer {
    pub player: Player,
    pub status: PlayerStatus,
    pub answers: Vec<PlayerAnswer>,
    pub slide_stack: SlideStack,
}

impl SessionPlayer {
    pub fn player(&self) -> (r: &Player)
        ensures
            *r == self.player,
    {
        &self.player
    }

    pub fn status(&self) -> (r: PlayerStatus)
        ensures
            r == self.status,
    {
        self.status
    }

    pub fn answer_count(&self) -> (r: usize)
        ensures
            r == self.answers@.len(),
    {
        self.answers.len()
    }

    pub fn current_slide(&self) -> (r: Option<CurrentSlide>)
        ensures
            r == self.slide_stack.current(),
    {
        self.slide_stack.current_slide()
    }
}

/// What a session sends to players.
#[derive(Debug, PartialEq)]
pub enum PlayerMessage {
    Slide { slide: Slide },
    AnswerResult { correct: bool, correct_answers: Vec<usize> },
    Error { err: String },
    Players { player_names: Vec<String> },
    PlayerJoin { player_name: String },
    Finish,
}

/// The body of one delivery: a plain text line or an event to be encoded.
#[derive(Debug, PartialEq)]
pub enum Payload {
    Text(String),
    Event(PlayerMessage),
}

/// One payload and the ids of the players (or host) whose live channels it
/// goes to. It is encoded once and the same text sent to each of them.
#[derive(Debug)]
pub struct Outgoing {
    pub recipients: Vec<String>,
    pub payload: Payload,
}

/// Why an operation addressed to a player could not be carried out.
#[derive(Debug, Clone, Copy, PartialEq, Eq, Structural)]
pub enum SessionError {
    /// No roster entry has that id (it never joined, was kicked, or is the host).
    UnknownPlayer,
}

pub open spec fn names(v: Seq<String>) -> Seq<Seq<char>> {
    v.map_values(|s: String| s@)
}

pub open spec fn roster_ids(roster: Seq<SessionPlayer>) -> Seq<Seq<char>> {
    roster.map_values(|p: SessionPlayer| p.player.id())
}

pub open spec fn nicknames(roster: Seq<SessionPlayer>) -> Seq<Seq<char>> {
    roster.map_values(|p: SessionPlayer| p.player.nickname())
}

/// Ids of the roster members with a live channel, in roster order, leaving
/// out `excluded` when it is given.
pub open spec fn live_ids(roster: Seq<SessionPlayer>, excluded: Option<Seq<char>>) -> Seq<Seq<char>>
    decreases roster.len(),
{
    if roster.len() == 0 {
        Seq::empty()
    } else {
        let rest = live_ids(roster.drop_last(), excluded);
        let p = roster.last().player;
        if p.connected() && excluded != Some(p.id()) {
            rest.push(p.id())
        } else {
            rest
        }
    }
}

pub open spec fn is_text(p: Payload, text: Seq<char>) -> bool {
    match p {
        Payload::Text(t) => t@ == text,
        _ => false,
    }
}

pub open spec fn is_error(p: Payload, text: Seq<char>) -> bool {
    match p {
        Payload::Event(PlayerMessage::Error { err }) => err@ == text,
        _ => false,
    }
}

pub open spec fn is_slide(p: Payload, slide: Slide) -> bool {
    match p {
        Payload::Event(PlayerMessage::Slide { slide: s }) => same_slide(s, slide),
        _ => false,
    }
}

pub open spec fn is_finish(p: Payload) -> bool {
    p == Payload::Event(PlayerMessage::Finish)
}

pub open spec fn is_players(p: Payload, nicks: Seq<Seq<char>>) -> bool {
    match p {
        Payload::Event(PlayerMessage::Players { player_names }) => names(player_names@) == nicks,
        _ => false,
    }
}

pub open spec fn is_player_join(p: Payload, nick: Seq<char>) -> bool {
    match p {
        Payload::Event(PlayerMessage::PlayerJoin { player_name }) => player_name@ == nick,
        _ => false,
    }
}

pub open spec fn is_answer_result(p: Payload, correct: bool, correct_answers: Seq<usize>) -> bool {
    match p {
        Payload::Event(PlayerMessage::AnswerResult { correct: c, correct_answers: a }) => c == correct
            && a@ == correct_answers,
        _ => false,
    }
}

/// Whole seconds from `start` to `at` (milliseconds); zero if `at` is earlier.
pub open spec fn elapsed_seconds(start: u64, at: u64) -> int {
    if at >= start {
        (at - start) as int / 1000
    } else {
        0
    }
}

/// `d` is a deck as `SlideStack::new` builds it over `n` slides.
pub open spec fn fresh_deck(d: SlideStack, n: nat) -> bool {
    &&& d.wf()
    &&& d.size() == n
    &&& d.current().is_none()
    &&& d.answered() == Seq::<usize>::empty()
    &&& is_permutation_of_range(d.remaining(), n)
}

/// The roster entries of `new` and `old` agree everywhere but at `i`.
pub open spec fn same_except(old: Seq<SessionPlayer>, new: Seq<SessionPlayer>, i: int) -> bool {
    &&& new.len() == old.len()
    &&& forall|j: int| 0 <= j < old.len() && j != i ==> new[j] == old[j]
}

/// The session fields that no roster operation touches.
pub open spec fn same_frame(old: GameSession, new: GameSession) -> bool {
    &&& new.code() == old.code()
    &&& new.active() == old.active()
    &&& new.host() == old.host()
    &&& new.template() == old.template()
}

/// Entry `n` is entry `o` with its deck advanced at `now`; a player whose
/// deck was already empty is finished.
pub open spec fn advanced_entry(o: SessionPlayer, n: SessionPlayer, now: u64) -> bool {
    &&& n.player == o.player
    &&& n.answers == o.answers
    &&& n.slide_stack.advanced_from(o.slide_stack, now)
    &&& n.status == (if o.slide_stack.remaining().len() == 0 {
        PlayerStatus::Finished
    } else {
        o.status
    })
}

/// What advancing entry `o` sends: its next slide, or the finish notice, to
/// the player's own channel if there is one.
pub open spec fn advance_message(o: SessionPlayer, t: GameTemplate, m: Outgoing) -> bool {
    &&& names(m.recipients@) == (if o.player.connected() {
        seq![o.player.id()]
    } else {
        Seq::<Seq<char>>::empty()
    })
    &&& if o.slide_stack.remaining().len() == 0 {
        is_finish(m.payload)
    } else {
        is_slide(m.payload, t.slides()[o.slide_stack.remaining().last() as int])
    }
}

/// The outcome of `join(player)` on `old`.
pub open spec fn join_post(old: GameSession, new: GameSession, player: Player, out: Seq<Outgoing>) -> bool {
    let id = player.id();
    &&& new.code() == old.code()
    &&& new.active() == old.active()
    &&& new.template() == old.template()
    &&& if id == old.host().id() {
        &&& new.host() == player
        &&& new.roster() == old.roster()
        &&& out.len() == 3
        &&& is_text(out[0].payload, "hostJoin"@)
        &&& names(out[0].recipients@) == new.unicast_to(id)
        &&& is_players(out[1].payload, nicknames(new.roster()))
        &&& names(out[1].recipients@) == new.unicast_to(id)
        &&& is_player_join(out[2].payload, player.nickname())
        &&& names(out[2].recipients@) == new.broadcast_except_to(id)
    } else {
        &&& new.host() == old.host()
        &&& if old.has_player(id) {
            let i = old.slot(id);
            &&& same_except(old.roster(), new.roster(), i)
            &&& new.roster()[i].player == player
            &&& new.roster()[i].status == PlayerStatus::Connected
            &&& new.roster()[i].answers == old.roster()[i].answers
            &&& new.roster()[i].slide_stack == old.roster()[i].slide_stack
        } else {
            let i = old.roster().len() as int;
            &&& new.roster().len() == old.roster().len() + 1
            &&& new.roster().take(i) == old.roster()
            &&& new.roster()[i].player == player
            &&& new.roster()[i].status == (if player.connected() {
                PlayerStatus::Connected
            } else {
                PlayerStatus::Disconnected
            })
            &&& new.roster()[i].answers@.len() == 0
            &&& fresh_deck(new.roster()[i].slide_stack, old.template().slides().len())
        }
        &&& out.len() == 2
        &&& is_players(out[0].payload, nicknames(new.roster()))
        &&& names(out[0].recipients@) == new.unicast_to(id)
        &&& is_player_join(out[1].payload, player.nickname())
        &&& names(out[1].recipients@) == new.broadcast_except_to(id)
    }
}

/// A single error reply to `id` in session `s`, with nothing else changed.
pub open spec fn refused(old: GameSession, new: GameSession, id: Seq<char>, text: Seq<char>, out: Seq<Outgoing>) -> bool {
    &&& new == old
    &&& out.len() == 1
    &&& is_error(out[0].payload, text)
    &&& names(out[0].recipients@) == old.unicast_to(id)
}

/// The outcome of `start(player_id, now)` on `old`.
pub open spec fn start_post(old: GameSession, new: GameSession, player_id: Seq<char>, now: u64, out: Seq<Outgoing>) -> bool {
    if player_id != old.host().id() {
        refused(old, new, player_id, "Not the host"@, out)
    } else {
        &&& same_frame(old, new)
        &&& new.roster().len() == old.roster().len()
        &&& out.len() == old.roster().len()
        &&& forall|i: int|
            0 <= i < old.roster().len() ==> advanced_entry(#[trigger] old.roster()[i], new.roster()[i], now)
                && advance_message(old.roster()[i], old.template(), out[i])
    }
}

/// Whether `answer` with these arguments would be accepted in `s`: the
/// player is connected, answers the slide that is current for them, and
/// does so before its time limit ran out.
pub open spec fn accepts(s: GameSession, id: Seq<char>, answer_time: u64, slide_index: usize) -> bool {
    &&& s.has_player(id)
    &&& s.roster()[s.slot(id)].status == PlayerStatus::Connected
    &&& s.roster()[s.slot(id)].slide_stack.current() is Some
    &&& slide_index == s.roster()[s.slot(id)].slide_stack.current()->0.index
    &&& elapsed_seconds(s.roster()[s.slot(id)].slide_stack.current()->0.starting_time, answer_time)
        < s.template().slides()[slide_index as int].duration
}

/// The outcome of `answer(player_id, answer, answer_time, slide_index)`.
pub open spec fn answer_post(
    old: GameSession,
    new: GameSession,
    player_id: String,
    answer: Vec<usize>,
    answer_time: u64,
    slide_index: usize,
    r: Result<Vec<Outgoing>, SessionError>,
) -> bool {
    let id = player_id@;
    if !old.has_player(id) {
        r == Err::<Vec<Outgoing>, SessionError>(SessionError::UnknownPlayer) && new == old
    } else {
        let i = old.slot(id);
        let sp = old.roster()[i];
        let cur = sp.slide_stack.current();
        &&& r is Ok
        &&& !accepts(old, id, answer_time, slide_index) ==> new == old
        &&& sp.status == PlayerStatus::Disconnected ==> r->Ok_0@.len() == 0
        &&& sp.status == PlayerStatus::Finished ==> refused(
            old,
            new,
            id,
            "Player has already finished"@,
            r->Ok_0@,
        )
        &&& sp.status == PlayerStatus::Connected ==> {
            if cur is None {
                refused(old, new, id, "No current active slide"@, r->Ok_0@)
            } else if slide_index != cur->0.index {
                refused(old, new, id, "Incorrect slide index"@, r->Ok_0@)
            } else if !accepts(old, id, answer_time, slide_index) {
                refused(old, new, id, "Time ran out"@, r->Ok_0@)
            } else {
                let slide = old.template().slides()[slide_index as int];
                &&& same_frame(old, new)
                &&& same_except(old.roster(), new.roster(), i)
                &&& new.roster()[i].player == sp.player
                &&& new.roster()[i].status == sp.status
                &&& new.roster()[i].slide_stack == sp.slide_stack
                &&& new.roster()[i].answers@ == sp.answers@.push(
                    PlayerAnswer {
                        player_id,
                        slide_index,
                        slide_start_time: cur->0.starting_time,
                        answer,
                        answer_submit_time: answer_time,
                    },
                )
                &&& r->Ok_0@.len() == 1
                &&& is_answer_result(
                    r->Ok_0@[0].payload,
                    covers(answer@, slide.correct_answer@),
                    slide.correct_answer@,
                )
                &&& names(r->Ok_0@[0].recipients@) == old.unicast_to(id)
            }
        }
    }
}

/// The outcome of `next_slide(player_id, now)`.
pub open spec fn next_slide_post(
    old: GameSession,
    new: GameSession,
    id: Seq<char>,
    now: u64,
    r: Result<Vec<Outgoing>, SessionError>,
) -> bool {
    if !old.has_player(id) {
        r == Err::<Vec<Outgoing>, SessionError>(SessionError::UnknownPlayer) && new == old
    } else {
        let i = old.slot(id);
        let sp = old.roster()[i];
        &&& r is Ok
        &&& sp.status == PlayerStatus::Disconnected ==> r->Ok_0@.len() == 0 && new == old
        &&& sp.status == PlayerStatus::Finished ==> refused(
            old,
            new,
            id,
            "Player has already finished"@,
            r->Ok_0@,
        )
        &&& sp.status == PlayerStatus::Connected ==> {
            &&& same_frame(old, new)
            &&& same_except(old.roster(), new.roster(), i)
            &&& advanced_entry(sp, new.roster()[i], now)
            &&& r->Ok_0@.len() == 1
            &&& advance_message(sp, old.template(), r->Ok_0@[0])
        }
    }
}

/// The outcome of `leave(player_id)`: the entry stays, with its answers and
/// deck, and only loses its channel and its connected status.
pub open spec fn leave_post(old: GameSession, new: GameSession, id: Seq<char>, r: Result<(), SessionError>) -> bool {
    if !old.has_player(id) {
        r == Err::<(), SessionError>(SessionError::UnknownPlayer) && new == old
    } else {
        let i = old.slot(id);
        &&& r is Ok
        &&& same_frame(old, new)
        &&& same_except(old.roster(), new.roster(), i)
        &&& new.roster()[i].player.id() == old.roster()[i].player.id()
        &&& new.roster()[i].player.nickname() == old.roster()[i].player.nickname()
        &&& !new.roster()[i].player.connected()
        &&& new.roster()[i].status == PlayerStatus::Disconnected
        &&& new.roster()[i].answers == old.roster()[i].answers
        &&& new.roster()[i].slide_stack == old.roster()[i].slide_stack
    }
}

/// The outcome of `kick(kick_player_id, player_id)`.
pub open spec fn kick_post(
    old: GameSession,
    new: GameSession,
    kick_id: Seq<char>,
    requester: Seq<char>,
    out: Seq<Outgoing>,
) -> bool {
    if requester != old.host().id() {
        refused(old, new, requester, "Not the host"@, out)
    } else {
        &&& out.len() == 0
        &&& same_frame(old, new)
        &&& if old.has_player(kick_id) {
            new.roster() == old.roster().remove(old.slot(kick_id))
        } else {
            new.roster() == old.roster()
        }
    }
}

/// The outcome of `end()`: the session is no longer active and the roster
/// is told that the game is over.
pub open spec fn end_post(old: GameSession, new: GameSession, out: Seq<Outgoing>) -> bool {
    &&& !new.active()
    &&& new.code() == old.code()
    &&& new.host() == old.host()
    &&& new.template() == old.template()
    &&& new.roster() == old.roster()
    &&& out.len() == 1
    &&& is_finish(out[0].payload)
    &&& names(out[0].recipients@) == old.broadcast_to()
}

/// The outcome of `host_end(player_id)`.
pub open spec fn host_end_post(old: GameSession, new: GameSession, requester: Seq<char>, out: Seq<Outgoing>) -> bool {
    if requester != old.host().id() {
        refused(old, new, requester, "Not the host"@, out)
    } else {
        end_post(old, new, out)
    }
}

/// A command for the session, as its owner queues it. Times are milliseconds
/// on the server's monotonic clock.
pub enum GameMessage {
    Join { player: Player },
    Start { player_id: String },
    Answer { player_id: String, answer: Vec<usize>, answer_time: u64, slide_index: usize },
    Leave { player_id: String },
    Kick { kick_player_id: String, player_id: String },
    End { player_id: String },
}

/// The authoritative state of one game.
pub struct GameSession {
    code: u32,
    active: bool,
    host: Player,
    players: Vec<SessionPlayer>,
    template: GameTemplate,
}

impl GameSession {
    pub closed spec fn code(&self) -> u32 {
        self.code
    }

    pub closed spec fn active(&self) -> bool {
        self.active
    }

    pub closed spec fn host(&self) -> Player {
        self.host
    }

    pub closed spec fn roster(&self) -> Seq<SessionPlayer> {
        self.players@
    }

    pub closed spec fn template(&self) -> GameTemplate {
        self.template
    }

    /// `roster` could be this session's roster: its ids are unique, the host
    /// is not among them, and every deck is a well-formed deck over the
    /// template's slides.
    pub open spec fn roster_fits(&self, roster: Seq<SessionPlayer>) -> bool {
        &&& roster_ids(roster).no_duplicates()
        &&& !roster_ids(roster).contains(self.host().id())
        &&& forall|i: int|
            0 <= i < roster.len() ==> {
                &&& (#[trigger] roster[i]).slide_stack.wf()
                &&& roster[i].slide_stack.size() == self.template().slides().len()
            }
    }

    pub open spec fn wf(&self) -> bool {
        self.roster_fits(self.roster())
    }

    #[verifier::type_invariant]
    spec fn session_invariant(&self) -> bool {
        self.wf()
    }

    pub open spec fn has_player(&self, id: Seq<char>) -> bool {
        roster_ids(self.roster()).contains(id)
    }

    /// The roster position of `id`; meaningful when `has_player(id)`.
    pub open spec fn slot(&self, id: Seq<char>) -> int {
        roster_ids(self.roster()).index_of(id)
    }

    /// A message addressed to `id` reaches a live channel: the host's when
    /// `id` is the host, else that of the roster entry with that id.
    pub open spec fn reachable(&self, id: Seq<char>) -> bool {
        if id == self.host().id() {
            self.host().connected()
        } else {
            self.has_player(id) && self.roster()[self.slot(id)].player.connected()
        }
    }

    /// Recipients of a unicast to `id`.
    pub open spec fn unicast_to(&self, id: Seq<char>) -> Seq<Seq<char>> {
        if self.reachable(id) {
            seq![id]
        } else {
            Seq::empty()
        }
    }

    /// Recipients of a broadcast to everyone but `excluded`: the host first,
    /// then the roster.
    pub open spec fn broadcast_except_to(&self, excluded: Seq<char>) -> Seq<Seq<char>> {
        (if self.host().connected() && self.host().id() != excluded {
            seq![self.host().id()]
        } else {
            Seq::empty()
        }) + live_ids(self.roster(), Some(excluded))
    }

    /// Recipients of a broadcast: the roster, host excluded.
    pub open spec fn broadcast_to(&self) -> Seq<Seq<char>> {
        live_ids(self.roster(), None)
    }

    proof fn lemma_slot(&self, i: int)
        requires
            self.wf(),
            0 <= i < self.roster().len(),
        ensures
            self.has_player(self.roster()[i].player.id()),
            self.slot(self.roster()[i].player.id()) == i,
    {
        let ids = roster_ids(self.roster());
        let id = self.roster()[i].player.id();
        assert(ids[i] == id);
        assert(ids.contains(id));
        let j = ids.index_of(id);
        assert(ids[j] == id);
    }

    /// Position of the roster entry with id `id`.
    fn find(&self, id: &String) -> (r: Option<usize>)
        requires
            self.wf(),
        ensures
            match r {
                Some(i) => i < self.roster().len() && self.has_player(id@) && i == self.slot(id@)
                    && self.roster()[i as int].player.id() == id@,
                None => !self.has_player(id@),
            },
    {
        let mut i: usize = 0;
        while i < self.players.len()
            invariant
                self.wf(),
                i <= self.players@.len(),
                forall|j: int| 0 <= j < i ==> roster_ids(self.roster())[j] != id@,
            decreases self.players@.len() - i,
        {
            if self.players[i].player.player_id == *id {
                proof {
                    self.lemma_slot(i as int);
                }
                return Some(i);
            }
            i = i + 1;
        }
        None
    }

    /// Builds the delivery of `payload` to `id` alone; nobody when `id` has no
    /// live channel.
    fn send_to(&self, payload: Payload, id: &String) -> (o: Outgoing)
        requires
            self.wf(),
        ensures
            names(o.recipients@) == self.unicast_to(id@),
            o.payload == payload,
    {
        let mut recipients: Vec<String> = Vec::new();
        let live = if *id == self.host.player_id {
            self.host.connection.is_some()
        } else {
            match self.find(id) {
                Some(i) => self.players[i].player.connection.is_some(),
                None => false,
            }
        };
        if live {
            recipients.push(id.clone());
        }
        assert(names(recipients@) =~= self.unicast_to(id@));
        Outgoing { recipients, payload }
    }

    /// `acc` followed by the ids of the roster members with a live channel,
    /// but `excluded`.
    fn live_roster_ids(&self, excluded: Option<&String>, acc: Vec<String>) -> (r: Vec<String>)
        ensures
            names(r@) == names(acc@) + live_ids(
                self.roster(),
                match excluded {
                    Some(e) => Some(e@),
                    None => None,
                },
            ),
    {
        let ghost ex = match excluded {
            Some(e) => Some(e@),
            None => None::<Seq<char>>,
        };
        let mut r: Vec<String> = acc;
        let mut i: usize = 0;
        assert(names(r@) =~= names(acc@) + live_ids(self.roster().take(0), ex));
        while i < self.players.len()
            invariant
                i <= self.players@.len(),
                ex == (match excluded {
                    Some(e) => Some(e@),
                    None => None::<Seq<char>>,
                }),
                names(r@) == names(acc@) + live_ids(self.roster().take(i as int), ex),
            decreases self.players@.len() - i,
        {
            let p = &self.players[i].player;
            let skip = match excluded {
                Some(e) => {
                    let same = p.player_id == *e;
                    assert(same == (p.id() == e@));
                    same
                },
                None => false,
            };
            let ghost next = self.roster().take(i as int + 1);
            assert(next.drop_last() =~= self.roster().take(i as int));
            assert(next.last() == self.roster()[i as int]);
            assert(skip == (ex == Some(p.id())));
            let ghost prev_live = live_ids(self.roster().take(i as int), ex);
            if p.connection.is_some() && !skip {
                let ghost before = r@;
                r.push(p.player_id.clone());
                assert(names(r@) =~= names(before).push(p.id()));
                assert(live_ids(next, ex) == prev_live.push(p.id()));
                assert(names(r@) =~= names(acc@) + live_ids(next, ex));
            } else {
                assert(live_ids(next, ex) == prev_live);
            }
            i = i + 1;
        }
        assert(self.roster().take(i as int) =~= self.roster());
        r
    }

    /// A fresh session from its stored record: the stored host (nicknamed
    /// "Host", not yet connected), an empty roster, and the stored quiz.
    pub fn from_stored(stored_session: StoredGameSession) -> (r: Self)
        ensures
            r.wf(),
            r.code() == stored_session.code,
            r.active(),
            r.host().id() == stored_session.host@,
            r.host().nickname() == "Host"@,
            !r.host().connected(),
            r.roster().len() == 0,
            r.template().slides() == stored_session.template.slides@,
            r.template().name() == stored_session.template.name@,
            r.template().author() == stored_session.template.author@,
            r.template().author_id() == stored_session.template.author_id@,
    {
        let host = Player {
            player_id: stored_session.host,
            nickname: "Host".to_owned(),
            connection: None,
        };
        let stored_template = stored_session.template;
        let template = GameTemplate::new(
            stored_template.name,
            stored_template.slides,
            stored_template.author,
            stored_template.author_id,
        );
        let r = GameSession {
            code: stored_session.code,
            active: true,
            host,
            players: Vec::new(),
            template,
        };
        assert(roster_ids(r.roster()) =~= Seq::empty());
        r
    }

    /// The nicknames of the roster, in roster order.
    fn nickname_list(&self) -> (r: Vec<String>)
        ensures
            names(r@) == nicknames(self.roster()),
    {
        let mut r: Vec<String> = Vec::new();
        let mut i: usize = 0;
        while i < self.players.len()
            invariant
                i <= self.players@.len(),
                names(r@) == nicknames(self.roster().take(i as int)),
            decreases self.players@.len() - i,
        {
            let ghost before = r@;
            let nick = self.players[i].player.nickname.clone();
            r.push(nick);
            assert(names(r@) =~= names(before).push(nick@));
            assert(nicknames(self.roster().take(i as int + 1)) =~= nicknames(self.roster().take(i as int)).push(
                self.roster()[i as int].player.nickname(),
            ));
            i = i + 1;
        }
        assert(self.roster().take(i as int) =~= self.roster());
        r
    }

    /// Takes the roster out, leaving an empty one in its place.
    fn take_roster(&mut self) -> (players: Vec<SessionPlayer>)
        ensures
            players@ == old(self).roster(),
            final(self).roster().len() == 0,
            same_frame(*old(self), *final(self)),
    {
        let mut players: Vec<SessionPlayer> = Vec::new();
        assert(roster_ids(players@) =~= Seq::<Seq<char>>::empty());
        std::mem::swap(&mut players, &mut self.players);
        players
    }

    /// Puts a roster in place that fits this session.
    fn put_roster(&mut self, players: Vec<SessionPlayer>)
        requires
            old(self).roster_fits(players@),
        ensures
            final(self).roster() == players@,
            same_frame(*old(self), *final(self)),
            final(self).wf(),
    {
        self.players = players;
    }

    /// A player joins: the host takes the host slot; a known player gets the
    /// new nickname and channel and is connected again; a new player enters
    /// the roster with a fresh deck. The joiner then gets the roster's
    /// nicknames, and everyone else a notice of the join.
    pub fn join(&mut self, player: Player) -> (out: Vec<Outgoing>)
        ensures
            final(self).wf(),
            join_post(*old(self), *final(self), player, out@),
    {
        proof {
            use_type_invariant(&*self);
        }
        let player_id = player.player_id.clone();
        let nickname = player.nickname.clone();
        let ghost pl = player;
        let mut out: Vec<Outgoing> = Vec::new();
        if player.player_id == self.host.player_id {
            self.host = player;
            let ack = self.send_to(Payload::Text("hostJoin".to_owned()), &player_id);
            out.push(ack);
        } else {
            match self.find(&player_id) {
                Some(i) => {
                    let mut players = self.take_roster();
                    players[i].player = player;
                    players[i].status = PlayerStatus::Connected;
                    assert(roster_ids(players@) =~= roster_ids(old(self).roster()));
                    assert forall|j: int| 0 <= j < players@.len() implies {
                        &&& (#[trigger] players@[j]).slide_stack.wf()
                        &&& players@[j].slide_stack.size() == self.template().slides().len()
                    } by {
                        assert(old(self).roster()[j].slide_stack.wf());
                    }
                    self.put_roster(players);
                },
                None => {
                    let status = if player.connection.is_some() {
                        PlayerStatus::Connected
                    } else {
                        PlayerStatus::Disconnected
                    };
                    let slide_stack = SlideStack::new(self.template.get_slide_count());
                    let mut players = self.take_roster();
                    players.push(SessionPlayer { player, status, answers: Vec::new(), slide_stack });
                    assert(roster_ids(players@) =~= roster_ids(old(self).roster()).push(pl.id()));
                    assert(players@.take(old(self).roster().len() as int) =~= old(self).roster());
                    assert forall|j: int| 0 <= j < players@.len() implies {
                        &&& (#[trigger] players@[j]).slide_stack.wf()
                        &&& players@[j].slide_stack.size() == self.template().slides().len()
                    } by {
                        if j < old(self).roster().len() {
                            assert(old(self).roster()[j].slide_stack.wf());
                        }
                    }
                    self.put_roster(players);
                },
            }
        }
        let player_names = self.nickname_list();
        let list = self.send_to(Payload::Event(PlayerMessage::Players { player_names }), &player_id);
        out.push(list);
        let notice = self.emit(Payload::Event(PlayerMessage::PlayerJoin { player_name: nickname }), &player_id);
        out.push(notice);
        out
    }

    /// The delivery of the next slide (or of the finish notice) of roster
    /// entry `sp`, whose deck has just handed out `next`.
    fn advance_notice(&self, sp: &SessionPlayer, next: Option<usize>) -> (o: Outgoing)
        requires
            next is Some ==> next->0 < self.template().slides().len(),
        ensures
            names(o.recipients@) == (if sp.player.connected() {
                seq![sp.player.id()]
            } else {
                Seq::<Seq<char>>::empty()
            }),
            next is None ==> is_finish(o.payload),
            next is Some ==> is_slide(o.payload, self.template().slides()[next->0 as int]),
    {
        let mut recipients: Vec<String> = Vec::new();
        if sp.player.connection.is_some() {
            recipients.push(sp.player.player_id.clone());
        }
        assert(names(recipients@) =~= (if sp.player.connected() {
            seq![sp.player.id()]
        } else {
            Seq::<Seq<char>>::empty()
        }));
        let payload = match next {
            Some(index) => Payload::Event(PlayerMessage::Slide { slide: self.template.get_slide(index) }),
            None => Payload::Event(PlayerMessage::Finish),
        };
        Outgoing { recipients, payload }
    }

    /// The host starts the game: every roster member's deck is advanced at
    /// `now` and the member is sent their first slide; a member whose deck
    /// is empty is finished at once. Anyone else gets an error.
    pub fn start(&mut self, player_id: String, now: u64) -> (out: Vec<Outgoing>)
        ensures
            final(self).wf(),
            start_post(*old(self), *final(self), player_id@, now, out@),
    {
        proof {
            use_type_invariant(&*self);
        }
        if player_id != self.host.player_id {
            let mut out: Vec<Outgoing> = Vec::new();
            out.push(self.send_to(Payload::Event(PlayerMessage::Error { err: "Not the host".to_owned() }), &player_id));
            return out;
        }
        let mut players = self.take_roster();
        let mut out: Vec<Outgoing> = Vec::new();
        let mut i: usize = 0;
        while i < players.len()
            invariant
                i <= players@.len(),
                players@.len() == old(self).roster().len(),
                same_frame(*old(self), *self),
                old(self).wf(),
                roster_ids(players@) == roster_ids(old(self).roster()),
                out@.len() == i,
                forall|j: int|
                    0 <= j < i ==> advanced_entry(#[trigger] old(self).roster()[j], players@[j], now)
                        && advance_message(old(self).roster()[j], old(self).template(), out@[j]),
                forall|j: int| i <= j < players@.len() ==> #[trigger] players@[j] == old(self).roster()[j],
            decreases players@.len() - i,
        {
            assert(players@[i as int] == old(self).roster()[i as int]);
            assert(old(self).roster()[i as int].slide_stack.wf());
            let next = players[i].slide_stack.next_slide(now);
            if next.is_none() {
                players[i].status = PlayerStatus::Finished;
            }
            let notice = self.advance_notice(&players[i], next);
            out.push(notice);
            assert(roster_ids(players@) =~= roster_ids(old(self).roster()));
            i = i + 1;
        }
        proof {
            assert forall|j: int| 0 <= j < players@.len() implies {
                &&& (#[trigger] players@[j]).slide_stack.wf()
                &&& players@[j].slide_stack.size() == self.template().slides().len()
            } by {
                assert(advanced_entry(old(self).roster()[j], players@[j], now));
                assert(old(self).roster()[j].slide_stack.wf());
            }
        }
        self.put_roster(players);
        out
    }

    /// A player submits `answer` for slide `slide_index` at `answer_time`.
    /// Accepted only from a connected player, for their current slide, within
    /// its time limit: the answer is then recorded and the player told
    /// whether it was correct. Otherwise nothing changes; a disconnected
    /// player is ignored and everyone else is told why.
    pub fn answer(&mut self, player_id: String, answer: Vec<usize>, answer_time: u64, slide_index: usize) -> (r: Result<Vec<Outgoing>, SessionError>)
        ensures
            final(self).wf(),
            answer_post(*old(self), *final(self), player_id, answer, answer_time, slide_index, r),
    {
        proof {
            use_type_invariant(&*self);
        }
        let i = match self.find(&player_id) {
            Some(i) => i,
            None => return Err(SessionError::UnknownPlayer),
        };
        let mut out: Vec<Outgoing> = Vec::new();
        match self.players[i].status {
            PlayerStatus::Connected => {
                match self.players[i].slide_stack.current_slide() {
                    Some(current_slide) => {
                        if slide_index != current_slide.index {
                            out.push(self.send_to(Payload::Event(PlayerMessage::Error { err: "Incorrect slide index".to_owned() }), &player_id));
                            return Ok(out);
                        }
                        proof {
                            old(self).roster()[i as int].slide_stack.lemma_indices_below_size();
                        }
                        let slide = self.template.get_slide_ref(current_slide.index);
                        let elapsed: u64 = if answer_time >= current_slide.starting_time {
                            (answer_time - current_slide.starting_time) / 1000
                        } else {
                            0
                        };
                        if elapsed >= slide.duration as u64 {
                            out.push(self.send_to(Payload::Event(PlayerMessage::Error { err: "Time ran out".to_owned() }), &player_id));
                            return Ok(out);
                        }
                        let correct = answer_is_correct(&answer, &slide.correct_answer);
                        let correct_answers = copy_indices(&slide.correct_answer);
                        let record = PlayerAnswer {
                            player_id: player_id.clone(),
                            slide_index,
                            slide_start_time: current_slide.starting_time,
                            answer,
                            answer_submit_time: answer_time,
                        };
                        let mut players = self.take_roster();
                        players[i].answers.push(record);
                        assert(roster_ids(players@) =~= roster_ids(old(self).roster()));
                        assert forall|j: int| 0 <= j < players@.len() implies {
                            &&& (#[trigger] players@[j]).slide_stack.wf()
                            &&& players@[j].slide_stack.size() == self.template().slides().len()
                        } by {
                            assert(old(self).roster()[j].slide_stack.wf());
                        }
                        self.put_roster(players);
                        out.push(self.send_to(Payload::Event(PlayerMessage::AnswerResult { correct, correct_answers }), &player_id));
                        assert(self.reachable(player_id@) == old(self).reachable(player_id@));
                    },
                    None => {
                        out.push(self.send_to(Payload::Event(PlayerMessage::Error { err: "No current active slide".to_owned() }), &player_id));
                    },
                }
            },
            PlayerStatus::Finished => {
                out.push(self.send_to(Payload::Event(PlayerMessage::Error { err: "Player has already finished".to_owned() }), &player_id));
            },
            PlayerStatus::Disconnected => {},
        }
        Ok(out)
    }

    /// A connected player moves on to their next slide, which is sent to
    /// them; when their deck is exhausted they are finished and told so.
    pub fn next_slide(&mut self, player_id: String, now: u64) -> (r: Result<Vec<Outgoing>, SessionError>)
        ensures
            final(self).wf(),
            next_slide_post(*old(self), *final(self), player_id@, now, r),
    {
        proof {
            use_type_invariant(&*self);
        }
        let i = match self.find(&player_id) {
            Some(i) => i,
            None => return Err(SessionError::UnknownPlayer),
        };
        let mut out: Vec<Outgoing> = Vec::new();
        match self.players[i].status {
            PlayerStatus::Connected => {
                assert(old(self).roster()[i as int].slide_stack.wf());
                let mut players = self.take_roster();
                let next = players[i].slide_stack.next_slide(now);
                if next.is_none() {
                    players[i].status = PlayerStatus::Finished;
                }
                let notice = self.advance_notice(&players[i], next);
                out.push(notice);
                assert(roster_ids(players@) =~= roster_ids(old(self).roster()));
                assert forall|j: int| 0 <= j < players@.len() implies {
                    &&& (#[trigger] players@[j]).slide_stack.wf()
                    &&& players@[j].slide_stack.size() == self.template().slides().len()
                } by {
                    assert(old(self).roster()[j].slide_stack.wf());
                }
                self.put_roster(players);
            },
            PlayerStatus::Finished => {
                out.push(self.send_to(Payload::Event(PlayerMessage::Error { err: "Player has already finished".to_owned() }), &player_id));
            },
            PlayerStatus::Disconnected => {},
        }
        Ok(out)
    }

    /// A player leaves: their channel is dropped and they are marked
    /// disconnected; their answers and deck stay for a later rejoin.
    pub fn leave(&mut self, player_id: String) -> (r: Result<(), SessionError>)
        ensures
            final(self).wf(),
            leave_post(*old(self), *final(self), player_id@, r),
    {
        proof {
            use_type_invariant(&*self);
        }
        let i = match self.find(&player_id) {
            Some(i) => i,
            None => return Err(SessionError::UnknownPlayer),
        };
        let mut players = self.take_roster();
        players[i].status = PlayerStatus::Disconnected;
        players[i].player.connection = None;
        assert(roster_ids(players@) =~= roster_ids(old(self).roster()));
        assert forall|j: int| 0 <= j < players@.len() implies {
            &&& (#[trigger] players@[j]).slide_stack.wf()
            &&& players@[j].slide_stack.size() == self.template().slides().len()
        } by {
            assert(old(self).roster()[j].slide_stack.wf());
        }
        self.put_roster(players);
        Ok(())
    }

    /// The host removes a player, with their answers and deck, for good.
    /// Anyone else gets an error.
    pub fn kick(&mut self, kick_player_id: String, player_id: String) -> (out: Vec<Outgoing>)
        ensures
            final(self).wf(),
            kick_post(*old(self), *final(self), kick_player_id@, player_id@, out@),
    {
        proof {
            use_type_invariant(&*self);
        }
        let mut out: Vec<Outgoing> = Vec::new();
        if player_id != self.host.player_id {
            out.push(self.send_to(Payload::Event(PlayerMessage::Error { err: "Not the host".to_owned() }), &player_id));
            return out;
        }
        match self.find(&kick_player_id) {
            Some(i) => {
                let mut players = self.take_roster();
                let _ = players.remove(i);
                let ghost ids = roster_ids(old(self).roster());
                assert(roster_ids(players@) =~= ids.remove(i as int));
                assert forall|a: int, b: int|
                    0 <= a < ids.remove(i as int).len() && 0 <= b < ids.remove(i as int).len() && a != b
                    implies ids.remove(i as int)[a] != ids.remove(i as int)[b] by {
                    let a0 = if a < i { a } else { a + 1 };
                    let b0 = if b < i { b } else { b + 1 };
                    assert(ids.remove(i as int)[a] == ids[a0]);
                    assert(ids.remove(i as int)[b] == ids[b0]);
                }
                assert forall|j: int| 0 <= j < players@.len() implies {
                    &&& (#[trigger] players@[j]).slide_stack.wf()
                    &&& players@[j].slide_stack.size() == self.template().slides().len()
                } by {
                    let j0 = if j < i { j } else { j + 1 };
                    assert(players@[j] == old(self).roster()[j0]);
                    assert(old(self).roster()[j0].slide_stack.wf());
                }
                assert(!roster_ids(players@).contains(self.host().id())) by {
                    if roster_ids(players@).contains(self.host().id()) {
                        let k = roster_ids(players@).index_of(self.host().id());
                        let k0 = if k < i { k } else { k + 1 };
                        assert(ids[k0] == self.host().id());
                    }
                }
                self.put_roster(players);
            },
            None => {},
        }
        out
    }

    /// Ends the session: it is no longer active and every roster member is
    /// sent the finish notice.
    pub fn end(&mut self) -> (out: Vec<Outgoing>)
        ensures
            final(self).wf(),
            end_post(*old(self), *final(self), out@),
    {
        proof {
            use_type_invariant(&*self);
        }
        let mut out: Vec<Outgoing> = Vec::new();
        out.push(self.broadcast(Payload::Event(PlayerMessage::Finish)));
        self.active = false;
        out
    }

    /// The host ends the session; anyone else gets an error.
    pub fn host_end(&mut self, player_id: String) -> (out: Vec<Outgoing>)
        ensures
            final(self).wf(),
            host_end_post(*old(self), *final(self), player_id@, out@),
    {
        proof {
            use_type_invariant(&*self);
        }
        if player_id != self.host.player_id {
            let mut out: Vec<Outgoing> = Vec::new();
            out.push(self.send_to(Payload::Event(PlayerMessage::Error { err: "Not the host".to_owned() }), &player_id));
            return out;
        }
        self.end()
    }

    /// Applies one queued command; `now` stamps the slides that a start
    /// makes current.
    pub fn handle_message(&mut self, msg: GameMessage, now: u64) -> (r: Result<Vec<Outgoing>, SessionError>)
        ensures
            final(self).wf(),
            match msg {
                GameMessage::Join { player } => r is Ok && join_post(*old(self), *final(self), player, r->Ok_0@),
                GameMessage::Start { player_id } => r is Ok && start_post(
                    *old(self),
                    *final(self),
                    player_id@,
                    now,
                    r->Ok_0@,
                ),
                GameMessage::Answer { player_id, answer, answer_time, slide_index } => answer_post(
                    *old(self),
                    *final(self),
                    player_id,
                    answer,
                    answer_time,
                    slide_index,
                    r,
                ),
                GameMessage::Leave { player_id } => leave_post(
                    *old(self),
                    *final(self),
                    player_id@,
                    match r {
                        Ok(_) => Ok(()),
                        Err(e) => Err(e),
                    },
                ) && (r is Ok ==> r->Ok_0@.len() == 0),
                GameMessage::Kick { kick_player_id, player_id } => r is Ok && kick_post(
                    *old(self),
                    *final(self),
                    kick_player_id@,
                    player_id@,
                    r->Ok_0@,
                ),
                GameMessage::End { player_id } => r is Ok && host_end_post(
                    *old(self),
                    *final(self),
                    player_id@,
                    r->Ok_0@,
                ),
            },
    {
        proof {
            use_type_invariant(&*self);
        }
        match msg {
            GameMessage::Join { player } => Ok(self.join(player)),
            GameMessage::Start { player_id } => Ok(self.start(player_id, now)),
            GameMessage::Answer { player_id, answer, answer_time, slide_index } => self.answer(
                player_id,
                answer,
                answer_time,
                slide_index,
            ),
            GameMessage::Leave { player_id } => match self.leave(player_id) {
                Ok(()) => Ok(Vec::new()),
                Err(e) => Err(e),
            },
            GameMessage::Kick { kick_player_id, player_id } => Ok(self.kick(kick_player_id, player_id)),
            GameMessage::End { player_id } => Ok(self.host_end(player_id)),
        }
    }

    pub fn is_active(&self) -> (r: bool)
        ensures
            r == self.active(),
    {
        self.active
    }

    pub fn get_host(&self) -> (r: &Player)
        ensures
            *r == self.host(),
    {
        &self.host
    }

    pub fn get_template(&self) -> (r: &GameTemplate)
        ensures
            *r == self.template(),
    {
        &self.template
    }

    pub fn player_count(&self) -> (r: usize)
        ensures
            r == self.roster().len(),
    {
        self.players.len()
    }

    /// The roster entry with id `player_id`, if there is one.
    pub fn get_player(&self, player_id: &String) -> (r: Option<&SessionPlayer>)
        ensures
            r is Some == self.has_player(player_id@),
            r is Some ==> *r->0 == self.roster()[self.slot(player_id@)],
    {
        proof {
            use_type_invariant(self);
        }
        match self.find(player_id) {
            Some(i) => Some(&self.players[i]),
            None => None,
        }
    }

    /// The live channel that messages addressed to `player_id` go to: the
    /// host's for the host id, else that of the roster entry.
    pub fn connection_of(&self, player_id: &String) -> (r: Option<&Tx>)
        ensures
            r is Some == self.reachable(player_id@),
    {
        proof {
            use_type_invariant(self);
        }
        if *player_id == self.host.player_id {
            return self.host.connection();
        }
        match self.find(player_id) {
            Some(i) => self.players[i].player.connection(),
            None => None,
        }
    }

    pub fn get_code(&self) -> (r: u32)
        ensures
            r == self.code(),
    {
        self.code
    }

    /// Builds the delivery of `payload` to every roster member with a live
    /// channel; the host is not included.
    fn broadcast(&self, payload: Payload) -> (o: Outgoing)
        ensures
            names(o.recipients@) == self.broadcast_to(),
            o.payload == payload,
    {
        let recipients = self.live_roster_ids(None, Vec::new());
        assert(names(recipients@) =~= self.broadcast_to());
        Outgoing { recipients, payload }
    }

    /// Builds the delivery of `payload` to the host and every roster member
    /// with a live channel, except `excluded`.
    fn emit(&self, payload: Payload, excluded: &String) -> (o: Outgoing)
        ensures
            names(o.recipients@) == self.broadcast_except_to(excluded@),
            o.payload == payload,
    {
        let mut recipients: Vec<String> = Vec::new();
        if self.host.connection.is_some() && self.host.player_id != *excluded {
            recipients.push(self.host.player_id.clone());
        }
        assert(names(recipients@) =~= (if self.host().connected() && self.host().id() != excluded@ {
            seq![self.host().id()]
        } else {
            Seq::empty()
        }));
        let recipients = self.live_roster_ids(Some(excluded), recipients);
        Outgoing { recipients, payload }
    }
}

proof fn lemma_same_ids(old: Seq<SessionPlayer>, new: Seq<SessionPlayer>, i: int)
    requires
        0 <= i < old.len(),
        same_except(old, new, i),
        new[i].player.id() == old[i].player.id(),
    ensures
        roster_ids(new) == roster_ids(old),
{
    assert(roster_ids(new) =~= roster_ids(old));
}

proof fn lemma_slot_of(s: GameSession, id: Seq<char>, i: int)
    requires
        s.wf(),
        0 <= i < s.roster().len(),
        s.roster()[i].player.id() == id,
    ensures
        s.has_player(id),
        s.slot(id) == i,
{
    s.lemma_slot(i);
}

/// Joining twice with the same player id (not the host's) keeps a single
/// roster entry: the second join puts the new nickname and channel in place
/// and keeps the answers and the deck that the entry had.
pub proof fn lemma_rejoin_updates_in_place(
    s0: GameSession,
    s1: GameSession,
    s2: GameSession,
    first: Player,
    second: Player,
    out1: Seq<Outgoing>,
    out2: Seq<Outgoing>,
)
    requires
        s0.wf(),
        s1.wf(),
        join_post(s0, s1, first, out1),
        join_post(s1, s2, second, out2),
        first.id() == second.id(),
        first.id() != s0.host().id(),
    ensures
        s1.has_player(first.id()),
        s2.has_player(first.id()),
        s2.roster().len() == s1.roster().len(),
        roster_ids(s2.roster()) == roster_ids(s1.roster()),
        s2.slot(first.id()) == s1.slot(first.id()),
        s2.roster()[s1.slot(first.id())].player == second,
        s2.roster()[s1.slot(first.id())].status == PlayerStatus::Connected,
        s2.roster()[s1.slot(first.id())].answers == s1.roster()[s1.slot(first.id())].answers,
        s2.roster()[s1.slot(first.id())].slide_stack == s1.roster()[s1.slot(first.id())].slide_stack,
{
    let id = first.id();
    if s0.has_player(id) {
        lemma_slot_of(s1, id, s0.slot(id));
    } else {
        lemma_slot_of(s1, id, s0.roster().len() as int);
    }
    let i = s1.slot(id);
    lemma_same_ids(s1.roster(), s2.roster(), i);
    assert(s2.slot(id) == i);
    assert(s2.has_player(id));
}

/// A join under the host's id only replaces the host: the roster stays as
/// it was and the host is never one of its entries.
pub proof fn lemma_host_join_keeps_roster(s0: GameSession, s1: GameSession, p: Player, out: Seq<Outgoing>)
    requires
        s0.wf(),
        s1.wf(),
        join_post(s0, s1, p, out),
        p.id() == s0.host().id(),
    ensures
        s1.host() == p,
        s1.roster() == s0.roster(),
        !s1.has_player(p.id()),
{
}

/// Once the host has kicked a player, an answer under that player's id is
/// refused as coming from an unknown player and changes nothing.
pub proof fn lemma_kicked_player_cannot_answer(
    s0: GameSession,
    s1: GameSession,
    s2: GameSession,
    out: Seq<Outgoing>,
    player_id: String,
    answer: Vec<usize>,
    answer_time: u64,
    slide_index: usize,
    r: Result<Vec<Outgoing>, SessionError>,
)
    requires
        s0.wf(),
        kick_post(s0, s1, player_id@, s0.host().id(), out),
        answer_post(s1, s2, player_id, answer, answer_time, slide_index, r),
    ensures
        !s1.has_player(player_id@),
        r == Err::<Vec<Outgoing>, SessionError>(SessionError::UnknownPlayer),
        s2 == s1,
{
    let id = player_id@;
    if s0.has_player(id) {
        let i = s0.slot(id);
        let ids = roster_ids(s0.roster());
        assert(ids[i] == id);
        assert(roster_ids(s1.roster()) =~= ids.remove(i));
        if roster_ids(s1.roster()).contains(id) {
            let k = roster_ids(s1.roster()).index_of(id);
            let k0 = if k < i { k } else { k + 1 };
            assert(ids[k0] == id);
        }
    }
}

/// Leaving keeps the roster entry with its answers and deck, without a
/// channel and marked disconnected; joining again under the same id
/// reconnects that same entry with those answers and that deck.
pub proof fn lemma_leave_then_rejoin_resumes(
    s0: GameSession,
    s1: GameSession,
    s2: GameSession,
    r: Result<(), SessionError>,
    p: Player,
    out: Seq<Outgoing>,
)
    requires
        s0.wf(),
        s1.wf(),
        s0.has_player(p.id()),
        leave_post(s0, s1, p.id(), r),
        join_post(s1, s2, p, out),
    ensures
        r is Ok,
        s1.has_player(p.id()),
        s1.slot(p.id()) == s0.slot(p.id()),
        s1.roster()[s0.slot(p.id())].status == PlayerStatus::Disconnected,
        !s1.roster()[s0.slot(p.id())].player.connected(),
        s1.roster()[s0.slot(p.id())].answers == s0.roster()[s0.slot(p.id())].answers,
        s1.roster()[s0.slot(p.id())].slide_stack == s0.roster()[s0.slot(p.id())].slide_stack,
        s2.has_player(p.id()),
        s2.slot(p.id()) == s0.slot(p.id()),
        s2.roster()[s0.slot(p.id())].status == PlayerStatus::Connected,
        s2.roster()[s0.slot(p.id())].player == p,
        s2.roster()[s0.slot(p.id())].answers == s0.roster()[s0.slot(p.id())].answers,
        s2.roster()[s0.slot(p.id())].slide_stack == s0.roster()[s0.slot(p.id())].slide_stack,
{
    let id = p.id();
    let i = s0.slot(id);
    s0.lemma_slot(i);
    assert(roster_ids(s0.roster())[i] == id);
    lemma_same_ids(s0.roster(), s1.roster(), i);
    assert(s1.has_player(id));
    assert(id != s0.host().id());
    lemma_same_ids(s1.roster(), s2.roster(), i);
}

} // verus!
