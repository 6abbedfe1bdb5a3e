use axum::extract::ws::Message;
use gudritis_axum::lobby::GameRegistry;
use gudritis_axum::session::{
    GameMessage, GameSession, Outgoing, Payload, Player, PlayerMessage, PlayerStatus, SessionError,
};
use gudritis_axum::stored::{StoredGameSession, StoredGameTemplate};
use gudritis_axum::template::{answer_is_correct, Answer, GameTemplate, Slide};
use tokio::sync::mpsc;

fn slide(duration: u8, n_answers: usize, correct: Vec<usize>) -> Slide {
    let answers = (0..n_answers)
        .map(|i| Answer::new(i, format!("Test answer {}", i + 1)))
        .collect();
    Slide::new(duration, Some("Test question".to_string()), None, correct.len() > 1, answers, correct)
}

fn stored(host: &str, slides: Vec<Slide>) -> StoredGameSession {
    StoredGameSession {
        _id: "".to_string(),
        code: 012345,
        active: true,
        host: host.to_string(),
        players: vec![],
        template: StoredGameTemplate {
            _id: "".to_string(),
            name: "".to_string(),
            tags: vec![],
            slides,
            author: "".to_string(),
            author_id: "".to_string(),
            flagged: false,
            created: 0,
            last_updated: 0,
            public: true,
        },
        player_answers: vec![],
    }
}

fn channel() -> (mpsc::Sender<Message>, mpsc::Receiver<Message>) {
    mpsc::channel(8)
}

fn recipients(o: &Outgoing) -> Vec<&str> {
    o.recipients.iter().map(|s| s.as_str()).collect()
}

fn error_text(o: &Outgoing) -> Option<&str> {
    match &o.payload {
        Payload::Event(PlayerMessage::Error { err }) => Some(err.as_str()),
        _ => None,
    }
}

/// A session hosted by "host" over a two-slide quiz, with "p" joined on a
/// live channel and the game started at time 0.
fn started_session() -> (GameSession, mpsc::Receiver<Message>) {
    let mut session = GameSession::from_stored(stored(
        "host",
        vec![slide(10, 2, vec![0]), slide(10, 4, vec![0, 3])],
    ));
    let (tx, rx) = channel();
    session.join(Player::new("p".to_string(), "P".to_string(), Some(tx)));
    let out = session.start("host".to_string(), 0);
    assert_eq!(1, out.len());
    assert_eq!(vec!["p"], recipients(&out[0]));
    let first = current_index(&session, "p");
    assert!(matches!(
        &out[0].payload,
        Payload::Event(PlayerMessage::Slide { slide }) if *slide == *session.get_template().get_slide_ref(first)
    ));
    (session, rx)
}

fn current_index(session: &GameSession, id: &str) -> usize {
    session
        .get_player(&id.to_string())
        .unwrap()
        .current_slide()
        .unwrap()
        .index
}

fn correct_answer_for(session: &GameSession, index: usize) -> Vec<usize> {
    session.get_template().get_slide_ref(index).correct_answer.clone()
}

#[test]
fn game_send_to() {
    let mut session = GameSession::from_stored(stored("host", vec![slide(10, 2, vec![0])]));
    let (tx, _rx) = channel();
    session.join(Player::new("p".to_string(), "P".to_string(), Some(tx)));
    session.join(Player::new("q".to_string(), "Q".to_string(), None));
    // A reply reaches the requester's own channel only.
    let out = session.start("p".to_string(), 0);
    assert_eq!(1, out.len());
    assert_eq!(vec!["p"], recipients(&out[0]));
    assert_eq!(Some("Not the host"), error_text(&out[0]));
    // Nobody gets a reply addressed to a player without a channel.
    let out = session.kick("p".to_string(), "q".to_string());
    assert_eq!(1, out.len());
    assert!(out[0].recipients.is_empty());
    assert_eq!(2, session.player_count());
}

#[test]
fn game_emit() {
    let mut session = GameSession::from_stored(stored("host", vec![]));
    let (htx, _hrx) = channel();
    session.join(Player::new("host".to_string(), "Host".to_string(), Some(htx)));
    let (atx, _arx) = channel();
    session.join(Player::new("a".to_string(), "A".to_string(), Some(atx)));
    let (btx, _brx) = channel();
    let out = session.join(Player::new("b".to_string(), "B".to_string(), Some(btx)));
    assert_eq!(2, out.len());
    assert_eq!(vec!["b"], recipients(&out[0]));
    assert_eq!(vec!["host", "a"], recipients(&out[1]));
    assert!(matches!(
        &out[1].payload,
        Payload::Event(PlayerMessage::PlayerJoin { player_name }) if player_name == "B"
    ));
}

#[test]
fn game_broadcast() {
    let mut session = GameSession::from_stored(stored("host", vec![]));
    let (htx, _hrx) = channel();
    session.join(Player::new("host".to_string(), "Host".to_string(), Some(htx)));
    let (atx, _arx) = channel();
    session.join(Player::new("a".to_string(), "A".to_string(), Some(atx)));
    session.join(Player::new("b".to_string(), "B".to_string(), None));
    let out = session.host_end("host".to_string());
    assert_eq!(1, out.len());
    assert_eq!(vec!["a"], recipients(&out[0]));
    assert_eq!(Payload::Event(PlayerMessage::Finish), out[0].payload);
    assert!(!session.is_active());
}

#[test]
fn game_join() {
    let mut session = GameSession::from_stored(stored("1", vec![]));
    // Tests that the player list is indeed empty in the beginning
    assert_eq!(0, session.player_count());
    let mut player = Player::new("player1".to_string(), "player1".to_string(), None);

    // Initial player join without the connection part
    session.join(player.clone());
    assert_eq!(1, session.player_count());

    let session_player = session.get_player(&"player1".to_string()).unwrap();
    let game_player = session_player.player();
    assert_eq!(PlayerStatus::Disconnected, session_player.status());
    assert!(!game_player.has_connection());
    assert_eq!(player.get_nickname(), game_player.get_nickname());
    assert_eq!(player.get_id(), game_player.get_id());

    // Player has connection and is updated ingame with the connection
    let (tx, _rx) = channel();
    player.new_connection(tx);

    // Number of players in game should still be 1
    let out = session.join(player.clone());
    assert_eq!(1, session.player_count());
    // The player receives the list of all the players in the session
    assert_eq!(vec!["player1"], recipients(&out[0]));
    assert_eq!(
        Payload::Event(PlayerMessage::Players { player_names: vec!["player1".to_string()] }),
        out[0].payload
    );

    let session_player = session.get_player(&"player1".to_string()).unwrap();
    let game_player = session_player.player();
    assert_eq!(PlayerStatus::Connected, session_player.status());
    assert!(game_player.has_connection());
    assert_eq!(player.get_nickname(), game_player.get_nickname());
    assert_eq!(player.get_id(), game_player.get_id());
}

#[test]
fn correctness_is_inclusion_of_the_correct_set() {
    assert!(answer_is_correct(&vec![0, 3], &vec![0, 3]));
    assert!(!answer_is_correct(&vec![0], &vec![0, 3]));
    assert!(answer_is_correct(&vec![0, 1, 3], &vec![0, 3]));
    assert!(answer_is_correct(&vec![3, 0], &vec![0, 3]));
    assert!(!answer_is_correct(&vec![], &vec![1]));
    assert!(answer_is_correct(&vec![], &vec![]));
}

#[test]
fn rejoin_keeps_single_entry_and_history() {
    let (mut session, _rx) = started_session();
    let index = current_index(&session, "p");
    let correct = correct_answer_for(&session, index);
    session.answer("p".to_string(), correct, 500, index).unwrap();
    let (tx2, _rx2) = channel();
    session.join(Player::new("p".to_string(), "P2".to_string(), Some(tx2)));
    assert_eq!(1, session.player_count());
    let entry = session.get_player(&"p".to_string()).unwrap();
    assert_eq!("P2", entry.player().get_nickname());
    assert_eq!(1, entry.answer_count());
    assert_eq!(index, entry.current_slide().unwrap().index);
}

#[test]
fn host_join_never_enters_roster() {
    let mut session = GameSession::from_stored(stored("host", vec![slide(10, 2, vec![0])]));
    session.join(Player::new("p".to_string(), "P".to_string(), None));
    let (tx, _rx) = channel();
    let out = session.join(Player::new("host".to_string(), "Boss".to_string(), Some(tx)));
    assert_eq!(3, out.len());
    assert_eq!(Payload::Text("hostJoin".to_string()), out[0].payload);
    assert_eq!(vec!["host"], recipients(&out[0]));
    assert_eq!(1, session.player_count());
    assert!(session.get_player(&"host".to_string()).is_none());
    assert_eq!("Boss", session.get_host().get_nickname());
    assert!(session.get_host().has_connection());
}

#[test]
fn answer_rejections_leave_history_unchanged() {
    let (mut session, _rx) = started_session();
    let index = current_index(&session, "p");
    let correct = correct_answer_for(&session, index);
    // Wrong slide index.
    let out = session.answer("p".to_string(), correct.clone(), 100, 1 - index).unwrap();
    assert_eq!(Some("Incorrect slide index"), error_text(&out[0]));
    // Too late: 10 s is the limit.
    let out = session.answer("p".to_string(), correct.clone(), 10_000, index).unwrap();
    assert_eq!(Some("Time ran out"), error_text(&out[0]));
    assert_eq!(0, session.get_player(&"p".to_string()).unwrap().answer_count());
    // Just in time.
    let out = session.answer("p".to_string(), correct.clone(), 9_999, index).unwrap();
    assert!(matches!(&out[0].payload, Payload::Event(PlayerMessage::AnswerResult { correct: true, .. })));
    // Disconnected players are ignored silently.
    session.leave("p".to_string()).unwrap();
    let out = session.answer("p".to_string(), correct, 100, index).unwrap();
    assert!(out.is_empty());
    assert_eq!(1, session.get_player(&"p".to_string()).unwrap().answer_count());
}

#[test]
fn answer_without_active_slide_and_after_finish() {
    let mut session = GameSession::from_stored(stored("host", vec![slide(10, 2, vec![0])]));
    let (tx, _rx) = channel();
    session.join(Player::new("p".to_string(), "P".to_string(), Some(tx)));
    let out = session.answer("p".to_string(), vec![0], 0, 0).unwrap();
    assert_eq!(Some("No current active slide"), error_text(&out[0]));
    session.start("host".to_string(), 0);
    let out = session.next_slide("p".to_string(), 10).unwrap();
    assert_eq!(Payload::Event(PlayerMessage::Finish), out[0].payload);
    assert_eq!(PlayerStatus::Finished, session.get_player(&"p".to_string()).unwrap().status());
    let out = session.answer("p".to_string(), vec![0], 20, 0).unwrap();
    assert_eq!(Some("Player has already finished"), error_text(&out[0]));
    let out = session.next_slide("p".to_string(), 20).unwrap();
    assert_eq!(Some("Player has already finished"), error_text(&out[0]));
}

#[test]
fn kicked_player_is_unknown() {
    let (mut session, _rx) = started_session();
    let index = current_index(&session, "p");
    let out = session.kick("p".to_string(), "host".to_string());
    assert!(out.is_empty());
    assert_eq!(0, session.player_count());
    assert_eq!(
        SessionError::UnknownPlayer,
        session.answer("p".to_string(), vec![0], 100, index).unwrap_err()
    );
    assert_eq!(SessionError::UnknownPlayer, session.leave("p".to_string()).unwrap_err());
    assert_eq!(SessionError::UnknownPlayer, session.next_slide("p".to_string(), 5).unwrap_err());
}

#[test]
fn leave_then_rejoin_resumes_deck() {
    let (mut session, _rx) = started_session();
    let index = current_index(&session, "p");
    let correct = correct_answer_for(&session, index);
    session.answer("p".to_string(), correct, 100, index).unwrap();
    session.leave("p".to_string()).unwrap();
    let entry = session.get_player(&"p".to_string()).unwrap();
    assert_eq!(PlayerStatus::Disconnected, entry.status());
    assert!(!entry.player().has_connection());
    assert_eq!(1, entry.answer_count());
    let (tx, _rx2) = channel();
    session.join(Player::new("p".to_string(), "P".to_string(), Some(tx)));
    let entry = session.get_player(&"p".to_string()).unwrap();
    assert_eq!(PlayerStatus::Connected, entry.status());
    assert_eq!(1, entry.answer_count());
    assert_eq!(index, entry.current_slide().unwrap().index);
}

#[test]
fn two_slide_game_end_to_end() {
    let (mut session, _rx) = started_session();
    let first = current_index(&session, "p");
    let correct = correct_answer_for(&session, first);
    let out = session.answer("p".to_string(), correct.clone(), 3_000, first).unwrap();
    assert_eq!(1, out.len());
    assert_eq!(vec!["p"], recipients(&out[0]));
    assert_eq!(
        Payload::Event(PlayerMessage::AnswerResult { correct: true, correct_answers: correct }),
        out[0].payload
    );
    let out = session.next_slide("p".to_string(), 4_000).unwrap();
    let second = current_index(&session, "p");
    assert_eq!(1 - first, second);
    assert!(matches!(&out[0].payload, Payload::Event(PlayerMessage::Slide { slide }) if *slide == *session.get_template().get_slide_ref(second)));
    let correct = correct_answer_for(&session, second);
    let out = session.answer("p".to_string(), correct, 4_000 + 10_500, second).unwrap();
    assert_eq!(Some("Time ran out"), error_text(&out[0]));
    assert_eq!(1, session.get_player(&"p".to_string()).unwrap().answer_count());
}

#[test]
fn start_with_empty_quiz_finishes_players() {
    let mut session = GameSession::from_stored(stored("host", vec![]));
    let (tx, _rx) = channel();
    session.join(Player::new("p".to_string(), "P".to_string(), Some(tx)));
    let out = session.start("host".to_string(), 0);
    assert_eq!(Payload::Event(PlayerMessage::Finish), out[0].payload);
    assert_eq!(PlayerStatus::Finished, session.get_player(&"p".to_string()).unwrap().status());
}

#[test]
fn handle_message_dispatches() {
    let mut session = GameSession::from_stored(stored("host", vec![slide(10, 2, vec![1])]));
    let (tx, _rx) = channel();
    let player = Player::new("p".to_string(), "P".to_string(), Some(tx));
    session.handle_message(GameMessage::Join { player }, 0).unwrap();
    session.handle_message(GameMessage::Start { player_id: "host".to_string() }, 50).unwrap();
    assert_eq!(50, session.get_player(&"p".to_string()).unwrap().current_slide().unwrap().starting_time);
    let out = session
        .handle_message(
            GameMessage::Answer { player_id: "p".to_string(), answer: vec![0], answer_time: 60, slide_index: 0 },
            60,
        )
        .unwrap();
    assert!(matches!(&out[0].payload, Payload::Event(PlayerMessage::AnswerResult { correct: false, correct_answers }) if *correct_answers == vec![1]));
    session.handle_message(GameMessage::Leave { player_id: "p".to_string() }, 70).unwrap();
    session
        .handle_message(GameMessage::Kick { kick_player_id: "p".to_string(), player_id: "host".to_string() }, 80)
        .unwrap();
    assert_eq!(0, session.player_count());
    session.handle_message(GameMessage::End { player_id: "host".to_string() }, 90).unwrap();
    assert!(!session.is_active());
}

#[test]
fn template_slide_lookup() {
    let slides = vec![slide(10, 2, vec![0]), slide(20, 4, vec![0, 3])];
    let template = GameTemplate::new("Test".to_string(), slides.clone(), "a".to_string(), "b".to_string());
    assert_eq!(2, template.get_slide_count());
    assert_eq!(slides[1], template.get_slide(1));
    assert_eq!(20, template.get_slide_ref(1).duration);
}

#[test]
fn registry_routes_by_code() {
    let mut registry: GameRegistry<String> = GameRegistry::new();
    assert!(registry.lookup(12345).is_none());
    registry.register(12345, "first".to_string());
    registry.register(777, "other".to_string());
    assert_eq!(Some(&"first".to_string()), registry.lookup(12345));
    registry.register(12345, "second".to_string());
    assert_eq!(Some(&"second".to_string()), registry.lookup(12345));
    assert_eq!(2, registry.len());
    registry.unregister(777);
    assert!(registry.lookup(777).is_none());
}
