use hypertoken_core::gamestate::GameStateManager;
use hypertoken_core::types::HyperTokenError;

#[test]
fn a_new_game_has_not_started() {
    let game = GameStateManager::new();
    let s = game.get_state().unwrap();
    assert!(!s.started && !s.ended && !s.paused);
    assert_eq!(s.phase, "setup");
    assert_eq!(s.turn, 0);
    assert_eq!(s.total_pause_duration, 0);
    assert!(s.start_time.is_none() && s.end_time.is_none() && s.pause_time.is_none() && s.resume_time.is_none());
    assert!(s.winner.is_none() && s.reason.is_none() && s.properties.is_empty());
}

#[test]
fn start_and_end() {
    let mut game = GameStateManager::default();
    game.next_phase(Some("play".to_string())).unwrap();
    let s = game.start_at(1000).unwrap();
    assert!(s.started && !s.ended);
    assert_eq!(s.start_time, Some(1000));
    assert_eq!(s.phase, "setup");
    let s = game.end_at(Some("alice".to_string()), None, 5000).unwrap();
    assert!(s.ended);
    assert_eq!(s.end_time, Some(5000));
    assert_eq!(s.winner.as_deref(), Some("alice"));
    assert!(s.reason.is_none());
    let s = game.start().unwrap();
    assert!(!s.ended);
    assert!(s.start_time.unwrap() > 1_600_000_000_000);
    assert_eq!(s.winner.as_deref(), Some("alice"));
    let s = game.end(None, Some("draw".to_string())).unwrap();
    assert!(s.ended && s.winner.is_none());
    assert_eq!(s.reason.as_deref(), Some("draw"));
}

#[test]
fn pauses_add_up() {
    let mut game = GameStateManager::new();
    let s = game.resume_at(50).unwrap();
    assert!(!s.paused);
    assert_eq!(s.resume_time, None);
    assert_eq!(s.total_pause_duration, 0);
    let s = game.pause_at(100).unwrap();
    assert!(s.paused);
    assert_eq!(s.pause_time, Some(100));
    let s = game.resume_at(130).unwrap();
    assert!(!s.paused);
    assert_eq!(s.resume_time, Some(130));
    assert_eq!(s.total_pause_duration, 30);
    game.pause_at(200).unwrap();
    let s = game.resume_at(260).unwrap();
    assert_eq!(s.total_pause_duration, 90);
    let s = game.resume_at(300).unwrap();
    assert_eq!(s.total_pause_duration, 190);
    game.pause().unwrap();
    let s = game.resume().unwrap();
    assert!(s.total_pause_duration >= 190);
}

#[test]
fn the_time_paused_wraps_around() {
    let mut game = GameStateManager::new();
    game.pause_at(i64::MIN).unwrap();
    let s = game.resume_at(i64::MAX).unwrap();
    assert_eq!(s.total_pause_duration, -1);
}

#[test]
fn phases_follow_one_another() {
    let mut game = GameStateManager::new();
    assert_eq!(game.next_phase(None).unwrap().phase, "play");
    assert_eq!(game.next_phase(None).unwrap().phase, "scoring");
    assert_eq!(game.next_phase(None).unwrap().phase, "end");
    assert_eq!(game.next_phase(None).unwrap().phase, "end");
    assert_eq!(game.next_phase(Some("bidding".to_string())).unwrap().phase, "bidding");
    assert_eq!(game.next_phase(None).unwrap().phase, "play");
}

#[test]
fn properties_are_set_by_name() {
    let mut game = GameStateManager::new();
    game.set_property("score", "{\"a\":1}").unwrap();
    game.set_property("round", "3").unwrap();
    let s = game.set_property("score", "[1,2]").unwrap();
    assert_eq!(s.properties.len(), 2);
    assert_eq!(s.properties[0].0, "score");
    assert_eq!(s.properties[0].1, serde_json::from_str::<serde_json::Value>("[1,2]").unwrap());
    assert_eq!(s.properties[1].0, "round");
    assert_eq!(s.properties[1].1, serde_json::Value::from(3));
    assert!(matches!(game.set_property("x", "{oops"), Err(HyperTokenError::SerializationError(_))));
    assert_eq!(game.get_state().unwrap().properties.len(), 2);
}
