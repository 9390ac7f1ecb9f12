use math_invaders::message::Message;

#[test]
fn message_accumulates_display_time() {
    let mut m = Message::new("Level 1".chars().collect(), 1_000);
    assert_eq!(m.elapsed_ms, 0);
    assert!(!m.is_expired());
    m.update(600);
    assert_eq!(m.elapsed_ms, 600);
    assert!(!m.is_expired());
    m.update(600);
    assert_eq!(m.elapsed_ms, 1_200);
    assert!(m.is_expired());
}

#[test]
fn message_expires_only_past_its_duration() {
    let mut m = Message::new("Go".chars().collect(), 500);
    m.update(500);
    assert!(!m.is_expired());
    m.update(1);
    assert!(m.is_expired());
}
