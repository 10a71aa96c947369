use wasm_game_of_life::Timer;

#[test]
fn timer_starts_pending() {
    let t = Timer::new("tick");
    assert_eq!(t.name(), "tick");
    assert!(t.pending_end());
}

#[test]
fn timer_ended_explicitly_is_not_ended_again() {
    let mut t = Timer::new("tick");
    t.end_now();
    assert!(!t.pending_end());
    assert_eq!(t.name(), "tick");
}
