use gg2_custom::hud::CaptureTheFlagState;

const SECOND: u64 = 1_000_000_000;

#[test]
fn timer_text_shows_minutes_and_seconds() {
    let state = CaptureTheFlagState { left_nanos: 125 * SECOND + 999, total_nanos: 600 * SECOND };
    assert_eq!(state.timer_text(), "CTF: 02:05");
    let hour = CaptureTheFlagState { left_nanos: 3600 * SECOND, total_nanos: 3600 * SECOND };
    assert_eq!(hour.timer_text(), "CTF: 60:00");
    let over = CaptureTheFlagState { left_nanos: 0, total_nanos: 0 };
    assert_eq!(over.timer_text(), "CTF: 00:00");
    let long = CaptureTheFlagState { left_nanos: 6001 * SECOND, total_nanos: 0 };
    assert_eq!(long.timer_text(), "CTF: 100:01");
}

#[test]
fn tick_counts_down_to_zero() {
    let mut state = CaptureTheFlagState { left_nanos: 3 * SECOND, total_nanos: 10 * SECOND };
    state.tick(SECOND);
    assert_eq!(state.left_nanos, 2 * SECOND);
    state.tick(5 * SECOND);
    assert_eq!(state.left_nanos, 0);
    assert_eq!(state.total_nanos, 10 * SECOND);
}
