use gnome_lng_switcher::daemon::{Action, KeyCode, TapDetector};

const MS: u128 = 1_000_000;

#[test]
fn test_tap_detector_successful_left_tap() {
    let mut detector = TapDetector::new();

    let r1 = detector.handle_event(KeyCode::LeftCtrl, Action::Press, 300);
    assert_eq!(r1, None);

    let r2 = detector.handle_event(KeyCode::LeftCtrl, Action::Release, 300);
    assert_eq!(r2, Some(KeyCode::LeftCtrl));
}

#[test]
fn test_tap_detector_interrupted_tap() {
    let mut detector = TapDetector::new();

    detector.handle_event(KeyCode::LeftCtrl, Action::Press, 300);
    detector.handle_event(KeyCode::Other, Action::Press, 300);
    let r = detector.handle_event(KeyCode::LeftCtrl, Action::Release, 300);
    assert_eq!(r, None);
}

#[test]
fn test_tap_detector_timeout_tap() {
    let mut detector = TapDetector::new();

    detector.handle_event(KeyCode::LeftCtrl, Action::Press, 0);
    let r = detector.handle_event(KeyCode::LeftCtrl, Action::Release, 0);
    assert_eq!(r, None);
}

#[test]
fn right_tap_within_sensitivity_reports_right_ctrl() {
    let mut d = TapDetector::new();
    assert_eq!(d.handle_event_at(KeyCode::RightCtrl, Action::Press, 300, 1_000 * MS), None);
    assert_eq!(
        d.handle_event_at(KeyCode::RightCtrl, Action::Release, 300, 1_299 * MS),
        Some(KeyCode::RightCtrl)
    );
}

#[test]
fn release_exactly_at_sensitivity_is_a_hold() {
    let mut d = TapDetector::new();
    d.handle_event_at(KeyCode::LeftCtrl, Action::Press, 300, 5 * MS);
    assert_eq!(d.handle_event_at(KeyCode::LeftCtrl, Action::Release, 300, 305 * MS), None);
}

#[test]
fn release_one_nanosecond_before_sensitivity_is_a_tap() {
    let mut d = TapDetector::new();
    d.handle_event_at(KeyCode::LeftCtrl, Action::Press, 300, 5 * MS);
    assert_eq!(
        d.handle_event_at(KeyCode::LeftCtrl, Action::Release, 300, 305 * MS - 1),
        Some(KeyCode::LeftCtrl)
    );
}

#[test]
fn ctrl_c_shortcut_does_not_switch() {
    let mut d = TapDetector::new();
    d.handle_event_at(KeyCode::LeftCtrl, Action::Press, 300, 0);
    d.handle_event_at(KeyCode::Other, Action::Press, 300, 10 * MS);
    d.handle_event_at(KeyCode::Other, Action::Release, 300, 20 * MS);
    assert_eq!(d.handle_event_at(KeyCode::LeftCtrl, Action::Release, 300, 30 * MS), None);
}

#[test]
fn held_control_with_repeats_does_not_switch() {
    let mut d = TapDetector::new();
    d.handle_event_at(KeyCode::RightCtrl, Action::Press, 300, 0);
    for i in 1..10u128 {
        assert_eq!(d.handle_event_at(KeyCode::RightCtrl, Action::Repeat, 300, i * 100 * MS), None);
    }
    assert_eq!(d.handle_event_at(KeyCode::RightCtrl, Action::Release, 300, 1_000 * MS), None);
}

#[test]
fn release_without_press_reports_nothing() {
    let mut d = TapDetector::new();
    assert_eq!(d.handle_event_at(KeyCode::LeftCtrl, Action::Release, 300, 0), None);
    assert_eq!(d.handle_event_at(KeyCode::RightCtrl, Action::Release, 300, 0), None);
}

#[test]
fn second_release_reports_nothing() {
    let mut d = TapDetector::new();
    d.handle_event_at(KeyCode::LeftCtrl, Action::Press, 300, 0);
    assert_eq!(
        d.handle_event_at(KeyCode::LeftCtrl, Action::Release, 300, MS),
        Some(KeyCode::LeftCtrl)
    );
    assert_eq!(d.handle_event_at(KeyCode::LeftCtrl, Action::Release, 300, 2 * MS), None);
}

#[test]
fn new_control_press_clears_interruption() {
    let mut d = TapDetector::new();
    d.handle_event_at(KeyCode::Other, Action::Press, 300, 0);
    d.handle_event_at(KeyCode::LeftCtrl, Action::Press, 300, MS);
    assert_eq!(
        d.handle_event_at(KeyCode::LeftCtrl, Action::Release, 300, 2 * MS),
        Some(KeyCode::LeftCtrl)
    );
}

#[test]
fn clock_going_backwards_counts_as_no_time() {
    let mut d = TapDetector::new();
    d.handle_event_at(KeyCode::LeftCtrl, Action::Press, 300, 10 * MS);
    assert_eq!(
        d.handle_event_at(KeyCode::LeftCtrl, Action::Release, 300, 5 * MS),
        Some(KeyCode::LeftCtrl)
    );
    let mut e = TapDetector::new();
    e.handle_event_at(KeyCode::LeftCtrl, Action::Press, 0, 10 * MS);
    assert_eq!(e.handle_event_at(KeyCode::LeftCtrl, Action::Release, 0, 5 * MS), None);
}

#[test]
fn other_control_press_after_shortcut_key_keeps_interruption() {
    let mut d = TapDetector::new();
    d.handle_event_at(KeyCode::LeftCtrl, Action::Press, 300, 0);
    d.handle_event_at(KeyCode::Other, Action::Press, 300, 10 * MS);
    d.handle_event_at(KeyCode::RightCtrl, Action::Press, 300, 20 * MS);
    assert_eq!(d.handle_event_at(KeyCode::LeftCtrl, Action::Release, 300, 30 * MS), None);
}

#[test]
fn right_tap_while_left_held_switches_once() {
    let mut d = TapDetector::new();
    d.handle_event_at(KeyCode::LeftCtrl, Action::Press, 300, 0);
    d.handle_event_at(KeyCode::RightCtrl, Action::Press, 300, 10 * MS);
    assert_eq!(
        d.handle_event_at(KeyCode::RightCtrl, Action::Release, 300, 20 * MS),
        Some(KeyCode::RightCtrl)
    );
    assert_eq!(d.handle_event_at(KeyCode::LeftCtrl, Action::Release, 300, 30 * MS), None);
}

#[test]
fn release_of_another_key_interrupts_tap() {
    let mut d = TapDetector::new();
    d.handle_event_at(KeyCode::LeftCtrl, Action::Press, 300, 0);
    d.handle_event_at(KeyCode::Other, Action::Release, 300, 10 * MS);
    assert_eq!(d.handle_event_at(KeyCode::LeftCtrl, Action::Release, 300, 20 * MS), None);
}

#[test]
fn repeat_of_another_key_interrupts_tap() {
    let mut d = TapDetector::new();
    d.handle_event_at(KeyCode::RightCtrl, Action::Press, 300, 0);
    d.handle_event_at(KeyCode::Other, Action::Repeat, 300, 10 * MS);
    assert_eq!(d.handle_event_at(KeyCode::RightCtrl, Action::Release, 300, 20 * MS), None);
}

#[test]
fn own_repeat_keeps_a_quick_tap() {
    let mut d = TapDetector::new();
    d.handle_event_at(KeyCode::LeftCtrl, Action::Press, 300, 0);
    d.handle_event_at(KeyCode::LeftCtrl, Action::Repeat, 300, 100 * MS);
    assert_eq!(
        d.handle_event_at(KeyCode::LeftCtrl, Action::Release, 300, 200 * MS),
        Some(KeyCode::LeftCtrl)
    );
}
