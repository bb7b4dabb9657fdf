use gnome_lng_switcher::config::AppConfig;
use gnome_lng_switcher::daemon::{available_layouts, handle_layout_switch, KeyCode};

fn config(left: u32, right: Vec<u32>) -> AppConfig {
    AppConfig {
        left_ctrl_layout: left,
        right_ctrl_layouts: right,
        sensitivity_ms: 300,
        window_width: None,
        window_height: None,
    }
}

#[test]
fn left_ctrl_switches_to_configured_layout() {
    let c = config(0, vec![1, 2]);
    assert_eq!(handle_layout_switch(KeyCode::LeftCtrl, &c, 3, 2), Some(0));
    let c = config(2, vec![1]);
    assert_eq!(handle_layout_switch(KeyCode::LeftCtrl, &c, 3, 0), Some(2));
}

#[test]
fn left_ctrl_ignores_missing_layout() {
    let c = config(3, vec![1]);
    assert_eq!(handle_layout_switch(KeyCode::LeftCtrl, &c, 3, 0), None);
}

#[test]
fn no_layouts_no_switch() {
    let c = config(0, vec![0]);
    assert_eq!(handle_layout_switch(KeyCode::LeftCtrl, &c, 0, 0), None);
    assert_eq!(handle_layout_switch(KeyCode::RightCtrl, &c, 0, 0), None);
}

#[test]
fn right_ctrl_cycles_through_list() {
    let c = config(0, vec![1, 2, 3]);
    assert_eq!(handle_layout_switch(KeyCode::RightCtrl, &c, 4, 1), Some(2));
    assert_eq!(handle_layout_switch(KeyCode::RightCtrl, &c, 4, 2), Some(3));
    assert_eq!(handle_layout_switch(KeyCode::RightCtrl, &c, 4, 3), Some(1));
}

#[test]
fn right_ctrl_full_round_returns_to_start() {
    let c = config(0, vec![2, 0, 1]);
    let mut current = 0;
    for _ in 0..3 {
        current = handle_layout_switch(KeyCode::RightCtrl, &c, 3, current).unwrap();
    }
    assert_eq!(current, 0);
}

#[test]
fn right_ctrl_from_layout_outside_list_starts_at_first() {
    let c = config(0, vec![1, 2]);
    assert_eq!(handle_layout_switch(KeyCode::RightCtrl, &c, 3, 0), Some(1));
}

#[test]
fn right_ctrl_with_empty_list_does_nothing() {
    let c = config(0, vec![]);
    assert_eq!(handle_layout_switch(KeyCode::RightCtrl, &c, 3, 0), None);
}

#[test]
fn right_ctrl_skips_switch_to_missing_layout() {
    let c = config(0, vec![1, 5]);
    assert_eq!(handle_layout_switch(KeyCode::RightCtrl, &c, 3, 1), None);
}

#[test]
fn right_ctrl_with_repeated_entry_follows_first_occurrence() {
    let c = config(0, vec![1, 2, 1, 0]);
    assert_eq!(handle_layout_switch(KeyCode::RightCtrl, &c, 3, 1), Some(2));
}

#[test]
fn other_key_never_switches() {
    let c = config(0, vec![1]);
    assert_eq!(handle_layout_switch(KeyCode::Other, &c, 3, 0), None);
}

#[test]
fn available_layouts_keep_named_sources() {
    let sources = vec![
        (Some("xkb".to_string()), Some("us".to_string())),
        (None, Some("ru".to_string())),
        (Some("xkb".to_string()), None),
        (Some("ibus".to_string()), Some("mozc-jp".to_string())),
    ];
    assert_eq!(available_layouts(&sources), vec!["us".to_string(), "mozc-jp".to_string()]);
    assert!(available_layouts(&Vec::new()).is_empty());
}
