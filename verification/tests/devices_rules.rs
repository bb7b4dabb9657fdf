use gnome_lng_switcher::daemon::{config_reload_needed, Action, FileStamp, KeyCode};
use gnome_lng_switcher::devices::{is_event_device_name, translate_event, ActiveDevices};

#[test]
fn translate_key_events() {
    let e = translate_event(1, 29, 1).unwrap();
    assert_eq!((e.key, e.action), (KeyCode::LeftCtrl, Action::Press));
    let e = translate_event(1, 97, 0).unwrap();
    assert_eq!((e.key, e.action), (KeyCode::RightCtrl, Action::Release));
    let e = translate_event(1, 46, 2).unwrap();
    assert_eq!((e.key, e.action), (KeyCode::Other, Action::Repeat));
}

#[test]
fn translate_ignores_other_events() {
    assert!(translate_event(0, 29, 1).is_none());
    assert!(translate_event(4, 29, 1).is_none());
    assert!(translate_event(1, 29, 3).is_none());
    assert!(translate_event(1, 29, -1).is_none());
}

#[test]
fn event_device_names() {
    assert!(is_event_device_name("event0"));
    assert!(is_event_device_name("event"));
    assert!(!is_event_device_name("mouse0"));
    assert!(!is_event_device_name("even"));
    assert!(!is_event_device_name("by-id"));
}

#[test]
fn active_devices_insert_contains_remove() {
    let mut d = ActiveDevices::new();
    assert_eq!(d.len(), 0);
    assert!(d.insert("/dev/input/event3".to_string()));
    assert!(!d.insert("/dev/input/event3".to_string()));
    assert!(d.insert("/dev/input/event5".to_string()));
    assert_eq!(d.len(), 2);
    assert!(d.contains("/dev/input/event3"));
    assert_eq!(d.path(1), "/dev/input/event5");
    assert!(!d.should_attach("event3", "/dev/input/event3"));
    assert!(d.should_attach("event4", "/dev/input/event4"));
    assert!(!d.should_attach("mice", "/dev/input/mice"));
    assert!(d.remove("/dev/input/event3"));
    assert!(!d.contains("/dev/input/event3"));
    assert!(d.contains("/dev/input/event5"));
    assert!(!d.remove("/dev/input/event3"));
    assert_eq!(d.len(), 1);
}

#[test]
fn reload_only_when_modification_time_changes() {
    let t1 = FileStamp { after_epoch: true, secs: 100, nanos: 5 };
    let t2 = FileStamp { after_epoch: true, secs: 100, nanos: 6 };
    assert!(config_reload_needed(t1, None));
    assert!(!config_reload_needed(t1, Some(t1)));
    assert!(config_reload_needed(t2, Some(t1)));
    let before = FileStamp { after_epoch: false, secs: 100, nanos: 5 };
    assert!(config_reload_needed(before, Some(t1)));
}

#[test]
fn scanning_twice_attaches_each_keyboard_once() {
    let entries = [
        ("event0", "/dev/input/event0", true),
        ("event1", "/dev/input/event1", false),
        ("mice", "/dev/input/mice", true),
        ("event2", "/dev/input/event2", true),
    ];
    let mut d = ActiveDevices::new();
    let mut started = Vec::new();
    for (name, path, kb) in entries {
        if d.record_scanned(name, path.to_string(), kb) {
            started.push(path);
        }
    }
    assert_eq!(started, vec!["/dev/input/event0", "/dev/input/event2"]);
    for (name, path, kb) in entries {
        assert!(!d.record_scanned(name, path.to_string(), kb));
    }
    assert_eq!(d.len(), 2);
}
