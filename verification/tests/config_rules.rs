use gnome_lng_switcher::config::{
    get_config_dir, get_config_path, get_pid_path, join_path, load_config, AppConfig,
};

#[test]
fn default_config_values() {
    let c = AppConfig::default();
    assert_eq!(c.left_ctrl_layout, 0);
    assert_eq!(c.right_ctrl_layouts, vec![1]);
    assert_eq!(c.sensitivity_ms, 300);
    assert_eq!(c.window_width, None);
    assert_eq!(c.window_height, None);
}

#[test]
fn load_config_falls_back_to_default() {
    let c = load_config(None);
    assert_eq!(c.sensitivity_ms, 300);
    assert_eq!(c.right_ctrl_layouts, vec![1]);
    let parsed = AppConfig {
        left_ctrl_layout: 2,
        right_ctrl_layouts: vec![0, 1],
        sensitivity_ms: 150,
        window_width: Some(540),
        window_height: Some(724),
    };
    let c = load_config(Some(parsed));
    assert_eq!(c.left_ctrl_layout, 2);
    assert_eq!(c.right_ctrl_layouts, vec![0, 1]);
    assert_eq!(c.sensitivity_ms, 150);
    assert_eq!(c.window_height, Some(724));
}

#[test]
fn config_paths_under_home() {
    assert_eq!(get_config_dir(Some("/home/ann")), "/home/ann/.config/gnome-lng-switcher");
    assert_eq!(
        get_config_path(Some("/home/ann")),
        "/home/ann/.config/gnome-lng-switcher/config.json"
    );
    assert_eq!(get_pid_path(Some("/home/ann")), "/home/ann/.config/gnome-lng-switcher/daemon.pid");
}

#[test]
fn config_paths_without_home_use_tmp() {
    assert_eq!(get_config_path(None), "/tmp/.config/gnome-lng-switcher/config.json");
}

#[test]
fn config_paths_with_trailing_slash_or_empty_home() {
    assert_eq!(get_pid_path(Some("/home/ann/")), "/home/ann/.config/gnome-lng-switcher/daemon.pid");
    assert_eq!(get_config_dir(Some("")), ".config/gnome-lng-switcher");
}

#[test]
fn join_path_matches_pathbuf_join() {
    for (base, part) in [("/a", "b"), ("/a/", "b"), ("", "b"), ("/", "b"), ("a/b", "c.json")] {
        let expected = std::path::PathBuf::from(base).join(part);
        assert_eq!(join_path(base, part), expected.to_str().unwrap());
    }
}

#[test]
fn set_right_layout_adds_once_and_removes_all() {
    let mut c = AppConfig::default();
    c.set_right_layout(2, true);
    assert_eq!(c.right_ctrl_layouts, vec![1, 2]);
    c.set_right_layout(2, true);
    assert_eq!(c.right_ctrl_layouts, vec![1, 2]);
    c.right_ctrl_layouts = vec![1, 2, 1, 3];
    c.set_right_layout(1, false);
    assert_eq!(c.right_ctrl_layouts, vec![2, 3]);
    assert!(!c.cycles_layout(1));
    assert!(c.cycles_layout(3));
    c.set_right_layout(7, false);
    assert_eq!(c.right_ctrl_layouts, vec![2, 3]);
}

#[test]
fn left_layout_selection_only_for_shown_layouts() {
    let mut c = AppConfig::default();
    c.left_ctrl_layout = 2;
    assert_eq!(c.left_layout_selection(3), Some(2));
    assert_eq!(c.left_layout_selection(2), None);
}

#[test]
fn window_size_falls_back_to_540_by_660() {
    let mut c = AppConfig::default();
    assert_eq!(c.window_size(), (540, 660));
    c.window_width = Some(800);
    assert_eq!(c.window_size(), (800, 660));
    c.window_height = Some(724);
    assert_eq!(c.window_size(), (800, 724));
}
