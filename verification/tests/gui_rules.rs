use gnome_lng_switcher::gui::{
    autostart_desktop_path, autostart_dir, autostart_entry, daemon_proc_path, extension_dir,
    extension_listed, format_layout_name,
};

#[test]
fn known_layout_names() {
    assert_eq!(format_layout_name("us"), "English (U.S.)");
    assert_eq!(format_layout_name("ru"), "Russian");
    assert_eq!(format_layout_name("ua"), "Ukrainian");
}

#[test]
fn other_layout_names_capitalised() {
    assert_eq!(format_layout_name("de"), "De");
    assert_eq!(format_layout_name("fr+oss"), "Fr+oss");
    assert_eq!(format_layout_name(""), "");
    assert_eq!(format_layout_name("éa"), "Éa");
    assert_eq!(format_layout_name("ßx"), "SSx");
    assert_eq!(format_layout_name("1a"), "1a");
}

#[test]
fn autostart_paths() {
    assert_eq!(autostart_dir(Some("/home/ann")), "/home/ann/.config/autostart");
    assert_eq!(
        autostart_desktop_path(Some("/home/ann")),
        "/home/ann/.config/autostart/GnomeLngSwitcher.desktop"
    );
    assert_eq!(autostart_dir(None), "/tmp/.config/autostart");
}

#[test]
fn autostart_entry_text() {
    assert_eq!(
        autostart_entry("/opt/sw"),
        "[Desktop Entry]\nType=Application\nName=Gnome Keyboard Layout Switcher\nComment=Switch keyboard layouts using Control keys\nExec=/opt/sw --daemon\nTerminal=false\nX-GNOME-Autostart-enabled=true\n"
    );
}

#[test]
fn extension_directory() {
    assert_eq!(
        extension_dir("/home/ann"),
        "/home/ann/.local/share/gnome-shell/extensions/gnome-lng-switcher@github.com"
    );
}

#[test]
fn extension_listed_lines() {
    assert!(extension_listed("gnome-lng-switcher@github.com\n"));
    assert!(extension_listed("a@b\n  gnome-lng-switcher@github.com\r\nc@d"));
    assert!(extension_listed("x\ngnome-lng-switcher@github.com"));
    assert!(!extension_listed(""));
    assert!(!extension_listed("gnome-lng-switcher@github.com.bak\n"));
    assert!(!extension_listed("other@x gnome-lng-switcher@github.com\n"));
}

#[test]
fn daemon_proc_paths() {
    assert_eq!(daemon_proc_path("1234\n").as_deref(), Some("/proc/1234"));
    assert_eq!(daemon_proc_path(" +007 ").as_deref(), Some("/proc/7"));
    assert_eq!(daemon_proc_path("-5").as_deref(), Some("/proc/-5"));
    assert_eq!(daemon_proc_path("-2147483648").as_deref(), Some("/proc/-2147483648"));
    assert_eq!(daemon_proc_path("2147483647").as_deref(), Some("/proc/2147483647"));
    assert_eq!(daemon_proc_path("0").as_deref(), Some("/proc/0"));
    assert_eq!(daemon_proc_path("2147483648"), None);
    assert_eq!(daemon_proc_path("99999999999999999999"), None);
    assert_eq!(daemon_proc_path(""), None);
    assert_eq!(daemon_proc_path("-"), None);
    assert_eq!(daemon_proc_path("12a"), None);
    assert_eq!(daemon_proc_path("1 2"), None);
}

#[test]
fn daemon_proc_path_agrees_with_std_parse() {
    for text in ["42", " 42 ", "+1", "-0", "00012", "x", "", "+", "--1", "2147483648", "-2147483649"] {
        let expected = text.trim().parse::<i32>().ok().map(|p| format!("/proc/{}", p));
        assert_eq!(daemon_proc_path(text), expected, "{}", text);
    }
}

#[test]
fn written_pid_reads_back() {
    for pid in [1i32, 42, 4194304, i32::MAX, -17, i32::MIN] {
        assert_eq!(daemon_proc_path(&pid.to_string()), Some(format!("/proc/{}", pid)));
    }
}

#[test]
fn layout_code_with_variant_capitalised() {
    assert_eq!(format_layout_name("gb+extd"), "Gb+extd");
}
