use rudo::config::{
    config_file_path, default_menu_items, dock_dir_in, path_join, settings_eq, AutoHideSettings, MenuConfig, MenuPosition,
    OutputMode, Position, Settings,
};

#[test]
fn settings_support_all_outputs_and_normalize_extreme_values() {
    // The JSON `{"outputs":"all","icon_size":-5,"animation_duration_ms":999999}`
    // decodes (in the application) to these settings.
    let mut settings = Settings::default();
    settings.outputs = OutputMode::All;
    settings.icon_size = -5;
    settings.animation_duration_ms = 999999;
    let settings = settings.normalized();

    assert_eq!(settings.outputs, OutputMode::All);
    assert_eq!(settings.icon_size, 8);
    assert_eq!(settings.animation_duration_ms, 10_000);
}

#[test]
fn default_settings() {
    let settings = Settings::default();
    assert_eq!(settings.autohide, AutoHideSettings { enabled: true, delay_secs: 3 });
    assert!(settings.show_pin_button);
    assert_eq!(settings.icon_size, 24);
    assert_eq!(settings.position, Position::Bottom);
    assert_eq!(settings.outputs, OutputMode::First);
    assert_eq!(settings.animation_duration_ms, 220);
    assert!(!settings.menu.enabled);
    assert_eq!(settings.menu.icon, "system-lock-screen-symbolic");
    assert_eq!(settings.menu.position, MenuPosition::End);
    assert_eq!(settings.menu.items.len(), 4);
}

#[test]
fn default_menu_entries() {
    let items = default_menu_items();
    let labels: Vec<&str> = items.iter().map(|i| i.label.as_str()).collect();
    assert_eq!(labels, ["Lock", "Logout", "Restart", "Shutdown"]);
    assert_eq!(items[0].command, "swaylock -f");
    assert!(!items[0].confirm);
    assert_eq!(items[1].command, "loginctl terminate-user $USER");
    assert_eq!(items[2].command, "systemctl reboot");
    assert_eq!(items[3].command, "systemctl poweroff");
    assert!(items[1].confirm && items[2].confirm && items[3].confirm);
    assert_eq!(items[3].icon.as_deref(), Some("system-shutdown-symbolic"));
    assert!(settings_eq(&Settings::default(), &Settings::default()));
    let _ = MenuConfig::default();
}

#[test]
fn normalization_clamps_every_range() {
    let mut settings = Settings::default();
    settings.icon_size = 9000;
    settings.autohide.delay_secs = 0;
    let settings = settings.normalized();
    assert_eq!(settings.icon_size, 256);
    assert_eq!(settings.autohide.delay_secs, 1);

    let mut settings = Settings::default();
    settings.autohide.delay_secs = 1_000_000;
    settings.animation_duration_ms = 10_000;
    let settings = settings.normalized();
    assert_eq!(settings.autohide.delay_secs, 86_400);
    assert_eq!(settings.animation_duration_ms, 10_000);

    let defaults = Settings::default();
    assert!(settings_eq(&defaults.clone().normalized(), &defaults));
    let mut changed = Settings::default();
    changed.menu.items.pop();
    assert!(!settings_eq(&changed, &defaults));
}

#[test]
fn config_files_live_in_the_rudo_directory() {
    assert_eq!(
        config_file_path(Some(b"/home/alice/.config".to_vec()), "pins.json").as_deref(),
        Some(&b"/home/alice/.config/rudo/pins.json"[..])
    );
    assert_eq!(
        config_file_path(Some(b"/home/alice/.config/".to_vec()), "style.css").as_deref(),
        Some(&b"/home/alice/.config/rudo/style.css"[..])
    );
    assert_eq!(config_file_path(None, "settings.json"), None);
    assert_eq!(
        dock_dir_in(Some(b"/home/alice/.config".to_vec())).as_deref(),
        Some(&b"/home/alice/.config/rudo"[..])
    );
    assert_eq!(dock_dir_in(None), None);
}

#[test]
fn config_dir_need_not_be_text() {
    assert_eq!(
        config_file_path(Some(b"/home/\xff/.config".to_vec()), "pins.json").as_deref(),
        Some(&b"/home/\xff/.config/rudo/pins.json"[..])
    );
}

#[test]
fn paths_join_as_on_unix() {
    assert_eq!(path_join(b"a", b"b"), b"a/b".to_vec());
    assert_eq!(path_join(b"a/", b"b"), b"a/b".to_vec());
    assert_eq!(path_join(b"", b"b"), b"b".to_vec());
    assert_eq!(path_join(b"a", b"/b"), b"/b".to_vec());
    assert_eq!(path_join(b"a", b""), b"a/".to_vec());
}
