use rudo::catalog::{AppCatalog, InstalledApp};
use rudo::dock::{aggregate_badges, sanitize_pins, show_separator, tooltip_for, DockState};
use rudo::model::WindowState;

fn installed(id: &str, name: &str, exe: &str) -> InstalledApp {
    InstalledApp {
        id: Some(id.to_string()),
        display_name: name.to_string(),
        executable: Some(exe.to_string()),
        should_show: true,
    }
}

fn catalog() -> AppCatalog {
    AppCatalog::load(vec![
        installed("firefox.desktop", "Firefox", "/usr/bin/firefox"),
        installed("org.gnome.TextEditor.desktop", "Text Editor", "gnome-text-editor"),
        installed("org.gnome.Nautilus.desktop", "Files", "/usr/bin/nautilus"),
    ])
}

fn window(id: &str, app: Option<&str>, title: Option<&str>, active: bool, badge: Option<u32>) -> WindowState {
    WindowState {
        id: id.to_string(),
        app_id: app.map(str::to_string),
        title: title.map(str::to_string),
        active,
        badge_count: badge,
    }
}

fn windows() -> Vec<WindowState> {
    vec![
        window("w1", Some("firefox"), Some("Mozilla"), false, None),
        window("w2", Some("org.gnome.Nautilus"), Some("Home"), true, Some(3)),
        window("w3", Some("unknown-app"), Some("X"), false, None),
        window("w4", None, Some("Scratch"), false, Some(2)),
    ]
}

#[test]
fn pinned_items_come_first_then_running_ones() {
    let mut state = DockState::new(catalog(), vec!["firefox.desktop".to_string()], 24);
    assert!(state.apply_snapshot(windows()));
    assert!(!state.apply_snapshot(windows()));
    let (pinned, running) = state.collect_items();

    assert_eq!(pinned.len(), 1);
    assert_eq!(pinned[0].label, "Firefox");
    assert_eq!(pinned[0].tooltip, "Firefox\nMozilla");
    assert!(pinned[0].pinned);
    assert!(!pinned[0].active);
    assert_eq!(pinned[0].windows.len(), 1);
    assert_eq!(pinned[0].badge_count, None);

    let labels: Vec<&str> = running.iter().map(|i| i.label.as_str()).collect();
    assert_eq!(labels, ["Files", "Scratch", "unknown-app"]);
    assert!(running[0].active);
    assert_eq!(running[0].badge_count, Some(3));
    assert_eq!(running[0].tooltip, "Files\nHome");
    assert!(running[0].app.is_some());
    assert!(running[1].app.is_none());
    assert_eq!(running[1].badge_count, Some(2));
    assert_eq!(running[2].tooltip, "unknown-app\nX");
    assert!(show_separator(&pinned, &running));
}

#[test]
fn active_running_items_sort_first() {
    let mut state = DockState::new(catalog(), Vec::new(), 24);
    state.apply_snapshot(vec![
        window("a", Some("firefox"), None, false, None),
        window("b", Some("gnome-text-editor"), None, true, None),
        window("c", Some("gnome-text-editor"), None, false, None),
    ]);
    let (pinned, running) = state.collect_items();
    assert!(pinned.is_empty());
    let labels: Vec<&str> = running.iter().map(|i| i.label.as_str()).collect();
    assert_eq!(labels, ["Text Editor", "Firefox"]);
    assert_eq!(running[0].tooltip, "Text Editor\n2 windows");
    assert_eq!(running[1].tooltip, "Firefox\nRunning");
    assert!(!show_separator(&pinned, &running));
}

#[test]
fn launch_feedback_lasts_until_a_window_opens() {
    let mut state = DockState::new(catalog(), vec!["org.gnome.TextEditor.desktop".to_string()], 24);
    state.mark_launching("org.gnome.TextEditor.desktop");
    assert!(state.is_launching("org.gnome.TextEditor.desktop"));
    let (pinned, _) = state.collect_items();
    assert!(pinned[0].launching);
    assert_eq!(pinned[0].tooltip, "Text Editor\nLaunching...");

    state.prune_launching();
    assert!(state.is_launching("org.gnome.TextEditor.desktop"));
    state.apply_snapshot(vec![window("x", Some("firefox"), None, false, None)]);
    assert!(state.is_launching("org.gnome.TextEditor.desktop"));
    state.apply_snapshot(vec![window("y", Some("gnome-text-editor"), None, false, None)]);
    assert!(!state.is_launching("org.gnome.TextEditor.desktop"));

    state.mark_launching("firefox.desktop");
    assert!(state.expire_launch("firefox.desktop"));
    assert!(!state.expire_launch("firefox.desktop"));
    let (pinned, _) = state.collect_items();
    assert_eq!(pinned[0].tooltip, "Text Editor\nRunning");
}

#[test]
fn stored_pins_are_sanitized() {
    let catalog = catalog();
    let pins = ["firefox", "firefox.desktop", "nope", "Files"].map(str::to_string).to_vec();
    assert_eq!(
        sanitize_pins(&catalog, pins),
        ["firefox.desktop", "org.gnome.Nautilus.desktop"]
    );
    let mut state = DockState::new(catalog, vec!["firefox.desktop".to_string()], 24);
    assert!(!state.apply_loaded_pins(vec!["firefox".to_string()]));
    assert!(state.apply_loaded_pins(vec!["nautilus".to_string(), "firefox".to_string()]));
    assert_eq!(state.pins, ["org.gnome.Nautilus.desktop", "firefox.desktop"]);
}

#[test]
fn picker_leaves_out_pinned_apps() {
    let state = DockState::new(catalog(), vec!["firefox.desktop".to_string()], 24);
    let ids: Vec<&str> = state.picker_matches("").into_iter().map(|a| a.id.as_str()).collect();
    assert_eq!(ids, ["org.gnome.Nautilus.desktop", "org.gnome.TextEditor.desktop"]);
}

#[test]
fn tooltips_and_badges() {
    assert_eq!(tooltip_for("App", &Vec::new(), false), "App\nLaunch");
    assert_eq!(tooltip_for("App", &Vec::new(), true), "App\nLaunching...");
    let one = vec![window("1", None, None, false, Some(0))];
    assert_eq!(tooltip_for("App", &one, true), "App\nRunning");
    assert_eq!(aggregate_badges(&one), None);
    let many = vec![
        window("1", None, None, false, Some(4)),
        window("2", None, None, false, None),
        window("3", None, None, false, Some(5)),
    ];
    assert_eq!(tooltip_for("App", &many, false), "App\n3 windows");
    assert_eq!(aggregate_badges(&many), Some(9));
}

#[test]
fn launch_feedback_expires_after_the_timeout() {
    let mut state = DockState::new(catalog(), Vec::new(), 24);
    state.mark_launching("firefox.desktop");
    state.mark_launching("org.gnome.Nautilus.desktop");
    state.drop_expired(&vec![6000, 5999]);
    assert!(!state.is_launching("firefox.desktop"));
    assert!(state.is_launching("org.gnome.Nautilus.desktop"));
    state.drop_expired(&vec![10_000]);
    assert!(!state.is_launching("org.gnome.Nautilus.desktop"));
}

#[test]
fn relaunching_keeps_the_other_entries() {
    let mut state = DockState::new(catalog(), Vec::new(), 24);
    state.mark_launching("firefox.desktop");
    state.mark_launching("org.gnome.Nautilus.desktop");
    let nautilus_started = state.launching.entry(1).started_at;
    state.mark_launching("firefox.desktop");
    assert_eq!(state.launching.len(), 2);
    assert_eq!(state.launching.entry(0).app_id, "firefox.desktop");
    assert_eq!(state.launching.entry(1).started_at, nautilus_started);
    assert!(state.expire_launch("firefox.desktop"));
    assert!(!state.is_launching("firefox.desktop"));
    assert!(!state.expire_launch("firefox.desktop"));
    state.apply_snapshot(vec![window("x", Some("firefox"), None, false, None)]);
    assert_eq!(state.launching.len(), 1);
    assert_eq!(state.launching.entry(0).started_at, nautilus_started);
}
