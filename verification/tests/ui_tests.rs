use rudo::autohide::{reserves_space, AutoHide, TimerAction};
use rudo::config::{OutputMode, Position, Settings};
use rudo::dock::DockState;
use rudo::catalog::{AppCatalog, InstalledApp};
use rudo::catalog::AppRecord;
use rudo::dock::DockItem;
use rudo::item::{badge_label, click_action, context_menu_entries, target_window, window_menu_label, ClickKind, MenuEntry};
use rudo::layout::{
    across, monitor_targets, redraw_after_reload, Align, Axis, ConfigChangeSet, DockLayout, Edge, PendingChanges,
    Redraw, Slide,
};
use rudo::model::WindowState;

fn window(id: &str, title: Option<&str>, active: bool) -> WindowState {
    WindowState {
        id: id.to_string(),
        app_id: None,
        title: title.map(str::to_string),
        active,
        badge_count: None,
    }
}

#[test]
fn layouts_follow_the_edge() {
    let bottom = DockLayout::from_position(Position::Bottom);
    assert_eq!(bottom.margin_edge, Edge::Bottom);
    assert_eq!(bottom.transition, Slide::Up);
    assert_eq!(bottom.items_orientation, Axis::Horizontal);
    assert_eq!(bottom.valign, Align::End);
    let left = DockLayout::from_position(Position::Left);
    assert_eq!(left.margin_edge, Edge::Left);
    assert_eq!(left.transition, Slide::Right);
    assert_eq!(left.orientation, Axis::Horizontal);
    assert!(left.strip_expand_vertical && !left.strip_expand_horizontal);
    assert_eq!(DockLayout::from_position(Position::Top).transition, Slide::Down);
    assert_eq!(DockLayout::from_position(Position::Right).halign, Align::End);
    assert_eq!(across(Axis::Horizontal), Axis::Vertical);
}

#[test]
fn monitors_that_get_a_dock() {
    assert_eq!(monitor_targets(0, OutputMode::All, true), vec![None]);
    assert_eq!(monitor_targets(3, OutputMode::First, true), vec![Some(0)]);
    assert_eq!(monitor_targets(3, OutputMode::All, false), vec![Some(0)]);
    assert_eq!(monitor_targets(3, OutputMode::All, true), vec![Some(0), Some(1), Some(2)]);
}

#[test]
fn config_events_mark_their_files() {
    let names = vec![Some("pins.json".to_string()), None, Some("other".to_string())];
    let changes = ConfigChangeSet::from_event(&names);
    assert_eq!(changes, ConfigChangeSet { pins: true, settings: false, style: false });
    let all = ConfigChangeSet::from_event(&Vec::new());
    assert_eq!(all, ConfigChangeSet { pins: true, settings: true, style: true });
    let style = ConfigChangeSet::from_event(&vec![Some("style.css".to_string())]);
    assert_eq!(
        changes.union(&style),
        ConfigChangeSet { pins: true, settings: false, style: true }
    );
    assert!(ConfigChangeSet::none().is_empty());
    assert_eq!(redraw_after_reload(true, true), Redraw::Rebuild);
    assert_eq!(redraw_after_reload(true, false), Redraw::Rerender);
    assert_eq!(redraw_after_reload(false, false), Redraw::Nothing);
}

#[test]
fn autohide_hides_after_leaving_and_never_when_disabled() {
    let mut autohide = AutoHide::new(true, 0);
    assert!(autohide.revealed());
    assert_eq!(
        autohide.schedule_hide(),
        TimerAction { cancel_pending: false, start_secs: Some(1) }
    );
    assert_eq!(
        autohide.schedule_hide(),
        TimerAction { cancel_pending: true, start_secs: Some(1) }
    );
    autohide.hide_timer_fired();
    assert!(!autohide.revealed());
    assert!(!autohide.show());
    assert!(autohide.revealed());

    let mut settings = Settings::default();
    settings.autohide.enabled = false;
    autohide.schedule_hide();
    let action = autohide.apply_settings(&settings);
    assert_eq!(action, TimerAction { cancel_pending: true, start_secs: None });
    assert_eq!(
        autohide.schedule_hide(),
        TimerAction { cancel_pending: false, start_secs: None }
    );
    autohide.hide_timer_fired();
    assert!(autohide.revealed());
    assert!(reserves_space(&settings));
    assert!(!autohide.cancel_pending_hide());
}

#[test]
fn item_labels_and_targets() {
    assert_eq!(window_menu_label(&window("1", None, false), false), "Focus Window");
    assert_eq!(window_menu_label(&window("1", Some("Mail"), true), false), "Focus Mail (active)");
    assert_eq!(window_menu_label(&window("1", None, false), true), "Focus Untitled Window");
    assert_eq!(badge_label(None), None);
    assert_eq!(badge_label(Some(0)), None);
    assert_eq!(badge_label(Some(7)).as_deref(), Some("7"));
    assert_eq!(badge_label(Some(99)).as_deref(), Some("99"));
    assert_eq!(badge_label(Some(100)).as_deref(), Some("99+"));
    let ws = vec![window("a", None, false), window("b", None, true), window("c", None, true)];
    assert_eq!(target_window(&ws), Some(1));
    assert_eq!(target_window(&vec![window("a", None, false)]), Some(0));
    assert_eq!(target_window(&Vec::new()), None);
}

#[test]
fn clicks_launch_once() {
    let catalog = AppCatalog::load(vec![InstalledApp {
        id: Some("foot.desktop".to_string()),
        display_name: "Foot".to_string(),
        executable: Some("/usr/bin/foot".to_string()),
        should_show: true,
    }]);
    let mut state = DockState::new(catalog, vec!["foot.desktop".to_string()], 24);
    let (pinned, _) = state.collect_items();
    assert_eq!(click_action(&state, &pinned[0]), ClickKind::Launch);
    state.mark_launching("foot.desktop");
    assert_eq!(click_action(&state, &pinned[0]), ClickKind::Ignore);
    state.apply_snapshot(vec![WindowState {
        id: "w".to_string(),
        app_id: Some("foot".to_string()),
        title: None,
        active: false,
        badge_count: None,
    }]);
    let (pinned, _) = state.collect_items();
    assert_eq!(click_action(&state, &pinned[0]), ClickKind::Activate(0));
}

fn item(app: Option<&str>, windows: Vec<WindowState>, pinned: bool) -> DockItem {
    DockItem {
        label: "Mail".to_string(),
        tooltip: String::new(),
        app: app.map(|id| AppRecord {
            id: id.to_string(),
            name: "Mail".to_string(),
            executable: None,
            search_keys: Vec::new(),
        }),
        active: windows.iter().any(|w| w.active),
        windows,
        pinned,
        launching: false,
        badge_count: None,
    }
}

#[test]
fn context_menu_of_a_pinned_item_with_windows() {
    let entries = context_menu_entries(&item(
        Some("mail.desktop"),
        vec![window("1", Some("Inbox"), false), window("2", None, true)],
        true,
    ));
    assert_eq!(
        entries,
        vec![
            MenuEntry::Title("Mail".to_string()),
            MenuEntry::Subtitle("mail.desktop".to_string()),
            MenuEntry::Separator,
            MenuEntry::Section("Windows".to_string()),
            MenuEntry::FocusWindow {
                label: "Focus Inbox".to_string(),
                window_id: "1".to_string(),
                active: false,
            },
            MenuEntry::FocusWindow {
                label: "Focus Untitled Window (active)".to_string(),
                window_id: "2".to_string(),
                active: true,
            },
            MenuEntry::Separator,
            MenuEntry::OpenNewWindow,
            MenuEntry::TogglePin { label: "Unpin from Dock".to_string() },
            MenuEntry::CloseFocused { window_id: "2".to_string() },
            MenuEntry::CloseAll {
                label: "Close All Windows".to_string(),
                window_ids: vec!["1".to_string(), "2".to_string()],
            },
        ]
    );
}

#[test]
fn context_menu_without_app_or_focus() {
    let entries = context_menu_entries(&item(None, vec![window("1", None, false)], false));
    assert_eq!(
        entries,
        vec![
            MenuEntry::Title("Mail".to_string()),
            MenuEntry::Separator,
            MenuEntry::Section("Windows".to_string()),
            MenuEntry::FocusWindow {
                label: "Focus Window".to_string(),
                window_id: "1".to_string(),
                active: false,
            },
            MenuEntry::CloseAll {
                label: "Close Window".to_string(),
                window_ids: vec!["1".to_string()],
            },
        ]
    );
    let launcher = context_menu_entries(&item(Some("mail.desktop"), Vec::new(), false));
    assert_eq!(
        launcher,
        vec![
            MenuEntry::Title("Mail".to_string()),
            MenuEntry::Subtitle("mail.desktop".to_string()),
            MenuEntry::Separator,
            MenuEntry::OpenNewWindow,
            MenuEntry::TogglePin { label: "Pin to Dock".to_string() },
        ]
    );
}

#[test]
fn context_menu_lists_at_most_eight_windows() {
    let windows = (0..10).map(|i| window(&i.to_string(), None, false)).collect::<Vec<_>>();
    let entries = context_menu_entries(&item(None, windows, false));
    let focus = entries
        .iter()
        .filter(|e| matches!(e, MenuEntry::FocusWindow { .. }))
        .count();
    assert_eq!(focus, 8);
    match entries.last() {
        Some(MenuEntry::CloseAll { window_ids, .. }) => assert_eq!(window_ids.len(), 10),
        other => panic!("unexpected last entry {other:?}"),
    }
}

#[test]
fn pending_changes_accumulate_until_taken() {
    let mut pending = PendingChanges::new();
    pending.mark_event(&vec![Some("pins.json".to_string())]);
    pending.mark_event(&vec![Some("other".to_string()), Some("style.css".to_string())]);
    assert_eq!(pending.take(), ConfigChangeSet { pins: true, settings: false, style: true });
    assert!(pending.take().is_empty());
    pending.mark_event(&Vec::new());
    assert_eq!(pending.take(), ConfigChangeSet { pins: true, settings: true, style: true });
}
