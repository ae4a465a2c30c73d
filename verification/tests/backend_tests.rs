use rudo::backend::niri::{action_for, parse_window_id, NiriAction, NiriEvent, NiriWindow, NiriWindows};
use rudo::backend::wayland::{decode_states, ToplevelTracker};
use rudo::backend::{reconnect_backoff, EventMailbox};
use rudo::model::{BackendRequest, WindowState};

fn snapshot(id: &str) -> Vec<WindowState> {
    vec![WindowState {
        id: id.to_string(),
        app_id: None,
        title: None,
        active: false,
        badge_count: None,
    }]
}

#[test]
fn mailbox_keeps_only_the_latest_snapshot() {
    let mut mailbox = EventMailbox::default();
    mailbox.publish(snapshot("old"));
    mailbox.publish(snapshot("new"));

    assert_eq!(mailbox.take_latest().unwrap()[0].id, "new");
    assert!(mailbox.take_latest().is_none());
}

#[test]
fn empty_mailbox_has_nothing_to_take() {
    let mut mailbox = EventMailbox::new();
    assert!(mailbox.take_latest().is_none());
    mailbox.publish(Vec::new());
    assert_eq!(mailbox.take_latest().map(|s| s.len()), Some(0));
}

#[test]
fn backoff_doubles_up_to_thirty_seconds() {
    assert_eq!(reconnect_backoff(1, false), (1, 2));
    assert_eq!(reconnect_backoff(8, false), (8, 16));
    assert_eq!(reconnect_backoff(16, false), (16, 30));
    assert_eq!(reconnect_backoff(30, false), (30, 30));
    assert_eq!(reconnect_backoff(30, true), (1, 2));
}

fn niri_window(id: u64, app: &str, focused: bool) -> NiriWindow {
    NiriWindow {
        id,
        title: Some(format!("title {id}")),
        app_id: Some(app.to_string()),
        is_focused: focused,
    }
}

fn ids(windows: &NiriWindows) -> Vec<(String, bool)> {
    windows
        .snapshot()
        .into_iter()
        .map(|w| (w.id, w.active))
        .collect()
}

#[test]
fn niri_windows_follow_the_event_stream() {
    let mut windows = NiriWindows::new();
    assert!(windows.apply_event(NiriEvent::WindowsChanged {
        windows: vec![niri_window(5, "foot", true), niri_window(2, "firefox", false)],
    }));
    assert_eq!(
        ids(&windows),
        vec![("niri-2".to_string(), false), ("niri-5".to_string(), true)]
    );

    assert!(windows.apply_event(NiriEvent::WindowOpenedOrChanged {
        window: niri_window(3, "foot", true),
    }));
    assert_eq!(
        ids(&windows),
        vec![
            ("niri-2".to_string(), false),
            ("niri-3".to_string(), true),
            ("niri-5".to_string(), false)
        ]
    );

    assert!(windows.apply_event(NiriEvent::WindowFocusChanged { id: Some(5) }));
    assert_eq!(
        ids(&windows),
        vec![
            ("niri-2".to_string(), false),
            ("niri-3".to_string(), false),
            ("niri-5".to_string(), true)
        ]
    );

    assert!(windows.apply_event(NiriEvent::WindowClosed { id: 2 }));
    assert!(windows.apply_event(NiriEvent::WindowClosed { id: 42 }));
    assert_eq!(
        ids(&windows),
        vec![("niri-3".to_string(), false), ("niri-5".to_string(), true)]
    );

    assert!(!windows.apply_event(NiriEvent::Other));
    assert!(windows.apply_event(NiriEvent::WindowFocusChanged { id: None }));
    assert!(ids(&windows).iter().all(|(_, active)| !active));
}

#[test]
fn niri_snapshot_carries_titles_and_app_ids() {
    let mut windows = NiriWindows::new();
    windows.apply_event(NiriEvent::WindowsChanged {
        windows: vec![niri_window(7, "foot", false), niri_window(7, "kitty", true)],
    });
    let snapshot = windows.snapshot();
    assert_eq!(snapshot.len(), 1);
    assert_eq!(snapshot[0].id, "niri-7");
    assert_eq!(snapshot[0].app_id.as_deref(), Some("kitty"));
    assert_eq!(snapshot[0].title.as_deref(), Some("title 7"));
    assert!(snapshot[0].active);
    assert_eq!(snapshot[0].badge_count, None);
}

#[test]
fn niri_requests_decode_their_window_id() {
    assert_eq!(
        action_for(&BackendRequest::Activate("niri-5".to_string())),
        Some(NiriAction::FocusWindow { id: 5 })
    );
    assert_eq!(
        action_for(&BackendRequest::Close("niri-17".to_string())),
        Some(NiriAction::CloseWindow { id: Some(17) })
    );
    assert_eq!(action_for(&BackendRequest::Activate("wlr-3".to_string())), None);
    assert_eq!(parse_window_id("niri-"), None);
    assert_eq!(parse_window_id("niri-+7"), Some(7));
    assert_eq!(parse_window_id("niri-18446744073709551615"), Some(u64::MAX));
    assert_eq!(parse_window_id("niri-18446744073709551616"), None);
    assert_eq!(parse_window_id("niri-1x"), None);
}

#[test]
fn toplevels_get_fresh_dock_ids_and_track_their_state() {
    let mut tracker = ToplevelTracker::new();
    assert_eq!(tracker.toplevel_created(10), "wlr-1");
    assert_eq!(tracker.toplevel_created(11), "wlr-2");
    assert!(tracker.set_title(10, "Terminal".to_string()));
    assert!(tracker.set_app_id(10, "foot".to_string()));
    assert!(tracker.set_states(10, &vec![0, 2]));
    assert!(!tracker.set_title(99, "nobody".to_string()));
    assert!(tracker.done(10));
    assert!(!tracker.done(99));
    assert_eq!(tracker.closed(11).as_deref(), Some("wlr-2"));
    assert_eq!(tracker.closed(11), None);

    let snapshot = tracker.snapshot();
    assert_eq!(snapshot.len(), 1);
    assert_eq!(snapshot[0].id, "wlr-1");
    assert_eq!(snapshot[0].app_id.as_deref(), Some("foot"));
    assert_eq!(snapshot[0].title.as_deref(), Some("Terminal"));
    assert!(snapshot[0].active);

    assert!(tracker.set_states(10, &vec![1]));
    assert!(!tracker.snapshot()[0].active);

    tracker.clear();
    assert!(tracker.snapshot().is_empty());
    assert_eq!(tracker.toplevel_created(12), "wlr-3");
}

#[test]
fn state_arrays_decode_in_machine_order() {
    let mut bytes = Vec::new();
    bytes.extend_from_slice(&2u32.to_ne_bytes());
    bytes.extend_from_slice(&3u32.to_ne_bytes());
    bytes.push(9);
    assert_eq!(decode_states(&bytes), vec![2, 3]);
    assert!(decode_states(&[1, 2, 3]).is_empty());
}

#[test]
fn states_are_read_in_the_machine_byte_order() {
    let bytes: Vec<u8> = (0u8..27).collect();
    let expected: Vec<u32> = bytes
        .chunks_exact(4)
        .map(|chunk| u32::from_ne_bytes([chunk[0], chunk[1], chunk[2], chunk[3]]))
        .collect();
    assert_eq!(decode_states(&bytes), expected);
    let activated: Vec<u8> = [0u32, 2, 5, 2].iter().flat_map(|v| v.to_ne_bytes()).collect();
    assert_eq!(decode_states(&activated), vec![0, 2, 5, 2]);
}
