use rudo::catalog::{normalize_key, AppCatalog, InstalledApp};

fn installed(id: &str, name: &str, exe: &str) -> InstalledApp {
    InstalledApp {
        id: Some(id.to_string()),
        display_name: name.to_string(),
        executable: Some(exe.to_string()),
        should_show: true,
    }
}

fn catalog() -> AppCatalog {
    AppCatalog::load(vec![
        installed("firefox.desktop", "Firefox", "/usr/bin/firefox"),
        installed("org.gnome.TextEditor.desktop", "Text Editor", "gnome-text-editor"),
        installed("org.gnome.Nautilus.desktop", "Files", "/usr/bin/nautilus"),
        InstalledApp {
            id: Some("hidden.desktop".to_string()),
            display_name: "Hidden".to_string(),
            executable: None,
            should_show: false,
        },
        InstalledApp {
            id: None,
            display_name: "Nameless".to_string(),
            executable: None,
            should_show: true,
        },
    ])
}

fn ids(apps: Vec<&rudo::catalog::AppRecord>) -> Vec<String> {
    apps.into_iter().map(|a| a.id.clone()).collect()
}

#[test]
fn keys_are_normalized() {
    assert_eq!(normalize_key("  Firefox.desktop "), "firefox");
    assert_eq!(normalize_key("Text Editor"), "text-editor");
    assert_eq!(normalize_key("my_app.desktop.desktop"), "my-app");
    assert_eq!(normalize_key("   "), "");
}

#[test]
fn executables_are_kept_by_file_name() {
    let catalog = catalog();
    let files = catalog.app("org.gnome.Nautilus.desktop").unwrap();
    assert_eq!(files.executable.as_deref(), Some("nautilus"));
    let editor = catalog.app("org.gnome.TextEditor.desktop").unwrap();
    assert_eq!(editor.executable.as_deref(), Some("gnome-text-editor"));
}

#[test]
fn ids_resolve_through_aliases() {
    let catalog = catalog();
    assert_eq!(catalog.resolve_id("firefox.desktop").as_deref(), Some("firefox.desktop"));
    assert_eq!(catalog.resolve_id("firefox").as_deref(), Some("firefox.desktop"));
    assert_eq!(catalog.resolve_id("Firefox").as_deref(), Some("firefox.desktop"));
    assert_eq!(
        catalog.resolve_id("org.gnome.Nautilus").as_deref(),
        Some("org.gnome.Nautilus.desktop")
    );
    assert_eq!(catalog.resolve_id("nautilus").as_deref(), Some("org.gnome.Nautilus.desktop"));
    assert_eq!(
        catalog.resolve_id("gnome-text-editor").as_deref(),
        Some("org.gnome.TextEditor.desktop")
    );
    assert_eq!(catalog.resolve_id("text editor").as_deref(), Some("org.gnome.TextEditor.desktop"));
    assert_eq!(catalog.resolve_id("hidden.desktop"), None);
    assert_eq!(catalog.resolve_id("unknown"), None);
    assert_eq!(catalog.app("firefox").map(|a| a.name.as_str()), Some("Firefox"));
    assert!(catalog.app("unknown").is_none());
}

#[test]
fn empty_query_lists_apps_by_name() {
    let catalog = catalog();
    assert_eq!(
        ids(catalog.search("", 40, &Vec::new())),
        [
            "org.gnome.Nautilus.desktop",
            "firefox.desktop",
            "org.gnome.TextEditor.desktop"
        ]
    );
    assert_eq!(
        ids(catalog.search("", 40, &vec!["firefox.desktop".to_string()])),
        ["org.gnome.Nautilus.desktop", "org.gnome.TextEditor.desktop"]
    );
    assert_eq!(ids(catalog.search("", 1, &Vec::new())), ["org.gnome.Nautilus.desktop"]);
}

#[test]
fn search_ranks_exact_then_prefix_then_substring() {
    let catalog = catalog();
    assert_eq!(ids(catalog.search("firefox", 40, &Vec::new())), ["firefox.desktop"]);
    assert_eq!(
        ids(catalog.search("fi", 40, &Vec::new())),
        ["org.gnome.Nautilus.desktop", "firefox.desktop"]
    );
    assert_eq!(
        ids(catalog.search("e", 2, &Vec::new())),
        ["org.gnome.Nautilus.desktop", "firefox.desktop"]
    );
    assert_eq!(
        ids(catalog.search("Nautilus", 40, &Vec::new())),
        ["org.gnome.Nautilus.desktop"]
    );
    assert!(catalog.search("zzz", 40, &Vec::new()).is_empty());
}
