use bloom::apps::{
    desktop_value, entries, entry_from_desktop_contents, exec_program, inventory_is_fresh,
    is_desktop_file, split_exec, DesktopEntry, EntryIndex,
};

const ENTRY: &str = "[Desktop Entry]\nType=Application\nName=Example\nExec=/usr/bin/example --flag %U\nIcon=example\nStartupWMClass=Example;Example2\n";

fn entry(path: &str, name: &str) -> DesktopEntry {
    DesktopEntry {
        path: path.to_owned(),
        name: name.to_owned(),
        icon: None,
        executable: None,
        startup_wm_class: Vec::new(),
    }
}

#[test]
fn reads_keys_only_from_the_desktop_entry_group() {
    let contents = "[Desktop Action New]\nName=New Window\n\n[Desktop Entry]\nName=Editor\n";
    assert_eq!(desktop_value(contents, "Name").as_deref(), Some("Editor"));
}

#[test]
fn exec_program_skips_field_codes_and_environment_assignments() {
    assert_eq!(
        exec_program("env GTK_THEME=dark /usr/bin/example --flag %U").as_deref(),
        Some("/usr/bin/example")
    );
    assert_eq!(exec_program("%U"), None);
    assert_eq!(exec_program("FOO=bar /usr/bin/example").as_deref(), Some("/usr/bin/example"));
}

#[test]
fn quoted_arguments_stay_a_single_token() {
    assert_eq!(
        split_exec(r#""/opt/My App/app" --flag %U"#),
        vec!["/opt/My App/app", "--flag", "%U"]
    );
}

#[test]
fn parses_a_desktop_entry_into_a_launchable_record() {
    let entry = entry_from_desktop_contents("/tmp/bloom-test-entry.desktop", ENTRY)
        .expect("entry should parse");
    assert_eq!(entry.name, "Example");
    assert_eq!(entry.executable.as_deref(), Some("example"));
    assert_eq!(entry.icon.as_deref(), Some("example"));
    assert_eq!(entry.startup_wm_class, vec!["Example", "Example2"]);
    assert_eq!(entry.path, "/tmp/bloom-test-entry.desktop");
}

#[test]
fn hidden_entries_are_ignored() {
    assert!(entry_from_desktop_contents(
        "/tmp/bloom-test-hidden.desktop",
        "[Desktop Entry]\nType=Application\nName=Hidden\nExec=hidden\nNoDisplay=true\n",
    )
    .is_none());
}

#[test]
fn matches_a_window_to_an_entry_by_class_then_executable() {
    let index = EntryIndex::build(vec![DesktopEntry {
        path: "/usr/share/applications/example.desktop".into(),
        name: "Example".into(),
        icon: Some("example".into()),
        executable: Some("example".into()),
        startup_wm_class: vec!["Example".into()],
    }]);
    assert!(index.match_window("Example", "example", None).is_some());
    assert!(index.match_window("unknown", "unknown", Some("example")).is_some());
    assert!(index.match_window("unknown", "unknown", Some("other")).is_none());
}

#[test]
fn inventory_keeps_one_entry_per_name_with_the_last_found_winning() {
    let found = vec![
        entry("/usr/share/applications/zed.desktop", "Zed"),
        entry("/usr/share/applications/files.desktop", "Files"),
        entry("/home/user/.local/share/applications/files.desktop", "files"),
        entry("/usr/share/applications/atom.desktop", "Atom"),
    ];
    let inventory = entries(found);
    let paths: Vec<&str> = inventory.iter().map(|e| e.path.as_str()).collect();
    assert_eq!(
        paths,
        vec![
            "/usr/share/applications/atom.desktop",
            "/home/user/.local/share/applications/files.desktop",
            "/usr/share/applications/zed.desktop",
        ]
    );
}

#[test]
fn only_desktop_files_are_read() {
    assert!(is_desktop_file("/usr/share/applications/firefox.desktop"));
    assert!(!is_desktop_file("/usr/share/applications/mimeinfo.cache"));
    assert!(!is_desktop_file("/usr/share/applications/.desktop"));
}

#[test]
fn the_inventory_is_reread_after_ten_seconds() {
    assert!(inventory_is_fresh(1_000, 10_999));
    assert!(!inventory_is_fresh(1_000, 11_000));
    assert!(inventory_is_fresh(5_000, 1_000));
}

#[test]
fn applications_are_read_from_system_then_user_directories() {
    assert_eq!(
        bloom::apps::application_dirs(Some("/home/u")),
        vec![
            "/usr/local/share/applications",
            "/usr/share/applications",
            "/home/u/.local/share/applications",
        ]
    );
}

#[test]
fn a_quote_free_exec_line_splits_on_whitespace() {
    let exec = "/opt/app/bin\\run  --path C:\\dir\tlast ";
    let expected: Vec<String> = exec.split_whitespace().map(String::from).collect();
    assert_eq!(split_exec(exec), expected);
}
