use bloom::icons::{
    best_candidate, candidates_in_theme, data_uri_for_name, icon_in, icon_mime, image_extension,
    is_category, is_low_colour_theme, is_symbolic, resolve, size_score, sort_by_name, theme_dirs,
    IconDir, IconRoot, IconSnapshot, PixmapDir, ThemeBranch, ThemeEntry, ThemeTree,
};
use bloom::icons::{detect_preferred_theme, icon_roots, pixmap_dirs};
use bloom::textmap::TextMap;

fn dir(name: &str, path: &str, svg: bool, png: bool) -> IconDir {
    IconDir { name: name.to_owned(), path: path.to_owned(), has_svg: svg, has_png: png }
}

fn theme_entry(name: &str, path: &str, categories: bool) -> ThemeEntry {
    ThemeEntry {
        name: name.to_owned(),
        path: path.to_owned(),
        is_dir: true,
        layout: if categories {
            vec![("48x48".to_owned(), vec!["apps".to_owned()])]
        } else {
            vec![("cursors".to_owned(), Vec::new())]
        },
    }
}

#[test]
fn size_directories_are_ranked_by_actual_pixel_size() {
    assert_eq!(size_score("48x48"), 48);
    assert_eq!(size_score("256x256"), 256);
    assert_eq!(size_score("256@2x"), 512);
    assert_eq!(size_score("16@2"), 32);
    assert_eq!(size_score("96"), 96);
    assert_eq!(size_score("scalable"), 1);
}

#[test]
fn both_theme_layouts_are_recognised() {
    // Layout A: <theme>/<size>/<category>/<name>
    let a = ThemeTree {
        root: dir("theme-a", "/t/theme-a", false, false),
        branches: vec![ThemeBranch {
            dir: dir("48x48", "/t/theme-a/48x48", false, false),
            children: vec![dir("apps", "/t/theme-a/48x48/apps", false, true)],
        }],
    };
    let from_a = candidates_in_theme(&a, "sample");
    assert_eq!(from_a.len(), 1);
    assert_eq!(from_a[0].0, 48);
    assert_eq!(from_a[0].1, "/t/theme-a/48x48/apps/sample.png");

    // Layout B: <theme>/<category>/<size>/<name>
    let b = ThemeTree {
        root: dir("theme-b", "/t/theme-b", false, false),
        branches: vec![ThemeBranch {
            dir: dir("apps", "/t/theme-b/apps", false, false),
            children: vec![dir("256@2x", "/t/theme-b/apps/256@2x", false, true)],
        }],
    };
    let from_b = candidates_in_theme(&b, "sample");
    assert_eq!(from_b.len(), 1);
    assert_eq!(from_b[0].0, 512);
}

#[test]
fn symbolic_directories_are_never_used() {
    let t = ThemeTree {
        root: dir("theme", "/t/theme", false, false),
        branches: vec![ThemeBranch {
            dir: dir("symbolic", "/t/theme/symbolic", false, false),
            children: vec![dir("apps", "/t/theme/symbolic/apps", true, false)],
        }],
    };
    assert!(candidates_in_theme(&t, "sample").is_empty());
    assert!(is_symbolic("16x16-symbolic"));
}

#[test]
fn scalable_art_wins_and_the_last_of_equals_is_kept() {
    let t = ThemeTree {
        root: dir("theme", "/t/theme", false, false),
        branches: vec![
            ThemeBranch {
                dir: dir("apps", "/t/theme/apps", false, false),
                children: vec![
                    dir("48", "/t/theme/apps/48", false, true),
                    dir("scalable", "/t/theme/apps/scalable", true, true),
                    dir("64", "/t/theme/apps/64", false, true),
                ],
            },
        ],
    };
    assert_eq!(best_candidate(&t, "x").as_deref(), Some("/t/theme/apps/scalable/x.svg"));
    let equal = ThemeTree {
        root: dir("theme", "/t/theme", false, false),
        branches: vec![ThemeBranch {
            dir: dir("apps", "/t/theme/apps", false, false),
            children: vec![dir("a", "/t/theme/apps/a", false, true), dir("b", "/t/theme/apps/b", false, true)],
        }],
    };
    assert_eq!(best_candidate(&equal, "x").as_deref(), Some("/t/theme/apps/b/x.png"));
}

#[test]
fn missing_icons_resolve_to_nothing_instead_of_panicking() {
    let mut cache = TextMap::new();
    let nothing = IconSnapshot { direct_is_file: false, themes: Vec::new(), pixmaps: Vec::new() };
    let uri = data_uri_for_name(&mut cache, "bloom-definitely-not-an-installed-icon", || {
        resolve("bloom-definitely-not-an-installed-icon", &nothing)
    });
    assert!(uri.is_none());
    // The miss is remembered.
    assert_eq!(cache.get("bloom-definitely-not-an-installed-icon"), Some(&None));
}

#[test]
fn only_renderable_extensions_become_data_uris() {
    assert_eq!(icon_mime("/tmp/bloom-test-icon.svg").as_deref(), Some("image/svg+xml"));
    assert_eq!(icon_mime("/tmp/bloom-test-icon.PNG").as_deref(), Some("image/png"));
    assert_eq!(icon_mime("/tmp/bloom-test-icon.xpm"), None);
    assert_eq!(image_extension("/a/b.SVG").as_deref(), Some("svg"));
}

#[test]
fn explicit_paths_then_themes_then_pixmaps() {
    let snapshot = IconSnapshot {
        direct_is_file: false,
        themes: vec![ThemeTree {
            root: dir("Mint-Y", "/usr/share/icons/Mint-Y", false, false),
            branches: vec![ThemeBranch {
                dir: dir("apps", "/usr/share/icons/Mint-Y/apps", false, false),
                children: vec![dir("48", "/usr/share/icons/Mint-Y/apps/48", false, true)],
            }],
        }],
        pixmaps: vec![PixmapDir { dir: dir("pixmaps", "/usr/share/pixmaps", true, false), direct_is_file: false }],
    };
    assert_eq!(resolve(" firefox ", &snapshot).as_deref(), Some("/usr/share/icons/Mint-Y/apps/48/firefox.png"));
    let pixmaps_only = IconSnapshot { direct_is_file: false, themes: Vec::new(), pixmaps: snapshot.pixmaps };
    assert_eq!(resolve("firefox", &pixmaps_only).as_deref(), Some("/usr/share/pixmaps/firefox.svg"));
    let direct = IconSnapshot { direct_is_file: true, themes: Vec::new(), pixmaps: Vec::new() };
    assert_eq!(resolve("/opt/app/icon.png", &direct).as_deref(), Some("/opt/app/icon.png"));
    assert_eq!(resolve("/opt/app/icon.xpm", &direct), None);
    assert_eq!(resolve("   ", &direct), None);
}

#[test]
fn themes_are_tried_in_a_stable_order() {
    let roots = vec![
        IconRoot {
            entries: vec![
                theme_entry("Papirus", "/home/u/.icons/Papirus", true),
                theme_entry("HighContrast", "/home/u/.icons/HighContrast", true),
            ],
            fallback: None,
        },
        IconRoot {
            entries: vec![
                theme_entry("Mint-Y", "/usr/share/icons/Mint-Y", true),
                theme_entry("DMZ-White", "/usr/share/icons/DMZ-White", false),
                theme_entry("Adwaita", "/usr/share/icons/Adwaita", true),
                theme_entry("hicolor", "/usr/share/icons/hicolor", true),
            ],
            fallback: Some("/usr/share/icons/hicolor".to_owned()),
        },
    ];
    assert_eq!(
        theme_dirs(&roots, Some("Mint-Y")),
        vec![
            "/usr/share/icons/Mint-Y",
            "/usr/share/icons/Adwaita",
            "/home/u/.icons/Papirus",
            "/home/u/.icons/HighContrast",
            "/usr/share/icons/hicolor",
        ]
    );
    assert!(is_low_colour_theme("HighContrast"));
    assert!(!is_low_colour_theme("Mint-Y"));
    assert!(is_category("apps"));
    assert!(!is_category("48x48"));
}

#[test]
fn sorting_by_name_is_stable() {
    let sorted = sort_by_name(&vec![
        ("b".to_owned(), "1".to_owned()),
        ("a".to_owned(), "2".to_owned()),
        ("b".to_owned(), "3".to_owned()),
    ]);
    let dirs: Vec<&str> = sorted.iter().map(|t| t.1.as_str()).collect();
    assert_eq!(dirs, vec!["2", "1", "3"]);
    assert!(icon_in(&dir("d", "/d", false, false), "x", "").is_none());
}

#[test]
fn the_configured_theme_comes_from_xsettings_then_gtk_settings() {
    let ini = vec![
        vec!["[Settings]".to_owned(), "gtk-icon-theme-name=\"Papirus\"".to_owned()],
        vec!["gtk-icon-theme-name=Other".to_owned()],
    ];
    assert_eq!(detect_preferred_theme(Some(" Mint-Y "), &ini).as_deref(), Some("Mint-Y"));
    assert_eq!(detect_preferred_theme(Some("  "), &ini).as_deref(), Some("Papirus"));
    assert_eq!(detect_preferred_theme(None, &vec![vec!["gtk-icon-theme-name=".to_owned()]]), None);
    assert_eq!(
        icon_roots(Some("/home/u")),
        vec!["/home/u/.local/share/icons", "/home/u/.icons", "/usr/local/share/icons", "/usr/share/icons"]
    );
    assert_eq!(pixmap_dirs(None), vec!["/usr/local/share/pixmaps", "/usr/share/pixmaps"]);
}
