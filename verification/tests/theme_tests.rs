use icon_packer::icon_theme::{
    parse_directory_list, resolve_icon_path, DirectoryType, IconThemeDefinition, ThemeDirectory,
    ThemeError,
};
use icon_packer::ini::IniDoc;

fn manifest() -> String {
    [
        "[Icon Theme]",
        "Name=My Theme",
        "Comment=a test theme",
        "Inherits=hicolor, breeze",
        "Directories=48x48/apps, 64x64/apps, ghost/dir",
        "ScaledDirectories=scalable/apps",
        "",
        "# a comment",
        "[48x48/apps]",
        "Type=Threshold",
        "Size=48",
        "Threshold=2",
        "Context=Applications",
        "",
        "[64x64/apps]",
        "Type=Fixed",
        "Size=64",
        "",
        "[scalable/apps]",
        "Type=Scaled",
        "MinSize=16",
        "MaxSize=512",
        "Size=notanumber",
    ]
    .join("\n")
}

fn load(m: &str) -> IconThemeDefinition {
    let owned = m.to_string();
    IconThemeDefinition::load_from_directory("/themes/mytheme", "mytheme", Some(&owned)).unwrap()
}

#[test]
fn load_reads_names_inherits_and_directories() {
    let def = load(&manifest());
    assert_eq!(def.name, "My Theme");
    assert_eq!(def.directory_name, "mytheme");
    assert_eq!(def.root_path, "/themes/mytheme");
    assert_eq!(def.inherits, vec!["hicolor".to_string(), "breeze".to_string()]);
    // ghost/dir has no section and is dropped silently
    assert_eq!(def.directories.len(), 3);
    assert_eq!(def.directories[0].key, "48x48/apps");
    assert_eq!(def.directories[1].key, "64x64/apps");
    assert_eq!(def.directories[2].key, "scalable/apps");
}

#[test]
fn load_reads_directory_rules_with_lenient_defaults() {
    let def = load(&manifest());
    let d0 = &def.directories[0];
    assert_eq!(d0.dir_type, DirectoryType::Threshold);
    assert_eq!(d0.size, Some(48));
    assert_eq!(d0.threshold, Some(2));
    assert_eq!(d0.context, "Applications");
    let d1 = &def.directories[1];
    assert_eq!(d1.dir_type, DirectoryType::Fixed);
    assert_eq!(d1.size, Some(64));
    // Context never set: the lenient default
    assert_eq!(d1.context, "Generic");
    let d2 = &def.directories[2];
    assert_eq!(d2.dir_type, DirectoryType::Scaled);
    assert_eq!(d2.min_size, Some(16));
    assert_eq!(d2.max_size, Some(512));
    // a malformed number is treated as absent, not as a failure
    assert_eq!(d2.size, None);
}

#[test]
fn load_without_manifest_is_not_a_theme() {
    let r = IconThemeDefinition::load_from_directory("/themes/x", "x", None);
    assert!(matches!(r, Err(ThemeError::NotATheme)));
}

#[test]
fn load_with_garbage_manifest_is_unreadable() {
    let bad = "this is not an ini line".to_string();
    let r = IconThemeDefinition::load_from_directory("/themes/x", "x", Some(&bad));
    assert!(matches!(r, Err(ThemeError::Unreadable)));
}

#[test]
fn name_falls_back_to_directory_name() {
    let m = "[Icon Theme]\nDirectories=".to_string();
    let def = IconThemeDefinition::load_from_directory("/t/fallback", "fallback", Some(&m))
        .unwrap();
    assert_eq!(def.name, "fallback");
    assert!(def.directories.is_empty());
    assert!(def.inherits.is_empty());
}

#[test]
fn unknown_type_defaults_to_threshold() {
    assert_eq!(DirectoryType::from_str("Fixed"), DirectoryType::Fixed);
    assert_eq!(DirectoryType::from_str("Scaled"), DirectoryType::Scaled);
    assert_eq!(DirectoryType::from_str("Threshold"), DirectoryType::Threshold);
    assert_eq!(DirectoryType::from_str("Weird"), DirectoryType::Threshold);
    assert_eq!(DirectoryType::from_str(""), DirectoryType::Threshold);
}

#[test]
fn parsing_is_deterministic() {
    let m = manifest();
    let a = load(&m);
    let b = load(&m);
    assert_eq!(a.name, b.name);
    assert_eq!(a.directory_name, b.directory_name);
    assert_eq!(a.inherits, b.inherits);
    assert_eq!(a.root_path, b.root_path);
    assert_eq!(a.directories.len(), b.directories.len());
    for (x, y) in a.directories.iter().zip(b.directories.iter()) {
        assert_eq!(x.key, y.key);
        assert_eq!(x.context, y.context);
        assert_eq!(x.dir_type, y.dir_type);
        assert_eq!(x.size, y.size);
        assert_eq!(x.min_size, y.min_size);
        assert_eq!(x.max_size, y.max_size);
        assert_eq!(x.threshold, y.threshold);
    }
}

fn threshold_dir() -> ThemeDirectory {
    ThemeDirectory {
        key: "48x48/apps".to_string(),
        context: "Applications".to_string(),
        dir_type: DirectoryType::Threshold,
        size: Some(48),
        min_size: None,
        max_size: None,
        threshold: Some(2),
    }
}

#[test]
fn threshold_matching_accepts_sizes_within_distance() {
    let d = threshold_dir();
    for s in [46, 47, 48, 49, 50] {
        assert!(d.matches_size(s), "size {} should match", s);
    }
    assert!(!d.matches_size(45));
    assert!(!d.matches_size(51));
}

#[test]
fn threshold_default_distance_is_two() {
    let mut d = threshold_dir();
    d.threshold = None;
    assert!(d.matches_size(46));
    assert!(d.matches_size(50));
    assert!(!d.matches_size(45));
    assert!(!d.matches_size(51));
}

#[test]
fn scaled_matching_accepts_sizes_between_bounds() {
    let d = ThemeDirectory {
        key: "scalable/apps".to_string(),
        context: "Generic".to_string(),
        dir_type: DirectoryType::Scaled,
        size: None,
        min_size: Some(16),
        max_size: Some(32),
        threshold: None,
    };
    assert!(d.matches_size(16));
    assert!(d.matches_size(32));
    assert!(d.matches_size(20));
    assert!(!d.matches_size(15));
    assert!(!d.matches_size(33));
}

#[test]
fn fixed_matching_accepts_only_its_size() {
    let d = ThemeDirectory {
        key: "64x64/apps".to_string(),
        context: "Generic".to_string(),
        dir_type: DirectoryType::Fixed,
        size: Some(64),
        min_size: None,
        max_size: None,
        threshold: None,
    };
    assert!(d.matches_size(64));
    assert!(!d.matches_size(63));
    assert!(!d.matches_size(65));
}

#[test]
fn absent_fields_impose_no_constraint() {
    let d = ThemeDirectory {
        key: "k".to_string(),
        context: "Generic".to_string(),
        dir_type: DirectoryType::Fixed,
        size: None,
        min_size: None,
        max_size: None,
        threshold: None,
    };
    assert!(d.matches_size(1));
    assert!(d.matches_size(1000));
}

#[test]
fn resolve_prefers_svg_then_png_in_directory_order() {
    let def = load(&manifest());
    let files = vec![
        "48x48/apps/edit.png".to_string(),
        "48x48/apps/edit.svg".to_string(),
        "64x64/apps/edit.png".to_string(),
    ];
    // size 48: the threshold directory matches first, svg preferred
    let p = resolve_icon_path(&def, &files, "edit", 48);
    assert_eq!(p, Some("/themes/mytheme/48x48/apps/edit.svg".to_string()));
    // size 64: only the fixed directory matches
    let p = resolve_icon_path(&def, &files, "edit", 64);
    assert_eq!(p, Some("/themes/mytheme/64x64/apps/edit.png".to_string()));
    // no match at all yields nothing, not an error
    let p = resolve_icon_path(&def, &files, "missing", 48);
    assert_eq!(p, None);
    let p = resolve_icon_path(&def, &files, "edit", 1000);
    assert_eq!(p, None);
}

#[test]
fn parse_directory_list_handles_missing_values() {
    let some = "a, b".to_string();
    assert_eq!(
        parse_directory_list(Some(&some)),
        vec!["a".to_string(), "b".to_string()]
    );
    assert!(parse_directory_list(None).is_empty());
}

#[test]
fn ini_lookup_is_byte_for_byte() {
    let doc = IniDoc::parse("[Sec]\nKey=Value\n").unwrap();
    assert_eq!(doc.get("Sec", "Key"), Some("Value".to_string()));
    assert_eq!(doc.get("sec", "Key"), None);
    assert_eq!(doc.get("Sec", "key"), None);
    assert!(doc.has_section("Sec"));
    assert!(!doc.has_section("Other"));
}

#[test]
fn ini_rejects_a_line_that_is_neither_header_nor_entry() {
    assert!(IniDoc::parse("[Sec]\njust words\n").is_none());
    assert!(IniDoc::parse("[Unclosed\n").is_none());
    assert!(IniDoc::parse("[Sec]\n# comment\n; other comment\n\nk=v\n").is_some());
}
