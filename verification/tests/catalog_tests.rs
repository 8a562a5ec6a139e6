use icon_packer::icon_catalog::{
    base_dir_candidates, select_roots, IconCatalog, IconFormat, ThemeCandidate,
};
use icon_packer::icon_model::{apply_filters, catalog_to_items, clear_replacement, set_replacement};

fn simple_manifest() -> String {
    [
        "[Icon Theme]",
        "Name=Simple",
        "Directories=48x48/apps",
        "[48x48/apps]",
        "Type=Threshold",
        "Size=48",
    ]
    .join("\n")
}

fn candidate(path: &str, dirname: &str, files: Vec<String>) -> ThemeCandidate {
    ThemeCandidate {
        path: path.to_string(),
        directory_name: dirname.to_string(),
        manifest: Some(simple_manifest()),
        files,
    }
}

#[test]
fn discover_indexes_icons_by_bare_name() {
    let cands = vec![candidate(
        "/root/simple",
        "simple",
        vec![
            "48x48/apps/edit.svg".to_string(),
            "48x48/apps/edit.png".to_string(),
        ],
    )];
    let cat = IconCatalog::discover(&cands, None);
    let entries = cat.iter();
    assert_eq!(entries.len(), 1);
    let meta = &entries[0];
    assert_eq!(meta.name, "edit");
    assert_eq!(meta.variants.len(), 2);
    assert_eq!(meta.variants[0].format, IconFormat::Svg);
    assert_eq!(meta.variants[0].theme_name, "Simple");
    assert_eq!(meta.variants[0].path, "/root/simple/48x48/apps/edit.svg");
    assert_eq!(meta.variants[1].format, IconFormat::Png);
    assert_eq!(meta.variants[1].path, "/root/simple/48x48/apps/edit.png");
    assert_eq!(meta.variants[1].directory.key, "48x48/apps");
}

#[test]
fn discover_ignores_unknown_extensions_and_empty_stems() {
    let cands = vec![candidate(
        "/root/simple",
        "simple",
        vec![
            "48x48/apps/readme.txt".to_string(),
            "48x48/apps/.png".to_string(),
            "48x48/apps/noext".to_string(),
            "48x48/apps/ok.XPM".to_string(),
            "other/dir/ignored.png".to_string(),
        ],
    )];
    let cat = IconCatalog::discover(&cands, None);
    let entries = cat.iter();
    assert_eq!(entries.len(), 1);
    assert_eq!(entries[0].name, "ok");
    assert_eq!(entries[0].variants.len(), 1);
    assert_eq!(entries[0].variants[0].format, IconFormat::Xpm);
}

#[test]
fn discover_merges_variants_across_themes_by_name() {
    let c1 = candidate(
        "/r/one",
        "one",
        vec!["48x48/apps/edit.png".to_string()],
    );
    let c2 = candidate(
        "/r/two",
        "two",
        vec!["48x48/apps/edit.svg".to_string()],
    );
    let cat = IconCatalog::discover(&vec![c1, c2], None);
    let entries = cat.iter();
    assert_eq!(entries.len(), 1);
    assert_eq!(entries[0].variants.len(), 2);
}

#[test]
fn discover_skips_duplicate_paths() {
    let c1 = candidate("/r/one", "one", vec!["48x48/apps/a.png".to_string()]);
    let c2 = candidate("/r/one", "one", vec!["48x48/apps/a.png".to_string()]);
    let cat = IconCatalog::discover(&vec![c1, c2], None);
    assert_eq!(cat.iter()[0].variants.len(), 1);
}

#[test]
fn discover_skips_folders_without_readable_manifests() {
    let no_manifest = ThemeCandidate {
        path: "/r/none".to_string(),
        directory_name: "none".to_string(),
        manifest: None,
        files: vec!["48x48/apps/a.png".to_string()],
    };
    let bad_manifest = ThemeCandidate {
        path: "/r/bad".to_string(),
        directory_name: "bad".to_string(),
        manifest: Some("not an ini".to_string()),
        files: vec!["48x48/apps/a.png".to_string()],
    };
    let cat = IconCatalog::discover(&vec![no_manifest, bad_manifest], None);
    assert_eq!(cat.iter().len(), 0);
}

#[test]
fn discover_filter_compares_case_insensitively() {
    let cands = vec![candidate(
        "/r/simple",
        "simple",
        vec!["48x48/apps/a.png".to_string()],
    )];
    let hint = "SIMPLE".to_string();
    let cat = IconCatalog::discover(&cands, Some(&hint));
    assert_eq!(cat.iter().len(), 1);
    let hint = "other".to_string();
    let cat = IconCatalog::discover(&cands, Some(&hint));
    assert_eq!(cat.iter().len(), 0);
}

#[test]
fn discover_twice_yields_identical_catalogs() {
    let cands = vec![candidate(
        "/r/simple",
        "simple",
        vec![
            "48x48/apps/a.png".to_string(),
            "48x48/apps/b.svg".to_string(),
        ],
    )];
    let c1 = IconCatalog::discover(&cands, None);
    let c2 = IconCatalog::discover(&cands, None);
    assert_eq!(c1.iter().len(), c2.iter().len());
    for (m1, m2) in c1.iter().iter().zip(c2.iter().iter()) {
        assert_eq!(m1.name, m2.name);
        assert_eq!(m1.variants.len(), m2.variants.len());
    }
}

#[test]
fn base_dir_candidates_follow_search_order() {
    let home = "/home/u".to_string();
    let xdh = "/home/u/.data".to_string();
    let xdd = "/a::/b".to_string();
    let dirs = base_dir_candidates(Some(&home), Some(&xdh), Some(&xdd));
    assert_eq!(
        dirs,
        vec![
            "/home/u/.local/share/icons".to_string(),
            "/home/u/.icons".to_string(),
            "/home/u/.data/icons".to_string(),
            "/a/icons".to_string(),
            "/b/icons".to_string(),
            "/usr/share/pixmaps".to_string(),
        ]
    );
}

#[test]
fn base_dir_candidates_fall_back_without_data_dirs() {
    let dirs = base_dir_candidates(None, None, None);
    assert_eq!(
        dirs,
        vec![
            "/usr/local/share/icons".to_string(),
            "/usr/share/icons".to_string(),
            "/usr/share/pixmaps".to_string(),
        ]
    );
}

#[test]
fn select_roots_keeps_existing_paths_once() {
    let cands = vec![
        "/a".to_string(),
        "/b".to_string(),
        "/a".to_string(),
        "/c".to_string(),
    ];
    let present = vec![true, false, true, true];
    let roots = select_roots(&cands, &present);
    assert_eq!(roots, vec!["/a".to_string(), "/c".to_string()]);
}

#[test]
fn items_carry_formats_and_first_category() {
    let cands = vec![candidate(
        "/r/simple",
        "simple",
        vec![
            "48x48/apps/edit.svg".to_string(),
            "48x48/apps/edit.png".to_string(),
            "48x48/apps/other.png".to_string(),
        ],
    )];
    let cat = IconCatalog::discover(&cands, None);
    let items = catalog_to_items(&cat);
    assert_eq!(items.len(), 2);
    let edit = items.iter().find(|i| i.name == "edit").unwrap();
    assert!(edit.has_svg);
    assert!(edit.has_png);
    // the manifest gives that directory no Context, so the default holds
    assert_eq!(edit.category, "Generic");
    assert_eq!(edit.replacement_path, None);
    let other = items.iter().find(|i| i.name == "other").unwrap();
    assert!(!other.has_svg);
    assert!(other.has_png);
}

#[test]
fn filters_match_search_case_insensitively_and_by_category() {
    let cands = vec![candidate(
        "/r/simple",
        "simple",
        vec![
            "48x48/apps/document-edit.svg".to_string(),
            "48x48/apps/media-play.png".to_string(),
        ],
    )];
    let cat = IconCatalog::discover(&cands, None);
    let items = catalog_to_items(&cat);
    let hits = apply_filters(&items, "EDIT", "");
    assert_eq!(hits.len(), 1);
    assert_eq!(hits[0].name, "document-edit");
    let hits = apply_filters(&items, "", "All Categories");
    assert_eq!(hits.len(), 2);
    let hits = apply_filters(&items, "", "Generic");
    assert_eq!(hits.len(), 2);
    let hits = apply_filters(&items, "", "Applications");
    assert_eq!(hits.len(), 0);
    let hits = apply_filters(&items, "zzz", "");
    assert_eq!(hits.len(), 0);
}

#[test]
fn replacements_are_set_and_cleared_on_the_named_row() {
    let cands = vec![candidate(
        "/r/simple",
        "simple",
        vec!["48x48/apps/edit.svg".to_string()],
    )];
    let cat = IconCatalog::discover(&cands, None);
    let mut items = catalog_to_items(&cat);
    set_replacement(&mut items, "edit", "/tmp/new.png");
    assert_eq!(items[0].replacement_path, Some("/tmp/new.png".to_string()));
    // a missing name changes nothing
    set_replacement(&mut items, "missing", "/tmp/x.png");
    assert_eq!(items.len(), 1);
    assert_eq!(items[0].replacement_path, Some("/tmp/new.png".to_string()));
    clear_replacement(&mut items, "edit");
    assert_eq!(items[0].replacement_path, None);
}

#[test]
fn discover_themes_lists_readable_themes_in_order() {
    let good = candidate("/r/simple", "simple", vec![]);
    let missing = ThemeCandidate {
        path: "/r/none".to_string(),
        directory_name: "none".to_string(),
        manifest: None,
        files: vec![],
    };
    let second = ThemeCandidate {
        path: "/r/other".to_string(),
        directory_name: "other".to_string(),
        manifest: Some("[Icon Theme]\nName=Other".to_string()),
        files: vec![],
    };
    let themes =
        icon_packer::icon_catalog::discover_themes(&vec![good, missing, second]);
    assert_eq!(themes.len(), 2);
    // the list comes out sorted ascending by display name
    assert_eq!(themes[0].name, "Other");
    assert_eq!(themes[0].directory_name, "other");
    assert_eq!(themes[1].name, "Simple");
    assert_eq!(themes[1].root_path, "/r/simple");
}

#[test]
fn catalog_entries_come_out_sorted_by_name() {
    let cands = vec![candidate(
        "/r/simple",
        "simple",
        vec![
            "48x48/apps/zebra.png".to_string(),
            "48x48/apps/mouse.png".to_string(),
            "48x48/apps/ant.png".to_string(),
        ],
    )];
    let cat = IconCatalog::discover(&cands, None);
    let names: Vec<&str> = cat.iter().iter().map(|m| m.name.as_str()).collect();
    assert_eq!(names, vec!["ant", "mouse", "zebra"]);
    let items = catalog_to_items(&cat);
    let row_names: Vec<&str> = items.iter().map(|i| i.name.as_str()).collect();
    assert_eq!(row_names, vec!["ant", "mouse", "zebra"]);
}
