use icon_packer::project::{push_recent, IconProject};

#[test]
fn new_project_has_default_fallback_chain() {
    let p = IconProject::new("My Pack".to_string());
    assert_eq!(p.name, "My Pack");
    assert_eq!(p.theme_name, "");
    assert_eq!(p.theme_comment, "");
    assert!(p.output_path.is_none());
    assert_eq!(p.fallback_themes, vec!["hicolor".to_string()]);
    assert!(p.icon_replacements.is_empty());
    assert!(p.size_specific_replacements.is_empty());
    assert!(p.icon_links.is_empty());
    assert!(p.size_specific_links.is_empty());
    assert!(p.icon_categories.is_empty());
}

#[test]
fn add_replacement_inserts_and_replaces() {
    let mut p = IconProject::new("p".to_string());
    p.add_replacement("edit", "/tmp/a.png");
    assert_eq!(p.replacement_for("edit"), Some(&"/tmp/a.png".to_string()));
    p.add_replacement("edit", "/tmp/b.png");
    assert_eq!(p.replacement_for("edit"), Some(&"/tmp/b.png".to_string()));
    assert_eq!(p.icon_replacements.len(), 1);
}

#[test]
fn empty_path_removes_replacement_link_and_category() {
    let mut p = IconProject::new("p".to_string());
    p.add_replacement("edit", "/tmp/a.png");
    p.set_replacement_link("edit", true);
    p.set_icon_category("edit", "Actions");
    p.add_replacement("edit", "");
    assert_eq!(p.replacement_for("edit"), None);
    assert!(p.icon_replacements.is_empty());
    assert!(p.icon_links.is_empty());
    assert!(p.icon_categories.is_empty());
}

#[test]
fn size_replacements_are_independent_of_base() {
    let mut p = IconProject::new("p".to_string());
    p.add_replacement("edit", "/tmp/base.png");
    p.add_size_replacement("edit", 64, "/tmp/big.png");
    assert_eq!(p.size_specific_replacements.len(), 1);
    assert_eq!(p.replacement_for("edit"), Some(&"/tmp/base.png".to_string()));
    p.add_size_replacement("edit", 64, "");
    assert!(p.size_specific_replacements.is_empty());
    assert_eq!(p.replacement_for("edit"), Some(&"/tmp/base.png".to_string()));
}

#[test]
fn toggling_link_without_override_is_a_no_op() {
    let mut p = IconProject::new("p".to_string());
    p.set_replacement_link("ghost", true);
    assert!(p.icon_links.is_empty());
    assert!(p.icon_replacements.is_empty());
    assert_eq!(p.replacement_for("ghost"), None);
    p.set_size_replacement_link("ghost", 32, true);
    assert!(p.size_specific_links.is_empty());
    assert!(p.size_specific_replacements.is_empty());
}

#[test]
fn link_flags_attach_to_existing_overrides() {
    let mut p = IconProject::new("p".to_string());
    p.add_replacement("edit", "/tmp/a.png");
    p.set_replacement_link("edit", true);
    assert_eq!(p.icon_links, vec![("edit".to_string(), true)]);
    p.add_size_replacement("edit", 64, "/tmp/b.png");
    p.set_size_replacement_link("edit", 64, true);
    assert_eq!(p.size_specific_links, vec![("edit".to_string(), 64, true)]);
}

#[test]
fn fallback_themes_come_from_a_comma_list() {
    let mut p = IconProject::new("p".to_string());
    p.set_fallback_themes(" breeze , hicolor ,, ");
    assert_eq!(
        p.fallback_themes,
        vec!["breeze".to_string(), "hicolor".to_string()]
    );
}

#[test]
fn display_theme_name_falls_back_to_project_name() {
    let mut p = IconProject::new("proj".to_string());
    assert_eq!(p.display_theme_name(), "proj");
    p.set_theme_name("Shiny".to_string());
    assert_eq!(p.display_theme_name(), "Shiny");
}

#[test]
fn recent_list_deduplicates_and_keeps_ten() {
    let recent = vec!["/a".to_string(), "/b".to_string(), "/c".to_string()];
    let r = push_recent(&recent, "/b");
    assert_eq!(
        r,
        vec!["/b".to_string(), "/a".to_string(), "/c".to_string()]
    );
    let mut many: Vec<String> = Vec::new();
    for i in 0..12 {
        many.push(format!("/p{}", i));
    }
    let r = push_recent(&many, "/new");
    assert_eq!(r.len(), 10);
    assert_eq!(r[0], "/new");
    assert_eq!(r[1], "/p0");
    assert_eq!(r[9], "/p8");
}

#[test]
fn replaced_icon_names_lists_non_empty_overrides() {
    let mut p = IconProject::new("p".to_string());
    p.add_replacement("a", "/tmp/a.png");
    p.add_replacement("b", "/tmp/b.png");
    assert_eq!(
        p.replaced_icon_names(),
        vec!["a".to_string(), "b".to_string()]
    );
    // a loaded project may carry an empty path; such an entry is not listed
    p.icon_replacements.push(("c".to_string(), String::new()));
    assert_eq!(
        p.replaced_icon_names(),
        vec!["a".to_string(), "b".to_string()]
    );
    // toggling a link for an unknown icon adds nothing the listing can see
    p.set_replacement_link("ghost", true);
    assert_eq!(
        p.replaced_icon_names(),
        vec!["a".to_string(), "b".to_string()]
    );
}

#[test]
fn display_theme_comment_has_a_stock_default() {
    let mut p = IconProject::new("p".to_string());
    assert_eq!(
        p.display_theme_comment(),
        "Icon theme generated by icon-packer"
    );
    p.set_theme_comment("mine".to_string());
    assert_eq!(p.display_theme_comment(), "mine");
}
