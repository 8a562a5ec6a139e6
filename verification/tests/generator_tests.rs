use icon_packer::icon_theme::IconThemeDefinition;
use icon_packer::ini::IniDoc;
use icon_packer::project::IconProject;
use icon_packer::theme_generator::ThemePackGenerator;

fn base_theme() -> IconThemeDefinition {
    let m = [
        "[Icon Theme]",
        "Name=Base",
        "Directories=48x48/apps, 64x64/apps",
        "[48x48/apps]",
        "Type=Threshold",
        "Size=48",
        "Threshold=2",
        "Context=Applications",
        "[64x64/apps]",
        "Type=Fixed",
        "Size=64",
        "Context=Applications",
    ]
    .join("\n");
    IconThemeDefinition::load_from_directory("/themes/base", "base", Some(&m)).unwrap()
}

#[test]
fn generation_places_base_and_size_overrides() {
    let mut g = ThemePackGenerator::new("Out".to_string(), "/out".to_string());
    g.add_replacement("foo", "/src/base.png");
    g.add_size_replacement("foo", 64, "/src/big.png");
    let themes = vec![base_theme()];
    let plan = g.plan(&themes);
    assert_eq!(plan.actions.len(), 2);
    // the base override lands in the directory serving the default size
    assert_eq!(plan.actions[0].dest, "48x48/apps/foo.png");
    assert_eq!(plan.actions[0].source, "/src/base.png");
    assert!(!plan.actions[0].link);
    // the size override lands in the directory serving its size
    assert_eq!(plan.actions[1].dest, "64x64/apps/foo.png");
    assert_eq!(plan.actions[1].source, "/src/big.png");
    assert_eq!(plan.directories.len(), 2);
    assert_eq!(plan.directories[0].key, "48x48/apps");
    assert_eq!(plan.directories[1].key, "64x64/apps");
}

#[test]
fn generation_is_repeatable() {
    let mut g = ThemePackGenerator::new("Out".to_string(), "/out".to_string());
    g.add_replacement("foo", "/src/base.png");
    g.add_size_replacement("foo", 64, "/src/big.png");
    let themes = vec![base_theme()];
    let p1 = g.plan(&themes);
    let p2 = g.plan(&themes);
    assert_eq!(p1.actions.len(), p2.actions.len());
    for (a, b) in p1.actions.iter().zip(p2.actions.iter()) {
        assert_eq!(a.dest, b.dest);
        assert_eq!(a.source, b.source);
        assert_eq!(a.link, b.link);
    }
    assert_eq!(p1.manifest.render(), p2.manifest.render());
}

#[test]
fn destination_keeps_the_source_extension() {
    let mut g = ThemePackGenerator::new("Out".to_string(), "/out".to_string());
    g.add_replacement("foo", "/src/pic.svg");
    g.add_replacement("bare", "/src/noext");
    let themes = vec![base_theme()];
    let plan = g.plan(&themes);
    assert_eq!(plan.actions.len(), 2);
    assert_eq!(plan.actions[0].dest, "48x48/apps/foo.svg");
    assert_eq!(plan.actions[1].dest, "48x48/apps/bare");
}

#[test]
fn an_override_no_rule_serves_is_skipped() {
    let mut g = ThemePackGenerator::new("Out".to_string(), "/out".to_string());
    g.add_size_replacement("foo", 1000, "/src/huge.png");
    let themes = vec![base_theme()];
    let plan = g.plan(&themes);
    assert!(plan.actions.is_empty());
    assert!(plan.directories.is_empty());
}

#[test]
fn link_flags_carry_into_the_plan() {
    let mut g = ThemePackGenerator::new("Out".to_string(), "/out".to_string());
    g.add_replacement("foo", "/src/a.png");
    g.set_replacement_link("foo", true);
    let themes = vec![base_theme()];
    let plan = g.plan(&themes);
    assert!(plan.actions[0].link);
}

#[test]
fn toggling_generator_link_without_override_changes_nothing() {
    let mut g = ThemePackGenerator::new("Out".to_string(), "/out".to_string());
    g.set_replacement_link("ghost", true);
    g.set_size_replacement_link("ghost", 64, true);
    assert!(g.links.is_empty());
    assert!(g.size_links.is_empty());
    let themes = vec![base_theme()];
    let plan = g.plan(&themes);
    assert!(plan.actions.is_empty());
}

#[test]
fn manifest_reflects_name_comment_inherits_and_populated_dirs() {
    let mut g = ThemePackGenerator::new("Out".to_string(), "/out".to_string());
    g.set_theme_comment("made for a test".to_string());
    g.set_fallback_themes(vec!["hicolor".to_string(), "breeze".to_string()]);
    g.add_replacement("foo", "/src/a.png");
    let themes = vec![base_theme()];
    let plan = g.plan(&themes);
    let text = plan.manifest.render();
    // the rendered manifest parses back into the same document
    let doc = IniDoc::parse(&text).unwrap();
    assert_eq!(doc.get("Icon Theme", "Name"), Some("Out".to_string()));
    assert_eq!(
        doc.get("Icon Theme", "Comment"),
        Some("made for a test".to_string())
    );
    assert_eq!(
        doc.get("Icon Theme", "Inherits"),
        Some("hicolor,breeze".to_string())
    );
    assert_eq!(
        doc.get("Icon Theme", "Directories"),
        Some("48x48/apps".to_string())
    );
    assert!(doc.has_section("48x48/apps"));
    assert_eq!(doc.get("48x48/apps", "Type"), Some("Threshold".to_string()));
    assert_eq!(doc.get("48x48/apps", "Size"), Some("48".to_string()));
    assert_eq!(doc.get("48x48/apps", "Threshold"), Some("2".to_string()));
    assert_eq!(
        doc.get("48x48/apps", "Context"),
        Some("Applications".to_string())
    );
    assert!(!doc.has_section("64x64/apps"));
}

#[test]
fn fallback_rules_are_used_when_the_target_has_none() {
    let empty = IconThemeDefinition::load_from_directory(
        "/themes/empty",
        "empty",
        Some(&"[Icon Theme]\nName=Empty\n".to_string()),
    )
    .unwrap();
    let mut g = ThemePackGenerator::new("Out".to_string(), "/out".to_string());
    g.add_replacement("foo", "/src/a.png");
    let themes = vec![empty, base_theme()];
    let plan = g.plan(&themes);
    assert_eq!(plan.actions.len(), 1);
    assert_eq!(plan.actions[0].dest, "48x48/apps/foo.png");
}

#[test]
fn category_steers_placement_between_matching_rules() {
    let m = [
        "[Icon Theme]",
        "Name=Two",
        "Directories=48x48/apps, 48x48/actions",
        "[48x48/apps]",
        "Type=Fixed",
        "Size=48",
        "Context=Applications",
        "[48x48/actions]",
        "Type=Fixed",
        "Size=48",
        "Context=Actions",
    ]
    .join("\n");
    let theme = IconThemeDefinition::load_from_directory("/t/two", "two", Some(&m)).unwrap();
    let mut g = ThemePackGenerator::new("Out".to_string(), "/out".to_string());
    g.add_replacement("cut", "/src/cut.png");
    g.set_icon_category("cut", "Actions");
    g.add_replacement("app", "/src/app.png");
    let plan = g.plan(&vec![theme]);
    assert_eq!(plan.actions.len(), 2);
    assert_eq!(plan.actions[0].dest, "48x48/actions/cut.png");
    // the default category is Applications
    assert_eq!(plan.actions[1].dest, "48x48/apps/app.png");
}

#[test]
fn generator_loads_everything_from_a_project() {
    let mut p = IconProject::new("proj".to_string());
    p.set_theme_name("Shiny".to_string());
    p.set_theme_comment("c".to_string());
    p.set_fallback_themes("hicolor");
    p.add_replacement("edit", "/src/e.png");
    p.set_replacement_link("edit", true);
    p.set_icon_category("edit", "Actions");
    p.add_size_replacement("edit", 64, "/src/e64.png");
    p.set_size_replacement_link("edit", 64, true);
    let g = ThemePackGenerator::from_project(&p, "/out".to_string());
    assert_eq!(g.theme_name, "Shiny");
    assert_eq!(g.output_path, "/out");
    assert_eq!(g.theme_comment, "c");
    assert_eq!(g.fallback_themes, vec!["hicolor".to_string()]);
    assert_eq!(g.replacements, vec![("edit".to_string(), "/src/e.png".to_string())]);
    assert_eq!(
        g.size_replacements,
        vec![("edit".to_string(), 64, "/src/e64.png".to_string())]
    );
    assert_eq!(g.links, vec![("edit".to_string(), true)]);
    assert_eq!(g.size_links, vec![("edit".to_string(), 64, true)]);
    assert_eq!(g.categories, vec![("edit".to_string(), "Actions".to_string())]);
}
