//! The theme pack generator: accumulates icon overrides, link flags,
//! categories and a fallback chain in memory, and plans the directory
//! tree and manifest of the generated theme.
//!
//! Planning is pure: the caller hands in the parsed definitions of the
//! target theme and its fallbacks, and receives the file actions (copy
//! or link, with exact destinations), the directories to create, and the
//! manifest document to write. Placement rules: a size-specific override
//! goes to the directories chosen for its size, a base override to those
//! chosen for the default base size; among the rules matching a size,
//! one whose context equals the icon's category is preferred, then the
//! first in manifest order; an override no rule serves is skipped.

use vstd::prelude::*;
use vstd::string::*;

use crate::assoc::{
    akeys2_unique, akeys_unique, amap, amap2, assoc2_contains, assoc2_get, assoc2_set,
    assoc_contains, assoc_get, assoc_set, clone_bool_pairs, clone_bool_triples,
    clone_str_pairs, clone_str_triples, clone_strings,
};
use crate::icon_catalog::{spec_basename, spec_ext_of, split_file_name};
use crate::icon_theme::{
    spec_matches_size, IconThemeDefinition, ThemeDirV, ThemeDirectory,
};
use crate::ini::{
    doc_renderable, item_renderable, lemma_doc_renderable_concat,
    lemma_render_parse_round_trip, no_char, spec_parse_ini, spec_render_items, IniDoc,
    IniItem, IniItemV,
};
use crate::project::{spec_display_theme_name, IconProject};
use crate::text::{
    ext_join, is_digit, is_space, lemma_trim_stable, lemma_trim_stable_ends,
    lemma_u32_str_digits, path_join, spec_trim, spec_u32_str, str_eq, u32_to_string,
};

verus! {

/// The size a base (size-independent) override is placed at.
pub const DEFAULT_BASE_SIZE: u32 = 48;

/// One planned file: its destination directory rule, its relative
/// destination path, its source, and whether to link instead of copy.
pub struct FileAction {
    pub directory: ThemeDirectory,
    pub dest: String,
    pub source: String,
    pub link: bool,
}

/// Spec-level counterpart of `FileAction`.
pub struct ActionV {
    pub directory: ThemeDirV,
    pub dest: Seq<char>,
    pub source: Seq<char>,
    pub link: bool,
}

impl View for FileAction {
    type V = ActionV;

    open spec fn view(&self) -> ActionV {
        ActionV {
            directory: self.directory@,
            dest: self.dest@,
            source: self.source@,
            link: self.link,
        }
    }
}

impl DeepView for FileAction {
    type V = ActionV;

    open spec fn deep_view(&self) -> ActionV {
        self.view()
    }
}

/// Everything `generate` must do on disk: the directories to create,
/// the files to copy or link, and the manifest document to write.
pub struct GenerationPlan {
    pub actions: Vec<FileAction>,
    pub directories: Vec<ThemeDirectory>,
    pub manifest: IniDoc,
}

/// The accumulated state of one generation.
pub struct ThemePackGenerator {
    pub theme_name: String,
    pub output_path: String,
    pub theme_comment: String,
    pub fallback_themes: Vec<String>,
    pub replacements: Vec<(String, String)>,
    pub size_replacements: Vec<(String, u32, String)>,
    pub links: Vec<(String, bool)>,
    pub size_links: Vec<(String, u32, bool)>,
    pub categories: Vec<(String, String)>,
}

/// Spec-level counterpart of `ThemePackGenerator`; the override lists
/// keep their order, which fixes the order of the planned actions.
pub struct GenV {
    pub theme_name: Seq<char>,
    pub output_path: Seq<char>,
    pub theme_comment: Seq<char>,
    pub fallback_themes: Seq<Seq<char>>,
    pub replacements: Seq<(Seq<char>, Seq<char>)>,
    pub size_replacements: Seq<(Seq<char>, u32, Seq<char>)>,
    pub links: Seq<(Seq<char>, bool)>,
    pub size_links: Seq<(Seq<char>, u32, bool)>,
    pub categories: Seq<(Seq<char>, Seq<char>)>,
}

impl View for ThemePackGenerator {
    type V = GenV;

    open spec fn view(&self) -> GenV {
        GenV {
            theme_name: self.theme_name@,
            output_path: self.output_path@,
            theme_comment: self.theme_comment@,
            fallback_themes: self.fallback_themes.deep_view(),
            replacements: self.replacements.deep_view(),
            size_replacements: self.size_replacements.deep_view(),
            links: self.links.deep_view(),
            size_links: self.size_links.deep_view(),
            categories: self.categories.deep_view(),
        }
    }
}

impl ThemePackGenerator {
    /// Each association list holds every key once.
    pub open spec fn wf(&self) -> bool {
        &&& akeys_unique(self@.replacements)
        &&& akeys2_unique(self@.size_replacements)
        &&& akeys_unique(self@.links)
        &&& akeys2_unique(self@.size_links)
        &&& akeys_unique(self@.categories)
    }

    /// A fresh generator for one theme name and output root, with no
    /// overrides, no comment and no fallback chain yet.
    pub fn new(theme_name: String, output_path: String) -> (r: ThemePackGenerator)
        ensures
            r.wf(),
            r@.theme_name == theme_name@,
            r@.output_path == output_path@,
            r@.theme_comment == Seq::<char>::empty(),
            r@.fallback_themes == Seq::<Seq<char>>::empty(),
            r@.replacements == Seq::<(Seq<char>, Seq<char>)>::empty(),
            r@.size_replacements == Seq::<(Seq<char>, u32, Seq<char>)>::empty(),
            r@.links == Seq::<(Seq<char>, bool)>::empty(),
            r@.size_links == Seq::<(Seq<char>, u32, bool)>::empty(),
            r@.categories == Seq::<(Seq<char>, Seq<char>)>::empty(),
    {
        let r = ThemePackGenerator {
            theme_name,
            output_path,
            theme_comment: String::new(),
            fallback_themes: Vec::new(),
            replacements: Vec::new(),
            size_replacements: Vec::new(),
            links: Vec::new(),
            size_links: Vec::new(),
            categories: Vec::new(),
        };
        proof {
            assert(r@.fallback_themes =~= Seq::<Seq<char>>::empty());
            assert(r@.replacements =~= Seq::<(Seq<char>, Seq<char>)>::empty());
            assert(r@.size_replacements =~= Seq::<(Seq<char>, u32, Seq<char>)>::empty());
            assert(r@.links =~= Seq::<(Seq<char>, bool)>::empty());
            assert(r@.size_links =~= Seq::<(Seq<char>, u32, bool)>::empty());
            assert(r@.categories =~= Seq::<(Seq<char>, Seq<char>)>::empty());
        }
        r
    }

    /// Sets the comment written into the manifest.
    pub fn set_theme_comment(&mut self, comment: String)
        requires
            old(self).wf(),
        ensures
            final(self).wf(),
            final(self)@ == (GenV { theme_comment: comment@, ..old(self)@ }),
    {
        self.theme_comment = comment;
    }

    /// Sets the ordered fallback chain written into `Inherits`.
    pub fn set_fallback_themes(&mut self, themes: Vec<String>)
        requires
            old(self).wf(),
        ensures
            final(self).wf(),
            final(self)@ == (GenV { fallback_themes: themes.deep_view(), ..old(self)@ }),
    {
        self.fallback_themes = themes;
    }

    /// Adds or replaces the base override of an icon.
    pub fn add_replacement(&mut self, icon_name: &str, source: &str)
        requires
            old(self).wf(),
        ensures
            final(self).wf(),
            amap(final(self)@.replacements) == amap(old(self)@.replacements).insert(
                icon_name@,
                source@,
            ),
            final(self)@ == (GenV { replacements: final(self)@.replacements, ..old(self)@ }),
    {
        assoc_set(&mut self.replacements, icon_name, String::from_str(source));
    }

    /// Adds or replaces the override of an icon at one explicit size.
    pub fn add_size_replacement(&mut self, icon_name: &str, size: u32, source: &str)
        requires
            old(self).wf(),
        ensures
            final(self).wf(),
            amap2(final(self)@.size_replacements) == amap2(old(self)@.size_replacements).insert(
                (icon_name@, size),
                source@,
            ),
            final(self)@ == (GenV {
                size_replacements: final(self)@.size_replacements,
                ..old(self)@
            }),
    {
        assoc2_set(&mut self.size_replacements, icon_name, size, String::from_str(source));
    }

    /// Marks the base override of an icon as a link or a copy; with no
    /// base override for that icon this changes nothing at all.
    pub fn set_replacement_link(&mut self, icon_name: &str, is_link: bool)
        requires
            old(self).wf(),
        ensures
            final(self).wf(),
            amap(old(self)@.replacements).contains_key(icon_name@) ==> amap(
                final(self)@.links,
            ) == amap(old(self)@.links).insert(icon_name@, is_link) && final(self)@ == (GenV {
                links: final(self)@.links,
                ..old(self)@
            }),
            !amap(old(self)@.replacements).contains_key(icon_name@) ==> *final(self) == *old(self),
    {
        if assoc_contains(&self.replacements, icon_name) {
            assoc_set(&mut self.links, icon_name, is_link);
        }
    }

    /// Marks the override of an icon at one size as a link or a copy;
    /// with no such override this changes nothing at all.
    pub fn set_size_replacement_link(&mut self, icon_name: &str, size: u32, is_link: bool)
        requires
            old(self).wf(),
        ensures
            final(self).wf(),
            amap2(old(self)@.size_replacements).contains_key((icon_name@, size)) ==> amap2(
                final(self)@.size_links,
            ) == amap2(old(self)@.size_links).insert((icon_name@, size), is_link) && final(self)@
                == (GenV { size_links: final(self)@.size_links, ..old(self)@ }),
            !amap2(old(self)@.size_replacements).contains_key((icon_name@, size))
                ==> *final(self) == *old(self),
    {
        if assoc2_contains(&self.size_replacements, icon_name, size) {
            assoc2_set(&mut self.size_links, icon_name, size, is_link);
        }
    }

    /// Assigns the display category of an icon; `Applications` is the
    /// default where never set.
    pub fn set_icon_category(&mut self, icon_name: &str, category: &str)
        requires
            old(self).wf(),
        ensures
            final(self).wf(),
            amap(final(self)@.categories) == amap(old(self)@.categories).insert(
                icon_name@,
                category@,
            ),
            final(self)@ == (GenV { categories: final(self)@.categories, ..old(self)@ }),
    {
        assoc_set(&mut self.categories, icon_name, String::from_str(category));
    }

    /// A generator loaded from a project: the project's overrides, link
    /// flags, categories and fallback chain, under the project's display
    /// theme name.
    pub fn from_project(project: &IconProject, output_path: String) -> (r: ThemePackGenerator)
        requires
            project.wf(),
        ensures
            r.wf(),
            r@.theme_name == spec_display_theme_name(project@),
            r@.output_path == output_path@,
            r@.theme_comment == project@.theme_comment,
            r@.fallback_themes == project@.fallback_themes,
            amap(r@.replacements) == project@.icon_replacements,
            amap2(r@.size_replacements) == project@.size_specific_replacements,
            amap(r@.links) == project@.icon_links,
            amap2(r@.size_links) == project@.size_specific_links,
            amap(r@.categories) == project@.icon_categories,
    {
        ThemePackGenerator {
            theme_name: project.display_theme_name().clone(),
            output_path,
            theme_comment: project.theme_comment.clone(),
            fallback_themes: clone_strings(&project.fallback_themes),
            replacements: clone_str_pairs(&project.icon_replacements),
            size_replacements: clone_str_triples(&project.size_specific_replacements),
            links: clone_bool_pairs(&project.icon_links),
            size_links: clone_bool_triples(&project.size_specific_links),
            categories: clone_str_pairs(&project.icon_categories),
        }
    }
}

/// The directory rules generation follows: those of the first theme in
/// the list that has any.
pub open spec fn spec_rules_from(themes: Seq<crate::icon_theme::ThemeDefV>, i: int) -> Seq<
    ThemeDirV,
>
    decreases themes.len() - i,
    when 0 <= i <= themes.len()
{
    if i >= themes.len() {
        Seq::<ThemeDirV>::empty()
    } else if themes[i].directories.len() > 0 {
        themes[i].directories
    } else {
        spec_rules_from(themes, i + 1)
    }
}

/// The first rule from `i` on that serves the size, or the length.
pub open spec fn spec_first_match(dirs: Seq<ThemeDirV>, size: u32, i: int) -> int
    decreases dirs.len() - i,
    when 0 <= i <= dirs.len()
{
    if i >= dirs.len() {
        dirs.len() as int
    } else if spec_matches_size(dirs[i], size) {
        i
    } else {
        spec_first_match(dirs, size, i + 1)
    }
}

pub proof fn lemma_first_match(dirs: Seq<ThemeDirV>, size: u32, i: int)
    requires
        0 <= i <= dirs.len(),
    ensures
        i <= spec_first_match(dirs, size, i) <= dirs.len(),
        spec_first_match(dirs, size, i) < dirs.len() ==> spec_matches_size(
            dirs[spec_first_match(dirs, size, i)],
            size,
        ),
        forall|k: int|
            i <= k < spec_first_match(dirs, size, i) ==> !spec_matches_size(
                #[trigger] dirs[k],
                size,
            ),
    decreases dirs.len() - i,
{
    if i < dirs.len() && !spec_matches_size(dirs[i], size) {
        lemma_first_match(dirs, size, i + 1);
    }
}

/// The first rule from `i` on that serves the size with this context, or
/// the length.
pub open spec fn spec_first_ctx_match(
    dirs: Seq<ThemeDirV>,
    size: u32,
    cat: Seq<char>,
    i: int,
) -> int
    decreases dirs.len() - i,
    when 0 <= i <= dirs.len()
{
    if i >= dirs.len() {
        dirs.len() as int
    } else if spec_matches_size(dirs[i], size) && dirs[i].context == cat {
        i
    } else {
        spec_first_ctx_match(dirs, size, cat, i + 1)
    }
}

pub proof fn lemma_first_ctx_match(dirs: Seq<ThemeDirV>, size: u32, cat: Seq<char>, i: int)
    requires
        0 <= i <= dirs.len(),
    ensures
        i <= spec_first_ctx_match(dirs, size, cat, i) <= dirs.len(),
        spec_first_ctx_match(dirs, size, cat, i) < dirs.len() ==> spec_matches_size(
            dirs[spec_first_ctx_match(dirs, size, cat, i)],
            size,
        ) && dirs[spec_first_ctx_match(dirs, size, cat, i)].context == cat,
        forall|k: int|
            i <= k < spec_first_ctx_match(dirs, size, cat, i) ==> !(spec_matches_size(
                #[trigger] dirs[k],
                size,
            ) && dirs[k].context == cat),
    decreases dirs.len() - i,
{
    if i < dirs.len() && !(spec_matches_size(dirs[i], size) && dirs[i].context == cat) {
        lemma_first_ctx_match(dirs, size, cat, i + 1);
    }
}

/// The rule an override lands in: among those serving the size, the
/// first whose context equals the icon's category, else the first at
/// all; none when no rule serves the size.
pub open spec fn spec_choose_dir(dirs: Seq<ThemeDirV>, size: u32, cat: Seq<char>) -> Option<
    ThemeDirV,
> {
    let c = spec_first_ctx_match(dirs, size, cat, 0);
    if c < dirs.len() {
        Some(dirs[c])
    } else {
        let f = spec_first_match(dirs, size, 0);
        if f < dirs.len() {
            Some(dirs[f])
        } else {
            None
        }
    }
}

/// Picks the destination rule for one override.
fn choose_dir(rules: &Vec<ThemeDirectory>, size: u32, cat: &str) -> (r: Option<usize>)
    ensures
        match r {
            Some(i) => i < rules.len() && spec_choose_dir(rules.deep_view(), size, cat@) == Some(
                rules.deep_view()[i as int],
            ),
            None => spec_choose_dir(rules.deep_view(), size, cat@) is None,
        },
{
    let ghost dv = rules.deep_view();
    let n = rules.len();
    let mut i: usize = 0;
    while i < n
        invariant
            0 <= i <= n,
            n == rules.len(),
            dv == rules.deep_view(),
            forall|k: int|
                0 <= k < i ==> !(spec_matches_size(#[trigger] dv[k], size) && dv[k].context
                    == cat@),
        decreases n - i,
    {
        assert(rules[i as int]@ == dv[i as int]);
        if rules[i].matches_size(size) && str_eq(rules[i].context.as_str(), cat) {
            proof {
                lemma_first_ctx_match(dv, size, cat@, 0);
                assert(spec_first_ctx_match(dv, size, cat@, 0) == i);
            }
            return Some(i);
        }
        i = i + 1;
    }
    proof {
        lemma_first_ctx_match(dv, size, cat@, 0);
        assert(spec_first_ctx_match(dv, size, cat@, 0) == n);
    }
    let mut j: usize = 0;
    while j < n
        invariant
            0 <= j <= n,
            n == rules.len(),
            dv == rules.deep_view(),
            spec_first_ctx_match(dv, size, cat@, 0) == n,
            forall|k: int| 0 <= k < j ==> !spec_matches_size(#[trigger] dv[k], size),
        decreases n - j,
    {
        assert(rules[j as int]@ == dv[j as int]);
        if rules[j].matches_size(size) {
            proof {
                lemma_first_match(dv, size, 0);
                assert(spec_first_match(dv, size, 0) == j);
            }
            return Some(j);
        }
        j = j + 1;
    }
    proof {
        lemma_first_match(dv, size, 0);
        assert(spec_first_match(dv, size, 0) == n);
    }
    None
}

/// The category an icon carries, `Applications` where never set.
pub open spec fn spec_cat_of(g: GenV, icon: Seq<char>) -> Seq<char> {
    if amap(g.categories).contains_key(icon) {
        amap(g.categories)[icon]
    } else {
        "Applications"@
    }
}

/// The link flag of a base override, copy where never set.
pub open spec fn spec_link_of(g: GenV, icon: Seq<char>) -> bool {
    if amap(g.links).contains_key(icon) {
        amap(g.links)[icon]
    } else {
        false
    }
}

/// The link flag of a size-specific override, copy where never set.
pub open spec fn spec_size_link_of(g: GenV, icon: Seq<char>, size: u32) -> bool {
    if amap2(g.size_links).contains_key((icon, size)) {
        amap2(g.size_links)[(icon, size)]
    } else {
        false
    }
}

/// The destination file name of an override: the icon name carrying the
/// source file's extension, or bare when the source has none.
pub open spec fn spec_dest_name(icon: Seq<char>, source: Seq<char>) -> Seq<char> {
    match spec_ext_of(spec_basename(source)) {
        Some(e) => icon + seq!['.'] + e,
        None => icon,
    }
}

/// The action of one override, when some rule serves its size.
pub open spec fn spec_action_for(
    g: GenV,
    rules: Seq<ThemeDirV>,
    icon: Seq<char>,
    size: u32,
    source: Seq<char>,
    link: bool,
) -> Option<ActionV> {
    match spec_choose_dir(rules, size, spec_cat_of(g, icon)) {
        Some(d) => Some(
            ActionV {
                directory: d,
                dest: d.key + seq!['/'] + spec_dest_name(icon, source),
                source,
                link,
            },
        ),
        None => None,
    }
}

/// The actions of the base overrides from `i` on, in accumulation
/// order, each at the default base size.
pub open spec fn spec_base_actions(g: GenV, rules: Seq<ThemeDirV>, i: int) -> Seq<ActionV>
    decreases g.replacements.len() - i,
    when 0 <= i <= g.replacements.len()
{
    if i >= g.replacements.len() {
        Seq::<ActionV>::empty()
    } else {
        let (icon, src) = g.replacements[i];
        let rest = spec_base_actions(g, rules, i + 1);
        match spec_action_for(g, rules, icon, DEFAULT_BASE_SIZE, src, spec_link_of(g, icon)) {
            Some(a) => seq![a] + rest,
            None => rest,
        }
    }
}

/// The actions of the size-specific overrides from `i` on.
pub open spec fn spec_size_actions(g: GenV, rules: Seq<ThemeDirV>, i: int) -> Seq<ActionV>
    decreases g.size_replacements.len() - i,
    when 0 <= i <= g.size_replacements.len()
{
    if i >= g.size_replacements.len() {
        Seq::<ActionV>::empty()
    } else {
        let (icon, size, src) = g.size_replacements[i];
        let rest = spec_size_actions(g, rules, i + 1);
        match spec_action_for(g, rules, icon, size, src, spec_size_link_of(g, icon, size)) {
            Some(a) => seq![a] + rest,
            None => rest,
        }
    }
}

/// All planned actions: base overrides first, then size-specific ones.
pub open spec fn spec_actions(g: GenV, rules: Seq<ThemeDirV>) -> Seq<ActionV> {
    spec_base_actions(g, rules, 0) + spec_size_actions(g, rules, 0)
}

/// A rule with this key stands in the list.
pub open spec fn spec_has_key(acc: Seq<ThemeDirV>, key: Seq<char>) -> bool {
    exists|j: int| 0 <= j < acc.len() && (#[trigger] acc[j]).key == key
}

/// The populated directories: each action's rule, first use first, one
/// entry per key.
pub open spec fn spec_dirs_used(acts: Seq<ActionV>, acc: Seq<ThemeDirV>, i: int) -> Seq<ThemeDirV>
    decreases acts.len() - i,
    when 0 <= i <= acts.len()
{
    if i >= acts.len() {
        acc
    } else {
        let acc2 = if spec_has_key(acc, acts[i].directory.key) {
            acc
        } else {
            acc.push(acts[i].directory)
        };
        spec_dirs_used(acts, acc2, i + 1)
    }
}

/// The keys of the rules, in order.
pub open spec fn spec_keys_of(used: Seq<ThemeDirV>) -> Seq<Seq<char>> {
    Seq::new(used.len(), |i: int| used[i].key)
}

/// The pieces joined with commas, from `i` on.
pub open spec fn spec_join_comma(s: Seq<Seq<char>>, i: int) -> Seq<char>
    decreases s.len() - i,
    when 0 <= i <= s.len()
{
    if i >= s.len() {
        Seq::<char>::empty()
    } else if i == s.len() - 1 {
        s[i]
    } else {
        s[i] + seq![','] + spec_join_comma(s, i + 1)
    }
}

/// The manifest word of a directory type.
pub open spec fn spec_type_word(t: crate::icon_theme::DirectoryType) -> Seq<char> {
    match t {
        crate::icon_theme::DirectoryType::Fixed => "Fixed"@,
        crate::icon_theme::DirectoryType::Scaled => "Scaled"@,
        crate::icon_theme::DirectoryType::Threshold => "Threshold"@,
    }
}

/// The manifest section of one populated directory: its header, its
/// type and context, and each size bound it carries.
pub open spec fn spec_dir_items(d: ThemeDirV) -> Seq<IniItemV> {
    seq![
        IniItemV::Section(d.key),
        IniItemV::Entry("Type"@, spec_type_word(d.dir_type)),
        IniItemV::Entry("Context"@, d.context),
    ] + (match d.size {
        Some(n) => seq![IniItemV::Entry("Size"@, spec_u32_str(n as int))],
        None => Seq::<IniItemV>::empty(),
    }) + (match d.min_size {
        Some(n) => seq![IniItemV::Entry("MinSize"@, spec_u32_str(n as int))],
        None => Seq::<IniItemV>::empty(),
    }) + (match d.max_size {
        Some(n) => seq![IniItemV::Entry("MaxSize"@, spec_u32_str(n as int))],
        None => Seq::<IniItemV>::empty(),
    }) + (match d.threshold {
        Some(n) => seq![IniItemV::Entry("Threshold"@, spec_u32_str(n as int))],
        None => Seq::<IniItemV>::empty(),
    })
}

/// The sections of the populated directories from `i` on.
pub open spec fn spec_sections(used: Seq<ThemeDirV>, i: int) -> Seq<IniItemV>
    decreases used.len() - i,
    when 0 <= i <= used.len()
{
    if i >= used.len() {
        Seq::<IniItemV>::empty()
    } else {
        spec_dir_items(used[i]) + spec_sections(used, i + 1)
    }
}

/// The synthesized manifest: the `Icon Theme` section carrying the
/// name, comment, fallback chain and populated directory list, then one
/// section per populated directory reproducing its rule.
pub open spec fn spec_manifest_items(g: GenV, used: Seq<ThemeDirV>) -> Seq<IniItemV> {
    seq![
        IniItemV::Section("Icon Theme"@),
        IniItemV::Entry("Name"@, g.theme_name),
        IniItemV::Entry("Comment"@, g.theme_comment),
        IniItemV::Entry("Inherits"@, spec_join_comma(g.fallback_themes, 0)),
        IniItemV::Entry("Directories"@, spec_join_comma(spec_keys_of(used), 0)),
    ] + spec_sections(used, 0)
}

/// Joins strings with commas.
fn join_comma(v: &Vec<String>) -> (r: String)
    ensures
        r@ == spec_join_comma(v.deep_view(), 0),
{
    let ghost dv = v.deep_view();
    let mut out = String::new();
    let n = v.len();
    let mut i: usize = 0;
    while i < n
        invariant
            0 <= i <= n,
            n == v.len(),
            dv == v.deep_view(),
            out@ + spec_join_comma(dv, i as int) == spec_join_comma(dv, 0),
        decreases n - i,
    {
        assert(v[i as int]@ == dv[i as int]);
        out.append(v[i].as_str());
        if i + 1 < n {
            out.append(",");
            proof {
                reveal_strlit(",");
                assert(","@ =~= seq![',']);
            }
        }
        i = i + 1;
    }
    out
}

/// Copies a rule list, view for view.
fn clone_dirs(v: &Vec<ThemeDirectory>) -> (r: Vec<ThemeDirectory>)
    ensures
        r.deep_view() == v.deep_view(),
{
    let n = v.len();
    let mut out: Vec<ThemeDirectory> = Vec::new();
    let mut i: usize = 0;
    while i < n
        invariant
            0 <= i <= n,
            n == v.len(),
            out.deep_view() =~= v.deep_view().take(i as int),
        decreases n - i,
    {
        let ghost prev = out.deep_view();
        out.push(v[i].clone());
        proof {
            assert(out.deep_view() =~= prev.push(v.deep_view()[i as int]));
            assert(out.deep_view() =~= v.deep_view().take(i + 1));
        }
        i = i + 1;
    }
    proof {
        assert(v.deep_view().take(n as int) =~= v.deep_view());
    }
    out
}

/// Picks the rule set generation follows: the directories of the first
/// theme that has any.
fn pick_rules(themes: &Vec<IconThemeDefinition>) -> (r: Vec<ThemeDirectory>)
    ensures
        r.deep_view() == spec_rules_from(themes.deep_view(), 0),
{
    let ghost tv = themes.deep_view();
    let n = themes.len();
    let mut i: usize = 0;
    while i < n
        invariant
            0 <= i <= n,
            n == themes.len(),
            tv == themes.deep_view(),
            spec_rules_from(tv, 0) == spec_rules_from(tv, i as int),
        decreases n - i,
    {
        assert(themes[i as int]@ == tv[i as int]);
        if themes[i].directories.len() > 0 {
            return clone_dirs(&themes[i].directories);
        }
        i = i + 1;
    }
    let r: Vec<ThemeDirectory> = Vec::new();
    proof {
        assert(r.deep_view() =~= Seq::<ThemeDirV>::empty());
    }
    r
}

/// Whether a rule with this key was already collected.
fn dir_key_present(v: &Vec<ThemeDirectory>, key: &str) -> (r: bool)
    ensures
        r == spec_has_key(v.deep_view(), key@),
{
    let n = v.len();
    let mut i: usize = 0;
    while i < n
        invariant
            0 <= i <= n,
            n == v.len(),
            forall|k: int| 0 <= k < i ==> (#[trigger] v.deep_view()[k]).key != key@,
        decreases n - i,
    {
        assert(v.deep_view()[i as int] == v[i as int]@);
        if str_eq(v[i].key.as_str(), key) {
            return true;
        }
        i = i + 1;
    }
    false
}

impl ThemePackGenerator {
    /// Plans the whole generation against the directory rules of the
    /// target theme and its fallbacks, handed in target first: the file
    /// actions of every override a rule serves, the populated
    /// directories, and the manifest to write.
    pub fn plan(&self, themes: &Vec<IconThemeDefinition>) -> (r: GenerationPlan)
        requires
            self.wf(),
        ensures
            r.actions.deep_view() == spec_actions(self@, spec_rules_from(themes.deep_view(), 0)),
            r.directories.deep_view() == spec_dirs_used(
                spec_actions(self@, spec_rules_from(themes.deep_view(), 0)),
                Seq::<ThemeDirV>::empty(),
                0,
            ),
            r.manifest@ == spec_manifest_items(
                self@,
                spec_dirs_used(
                    spec_actions(self@, spec_rules_from(themes.deep_view(), 0)),
                    Seq::<ThemeDirV>::empty(),
                    0,
                ),
            ),
    {
        let ghost g = self@;
        let rules = pick_rules(themes);
        let ghost rv = rules.deep_view();
        let mut actions: Vec<FileAction> = Vec::new();
        proof {
            assert(actions.deep_view() =~= Seq::<ActionV>::empty());
        }
        let nb = self.replacements.len();
        let mut i: usize = 0;
        while i < nb
            invariant
                0 <= i <= nb,
                nb == self.replacements.len(),
                g == self@,
                self.wf(),
                rv == rules.deep_view(),
                actions.deep_view() + spec_base_actions(g, rv, i as int) == spec_base_actions(
                    g,
                    rv,
                    0,
                ),
            decreases nb - i,
        {
            let ghost prev = actions.deep_view();
            assert(self.replacements[i as int].deep_view() == g.replacements[i as int]);
            let icon: String = self.replacements[i].0.clone();
            let src: String = self.replacements[i].1.clone();
            let cat: String = match assoc_get(&self.categories, icon.as_str()) {
                Some(c) => c.clone(),
                None => String::from_str("Applications"),
            };
            proof {
                assert(cat@ == spec_cat_of(g, icon@));
            }
            let lnk: bool = match assoc_get(&self.links, icon.as_str()) {
                Some(b) => *b,
                None => false,
            };
            proof {
                assert(lnk == spec_link_of(g, icon@));
            }
            match choose_dir(&rules, DEFAULT_BASE_SIZE, cat.as_str()) {
                Some(di) => {
                    let d = rules[di].clone();
                    let (_stem, ext) = split_file_name(src.as_str());
                    let dest_name: String = match ext {
                        Some(e) => ext_join(icon.as_str(), e.as_str()),
                        None => icon.clone(),
                    };
                    proof {
                        assert(dest_name@ == spec_dest_name(icon@, src@));
                    }
                    let dest = path_join(d.key.as_str(), dest_name.as_str());
                    let a = FileAction { directory: d, dest, source: src, link: lnk };
                    proof {
                        assert(a@ == spec_action_for(
                            g,
                            rv,
                            icon@,
                            DEFAULT_BASE_SIZE,
                            g.replacements[i as int].1,
                            lnk,
                        ).unwrap());
                    }
                    actions.push(a);
                    proof {
                        assert(actions.deep_view() =~= prev.push(a@));
                        assert(prev.push(a@) + spec_base_actions(g, rv, i + 1) =~= prev + (seq![
                            a@,
                        ] + spec_base_actions(g, rv, i + 1)));
                    }
                },
                None => {},
            }
            i = i + 1;
        }
        proof {
            assert(actions.deep_view() + Seq::<ActionV>::empty() =~= actions.deep_view());
        }
        let ns = self.size_replacements.len();
        let mut j: usize = 0;
        while j < ns
            invariant
                0 <= j <= ns,
                ns == self.size_replacements.len(),
                g == self@,
                self.wf(),
                rv == rules.deep_view(),
                actions.deep_view() + spec_size_actions(g, rv, j as int) == spec_base_actions(
                    g,
                    rv,
                    0,
                ) + spec_size_actions(g, rv, 0),
            decreases ns - j,
        {
            let ghost prev = actions.deep_view();
            assert(self.size_replacements[j as int].deep_view() == g.size_replacements[j as int]);
            let icon: String = self.size_replacements[j].0.clone();
            let size: u32 = self.size_replacements[j].1;
            let src: String = self.size_replacements[j].2.clone();
            let cat: String = match assoc_get(&self.categories, icon.as_str()) {
                Some(c) => c.clone(),
                None => String::from_str("Applications"),
            };
            proof {
                assert(cat@ == spec_cat_of(g, icon@));
            }
            let lnk: bool = match assoc2_get(&self.size_links, icon.as_str(), size) {
                Some(b) => *b,
                None => false,
            };
            proof {
                assert(lnk == spec_size_link_of(g, icon@, size));
            }
            match choose_dir(&rules, size, cat.as_str()) {
                Some(di) => {
                    let d = rules[di].clone();
                    let (_stem, ext) = split_file_name(src.as_str());
                    let dest_name: String = match ext {
                        Some(e) => ext_join(icon.as_str(), e.as_str()),
                        None => icon.clone(),
                    };
                    proof {
                        assert(dest_name@ == spec_dest_name(icon@, src@));
                    }
                    let dest = path_join(d.key.as_str(), dest_name.as_str());
                    let a = FileAction { directory: d, dest, source: src, link: lnk };
                    proof {
                        assert(a@ == spec_action_for(
                            g,
                            rv,
                            icon@,
                            size,
                            g.size_replacements[j as int].2,
                            lnk,
                        ).unwrap());
                    }
                    actions.push(a);
                    proof {
                        assert(actions.deep_view() =~= prev.push(a@));
                        assert(prev.push(a@) + spec_size_actions(g, rv, j + 1) =~= prev + (seq![
                            a@,
                        ] + spec_size_actions(g, rv, j + 1)));
                    }
                },
                None => {},
            }
            j = j + 1;
        }
        proof {
            assert(actions.deep_view() + Seq::<ActionV>::empty() =~= actions.deep_view());
            assert(actions.deep_view() == spec_actions(g, rv));
        }
        let ghost av = actions.deep_view();
        let mut used: Vec<ThemeDirectory> = Vec::new();
        proof {
            assert(used.deep_view() =~= Seq::<ThemeDirV>::empty());
        }
        let na = actions.len();
        let mut k: usize = 0;
        while k < na
            invariant
                0 <= k <= na,
                na == actions.len(),
                av == actions.deep_view(),
                spec_dirs_used(av, used.deep_view(), k as int) == spec_dirs_used(
                    av,
                    Seq::<ThemeDirV>::empty(),
                    0,
                ),
            decreases na - k,
        {
            let ghost prev = used.deep_view();
            assert(actions[k as int]@ == av[k as int]);
            if !dir_key_present(&used, actions[k].directory.key.as_str()) {
                used.push(actions[k].directory.clone());
                proof {
                    assert(used.deep_view() =~= prev.push(av[k as int].directory));
                }
            }
            k = k + 1;
        }
        let ghost uv = used.deep_view();
        let manifest = build_manifest(
            &self.theme_name,
            &self.theme_comment,
            &self.fallback_themes,
            &used,
        );
        proof {
            assert(manifest@ == spec_manifest_items(g, uv));
        }
        GenerationPlan { actions, directories: used, manifest }
    }
}

/// Builds the manifest document of the generated theme.
fn build_manifest(
    theme_name: &String,
    theme_comment: &String,
    fallback_themes: &Vec<String>,
    used: &Vec<ThemeDirectory>,
) -> (r: IniDoc)
    ensures
        r@ == spec_manifest_items(
            GenV {
                theme_name: theme_name@,
                output_path: Seq::<char>::empty(),
                theme_comment: theme_comment@,
                fallback_themes: fallback_themes.deep_view(),
                replacements: Seq::<(Seq<char>, Seq<char>)>::empty(),
                size_replacements: Seq::<(Seq<char>, u32, Seq<char>)>::empty(),
                links: Seq::<(Seq<char>, bool)>::empty(),
                size_links: Seq::<(Seq<char>, u32, bool)>::empty(),
                categories: Seq::<(Seq<char>, Seq<char>)>::empty(),
            },
            used.deep_view(),
        ),
{
    let ghost uv = used.deep_view();
    let mut items: Vec<IniItem> = Vec::new();
    items.push(IniItem::Section(String::from_str("Icon Theme")));
    items.push(IniItem::Entry(String::from_str("Name"), theme_name.clone()));
    items.push(IniItem::Entry(String::from_str("Comment"), theme_comment.clone()));
    items.push(IniItem::Entry(String::from_str("Inherits"), join_comma(fallback_themes)));
    let mut keys: Vec<String> = Vec::new();
    let nu = used.len();
    let mut i: usize = 0;
    proof {
        assert(keys.deep_view() =~= spec_keys_of(uv).take(0));
    }
    while i < nu
        invariant
            0 <= i <= nu,
            nu == used.len(),
            uv == used.deep_view(),
            keys.deep_view() =~= spec_keys_of(uv).take(i as int),
        decreases nu - i,
    {
        let ghost prev = keys.deep_view();
        assert(used[i as int]@ == uv[i as int]);
        keys.push(used[i].key.clone());
        proof {
            assert(keys.deep_view() =~= prev.push(uv[i as int].key));
            assert(keys.deep_view() =~= spec_keys_of(uv).take(i + 1));
        }
        i = i + 1;
    }
    proof {
        assert(spec_keys_of(uv).take(nu as int) =~= spec_keys_of(uv));
    }
    items.push(IniItem::Entry(String::from_str("Directories"), join_comma(&keys)));
    let ghost g2 = GenV {
        theme_name: theme_name@,
        output_path: Seq::<char>::empty(),
        theme_comment: theme_comment@,
        fallback_themes: fallback_themes.deep_view(),
        replacements: Seq::<(Seq<char>, Seq<char>)>::empty(),
        size_replacements: Seq::<(Seq<char>, u32, Seq<char>)>::empty(),
        links: Seq::<(Seq<char>, bool)>::empty(),
        size_links: Seq::<(Seq<char>, u32, bool)>::empty(),
        categories: Seq::<(Seq<char>, Seq<char>)>::empty(),
    };
    let ghost head = seq![
        IniItemV::Section("Icon Theme"@),
        IniItemV::Entry("Name"@, theme_name@),
        IniItemV::Entry("Comment"@, theme_comment@),
        IniItemV::Entry("Inherits"@, spec_join_comma(fallback_themes.deep_view(), 0)),
        IniItemV::Entry("Directories"@, spec_join_comma(spec_keys_of(uv), 0)),
    ];
    proof {
        assert(items.deep_view() =~= head);
    }
    let mut si: usize = 0;
    while si < nu
        invariant
            0 <= si <= nu,
            nu == used.len(),
            uv == used.deep_view(),
            items.deep_view() + spec_sections(uv, si as int) == head + spec_sections(uv, 0),
        decreases nu - si,
    {
        let ghost prev = items.deep_view();
        assert(used[si as int]@ == uv[si as int]);
        let d = &used[si];
        items.push(IniItem::Section(d.key.clone()));
        let tw: &str = match d.dir_type {
            crate::icon_theme::DirectoryType::Fixed => "Fixed",
            crate::icon_theme::DirectoryType::Scaled => "Scaled",
            crate::icon_theme::DirectoryType::Threshold => "Threshold",
        };
        items.push(IniItem::Entry(String::from_str("Type"), String::from_str(tw)));
        items.push(IniItem::Entry(String::from_str("Context"), d.context.clone()));
        match d.size {
            Some(n) => {
                items.push(IniItem::Entry(String::from_str("Size"), u32_to_string(n)));
            },
            None => {},
        }
        match d.min_size {
            Some(n) => {
                items.push(IniItem::Entry(String::from_str("MinSize"), u32_to_string(n)));
            },
            None => {},
        }
        match d.max_size {
            Some(n) => {
                items.push(IniItem::Entry(String::from_str("MaxSize"), u32_to_string(n)));
            },
            None => {},
        }
        match d.threshold {
            Some(n) => {
                items.push(IniItem::Entry(String::from_str("Threshold"), u32_to_string(n)));
            },
            None => {},
        }
        proof {
            assert(items.deep_view() =~= prev + spec_dir_items(uv[si as int]));
            assert(prev + spec_dir_items(uv[si as int]) + spec_sections(uv, si + 1) =~= prev
                + spec_sections(uv, si as int));
        }
        si = si + 1;
    }
    proof {
        assert(items.deep_view() + Seq::<IniItemV>::empty() =~= items.deep_view());
        assert(items.deep_view() =~= spec_manifest_items(g2, uv));
    }
    IniDoc { items }
}

proof fn lemma_base_actions_contain(g: GenV, rules: Seq<ThemeDirV>, i: int, j: int)
    requires
        0 <= i <= j < g.replacements.len(),
        spec_action_for(
            g,
            rules,
            g.replacements[j].0,
            DEFAULT_BASE_SIZE,
            g.replacements[j].1,
            spec_link_of(g, g.replacements[j].0),
        ) is Some,
    ensures
        spec_base_actions(g, rules, i).contains(
            spec_action_for(
                g,
                rules,
                g.replacements[j].0,
                DEFAULT_BASE_SIZE,
                g.replacements[j].1,
                spec_link_of(g, g.replacements[j].0),
            ).unwrap(),
        ),
    decreases g.replacements.len() - i,
{
    let a = spec_action_for(
        g,
        rules,
        g.replacements[j].0,
        DEFAULT_BASE_SIZE,
        g.replacements[j].1,
        spec_link_of(g, g.replacements[j].0),
    ).unwrap();
    if i == j {
        assert(spec_base_actions(g, rules, i)[0] == a);
    } else {
        lemma_base_actions_contain(g, rules, i + 1, j);
        let rest = spec_base_actions(g, rules, i + 1);
        let k = choose|k: int| 0 <= k < rest.len() && rest[k] == a;
        let (icon, src) = g.replacements[i];
        match spec_action_for(g, rules, icon, DEFAULT_BASE_SIZE, src, spec_link_of(g, icon)) {
            Some(b) => {
                assert(spec_base_actions(g, rules, i)[k + 1] == a);
            },
            None => {
                assert(spec_base_actions(g, rules, i)[k] == a);
            },
        }
    }
}

proof fn lemma_size_actions_contain(g: GenV, rules: Seq<ThemeDirV>, i: int, j: int)
    requires
        0 <= i <= j < g.size_replacements.len(),
        spec_action_for(
            g,
            rules,
            g.size_replacements[j].0,
            g.size_replacements[j].1,
            g.size_replacements[j].2,
            spec_size_link_of(g, g.size_replacements[j].0, g.size_replacements[j].1),
        ) is Some,
    ensures
        spec_size_actions(g, rules, i).contains(
            spec_action_for(
                g,
                rules,
                g.size_replacements[j].0,
                g.size_replacements[j].1,
                g.size_replacements[j].2,
                spec_size_link_of(g, g.size_replacements[j].0, g.size_replacements[j].1),
            ).unwrap(),
        ),
    decreases g.size_replacements.len() - i,
{
    let a = spec_action_for(
        g,
        rules,
        g.size_replacements[j].0,
        g.size_replacements[j].1,
        g.size_replacements[j].2,
        spec_size_link_of(g, g.size_replacements[j].0, g.size_replacements[j].1),
    ).unwrap();
    if i == j {
        assert(spec_size_actions(g, rules, i)[0] == a);
    } else {
        lemma_size_actions_contain(g, rules, i + 1, j);
        let rest = spec_size_actions(g, rules, i + 1);
        let k = choose|k: int| 0 <= k < rest.len() && rest[k] == a;
        let (icon, size, src) = g.size_replacements[i];
        match spec_action_for(g, rules, icon, size, src, spec_size_link_of(g, icon, size)) {
            Some(b) => {
                assert(spec_size_actions(g, rules, i)[k + 1] == a);
            },
            None => {
                assert(spec_size_actions(g, rules, i)[k] == a);
            },
        }
    }
}

/// Every base override some rule serves is planned: its action, landing
/// in the chosen directory under the icon's name with the source's
/// extension, with the icon's link flag, stands in the planned actions.
pub proof fn lemma_base_override_planned(g: GenV, rules: Seq<ThemeDirV>, i: int)
    requires
        0 <= i < g.replacements.len(),
        spec_action_for(
            g,
            rules,
            g.replacements[i].0,
            DEFAULT_BASE_SIZE,
            g.replacements[i].1,
            spec_link_of(g, g.replacements[i].0),
        ) is Some,
    ensures
        spec_actions(g, rules).contains(
            spec_action_for(
                g,
                rules,
                g.replacements[i].0,
                DEFAULT_BASE_SIZE,
                g.replacements[i].1,
                spec_link_of(g, g.replacements[i].0),
            ).unwrap(),
        ),
{
    lemma_base_actions_contain(g, rules, 0, i);
    let a = spec_action_for(
        g,
        rules,
        g.replacements[i].0,
        DEFAULT_BASE_SIZE,
        g.replacements[i].1,
        spec_link_of(g, g.replacements[i].0),
    ).unwrap();
    let base = spec_base_actions(g, rules, 0);
    let k = choose|k: int| 0 <= k < base.len() && base[k] == a;
    assert(spec_actions(g, rules)[k] == a);
}

/// Every size-specific override some rule serves is planned, with its
/// own link flag, independent of and beside the base override.
pub proof fn lemma_size_override_planned(g: GenV, rules: Seq<ThemeDirV>, i: int)
    requires
        0 <= i < g.size_replacements.len(),
        spec_action_for(
            g,
            rules,
            g.size_replacements[i].0,
            g.size_replacements[i].1,
            g.size_replacements[i].2,
            spec_size_link_of(g, g.size_replacements[i].0, g.size_replacements[i].1),
        ) is Some,
    ensures
        spec_actions(g, rules).contains(
            spec_action_for(
                g,
                rules,
                g.size_replacements[i].0,
                g.size_replacements[i].1,
                g.size_replacements[i].2,
                spec_size_link_of(g, g.size_replacements[i].0, g.size_replacements[i].1),
            ).unwrap(),
        ),
{
    lemma_size_actions_contain(g, rules, 0, i);
    let a = spec_action_for(
        g,
        rules,
        g.size_replacements[i].0,
        g.size_replacements[i].1,
        g.size_replacements[i].2,
        spec_size_link_of(g, g.size_replacements[i].0, g.size_replacements[i].1),
    ).unwrap();
    let sz = spec_size_actions(g, rules, 0);
    let k = choose|k: int| 0 <= k < sz.len() && sz[k] == a;
    assert(spec_actions(g, rules)[spec_base_actions(g, rules, 0).len() + k] == a);
}

/// A string fit to stand anywhere in a manifest line: no newline, no
/// equals sign, its own trim, and not opening a comment or header.
pub open spec fn plain_str(s: Seq<char>) -> bool {
    &&& no_char(s, '\n')
    &&& no_char(s, '=')
    &&& spec_trim(s) == s
    &&& (s.len() > 0 ==> s[0] != '#' && s[0] != ';' && s[0] != '[')
}

proof fn lemma_join_plain(s: Seq<Seq<char>>, i: int)
    requires
        0 <= i <= s.len(),
        forall|j: int| 0 <= j < s.len() ==> plain_str(#[trigger] s[j]),
    ensures
        no_char(spec_join_comma(s, i), '\n'),
        spec_join_comma(s, i).len() > 0 ==> !is_space(spec_join_comma(s, i)[0]) && !is_space(
            spec_join_comma(s, i)[spec_join_comma(s, i).len() - 1],
        ),
    decreases s.len() - i,
{
    if i < s.len() {
        if i == s.len() - 1 {
            if s[i].len() > 0 {
                lemma_trim_stable_ends(s[i]);
            }
        } else {
            lemma_join_plain(s, i + 1);
            let rest = spec_join_comma(s, i + 1);
            let whole = s[i] + seq![','] + rest;
            assert(forall|k: int| 0 <= k < s[i].len() ==> whole[k] == s[i][k]);
            assert(whole[s[i].len() as int] == ',');
            assert(forall|k: int|
                0 <= k < rest.len() ==> whole[s[i].len() + 1 + k] == rest[k]);
            if s[i].len() > 0 {
                lemma_trim_stable_ends(s[i]);
            }
            if rest.len() > 0 {
                assert(whole[whole.len() - 1] == rest[rest.len() - 1]);
            } else {
                assert(whole[whole.len() - 1] == ',');
            }
        }
    }
}

proof fn lemma_digits_value_renderable(n: int)
    requires
        n >= 0,
    ensures
        no_char(spec_u32_str(n), '\n'),
        spec_trim(spec_u32_str(n)) == spec_u32_str(n),
{
    lemma_u32_str_digits(n);
    let s = spec_u32_str(n);
    assert(forall|k: int| 0 <= k < s.len() ==> is_digit(#[trigger] s[k]));
    assert(forall|k: int| 0 <= k < s.len() ==> #[trigger] s[k] != '\n') by {
        assert('\n' as u32 == 10);
    }
    assert(!is_space(s[0]) && !is_space(s[s.len() - 1])) by {
        assert(' ' as u32 == 32);
        assert('\t' as u32 == 9);
        assert('\r' as u32 == 13);
        assert('\n' as u32 == 10);
    }
    lemma_trim_stable(s);
}

proof fn lemma_literal_keys_plain()
    ensures
        plain_str("Icon Theme"@),
        plain_str("Name"@),
        plain_str("Comment"@),
        plain_str("Inherits"@),
        plain_str("Directories"@),
        plain_str("Type"@),
        plain_str("Context"@),
        plain_str("Size"@),
        plain_str("MinSize"@),
        plain_str("MaxSize"@),
        plain_str("Threshold"@),
        plain_str("Fixed"@),
        plain_str("Scaled"@),
{
    reveal_strlit("Icon Theme");
    reveal_strlit("Name");
    reveal_strlit("Comment");
    reveal_strlit("Inherits");
    reveal_strlit("Directories");
    reveal_strlit("Type");
    reveal_strlit("Context");
    reveal_strlit("Size");
    reveal_strlit("MinSize");
    reveal_strlit("MaxSize");
    reveal_strlit("Threshold");
    reveal_strlit("Fixed");
    reveal_strlit("Scaled");
    lemma_trim_stable("Icon Theme"@);
    lemma_trim_stable("Name"@);
    lemma_trim_stable("Comment"@);
    lemma_trim_stable("Inherits"@);
    lemma_trim_stable("Directories"@);
    lemma_trim_stable("Type"@);
    lemma_trim_stable("Context"@);
    lemma_trim_stable("Size"@);
    lemma_trim_stable("MinSize"@);
    lemma_trim_stable("MaxSize"@);
    lemma_trim_stable("Threshold"@);
    lemma_trim_stable("Fixed"@);
    lemma_trim_stable("Scaled"@);
}

proof fn lemma_dir_items_renderable(d: ThemeDirV)
    requires
        plain_str(d.key),
        no_char(d.context, '\n'),
        spec_trim(d.context) == d.context,
    ensures
        doc_renderable(spec_dir_items(d)),
{
    lemma_literal_keys_plain();
    let head = seq![
        IniItemV::Section(d.key),
        IniItemV::Entry("Type"@, spec_type_word(d.dir_type)),
        IniItemV::Entry("Context"@, d.context),
    ];
    assert(item_renderable(head[0]));
    assert(item_renderable(head[1]));
    assert(item_renderable(head[2]));
    assert(doc_renderable(head));
    let s1 = match d.size {
        Some(n) => seq![IniItemV::Entry("Size"@, spec_u32_str(n as int))],
        None => Seq::<IniItemV>::empty(),
    };
    let s2 = match d.min_size {
        Some(n) => seq![IniItemV::Entry("MinSize"@, spec_u32_str(n as int))],
        None => Seq::<IniItemV>::empty(),
    };
    let s3 = match d.max_size {
        Some(n) => seq![IniItemV::Entry("MaxSize"@, spec_u32_str(n as int))],
        None => Seq::<IniItemV>::empty(),
    };
    let s4 = match d.threshold {
        Some(n) => seq![IniItemV::Entry("Threshold"@, spec_u32_str(n as int))],
        None => Seq::<IniItemV>::empty(),
    };
    match d.size {
        Some(n) => {
            lemma_digits_value_renderable(n as int);
            assert(item_renderable(s1[0]));
        },
        None => {},
    }
    match d.min_size {
        Some(n) => {
            lemma_digits_value_renderable(n as int);
            assert(item_renderable(s2[0]));
        },
        None => {},
    }
    match d.max_size {
        Some(n) => {
            lemma_digits_value_renderable(n as int);
            assert(item_renderable(s3[0]));
        },
        None => {},
    }
    match d.threshold {
        Some(n) => {
            lemma_digits_value_renderable(n as int);
            assert(item_renderable(s4[0]));
        },
        None => {},
    }
    assert(doc_renderable(s1));
    assert(doc_renderable(s2));
    assert(doc_renderable(s3));
    assert(doc_renderable(s4));
    lemma_doc_renderable_concat(head, s1);
    lemma_doc_renderable_concat(head + s1, s2);
    lemma_doc_renderable_concat(head + s1 + s2, s3);
    lemma_doc_renderable_concat(head + s1 + s2 + s3, s4);
}

proof fn lemma_sections_renderable(used: Seq<ThemeDirV>, i: int)
    requires
        0 <= i <= used.len(),
        forall|j: int|
            0 <= j < used.len() ==> plain_str((#[trigger] used[j]).key) && no_char(
                used[j].context,
                '\n',
            ) && spec_trim(used[j].context) == used[j].context,
    ensures
        doc_renderable(spec_sections(used, i)),
    decreases used.len() - i,
{
    if i < used.len() {
        lemma_dir_items_renderable(used[i]);
        lemma_sections_renderable(used, i + 1);
        lemma_doc_renderable_concat(spec_dir_items(used[i]), spec_sections(used, i + 1));
    }
}

/// The manifest the generator writes reads back as itself: rendered and
/// parsed again, it yields exactly the same items, whenever the theme
/// name, the comment, the fallback names, and the populated directories'
/// keys and contexts are manifest-safe (no newline, their own trim, and
/// for names standing left of `=` no equals sign and no comment or
/// header opener).
pub proof fn lemma_generated_manifest_reads_back(g: GenV, used: Seq<ThemeDirV>)
    requires
        no_char(g.theme_name, '\n'),
        spec_trim(g.theme_name) == g.theme_name,
        no_char(g.theme_comment, '\n'),
        spec_trim(g.theme_comment) == g.theme_comment,
        forall|j: int| 0 <= j < g.fallback_themes.len() ==> plain_str(#[trigger] g.fallback_themes[j]),
        forall|j: int|
            0 <= j < used.len() ==> plain_str((#[trigger] used[j]).key) && no_char(
                used[j].context,
                '\n',
            ) && spec_trim(used[j].context) == used[j].context,
    ensures
        spec_parse_ini(spec_render_items(spec_manifest_items(g, used), 0)) == Some(
            spec_manifest_items(g, used),
        ),
{
    lemma_literal_keys_plain();
    let inherits = spec_join_comma(g.fallback_themes, 0);
    lemma_join_plain(g.fallback_themes, 0);
    if inherits.len() > 0 {
        lemma_trim_stable(inherits);
    }
    let keys = spec_keys_of(used);
    assert(forall|j: int| 0 <= j < keys.len() ==> plain_str(#[trigger] keys[j])) by {
        assert(forall|j: int| 0 <= j < keys.len() ==> #[trigger] keys[j] == used[j].key);
    }
    let dirsv = spec_join_comma(keys, 0);
    lemma_join_plain(keys, 0);
    if dirsv.len() > 0 {
        lemma_trim_stable(dirsv);
    }
    let head = seq![
        IniItemV::Section("Icon Theme"@),
        IniItemV::Entry("Name"@, g.theme_name),
        IniItemV::Entry("Comment"@, g.theme_comment),
        IniItemV::Entry("Inherits"@, inherits),
        IniItemV::Entry("Directories"@, dirsv),
    ];
    assert(item_renderable(head[0]));
    assert(item_renderable(head[1]));
    assert(item_renderable(head[2]));
    assert(item_renderable(head[3]));
    assert(item_renderable(head[4]));
    assert(doc_renderable(head));
    lemma_sections_renderable(used, 0);
    lemma_doc_renderable_concat(head, spec_sections(used, 0));
    lemma_render_parse_round_trip(spec_manifest_items(g, used));
}

} // verus!
