//! A theme-packing project: the user's accumulated icon replacements,
//! link flags, categories and fallback chain, with the exact effect of
//! every mutation.

use vstd::prelude::*;
use vstd::string::*;

use crate::assoc::{
    akeys2_unique, akeys_unique, amap, amap2, assoc2_contains, assoc2_remove, assoc2_set,
    assoc_contains, assoc_get, assoc_remove, assoc_set,
};
use crate::text::{spec_token_list, str_eq, token_list};

verus! {

/// The persisted state of one project.
pub struct IconProject {
    pub name: String,
    pub theme_name: String,
    pub theme_comment: String,
    pub output_path: Option<String>,
    pub fallback_themes: Vec<String>,
    pub icon_replacements: Vec<(String, String)>,
    pub size_specific_replacements: Vec<(String, u32, String)>,
    pub icon_links: Vec<(String, bool)>,
    pub size_specific_links: Vec<(String, u32, bool)>,
    pub icon_categories: Vec<(String, String)>,
}

/// Spec-level counterpart of `IconProject`: each association list seen
/// as the map it denotes.
pub struct ProjectV {
    pub name: Seq<char>,
    pub theme_name: Seq<char>,
    pub theme_comment: Seq<char>,
    pub output_path: Option<Seq<char>>,
    pub fallback_themes: Seq<Seq<char>>,
    pub icon_replacements: Map<Seq<char>, Seq<char>>,
    pub size_specific_replacements: Map<(Seq<char>, u32), Seq<char>>,
    pub icon_links: Map<Seq<char>, bool>,
    pub size_specific_links: Map<(Seq<char>, u32), bool>,
    pub icon_categories: Map<Seq<char>, Seq<char>>,
}

impl View for IconProject {
    type V = ProjectV;

    open spec fn view(&self) -> ProjectV {
        ProjectV {
            name: self.name@,
            theme_name: self.theme_name@,
            theme_comment: self.theme_comment@,
            output_path: match self.output_path {
                Some(ref p) => Some(p@),
                None => None,
            },
            fallback_themes: self.fallback_themes.deep_view(),
            icon_replacements: amap(self.icon_replacements.deep_view()),
            size_specific_replacements: amap2(self.size_specific_replacements.deep_view()),
            icon_links: amap(self.icon_links.deep_view()),
            size_specific_links: amap2(self.size_specific_links.deep_view()),
            icon_categories: amap(self.icon_categories.deep_view()),
        }
    }
}

impl IconProject {
    /// Each association list holds every key once.
    pub open spec fn wf(&self) -> bool {
        &&& akeys_unique(self.icon_replacements.deep_view())
        &&& akeys2_unique(self.size_specific_replacements.deep_view())
        &&& akeys_unique(self.icon_links.deep_view())
        &&& akeys2_unique(self.size_specific_links.deep_view())
        &&& akeys_unique(self.icon_categories.deep_view())
    }

    /// A fresh project: everything empty but the name and the default
    /// fallback chain of the single theme `hicolor`.
    pub fn new(name: String) -> (r: IconProject)
        ensures
            r.wf(),
            r@.name == name@,
            r@.theme_name == Seq::<char>::empty(),
            r@.theme_comment == Seq::<char>::empty(),
            r@.output_path is None,
            r@.fallback_themes == seq!["hicolor"@],
            r@.icon_replacements == Map::<Seq<char>, Seq<char>>::empty(),
            r@.size_specific_replacements == Map::<(Seq<char>, u32), Seq<char>>::empty(),
            r@.icon_links == Map::<Seq<char>, bool>::empty(),
            r@.size_specific_links == Map::<(Seq<char>, u32), bool>::empty(),
            r@.icon_categories == Map::<Seq<char>, Seq<char>>::empty(),
    {
        let mut fb: Vec<String> = Vec::new();
        fb.push(String::from_str("hicolor"));
        let r = IconProject {
            name,
            theme_name: String::new(),
            theme_comment: String::new(),
            output_path: None,
            fallback_themes: fb,
            icon_replacements: Vec::new(),
            size_specific_replacements: Vec::new(),
            icon_links: Vec::new(),
            size_specific_links: Vec::new(),
            icon_categories: Vec::new(),
        };
        proof {
            assert(r.fallback_themes.deep_view() =~= seq!["hicolor"@]);
            assert(r.icon_replacements.deep_view() =~= Seq::<(Seq<char>, Seq<char>)>::empty());
            assert(r.size_specific_replacements.deep_view() =~= Seq::<
                (Seq<char>, u32, Seq<char>),
            >::empty());
            assert(r.icon_links.deep_view() =~= Seq::<(Seq<char>, bool)>::empty());
            assert(r.size_specific_links.deep_view() =~= Seq::<(Seq<char>, u32, bool)>::empty());
            assert(r.icon_categories.deep_view() =~= Seq::<(Seq<char>, Seq<char>)>::empty());
        }
        r
    }

    /// Sets or removes the base (size-independent) override of an icon:
    /// an empty path removes the override together with the icon's link
    /// flag and category, any other path becomes the override.
    pub fn add_replacement(&mut self, icon_name: &str, file_path: &str)
        requires
            old(self).wf(),
        ensures
            final(self).wf(),
            file_path@.len() == 0 ==> final(self)@ == (ProjectV {
                icon_replacements: old(self)@.icon_replacements.remove(icon_name@),
                icon_links: old(self)@.icon_links.remove(icon_name@),
                icon_categories: old(self)@.icon_categories.remove(icon_name@),
                ..old(self)@
            }),
            file_path@.len() > 0 ==> final(self)@ == (ProjectV {
                icon_replacements: old(self)@.icon_replacements.insert(icon_name@, file_path@),
                ..old(self)@
            }),
    {
        if file_path.is_empty() {
            assoc_remove(&mut self.icon_replacements, icon_name);
            assoc_remove(&mut self.icon_links, icon_name);
            assoc_remove(&mut self.icon_categories, icon_name);
        } else {
            assoc_set(&mut self.icon_replacements, icon_name, String::from_str(file_path));
        }
    }

    /// Sets or removes the override of an icon at one explicit size,
    /// independent of and layered over the base override: an empty path
    /// removes that size's entry, any other path becomes the override.
    pub fn add_size_replacement(&mut self, icon_name: &str, size: u32, file_path: &str)
        requires
            old(self).wf(),
        ensures
            final(self).wf(),
            file_path@.len() == 0 ==> final(self)@ == (ProjectV {
                size_specific_replacements: old(self)@.size_specific_replacements.remove(
                    (icon_name@, size),
                ),
                ..old(self)@
            }),
            file_path@.len() > 0 ==> final(self)@ == (ProjectV {
                size_specific_replacements: old(self)@.size_specific_replacements.insert(
                    (icon_name@, size),
                    file_path@,
                ),
                ..old(self)@
            }),
    {
        if file_path.is_empty() {
            assoc2_remove(&mut self.size_specific_replacements, icon_name, size);
        } else {
            assoc2_set(
                &mut self.size_specific_replacements,
                icon_name,
                size,
                String::from_str(file_path),
            );
        }
    }

    /// Marks the base override of an icon as a link or a copy. With no
    /// base override for that icon this is a no-op: the project is left
    /// exactly as it was, and no phantom entry appears in any listing.
    pub fn set_replacement_link(&mut self, icon_name: &str, is_link: bool)
        requires
            old(self).wf(),
        ensures
            final(self).wf(),
            old(self)@.icon_replacements.contains_key(icon_name@) ==> final(self)@ == (ProjectV {
                icon_links: old(self)@.icon_links.insert(icon_name@, is_link),
                ..old(self)@
            }),
            !old(self)@.icon_replacements.contains_key(icon_name@) ==> *final(self) == *old(
                self,
            ),
    {
        if assoc_contains(&self.icon_replacements, icon_name) {
            assoc_set(&mut self.icon_links, icon_name, is_link);
        }
    }

    /// Marks the override of an icon at one size as a link or a copy.
    /// With no such override this is a no-op.
    pub fn set_size_replacement_link(&mut self, icon_name: &str, size: u32, is_link: bool)
        requires
            old(self).wf(),
        ensures
            final(self).wf(),
            old(self)@.size_specific_replacements.contains_key((icon_name@, size))
                ==> final(self)@ == (ProjectV {
                size_specific_links: old(self)@.size_specific_links.insert(
                    (icon_name@, size),
                    is_link,
                ),
                ..old(self)@
            }),
            !old(self)@.size_specific_replacements.contains_key((icon_name@, size))
                ==> *final(self) == *old(self),
    {
        if assoc2_contains(&self.size_specific_replacements, icon_name, size) {
            assoc2_set(&mut self.size_specific_links, icon_name, size, is_link);
        }
    }

    /// Assigns the display category of an icon.
    pub fn set_icon_category(&mut self, icon_name: &str, category: &str)
        requires
            old(self).wf(),
        ensures
            final(self).wf(),
            final(self)@ == (ProjectV {
                icon_categories: old(self)@.icon_categories.insert(icon_name@, category@),
                ..old(self)@
            }),
    {
        assoc_set(&mut self.icon_categories, icon_name, String::from_str(category));
    }

    /// Replaces the fallback chain with the trimmed, non-empty tokens of
    /// a comma-separated list.
    pub fn set_fallback_themes(&mut self, themes: &str)
        requires
            old(self).wf(),
        ensures
            final(self).wf(),
            final(self)@ == (ProjectV {
                fallback_themes: spec_token_list(themes@),
                ..old(self)@
            }),
    {
        self.fallback_themes = token_list(themes);
    }

    /// Replaces the display name of the generated theme.
    pub fn set_theme_name(&mut self, name: String)
        requires
            old(self).wf(),
        ensures
            final(self).wf(),
            final(self)@ == (ProjectV { theme_name: name@, ..old(self)@ }),
    {
        self.theme_name = name;
    }

    /// Replaces the comment of the generated theme.
    pub fn set_theme_comment(&mut self, comment: String)
        requires
            old(self).wf(),
        ensures
            final(self).wf(),
            final(self)@ == (ProjectV { theme_comment: comment@, ..old(self)@ }),
    {
        self.theme_comment = comment;
    }

    /// The base override of an icon, when one is set.
    pub fn replacement_for(&self, icon_name: &str) -> (r: Option<&String>)
        requires
            self.wf(),
        ensures
            match r {
                Some(p) => self@.icon_replacements.contains_key(icon_name@)
                    && self@.icon_replacements[icon_name@] == p@,
                None => !self@.icon_replacements.contains_key(icon_name@),
            },
    {
        assoc_get(&self.icon_replacements, icon_name)
    }

    /// The display name the generated theme will carry: the theme name
    /// when one was set, else the project's name.
    pub fn display_theme_name(&self) -> (r: &String)
        ensures
            r@ == spec_display_theme_name(self@),
    {
        if !self.theme_name.as_str().is_empty() {
            &self.theme_name
        } else {
            &self.name
        }
    }
}

/// The display name the generated theme carries: the theme name when one
/// was set, else the project's name.
pub open spec fn spec_display_theme_name(p: ProjectV) -> Seq<char> {
    if p.theme_name.len() > 0 {
        p.theme_name
    } else {
        p.name
    }
}

/// The comment the generated theme carries: the comment when one was
/// set, else a fixed stock line.
pub open spec fn spec_display_theme_comment(p: ProjectV) -> Seq<char> {
    if p.theme_comment.len() > 0 {
        p.theme_comment
    } else {
        "Icon theme generated by icon-packer"@
    }
}

/// The names of the base overrides from `i` on whose path is non-empty,
/// in list order.
pub open spec fn spec_replaced_from(s: Seq<(Seq<char>, Seq<char>)>, i: int) -> Seq<Seq<char>>
    decreases s.len() - i,
    when 0 <= i <= s.len()
{
    if i >= s.len() {
        Seq::<Seq<char>>::empty()
    } else {
        let rest = spec_replaced_from(s, i + 1);
        if s[i].1.len() > 0 {
            seq![s[i].0] + rest
        } else {
            rest
        }
    }
}

impl IconProject {
    /// The comment the generated theme will carry: the set comment, or a
    /// stock line when none was ever set.
    pub fn display_theme_comment(&self) -> (r: String)
        ensures
            r@ == spec_display_theme_comment(self@),
    {
        if !self.theme_comment.as_str().is_empty() {
            self.theme_comment.clone()
        } else {
            String::from_str("Icon theme generated by icon-packer")
        }
    }

    /// The icons that carry a base override with a non-empty path, in
    /// list order.
    pub fn replaced_icon_names(&self) -> (r: Vec<String>)
        ensures
            r.deep_view() == spec_replaced_from(self.icon_replacements.deep_view(), 0),
    {
        let ghost rv = self.icon_replacements.deep_view();
        let mut out: Vec<String> = Vec::new();
        let n = self.icon_replacements.len();
        let mut i: usize = 0;
        proof {
            assert(out.deep_view() =~= Seq::<Seq<char>>::empty());
            assert(Seq::<Seq<char>>::empty() + spec_replaced_from(rv, 0) =~= spec_replaced_from(
                rv,
                0,
            ));
        }
        while i < n
            invariant
                0 <= i <= n,
                n == self.icon_replacements.len(),
                rv == self.icon_replacements.deep_view(),
                out.deep_view() + spec_replaced_from(rv, i as int) == spec_replaced_from(rv, 0),
            decreases n - i,
        {
            let ghost prev = out.deep_view();
            assert(self.icon_replacements[i as int].deep_view() == rv[i as int]);
            if !self.icon_replacements[i].1.as_str().is_empty() {
                out.push(self.icon_replacements[i].0.clone());
                proof {
                    assert(out.deep_view() =~= prev.push(rv[i as int].0));
                    assert(prev.push(rv[i as int].0) + spec_replaced_from(rv, i + 1) =~= prev + (
                    seq![rv[i as int].0] + spec_replaced_from(rv, i + 1)));
                }
            }
            i = i + 1;
        }
        proof {
            assert(out.deep_view() + Seq::<Seq<char>>::empty() =~= out.deep_view());
        }
        out
    }
}

/// The recent-projects list from `i` on without one path.
pub open spec fn spec_retain_from(s: Seq<Seq<char>>, p: Seq<char>, i: int) -> Seq<Seq<char>>
    decreases s.len() - i,
    when 0 <= i <= s.len()
{
    if i >= s.len() {
        Seq::<Seq<char>>::empty()
    } else {
        let rest = spec_retain_from(s, p, i + 1);
        if s[i] == p {
            rest
        } else {
            seq![s[i]] + rest
        }
    }
}

/// A recent-projects list after one use of a path: the path first, the
/// old entries without it after, at most ten in all.
pub open spec fn spec_push_recent(s: Seq<Seq<char>>, p: Seq<char>) -> Seq<Seq<char>> {
    let full = seq![p] + spec_retain_from(s, p, 0);
    if full.len() > 10 {
        full.take(10)
    } else {
        full
    }
}

/// Records one use of a path in the recent-projects list: most recent
/// first, duplicates dropped, at most ten entries kept.
pub fn push_recent(recent: &Vec<String>, path: &str) -> (r: Vec<String>)
    ensures
        r.deep_view() == spec_push_recent(recent.deep_view(), path@),
{
    let ghost rv = recent.deep_view();
    let mut out: Vec<String> = Vec::new();
    out.push(String::from_str(path));
    proof {
        assert(out.deep_view() =~= seq![path@]);
    }
    let n = recent.len();
    let mut i: usize = 0;
    while i < n
        invariant
            0 <= i <= n,
            n == recent.len(),
            rv == recent.deep_view(),
            out.deep_view() + spec_retain_from(rv, path@, i as int) == seq![path@]
                + spec_retain_from(rv, path@, 0),
        decreases n - i,
    {
        let ghost prev = out.deep_view();
        assert(recent[i as int]@ == rv[i as int]);
        if !str_eq(recent[i].as_str(), path) {
            out.push(recent[i].clone());
            proof {
                assert(out.deep_view() =~= prev + seq![rv[i as int]]);
            }
        }
        i = i + 1;
    }
    proof {
        assert(out.deep_view() + Seq::<Seq<char>>::empty() =~= out.deep_view());
    }
    let ghost full = out.deep_view();
    if out.len() > 10 {
        out.truncate(10);
        proof {
            assert(out.deep_view() =~= full.take(10));
        }
    }
    out
}

} // verus!
