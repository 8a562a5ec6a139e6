//! The theme definition model: a theme's `index.theme` manifest parsed
//! into directory-matching rules and inheritance metadata, and the size
//! matching used for icon lookup.

use vstd::prelude::*;
use vstd::string::*;

use crate::ini::{
    opt_str_view, spec_has_section, spec_ini_get, spec_parse_ini, IniDoc, IniItemV,
};
use crate::text::{
    spec_parse_u32, spec_token_list, str_eq, token_list, parse_u32, path_join, ext_join,
    vec_contains_str,
};

verus! {

/// The size-matching policy of one theme subdirectory.
#[derive(Clone, Copy, PartialEq, Eq, Debug, Structural)]
pub enum DirectoryType {
    Fixed,
    Scaled,
    Threshold,
}

/// One subdirectory rule from a manifest.
pub struct ThemeDirectory {
    pub key: String,
    pub context: String,
    pub dir_type: DirectoryType,
    pub size: Option<u32>,
    pub min_size: Option<u32>,
    pub max_size: Option<u32>,
    pub threshold: Option<u32>,
}

/// Spec-level counterpart of `ThemeDirectory`.
pub struct ThemeDirV {
    pub key: Seq<char>,
    pub context: Seq<char>,
    pub dir_type: DirectoryType,
    pub size: Option<u32>,
    pub min_size: Option<u32>,
    pub max_size: Option<u32>,
    pub threshold: Option<u32>,
}

impl View for ThemeDirectory {
    type V = ThemeDirV;

    open spec fn view(&self) -> ThemeDirV {
        ThemeDirV {
            key: self.key@,
            context: self.context@,
            dir_type: self.dir_type,
            size: self.size,
            min_size: self.min_size,
            max_size: self.max_size,
            threshold: self.threshold,
        }
    }
}

impl DeepView for ThemeDirectory {
    type V = ThemeDirV;

    open spec fn deep_view(&self) -> ThemeDirV {
        self.view()
    }
}

impl Clone for ThemeDirectory {
    /// Cloning keeps every field.
    fn clone(&self) -> (r: Self)
        ensures
            r@ == self@,
    {
        ThemeDirectory {
            key: self.key.clone(),
            context: self.context.clone(),
            dir_type: self.dir_type,
            size: self.size,
            min_size: self.min_size,
            max_size: self.max_size,
            threshold: self.threshold,
        }
    }
}

/// One theme: its naming, inheritance and directory rules.
pub struct IconThemeDefinition {
    pub directory_name: String,
    pub name: String,
    pub inherits: Vec<String>,
    pub directories: Vec<ThemeDirectory>,
    pub root_path: String,
}

/// Spec-level counterpart of `IconThemeDefinition`.
pub struct ThemeDefV {
    pub directory_name: Seq<char>,
    pub name: Seq<char>,
    pub inherits: Seq<Seq<char>>,
    pub directories: Seq<ThemeDirV>,
    pub root_path: Seq<char>,
}

impl DeepView for IconThemeDefinition {
    type V = ThemeDefV;

    open spec fn deep_view(&self) -> ThemeDefV {
        self.view()
    }
}

impl View for IconThemeDefinition {
    type V = ThemeDefV;

    open spec fn view(&self) -> ThemeDefV {
        ThemeDefV {
            directory_name: self.directory_name@,
            name: self.name@,
            inherits: self.inherits.deep_view(),
            directories: self.directories.deep_view(),
            root_path: self.root_path@,
        }
    }
}

/// Why a candidate folder yields no theme.
#[derive(Clone, Copy, PartialEq, Eq, Debug, Structural)]
pub enum ThemeError {
    /// The folder has no manifest file.
    NotATheme,
    /// The manifest cannot be read as an INI document.
    Unreadable,
}

/// The directory type named by a manifest value; anything unrecognized
/// means Threshold.
pub open spec fn spec_dirtype(s: Seq<char>) -> DirectoryType {
    if s == "Fixed"@ {
        DirectoryType::Fixed
    } else if s == "Scaled"@ {
        DirectoryType::Scaled
    } else {
        DirectoryType::Threshold
    }
}

/// The token list of an optional comma-separated manifest value.
pub open spec fn spec_opt_tokens(o: Option<Seq<char>>) -> Seq<Seq<char>> {
    match o {
        Some(s) => spec_token_list(s),
        None => Seq::<Seq<char>>::empty(),
    }
}

/// The number in an optional manifest value; a malformed number is
/// treated as absent.
pub open spec fn spec_opt_u32(o: Option<Seq<char>>) -> Option<u32> {
    match o {
        Some(s) => spec_parse_u32(s),
        None => None,
    }
}

/// The rule read from the manifest section of one directory key, with the
/// lenient defaults of the format: Threshold when the type is missing or
/// unrecognized, `Generic` when the context is missing, absent sizes when
/// missing or malformed.
pub open spec fn spec_dir_section(items: Seq<IniItemV>, name: Seq<char>) -> ThemeDirV {
    ThemeDirV {
        key: name,
        context: match spec_ini_get(items, name, "Context"@) {
            Some(c) => c,
            None => "Generic"@,
        },
        dir_type: match spec_ini_get(items, name, "Type"@) {
            Some(t) => spec_dirtype(t),
            None => DirectoryType::Threshold,
        },
        size: spec_opt_u32(spec_ini_get(items, name, "Size"@)),
        min_size: spec_opt_u32(spec_ini_get(items, name, "MinSize"@)),
        max_size: spec_opt_u32(spec_ini_get(items, name, "MaxSize"@)),
        threshold: spec_opt_u32(spec_ini_get(items, name, "Threshold"@)),
    }
}

/// The rules of the listed directory keys from `i` on; a key without a
/// manifest section of the same name is dropped.
pub open spec fn spec_dirs_from(items: Seq<IniItemV>, toks: Seq<Seq<char>>, i: int) -> Seq<
    ThemeDirV,
>
    decreases toks.len() - i,
    when 0 <= i <= toks.len()
{
    if i >= toks.len() {
        Seq::<ThemeDirV>::empty()
    } else {
        let rest = spec_dirs_from(items, toks, i + 1);
        if spec_has_section(items, toks[i]) {
            seq![spec_dir_section(items, toks[i])] + rest
        } else {
            rest
        }
    }
}

/// The ordered union of the `Directories` and `ScaledDirectories` keys.
pub open spec fn spec_theme_dir_tokens(items: Seq<IniItemV>) -> Seq<Seq<char>> {
    spec_opt_tokens(spec_ini_get(items, "Icon Theme"@, "Directories"@)) + spec_opt_tokens(
        spec_ini_get(items, "Icon Theme"@, "ScaledDirectories"@),
    )
}

/// The theme read from a parsed manifest: display name falling back to
/// the folder's name, inherited themes, and the resolved directory rules.
pub open spec fn spec_theme_def(
    dirname: Seq<char>,
    root: Seq<char>,
    items: Seq<IniItemV>,
) -> ThemeDefV {
    ThemeDefV {
        directory_name: dirname,
        name: match spec_ini_get(items, "Icon Theme"@, "Name"@) {
            Some(n) => n,
            None => dirname,
        },
        inherits: spec_opt_tokens(spec_ini_get(items, "Icon Theme"@, "Inherits"@)),
        directories: spec_dirs_from(items, spec_theme_dir_tokens(items), 0),
        root_path: root,
    }
}

/// Splits an optional comma-separated manifest value into its trimmed,
/// non-empty tokens.
pub fn parse_directory_list(input: Option<&String>) -> (r: Vec<String>)
    ensures
        r.deep_view() == spec_opt_tokens(
            match input {
                Some(s) => Some(s@),
                None => None,
            },
        ),
{
    match input {
        Some(s) => token_list(s.as_str()),
        None => {
            let v: Vec<String> = Vec::new();
            proof {
                assert(v.deep_view() =~= Seq::<Seq<char>>::empty());
            }
            v
        },
    }
}

/// As `parse_directory_list`, for an owned optional value.
pub fn parse_directory_list_from_opt(input: Option<String>) -> (r: Vec<String>)
    ensures
        r.deep_view() == spec_opt_tokens(opt_str_view(input)),
{
    match input {
        Some(s) => token_list(s.as_str()),
        None => {
            let v: Vec<String> = Vec::new();
            proof {
                assert(v.deep_view() =~= Seq::<Seq<char>>::empty());
            }
            v
        },
    }
}

/// Reads an optional number from a manifest value.
fn opt_u32(o: Option<String>) -> (r: Option<u32>)
    ensures
        r == spec_opt_u32(opt_str_view(o)),
{
    match o {
        Some(s) => parse_u32(s.as_str()),
        None => None,
    }
}

impl DirectoryType {
    /// The type named by a manifest value; anything unrecognized means
    /// Threshold.
    pub fn from_str(input: &str) -> (r: DirectoryType)
        ensures
            r == spec_dirtype(input@),
    {
        if str_eq(input, "Fixed") {
            DirectoryType::Fixed
        } else if str_eq(input, "Scaled") {
            DirectoryType::Scaled
        } else {
            DirectoryType::Threshold
        }
    }
}

/// Reads the rule of one directory key from its manifest section.
pub fn parse_directory_section(conf: &IniDoc, dir_name: &str) -> (r: ThemeDirectory)
    ensures
        r@ == spec_dir_section(conf@, dir_name@),
{
    let context = match conf.get(dir_name, "Context") {
        Some(c) => c,
        None => String::from_str("Generic"),
    };
    let dir_type = match conf.get(dir_name, "Type") {
        Some(t) => DirectoryType::from_str(t.as_str()),
        None => DirectoryType::Threshold,
    };
    ThemeDirectory {
        key: String::from_str(dir_name),
        context,
        dir_type,
        size: opt_u32(conf.get(dir_name, "Size")),
        min_size: opt_u32(conf.get(dir_name, "MinSize")),
        max_size: opt_u32(conf.get(dir_name, "MaxSize")),
        threshold: opt_u32(conf.get(dir_name, "Threshold")),
    }
}

impl IconThemeDefinition {
    /// Reads a theme from what a candidate folder holds: its path, its
    /// basename, and the content of its manifest file when one exists.
    /// The result is a function of these values alone.
    pub fn load_from_directory(
        root_path: &str,
        directory_name: &str,
        manifest: Option<&String>,
    ) -> (r: Result<IconThemeDefinition, ThemeError>)
        ensures
            match r {
                Ok(def) => manifest is Some && spec_parse_ini(manifest.unwrap()@) is Some
                    && def@ == spec_theme_def(
                    directory_name@,
                    root_path@,
                    spec_parse_ini(manifest.unwrap()@).unwrap(),
                ),
                Err(e) => match e {
                    ThemeError::NotATheme => manifest is None,
                    ThemeError::Unreadable => manifest is Some && spec_parse_ini(
                        manifest.unwrap()@,
                    ) is None,
                },
            },
    {
        let m: &String = match manifest {
            Some(m) => m,
            None => {
                return Err(ThemeError::NotATheme);
            },
        };
        let doc = match IniDoc::parse(m.as_str()) {
            Some(d) => d,
            None => {
                return Err(ThemeError::Unreadable);
            },
        };
        let ghost items = doc@;
        let dirs1 = parse_directory_list(doc.get("Icon Theme", "Directories").as_ref());
        let mut toks = dirs1;
        let mut dirs2 = parse_directory_list(
            doc.get("Icon Theme", "ScaledDirectories").as_ref(),
        );
        let ghost t1 = toks.deep_view();
        let ghost t2 = dirs2.deep_view();
        toks.append(&mut dirs2);
        proof {
            assert(toks.deep_view() =~= t1 + t2);
            assert(toks.deep_view() == spec_theme_dir_tokens(items));
        }
        let ghost toksv = toks.deep_view();
        let mut directories: Vec<ThemeDirectory> = Vec::new();
        let nt = toks.len();
        let mut i: usize = 0;
        proof {
            assert(directories.deep_view() =~= Seq::<ThemeDirV>::empty());
            assert(Seq::<ThemeDirV>::empty() + spec_dirs_from(items, toksv, 0) =~= spec_dirs_from(
                items,
                toksv,
                0,
            ));
        }
        while i < nt
            invariant
                0 <= i <= nt,
                nt == toks.len(),
                toksv == toks.deep_view(),
                items == doc@,
                spec_dirs_from(items, toksv, 0) == directories.deep_view() + spec_dirs_from(
                    items,
                    toksv,
                    i as int,
                ),
            decreases nt - i,
        {
            let ghost prev = directories.deep_view();
            let tok: &String = &toks[i];
            assert(tok@ == toksv[i as int]);
            if doc.has_section(tok.as_str()) {
                let d = parse_directory_section(&doc, tok.as_str());
                directories.push(d);
                proof {
                    assert(directories.deep_view() =~= prev + seq![
                        spec_dir_section(items, toksv[i as int]),
                    ]);
                    assert(prev + seq![spec_dir_section(items, toksv[i as int])]
                        + spec_dirs_from(items, toksv, i + 1) =~= prev + spec_dirs_from(
                        items,
                        toksv,
                        i as int,
                    ));
                }
            }
            i = i + 1;
        }
        proof {
            assert(directories.deep_view() + Seq::<ThemeDirV>::empty() =~= directories.deep_view());
        }
        let name = match doc.get("Icon Theme", "Name") {
            Some(n) => n,
            None => String::from_str(directory_name),
        };
        let inherits = parse_directory_list_from_opt(doc.get("Icon Theme", "Inherits"));
        Ok(
            IconThemeDefinition {
                directory_name: String::from_str(directory_name),
                name,
                inherits,
                directories,
                root_path: String::from_str(root_path),
            },
        )
    }
}

/// Whether a directory rule serves a requested pixel size: Fixed matches
/// exactly, Scaled matches between its bounds, Threshold matches within
/// its distance (2 when unspecified); absent fields impose no constraint.
pub open spec fn spec_matches_size(d: ThemeDirV, s: u32) -> bool {
    match d.dir_type {
        DirectoryType::Fixed => match d.size {
            Some(x) => x == s,
            None => true,
        },
        DirectoryType::Scaled => (match d.min_size {
            Some(m) => s >= m,
            None => true,
        }) && (match d.max_size {
            Some(m) => s <= m,
            None => true,
        }),
        DirectoryType::Threshold => match d.size {
            Some(x) => {
                let t = match d.threshold {
                    Some(t) => t as int,
                    None => 2,
                };
                -t <= s - x <= t
            },
            None => true,
        },
    }
}

impl ThemeDirectory {
    /// Whether this directory serves icons of the requested size.
    pub fn matches_size(&self, size: u32) -> (r: bool)
        ensures
            r == spec_matches_size(self@, size),
    {
        match self.dir_type {
            DirectoryType::Fixed => match self.size {
                Some(x) => x == size,
                None => true,
            },
            DirectoryType::Scaled => {
                let lo = match self.min_size {
                    Some(m) => size >= m,
                    None => true,
                };
                let hi = match self.max_size {
                    Some(m) => size <= m,
                    None => true,
                };
                lo && hi
            },
            DirectoryType::Threshold => match self.size {
                Some(x) => {
                    let t = match self.threshold {
                        Some(t) => t,
                        None => 2,
                    };
                    if size >= x {
                        size - x <= t
                    } else {
                        x - size <= t
                    }
                },
                None => true,
            },
        }
    }
}

/// The file name probed inside one directory: `key/icon.ext`.
pub open spec fn spec_candidate(key: Seq<char>, icon: Seq<char>, ext: Seq<char>) -> Seq<char> {
    key + seq!['/'] + icon + seq!['.'] + ext
}

/// What one directory yields for a lookup: with a matching size, the
/// first present candidate in the priority order svg, png, xpm.
pub open spec fn spec_dir_pick(
    d: ThemeDirV,
    files: Seq<Seq<char>>,
    icon: Seq<char>,
    size: u32,
) -> Option<Seq<char>> {
    if spec_matches_size(d, size) {
        if files.contains(spec_candidate(d.key, icon, "svg"@)) {
            Some(spec_candidate(d.key, icon, "svg"@))
        } else if files.contains(spec_candidate(d.key, icon, "png"@)) {
            Some(spec_candidate(d.key, icon, "png"@))
        } else if files.contains(spec_candidate(d.key, icon, "xpm"@)) {
            Some(spec_candidate(d.key, icon, "xpm"@))
        } else {
            None
        }
    } else {
        None
    }
}

/// The first directory pick from `i` on, in manifest order.
pub open spec fn spec_resolve_from(
    dirs: Seq<ThemeDirV>,
    files: Seq<Seq<char>>,
    icon: Seq<char>,
    size: u32,
    i: int,
) -> Option<Seq<char>>
    decreases dirs.len() - i,
    when 0 <= i <= dirs.len()
{
    if i >= dirs.len() {
        None
    } else {
        match spec_dir_pick(dirs[i], files, icon, size) {
            Some(p) => Some(p),
            None => spec_resolve_from(dirs, files, icon, size, i + 1),
        }
    }
}

/// Looks an icon up in a theme: given the relative paths of the files
/// under the theme folder, yields the absolute path of the first
/// candidate accepted by the directory rules, in manifest order and
/// svg-png-xpm priority, or nothing when no directory serves the size
/// with a present file.
pub fn resolve_icon_path(
    theme: &IconThemeDefinition,
    files: &Vec<String>,
    icon_name: &str,
    size: u32,
) -> (r: Option<String>)
    ensures
        opt_str_view(r) == match spec_resolve_from(
            theme@.directories,
            files.deep_view(),
            icon_name@,
            size,
            0,
        ) {
            Some(rel) => Some(theme@.root_path + seq!['/'] + rel),
            None => None::<Seq<char>>,
        },
{
    let nd = theme.directories.len();
    let mut i: usize = 0;
    while i < nd
        invariant
            0 <= i <= nd,
            nd == theme.directories.len(),
            spec_resolve_from(theme@.directories, files.deep_view(), icon_name@, size, 0)
                == spec_resolve_from(
                theme@.directories,
                files.deep_view(),
                icon_name@,
                size,
                i as int,
            ),
        decreases nd - i,
    {
        let d = &theme.directories[i];
        assert(d@ == theme@.directories[i as int]);
        if d.matches_size(size) {
            let stem = ext_join(icon_name, "svg");
            let cand_svg = path_join(d.key.as_str(), stem.as_str());
            let stem = ext_join(icon_name, "png");
            let cand_png = path_join(d.key.as_str(), stem.as_str());
            let stem = ext_join(icon_name, "xpm");
            let cand_xpm = path_join(d.key.as_str(), stem.as_str());
            proof {
                assert(cand_svg@ =~= spec_candidate(d@.key, icon_name@, "svg"@));
                assert(cand_png@ =~= spec_candidate(d@.key, icon_name@, "png"@));
                assert(cand_xpm@ =~= spec_candidate(d@.key, icon_name@, "xpm"@));
            }
            let hit: Option<String> = if vec_contains_str(files, cand_svg.as_str()) {
                Some(cand_svg)
            } else if vec_contains_str(files, cand_png.as_str()) {
                Some(cand_png)
            } else if vec_contains_str(files, cand_xpm.as_str()) {
                Some(cand_xpm)
            } else {
                None
            };
            match hit {
                Some(rel) => {
                    let full = path_join(theme.root_path.as_str(), rel.as_str());
                    return Some(full);
                },
                None => {},
            }
        }
        i = i + 1;
    }
    None
}

/// A resolved path is justified: it names a file that stands in the
/// listing, found under a directory whose rule accepts the requested
/// size.
pub proof fn lemma_resolve_sound(
    dirs: Seq<ThemeDirV>,
    files: Seq<Seq<char>>,
    icon: Seq<char>,
    size: u32,
    i: int,
)
    requires
        0 <= i <= dirs.len(),
        spec_resolve_from(dirs, files, icon, size, i) is Some,
    ensures
        exists|d: int|
            i <= d < dirs.len() && spec_matches_size(#[trigger] dirs[d], size) && files.contains(
                spec_resolve_from(dirs, files, icon, size, i).unwrap(),
            ),
    decreases dirs.len() - i,
{
    if spec_dir_pick(dirs[i], files, icon, size) is Some {
        assert(spec_matches_size(dirs[i], size));
    } else {
        lemma_resolve_sound(dirs, files, icon, size, i + 1);
        let d = choose|d: int|
            (i + 1) <= d < dirs.len() && spec_matches_size(#[trigger] dirs[d], size)
                && files.contains(spec_resolve_from(dirs, files, icon, size, i + 1).unwrap());
        assert(spec_matches_size(dirs[d], size));
    }
}

/// Lookup misses nothing: when some directory rule accepts the size and
/// one of its probed candidates stands in the listing, a path comes
/// back.
pub proof fn lemma_resolve_finds(
    dirs: Seq<ThemeDirV>,
    files: Seq<Seq<char>>,
    icon: Seq<char>,
    size: u32,
    i: int,
    d: int,
)
    requires
        0 <= i <= d < dirs.len(),
        spec_dir_pick(dirs[d], files, icon, size) is Some,
    ensures
        spec_resolve_from(dirs, files, icon, size, i) is Some,
    decreases dirs.len() - i,
{
    if i < d && spec_dir_pick(dirs[i], files, icon, size) is None {
        lemma_resolve_finds(dirs, files, icon, size, i + 1, d);
    }
}

/// Parsing a manifest is deterministic: the definition read from a
/// candidate folder is a function of the folder's name and the manifest
/// bytes alone, so equal bytes give equal definitions field for field.
pub proof fn lemma_parse_deterministic(
    dirname: Seq<char>,
    root: Seq<char>,
    m1: Seq<char>,
    m2: Seq<char>,
)
    requires
        m1 == m2,
    ensures
        spec_parse_ini(m1) == spec_parse_ini(m2),
        spec_parse_ini(m1) is Some ==> spec_theme_def(dirname, root, spec_parse_ini(m1).unwrap())
            == spec_theme_def(dirname, root, spec_parse_ini(m2).unwrap()),
{
}

} // verus!
