//! The icon catalog: indexing every icon file found under a set of theme
//! folders by its bare name, with the format and directory rule of each
//! variant.
//!
//! The filesystem is handed in as plain values: each candidate theme
//! folder comes with its path, its basename, the content of its manifest
//! when one exists, and the relative paths of the files below it.

use vstd::prelude::*;
use vstd::string::*;

use crate::icon_theme::{
    IconThemeDefinition, ThemeDefV, ThemeDirV, ThemeDirectory, ThemeError,
};
use crate::ini::{opt_str_view, spec_parse_ini};
use crate::text::{
    find_last, find_sep, last_ix, lemma_last_ix, lemma_next_sep, lower_of, lowercase,
    next_sep, path_join, spec_starts_with, starts_with_str, str_eq, vec_contains_str,
};

verus! {

/// The file format of one icon variant, told by its extension.
#[derive(Clone, Copy, PartialEq, Eq, Debug, Structural)]
pub enum IconFormat {
    Png,
    Svg,
    Xpm,
    Other,
}

/// The format named by an optional file extension, compared without
/// regard to ASCII case; anything else is Other.
pub open spec fn spec_format_of_ext(o: Option<Seq<char>>) -> IconFormat {
    match o {
        None => IconFormat::Other,
        Some(e) => if e.len() == 3 && (e[0] == 'p' || e[0] == 'P') && (e[1] == 'n' || e[1] == 'N')
            && (e[2] == 'g' || e[2] == 'G') {
            IconFormat::Png
        } else if e.len() == 3 && (e[0] == 's' || e[0] == 'S') && (e[1] == 'v' || e[1] == 'V') && (
        e[2] == 'g' || e[2] == 'G') {
            IconFormat::Svg
        } else if e.len() == 3 && (e[0] == 'x' || e[0] == 'X') && (e[1] == 'p' || e[1] == 'P') && (
        e[2] == 'm' || e[2] == 'M') {
            IconFormat::Xpm
        } else {
            IconFormat::Other
        },
    }
}

impl IconFormat {
    /// The format told by an optional file extension.
    pub fn from_extension(ext: Option<&String>) -> (r: IconFormat)
        ensures
            r == spec_format_of_ext(
                match ext {
                    Some(e) => Some(e@),
                    None => None,
                },
            ),
    {
        match ext {
            None => IconFormat::Other,
            Some(e) => {
                let s = e.as_str();
                if s.unicode_len() != 3 {
                    return IconFormat::Other;
                }
                let c0 = s.get_char(0);
                let c1 = s.get_char(1);
                let c2 = s.get_char(2);
                if (c0 == 'p' || c0 == 'P') && (c1 == 'n' || c1 == 'N') && (c2 == 'g' || c2
                    == 'G') {
                    IconFormat::Png
                } else if (c0 == 's' || c0 == 'S') && (c1 == 'v' || c1 == 'V') && (c2 == 'g' || c2
                    == 'G') {
                    IconFormat::Svg
                } else if (c0 == 'x' || c0 == 'X') && (c1 == 'p' || c1 == 'P') && (c2 == 'm' || c2
                    == 'M') {
                    IconFormat::Xpm
                } else {
                    IconFormat::Other
                }
            },
        }
    }
}

/// The file name after the last slash.
pub open spec fn spec_basename(f: Seq<char>) -> Seq<char> {
    f.subrange(last_ix(f, '/') + 1, f.len() as int)
}

/// The name before the last dot of a file name; a dot in first position
/// starts no extension.
pub open spec fn spec_stem_of(b: Seq<char>) -> Seq<char> {
    let p = last_ix(b, '.');
    if p > 0 {
        b.subrange(0, p)
    } else {
        b
    }
}

/// The extension after the last dot of a file name, when one exists.
pub open spec fn spec_ext_of(b: Seq<char>) -> Option<Seq<char>> {
    let p = last_ix(b, '.');
    if p > 0 {
        Some(b.subrange(p + 1, b.len() as int))
    } else {
        None
    }
}

/// Splits a relative path into the stem and the extension of its file
/// name.
pub fn split_file_name(f: &str) -> (r: (String, Option<String>))
    ensures
        r.0@ == spec_stem_of(spec_basename(f@)),
        opt_str_view(r.1) == spec_ext_of(spec_basename(f@)),
{
    let n = f.unicode_len();
    proof {
        lemma_last_ix(f@, '/');
    }
    let b: &str = match find_last(f, '/') {
        Some(ix) => f.substring_char(ix + 1, n),
        None => f.substring_char(0, n),
    };
    proof {
        assert(f@.subrange(0, n as int) =~= f@);
        assert(b@ == spec_basename(f@));
    }
    let bn = b.unicode_len();
    match find_last(b, '.') {
        Some(p) => {
            proof {
                lemma_last_ix(b@, '.');
            }
            if p > 0 {
                (
                    String::from_str(b.substring_char(0, p)),
                    Some(String::from_str(b.substring_char(p + 1, bn))),
                )
            } else {
                (String::from_str(b), None)
            }
        },
        None => (String::from_str(b), None),
    }
}

/// One discovered file backing one icon name in one theme.
pub struct IconVariant {
    pub theme_name: String,
    pub directory: ThemeDirectory,
    pub path: String,
    pub format: IconFormat,
}

/// Spec-level counterpart of `IconVariant`.
pub struct VariantV {
    pub theme_name: Seq<char>,
    pub directory: ThemeDirV,
    pub path: Seq<char>,
    pub format: IconFormat,
}

impl View for IconVariant {
    type V = VariantV;

    open spec fn view(&self) -> VariantV {
        VariantV {
            theme_name: self.theme_name@,
            directory: self.directory@,
            path: self.path@,
            format: self.format,
        }
    }
}

impl DeepView for IconVariant {
    type V = VariantV;

    open spec fn deep_view(&self) -> VariantV {
        self.view()
    }
}

/// All variants collected for one icon name.
pub struct IconMetadata {
    pub name: String,
    pub variants: Vec<IconVariant>,
}

/// Spec-level counterpart of `IconMetadata`.
pub struct IconMetaV {
    pub name: Seq<char>,
    pub variants: Seq<VariantV>,
}

impl View for IconMetadata {
    type V = IconMetaV;

    open spec fn view(&self) -> IconMetaV {
        IconMetaV { name: self.name@, variants: self.variants.deep_view() }
    }
}

impl DeepView for IconMetadata {
    type V = IconMetaV;

    open spec fn deep_view(&self) -> IconMetaV {
        self.view()
    }
}

/// The catalog of every discovered icon, keyed by bare name; an entry is
/// created on the first sighting of a name and never removed.
pub struct IconCatalog {
    pub icons: Vec<IconMetadata>,
}

impl View for IconCatalog {
    type V = Seq<IconMetaV>;

    open spec fn view(&self) -> Seq<IconMetaV> {
        self.icons.deep_view()
    }
}

/// The position of an icon name in the catalog, `-1` when absent.
pub open spec fn find_icon(cat: Seq<IconMetaV>, name: Seq<char>) -> int
    decreases cat.len(),
{
    if cat.len() == 0 {
        -1
    } else if cat[0].name == name {
        0
    } else {
        let r = find_icon(cat.drop_first(), name);
        if r < 0 {
            -1
        } else {
            r + 1
        }
    }
}

pub proof fn lemma_find_icon(cat: Seq<IconMetaV>, name: Seq<char>)
    ensures
        -1 <= find_icon(cat, name) < cat.len(),
        find_icon(cat, name) >= 0 ==> cat[find_icon(cat, name)].name == name,
        forall|k: int|
            0 <= k < cat.len() && (k < find_icon(cat, name) || find_icon(cat, name) < 0)
                ==> (#[trigger] cat[k]).name != name,
    decreases cat.len(),
{
    if cat.len() > 0 && cat[0].name != name {
        lemma_find_icon(cat.drop_first(), name);
        let r = find_icon(cat, name);
        assert forall|k: int|
            0 <= k < cat.len() && (k < r || r < 0) implies (#[trigger] cat[k]).name
            != name by {
            if k > 0 {
                assert(cat.drop_first()[k - 1] == cat[k]);
            }
        }
    }
}

/// The catalog after one sighting of `name`: a new entry with one
/// variant, or the variant appended to the entry already holding the
/// name.
pub open spec fn spec_add_variant(cat: Seq<IconMetaV>, name: Seq<char>, v: VariantV) -> Seq<
    IconMetaV,
> {
    let j = find_icon(cat, name);
    if j < 0 {
        cat.push(IconMetaV { name, variants: seq![v] })
    } else {
        cat.update(j, IconMetaV { name: cat[j].name, variants: cat[j].variants.push(v) })
    }
}

/// Records one variant under its icon name.
fn add_variant(icons: &mut Vec<IconMetadata>, name: &str, v: IconVariant)
    ensures
        final(icons).deep_view() == spec_add_variant(old(icons).deep_view(), name@, v@),
{
    let ghost dv = icons.deep_view();
    let n = icons.len();
    let mut i: usize = 0;
    while i < n
        invariant
            0 <= i <= n,
            n == icons.len(),
            dv == icons.deep_view(),
            dv == old(icons).deep_view(),
            icons == old(icons),
            forall|k: int| 0 <= k < i ==> (#[trigger] dv[k]).name != name@,
        decreases n - i,
    {
        assert(dv[i as int] == icons[i as int]@);
        if str_eq(icons[i].name.as_str(), name) {
            proof {
                lemma_find_icon(dv, name@);
                assert(find_icon(dv, name@) == i);
            }
            let ghost before = icons@;
            let ghost vv = v@;
            icons[i].variants.push(v);
            proof {
                let m2 = IconMetaV {
                    name: dv[i as int].name,
                    variants: dv[i as int].variants.push(vv),
                };
                assert(icons@[i as int].variants.deep_view() =~= dv[i as int].variants.push(vv));
                assert(icons.deep_view()[i as int] == m2);
                assert(icons.deep_view() =~= dv.update(i as int, m2));
            }
            return;
        }
        i = i + 1;
    }
    proof {
        lemma_find_icon(dv, name@);
        assert(find_icon(dv, name@) < 0);
    }
    let mut vs: Vec<IconVariant> = Vec::new();
    vs.push(v);
    icons.push(IconMetadata { name: String::from_str(name), variants: vs });
    proof {
        assert(vs.deep_view() =~= seq![v@]);
        assert(icons.deep_view() =~= dv.push(IconMetaV { name: name@, variants: seq![v@] }));
    }
}

/// Whether a file under a theme folder contributes a variant for a
/// directory rule: it lies below the rule's key, its extension names a
/// known format, and its stem is non-empty.
pub open spec fn spec_file_contrib(d: ThemeDirV, f: Seq<char>) -> bool {
    &&& spec_starts_with(f, d.key + seq!['/'])
    &&& spec_format_of_ext(spec_ext_of(spec_basename(f))) != IconFormat::Other
    &&& spec_stem_of(spec_basename(f)).len() > 0
}

/// The variant a contributing file yields.
pub open spec fn spec_variant_of(
    tname: Seq<char>,
    root: Seq<char>,
    d: ThemeDirV,
    f: Seq<char>,
) -> VariantV {
    VariantV {
        theme_name: tname,
        directory: d,
        path: root + seq!['/'] + f,
        format: spec_format_of_ext(spec_ext_of(spec_basename(f))),
    }
}

/// The catalog after the files from `i` on are sighted for one directory
/// rule.
pub open spec fn spec_scan_files(
    cat: Seq<IconMetaV>,
    tname: Seq<char>,
    root: Seq<char>,
    d: ThemeDirV,
    files: Seq<Seq<char>>,
    i: int,
) -> Seq<IconMetaV>
    decreases files.len() - i,
    when 0 <= i <= files.len()
{
    if i >= files.len() {
        cat
    } else {
        let c2 = if spec_file_contrib(d, files[i]) {
            spec_add_variant(
                cat,
                spec_stem_of(spec_basename(files[i])),
                spec_variant_of(tname, root, d, files[i]),
            )
        } else {
            cat
        };
        spec_scan_files(c2, tname, root, d, files, i + 1)
    }
}

/// The catalog after the directory rules from `i` on are each scanned
/// over the whole file list.
pub open spec fn spec_scan_dirs(
    cat: Seq<IconMetaV>,
    tname: Seq<char>,
    root: Seq<char>,
    dirs: Seq<ThemeDirV>,
    files: Seq<Seq<char>>,
    i: int,
) -> Seq<IconMetaV>
    decreases dirs.len() - i,
    when 0 <= i <= dirs.len()
{
    if i >= dirs.len() {
        cat
    } else {
        spec_scan_dirs(
            spec_scan_files(cat, tname, root, dirs[i], files, 0),
            tname,
            root,
            dirs,
            files,
            i + 1,
        )
    }
}

/// The catalog after one whole theme is scanned.
pub open spec fn spec_scan_theme(cat: Seq<IconMetaV>, t: ThemeDefV, files: Seq<Seq<char>>) -> Seq<
    IconMetaV,
> {
    spec_scan_dirs(cat, t.name, t.root_path, t.directories, files, 0)
}

/// Scans one theme: every file below a resolved directory whose
/// extension names a known format is recorded under its bare stem.
pub fn scan_theme(
    theme: &IconThemeDefinition,
    files: &Vec<String>,
    catalog: &mut Vec<IconMetadata>,
)
    ensures
        final(catalog).deep_view() == spec_scan_theme(
            old(catalog).deep_view(),
            theme@,
            files.deep_view(),
        ),
{
    let ghost goal = spec_scan_theme(catalog.deep_view(), theme@, files.deep_view());
    let ghost tname = theme@.name;
    let ghost root = theme@.root_path;
    let ghost dirsv = theme@.directories;
    let ghost filesv = files.deep_view();
    let nd = theme.directories.len();
    let nf = files.len();
    let mut di: usize = 0;
    while di < nd
        invariant
            0 <= di <= nd,
            nd == theme.directories.len(),
            nf == files.len(),
            tname == theme@.name,
            root == theme@.root_path,
            dirsv == theme@.directories,
            filesv == files.deep_view(),
            spec_scan_dirs(catalog.deep_view(), tname, root, dirsv, filesv, di as int) == goal,
        decreases nd - di,
    {
        let d = &theme.directories[di];
        assert(d@ == dirsv[di as int]);
        let pre = path_join(d.key.as_str(), "");
        proof {
            reveal_strlit("");
            assert(pre@ =~= d@.key + seq!['/']);
        }
        let mut fi: usize = 0;
        while fi < nf
            invariant
                0 <= fi <= nf,
                0 <= di < nd,
                nd == theme.directories.len(),
                nf == files.len(),
                tname == theme@.name,
                root == theme@.root_path,
                dirsv == theme@.directories,
                filesv == files.deep_view(),
                d == &theme.directories[di as int],
                d@ == dirsv[di as int],
                pre@ == d@.key + seq!['/'],
                spec_scan_dirs(
                    spec_scan_files(catalog.deep_view(), tname, root, dirsv[di as int], filesv,
                    fi as int),
                    tname,
                    root,
                    dirsv,
                    filesv,
                    di + 1,
                ) == goal,
            decreases nf - fi,
        {
            let ghost cur = catalog.deep_view();
            let f: &String = &files[fi];
            assert(f@ == filesv[fi as int]);
            if starts_with_str(f.as_str(), pre.as_str()) {
                let (stem, ext) = split_file_name(f.as_str());
                let fmt = IconFormat::from_extension(ext.as_ref());
                proof {
                    assert(opt_str_view(ext) == spec_ext_of(spec_basename(f@)));
                    assert(fmt == spec_format_of_ext(spec_ext_of(spec_basename(f@))));
                }
                if fmt != IconFormat::Other && stem.as_str().unicode_len() > 0 {
                    let v = IconVariant {
                        theme_name: theme.name.clone(),
                        directory: d.clone(),
                        path: path_join(theme.root_path.as_str(), f.as_str()),
                        format: fmt,
                    };
                    proof {
                        assert(v@.path =~= root + seq!['/'] + filesv[fi as int]);
                        assert(v@ == spec_variant_of(tname, root, dirsv[di as int], filesv[
                            fi as int
                        ]));
                        assert(spec_file_contrib(dirsv[di as int], filesv[fi as int]));
                    }
                    add_variant(catalog, stem.as_str(), v);
                } else {
                    proof {
                        assert(!spec_file_contrib(dirsv[di as int], filesv[fi as int]));
                    }
                }
            } else {
                proof {
                    assert(!spec_file_contrib(dirsv[di as int], filesv[fi as int]));
                }
            }
            fi = fi + 1;
        }
        di = di + 1;
    }
}

/// What was found on disk for one candidate theme folder: its path, its
/// basename, the content of its manifest file when one exists, and the
/// relative paths of all files below it.
pub struct ThemeCandidate {
    pub path: String,
    pub directory_name: String,
    pub manifest: Option<String>,
    pub files: Vec<String>,
}

/// Spec-level counterpart of `ThemeCandidate`.
pub struct CandidateV {
    pub path: Seq<char>,
    pub directory_name: Seq<char>,
    pub manifest: Option<Seq<char>>,
    pub files: Seq<Seq<char>>,
}

impl View for ThemeCandidate {
    type V = CandidateV;

    open spec fn view(&self) -> CandidateV {
        CandidateV {
            path: self.path@,
            directory_name: self.directory_name@,
            manifest: opt_str_view(self.manifest),
            files: self.files.deep_view(),
        }
    }
}

impl DeepView for ThemeCandidate {
    type V = CandidateV;

    open spec fn deep_view(&self) -> CandidateV {
        self.view()
    }
}

/// Whether an earlier candidate already has this one's path.
pub open spec fn spec_dup(cands: Seq<CandidateV>, i: int) -> bool {
    exists|j: int| 0 <= j < i && (#[trigger] cands[j]).path == cands[i].path
}

/// Whether a theme passes an optional name filter: it does when no
/// filter was given, or when the filter equals the display name or the
/// folder name under case folding.
pub open spec fn spec_filter_ok(t: ThemeDefV, filter: Option<Seq<char>>) -> bool {
    match filter {
        None => true,
        Some(f) => lower_of(t.name) == lower_of(f) || lower_of(t.directory_name) == lower_of(f),
    }
}

/// What one candidate adds to the catalog: nothing without a readable
/// manifest or against the filter, else the scan of its theme.
pub open spec fn spec_process(
    cat: Seq<IconMetaV>,
    c: CandidateV,
    filter: Option<Seq<char>>,
) -> Seq<IconMetaV> {
    match c.manifest {
        None => cat,
        Some(m) => match spec_parse_ini(m) {
            None => cat,
            Some(items) => {
                let t = crate::icon_theme::spec_theme_def(c.directory_name, c.path, items);
                if spec_filter_ok(t, filter) {
                    spec_scan_theme(cat, t, c.files)
                } else {
                    cat
                }
            },
        },
    }
}

/// The catalog after the candidates from `i` on, each processed once:
/// a candidate whose path already occurred is skipped.
pub open spec fn spec_discover_from(
    cands: Seq<CandidateV>,
    filter: Option<Seq<char>>,
    cat: Seq<IconMetaV>,
    i: int,
) -> Seq<IconMetaV>
    decreases cands.len() - i,
    when 0 <= i <= cands.len()
{
    if i >= cands.len() {
        cat
    } else {
        let c2 = if spec_dup(cands, i) {
            cat
        } else {
            spec_process(cat, cands[i], filter)
        };
        spec_discover_from(cands, filter, c2, i + 1)
    }
}

/// The catalog accumulated over a candidate list, in first-sighting
/// order, before the final sort.
pub open spec fn spec_discover(cands: Seq<CandidateV>, filter: Option<Seq<char>>) -> Seq<
    IconMetaV,
> {
    spec_discover_from(cands, filter, Seq::<IconMetaV>::empty(), 0)
}

/// The whole discovered catalog: the accumulated entries, sorted
/// ascending by icon name.
pub open spec fn spec_catalog(cands: Seq<CandidateV>, filter: Option<Seq<char>>) -> Seq<
    IconMetaV,
> {
    crate::sorting::spec_sort_from(spec_discover(cands, filter), 0, crate::sorting::meta_le())
}

impl IconCatalog {
    /// Builds the catalog over every candidate theme folder: each folder
    /// is parsed, folders whose path occurred before are skipped, a
    /// folder without a readable manifest is skipped, an optional filter
    /// keeps only themes whose display or folder name equals it under
    /// case folding, and every surviving theme is scanned. The entries
    /// come out sorted ascending by icon name.
    pub fn discover(candidates: &Vec<ThemeCandidate>, theme_hint: Option<&String>) -> (r:
        IconCatalog)
        ensures
            r@ == spec_catalog(
                candidates.deep_view(),
                match theme_hint {
                    Some(h) => Some(h@),
                    None => None,
                },
            ),
            crate::sorting::spec_sorted(r@, crate::sorting::meta_le()),
    {
        let ghost candsv = candidates.deep_view();
        let ghost filt: Option<Seq<char>> = match theme_hint {
            Some(h) => Some(h@),
            None => None,
        };
        let mut icons: Vec<IconMetadata> = Vec::new();
        let mut seen: Vec<String> = Vec::new();
        let nc = candidates.len();
        let mut i: usize = 0;
        proof {
            assert(icons.deep_view() =~= Seq::<IconMetaV>::empty());
        }
        while i < nc
            invariant
                0 <= i <= nc,
                nc == candidates.len(),
                candsv == candidates.deep_view(),
                filt == match theme_hint {
                    Some(h) => Some(h@),
                    None => None,
                },
                forall|p: Seq<char>|
                    seen.deep_view().contains(p) <==> exists|j: int|
                        0 <= j < i && (#[trigger] candsv[j]).path == p,
                spec_discover_from(candsv, filt, icons.deep_view(), i as int) == spec_discover(
                    candsv,
                    filt,
                ),
            decreases nc - i,
        {
            let c = &candidates[i];
            assert(c@ == candsv[i as int]);
            let ghost seenv = seen.deep_view();
            let dup = vec_contains_str(&seen, c.path.as_str());
            proof {
                assert(dup == spec_dup(candsv, i as int));
            }
            if !dup {
                seen.push(c.path.clone());
                proof {
                    let sv2 = seen.deep_view();
                    assert(sv2 =~= seenv.push(c@.path));
                    assert forall|p: Seq<char>|
                        sv2.contains(p) <==> exists|j: int|
                            0 <= j < i + 1 && (#[trigger] candsv[j]).path == p by {
                        if sv2.contains(p) {
                            let k = choose|k: int| 0 <= k < sv2.len() && sv2[k] == p;
                            if k < seenv.len() {
                                assert(seenv[k] == p);
                                assert(seenv.contains(p));
                            } else {
                                assert(candsv[i as int].path == p);
                            }
                        }
                        if exists|j: int| 0 <= j < i + 1 && (#[trigger] candsv[j]).path == p {
                            let j = choose|j: int|
                                0 <= j < i + 1 && (#[trigger] candsv[j]).path == p;
                            if j < i {
                                assert(seenv.contains(p));
                                let k = choose|k: int| 0 <= k < seenv.len() && seenv[k] == p;
                                assert(sv2[k] == p);
                            } else {
                                assert(sv2[seenv.len() as int] == p);
                            }
                            assert(sv2.contains(p));
                        }
                    }
                }
                match IconThemeDefinition::load_from_directory(
                    c.path.as_str(),
                    c.directory_name.as_str(),
                    c.manifest.as_ref(),
                ) {
                    Ok(theme) => {
                        let keep: bool = match theme_hint {
                            None => true,
                            Some(f) => {
                                let lf = lowercase(f.as_str());
                                let ln = lowercase(theme.name.as_str());
                                let ld = lowercase(theme.directory_name.as_str());
                                str_eq(ln.as_str(), lf.as_str()) || str_eq(
                                    ld.as_str(),
                                    lf.as_str(),
                                )
                            },
                        };
                        proof {
                            assert(keep == spec_filter_ok(theme@, filt));
                        }
                        if keep {
                            scan_theme(&theme, &c.files, &mut icons);
                        }
                    },
                    Err(_) => {},
                }
            }
            i = i + 1;
        }
        let icons = crate::sorting::sort_metas_by_name(icons);
        proof {
            crate::sorting::lemma_name_le_laws();
            crate::sorting::lemma_sort_from_sorted(
                spec_discover(candsv, filt),
                0,
                crate::sorting::meta_le(),
            );
        }
        IconCatalog { icons }
    }

    /// The collected entries, one per icon name.
    pub fn iter(&self) -> (r: &Vec<IconMetadata>)
        ensures
            r.deep_view() == self@,
    {
        &self.icons
    }
}

/// The `icons` folder under each non-empty piece of a colon-separated
/// directory list, from `i` on.
pub open spec fn spec_xdg_from(s: Seq<char>, i: int) -> Seq<Seq<char>>
    decreases s.len() - i,
    when 0 <= i <= s.len()
{
    proof {
        lemma_next_sep(s, ':', i);
    }
    let j = next_sep(s, ':', i);
    let piece = s.subrange(i, j);
    let rest = if j == s.len() {
        Seq::<Seq<char>>::empty()
    } else {
        spec_xdg_from(s, j + 1)
    };
    if piece.len() > 0 {
        seq![piece + "/icons"@] + rest
    } else {
        rest
    }
}

/// The ordered candidate theme roots, before any look at the disk: the
/// per-user icon folders, the data-home icons folder, the icons folder
/// under each entry of the system data directories (with fixed fallbacks
/// when that variable is absent), and the pixmaps folder last.
pub open spec fn spec_base_dir_candidates(
    home: Option<Seq<char>>,
    xdg_data_home: Option<Seq<char>>,
    xdg_data_dirs: Option<Seq<char>>,
) -> Seq<Seq<char>> {
    (match home {
        Some(h) => seq![h + "/.local/share/icons"@, h + "/.icons"@],
        None => Seq::<Seq<char>>::empty(),
    }) + (match xdg_data_home {
        Some(x) => seq![x + "/icons"@],
        None => Seq::<Seq<char>>::empty(),
    }) + (match xdg_data_dirs {
        Some(xs) => spec_xdg_from(xs, 0),
        None => seq!["/usr/local/share/icons"@, "/usr/share/icons"@],
    }) + seq!["/usr/share/pixmaps"@]
}

/// Builds the ordered candidate theme roots from the environment values
/// the caller read.
pub fn base_dir_candidates(
    home: Option<&String>,
    xdg_data_home: Option<&String>,
    xdg_data_dirs: Option<&String>,
) -> (r: Vec<String>)
    ensures
        r.deep_view() == spec_base_dir_candidates(
            match home {
                Some(h) => Some(h@),
                None => None,
            },
            match xdg_data_home {
                Some(x) => Some(x@),
                None => None,
            },
            match xdg_data_dirs {
                Some(x) => Some(x@),
                None => None,
            },
        ),
{
    let mut out: Vec<String> = Vec::new();
    proof {
        assert(out.deep_view() =~= Seq::<Seq<char>>::empty());
    }
    match home {
        Some(h) => {
            out.push(String::from_str(h.as_str()).concat("/.local/share/icons"));
            out.push(String::from_str(h.as_str()).concat("/.icons"));
            proof {
                assert(out.deep_view() =~= seq![h@ + "/.local/share/icons"@, h@ + "/.icons"@]);
            }
        },
        None => {},
    }
    let ghost g1 = out.deep_view();
    match xdg_data_home {
        Some(x) => {
            out.push(String::from_str(x.as_str()).concat("/icons"));
            proof {
                assert(out.deep_view() =~= g1 + seq![x@ + "/icons"@]);
            }
        },
        None => {
            proof {
                assert(out.deep_view() =~= g1 + Seq::<Seq<char>>::empty());
            }
        },
    }
    let ghost mid = out.deep_view();
    match xdg_data_dirs {
        Some(xs) => {
            let s = xs.as_str();
            let n = s.unicode_len();
            let mut i: usize = 0;
            let mut done = false;
            while !done
                invariant
                    0 <= i <= n,
                    n == s@.len(),
                    !done ==> out.deep_view() + spec_xdg_from(s@, i as int) == mid
                        + spec_xdg_from(s@, 0),
                    done ==> out.deep_view() == mid + spec_xdg_from(s@, 0),
                decreases n - i + (if done { 0int } else { 1int }),
            {
                let ghost prev = out.deep_view();
                let j = find_sep(s, ':', i);
                proof {
                    lemma_next_sep(s@, ':', i as int);
                }
                if j > i {
                    let piece = s.substring_char(i, j);
                    out.push(String::from_str(piece).concat("/icons"));
                    proof {
                        assert(out.deep_view() =~= prev + seq![piece@ + "/icons"@]);
                    }
                }
                if j == n {
                    done = true;
                    proof {
                        assert(out.deep_view() + Seq::<Seq<char>>::empty() =~= out.deep_view());
                    }
                } else {
                    i = j + 1;
                }
            }
        },
        None => {
            out.push(String::from_str("/usr/local/share/icons"));
            out.push(String::from_str("/usr/share/icons"));
            proof {
                assert(out.deep_view() =~= mid + seq![
                    "/usr/local/share/icons"@,
                    "/usr/share/icons"@,
                ]);
            }
        },
    }
    let ghost g3 = out.deep_view();
    out.push(String::from_str("/usr/share/pixmaps"));
    proof {
        assert(out.deep_view() =~= g3 + seq!["/usr/share/pixmaps"@]);
    }
    proof {
        assert(out.deep_view() =~= spec_base_dir_candidates(
            match home {
                Some(h) => Some(h@),
                None => None,
            },
            match xdg_data_home {
                Some(x) => Some(x@),
                None => None,
            },
            match xdg_data_dirs {
                Some(x) => Some(x@),
                None => None,
            },
        ));
    }
    out
}

/// The roots kept from the candidates from `i` on: one that is absent on
/// disk or already kept is dropped, so each existing path is scanned
/// once, in first-seen order.
pub open spec fn spec_select_from(
    cands: Seq<Seq<char>>,
    present: Seq<bool>,
    acc: Seq<Seq<char>>,
    i: int,
) -> Seq<Seq<char>>
    decreases cands.len() - i,
    when 0 <= i <= cands.len() && cands.len() == present.len()
{
    if i >= cands.len() {
        acc
    } else {
        let acc2 = if present[i] && !acc.contains(cands[i]) {
            acc.push(cands[i])
        } else {
            acc
        };
        spec_select_from(cands, present, acc2, i + 1)
    }
}

/// Keeps, of the candidate roots, those present on disk, each once, in
/// order; `present` says for each candidate whether the caller found it.
pub fn select_roots(candidates: &Vec<String>, present: &Vec<bool>) -> (r: Vec<String>)
    requires
        candidates.len() == present.len(),
    ensures
        r.deep_view() == spec_select_from(
            candidates.deep_view(),
            present@,
            Seq::<Seq<char>>::empty(),
            0,
        ),
{
    let ghost cv = candidates.deep_view();
    let ghost ev = present@;
    let mut out: Vec<String> = Vec::new();
    let n = candidates.len();
    let mut i: usize = 0;
    proof {
        assert(out.deep_view() =~= Seq::<Seq<char>>::empty());
    }
    while i < n
        invariant
            0 <= i <= n,
            n == candidates.len(),
            n == present.len(),
            cv == candidates.deep_view(),
            ev == present@,
            spec_select_from(cv, ev, out.deep_view(), i as int) == spec_select_from(
                cv,
                ev,
                Seq::<Seq<char>>::empty(),
                0,
            ),
        decreases n - i,
    {
        let ghost prev = out.deep_view();
        assert(candidates[i as int]@ == cv[i as int]);
        if present[i] && !vec_contains_str(&out, candidates[i].as_str()) {
            out.push(candidates[i].clone());
            proof {
                assert(out.deep_view() =~= prev.push(cv[i as int]));
            }
        }
        i = i + 1;
    }
    out
}

/// Discovery is repeatable: over the same candidates with the same
/// filter, two runs yield catalogs with the same icon names and the same
/// variants for each name.
pub proof fn lemma_discover_repeatable(
    c1: Seq<IconMetaV>,
    c2: Seq<IconMetaV>,
    cands: Seq<CandidateV>,
    filter: Option<Seq<char>>,
)
    requires
        c1 == spec_catalog(cands, filter),
        c2 == spec_catalog(cands, filter),
    ensures
        c1 == c2,
        forall|k: int|
            0 <= k < c1.len() ==> (#[trigger] c1[k]).name == c2[k].name && c1[k].variants.len()
                == c2[k].variants.len(),
{
}

/// Discovery over a single theme folder composes as expected: with one
/// candidate whose manifest parses, the catalog is exactly the sorted
/// scan of that candidate's theme over its files — so what stands in
/// the catalog is settled by the scan lemmas alone.
pub proof fn lemma_discover_single(c: CandidateV)
    requires
        c.manifest is Some,
        spec_parse_ini(c.manifest.unwrap()) is Some,
    ensures
        spec_catalog(seq![c], None) == crate::sorting::spec_sort_from(
            spec_scan_theme(
                Seq::<IconMetaV>::empty(),
                crate::icon_theme::spec_theme_def(
                    c.directory_name,
                    c.path,
                    spec_parse_ini(c.manifest.unwrap()).unwrap(),
                ),
                c.files,
            ),
            0,
            crate::sorting::meta_le(),
        ),
{
    let cands = seq![c];
    assert(!spec_dup(cands, 0));
    assert(cands[0] == c);
    let t = crate::icon_theme::spec_theme_def(
        c.directory_name,
        c.path,
        spec_parse_ini(c.manifest.unwrap()).unwrap(),
    );
    let scanned = spec_scan_theme(Seq::<IconMetaV>::empty(), t, c.files);
    assert(spec_filter_ok(t, None));
    assert(spec_process(Seq::<IconMetaV>::empty(), c, None) == scanned);
    assert(spec_discover_from(cands, None, scanned, 1) == scanned);
    assert(spec_discover_from(cands, None, Seq::<IconMetaV>::empty(), 0) == scanned);
}

/// The discovered catalog is sorted ascending by icon name.
pub proof fn lemma_catalog_sorted(cands: Seq<CandidateV>, filter: Option<Seq<char>>)
    ensures
        crate::sorting::spec_sorted(spec_catalog(cands, filter), crate::sorting::meta_le()),
{
    crate::sorting::lemma_name_le_laws();
    crate::sorting::lemma_sort_from_sorted(
        spec_discover(cands, filter),
        0,
        crate::sorting::meta_le(),
    );
}

/// No variant of the catalog has the unknown format.
pub open spec fn cat_formats_ok(cat: Seq<IconMetaV>) -> bool {
    forall|k: int, l: int|
        0 <= k < cat.len() && 0 <= l < (#[trigger] cat[k]).variants.len() ==> (#[trigger] cat[
            k
        ].variants[l]).format != IconFormat::Other
}

proof fn lemma_add_variant_formats(cat: Seq<IconMetaV>, name: Seq<char>, v: VariantV)
    requires
        cat_formats_ok(cat),
        v.format != IconFormat::Other,
    ensures
        cat_formats_ok(spec_add_variant(cat, name, v)),
{
    lemma_find_icon(cat, name);
    let cat2 = spec_add_variant(cat, name, v);
    assert forall|k: int, l: int|
        0 <= k < cat2.len() && 0 <= l < (#[trigger] cat2[k]).variants.len() implies (
    #[trigger] cat2[k].variants[l]).format != IconFormat::Other by {
        let j = find_icon(cat, name);
        if j < 0 {
            if k < cat.len() {
                assert(cat2[k] == cat[k]);
            } else {
                assert(cat2[k].variants == seq![v]);
            }
        } else {
            if k != j {
                assert(cat2[k] == cat[k]);
            } else {
                if l < cat[j].variants.len() {
                    assert(cat2[k].variants[l] == cat[j].variants[l]);
                } else {
                    assert(cat2[k].variants[l] == v);
                }
            }
        }
    }
}

proof fn lemma_scan_files_formats(
    cat: Seq<IconMetaV>,
    tname: Seq<char>,
    root: Seq<char>,
    d: ThemeDirV,
    files: Seq<Seq<char>>,
    i: int,
)
    requires
        cat_formats_ok(cat),
        0 <= i <= files.len(),
    ensures
        cat_formats_ok(spec_scan_files(cat, tname, root, d, files, i)),
    decreases files.len() - i,
{
    if i < files.len() {
        if spec_file_contrib(d, files[i]) {
            lemma_add_variant_formats(
                cat,
                spec_stem_of(spec_basename(files[i])),
                spec_variant_of(tname, root, d, files[i]),
            );
            lemma_scan_files_formats(
                spec_add_variant(
                    cat,
                    spec_stem_of(spec_basename(files[i])),
                    spec_variant_of(tname, root, d, files[i]),
                ),
                tname,
                root,
                d,
                files,
                i + 1,
            );
        } else {
            lemma_scan_files_formats(cat, tname, root, d, files, i + 1);
        }
    }
}

proof fn lemma_scan_dirs_formats(
    cat: Seq<IconMetaV>,
    tname: Seq<char>,
    root: Seq<char>,
    dirs: Seq<ThemeDirV>,
    files: Seq<Seq<char>>,
    i: int,
)
    requires
        cat_formats_ok(cat),
        0 <= i <= dirs.len(),
    ensures
        cat_formats_ok(spec_scan_dirs(cat, tname, root, dirs, files, i)),
    decreases dirs.len() - i,
{
    if i < dirs.len() {
        lemma_scan_files_formats(cat, tname, root, dirs[i], files, 0);
        lemma_scan_dirs_formats(
            spec_scan_files(cat, tname, root, dirs[i], files, 0),
            tname,
            root,
            dirs,
            files,
            i + 1,
        );
    }
}

proof fn lemma_discover_from_formats(
    cands: Seq<CandidateV>,
    filter: Option<Seq<char>>,
    cat: Seq<IconMetaV>,
    i: int,
)
    requires
        cat_formats_ok(cat),
        0 <= i <= cands.len(),
    ensures
        cat_formats_ok(spec_discover_from(cands, filter, cat, i)),
    decreases cands.len() - i,
{
    if i < cands.len() {
        let c2 = if spec_dup(cands, i) {
            cat
        } else {
            spec_process(cat, cands[i], filter)
        };
        assert(cat_formats_ok(c2)) by {
            if !spec_dup(cands, i) {
                match cands[i].manifest {
                    None => {},
                    Some(m) => match spec_parse_ini(m) {
                        None => {},
                        Some(items) => {
                            let t = crate::icon_theme::spec_theme_def(
                                cands[i].directory_name,
                                cands[i].path,
                                items,
                            );
                            if spec_filter_ok(t, filter) {
                                lemma_scan_dirs_formats(
                                    cat,
                                    t.name,
                                    t.root_path,
                                    t.directories,
                                    cands[i].files,
                                    0,
                                );
                            }
                        },
                    },
                }
            }
        }
        lemma_discover_from_formats(cands, filter, c2, i + 1);
    }
}

/// A file whose extension names no known format never appears in the
/// catalog: every variant of every discovered entry is Png, Svg or Xpm,
/// both in the accumulated entries and in the sorted catalog.
pub proof fn lemma_no_unknown_formats(cands: Seq<CandidateV>, filter: Option<Seq<char>>)
    ensures
        cat_formats_ok(spec_discover(cands, filter)),
        cat_formats_ok(spec_catalog(cands, filter)),
{
    lemma_discover_from_formats(cands, filter, Seq::<IconMetaV>::empty(), 0);
    let acc = spec_discover(cands, filter);
    let sorted = spec_catalog(cands, filter);
    assert forall|k: int, l: int|
        0 <= k < sorted.len() && 0 <= l < (#[trigger] sorted[k]).variants.len() implies (
    #[trigger] sorted[k].variants[l]).format != IconFormat::Other by {
        crate::sorting::lemma_sort_from_contains(acc, 0, crate::sorting::meta_le(), sorted[k]);
        assert(sorted.contains(sorted[k]));
        let j = choose|j: int| 0 <= j < acc.len() && #[trigger] acc[j] == sorted[k];
        assert(acc[j].variants[l].format != IconFormat::Other);
    }
}

/// No two entries of the catalog share a name.
pub open spec fn cat_names_unique(cat: Seq<IconMetaV>) -> bool {
    forall|a: int, b: int|
        0 <= a < b < cat.len() ==> (#[trigger] cat[a]).name != (#[trigger] cat[b]).name
}

proof fn lemma_add_variant_names(cat: Seq<IconMetaV>, name: Seq<char>, v: VariantV)
    requires
        cat_names_unique(cat),
    ensures
        cat_names_unique(spec_add_variant(cat, name, v)),
{
    lemma_find_icon(cat, name);
    let j = find_icon(cat, name);
    let cat2 = spec_add_variant(cat, name, v);
    if j < 0 {
        assert forall|a: int, b: int|
            0 <= a < b < cat2.len() implies (#[trigger] cat2[a]).name != (
        #[trigger] cat2[b]).name by {
            if b == cat.len() {
                assert(cat2[b].name == name);
                assert(cat2[a] == cat[a]);
                assert(cat[a].name != name);
            } else {
                assert(cat2[a] == cat[a]);
                assert(cat2[b] == cat[b]);
            }
        }
    } else {
        assert forall|a: int, b: int|
            0 <= a < b < cat2.len() implies (#[trigger] cat2[a]).name != (
        #[trigger] cat2[b]).name by {
            assert(cat2[a].name == cat[a].name);
            assert(cat2[b].name == cat[b].name);
        }
    }
}

proof fn lemma_scan_files_names(
    cat: Seq<IconMetaV>,
    tname: Seq<char>,
    root: Seq<char>,
    d: ThemeDirV,
    files: Seq<Seq<char>>,
    i: int,
)
    requires
        cat_names_unique(cat),
        0 <= i <= files.len(),
    ensures
        cat_names_unique(spec_scan_files(cat, tname, root, d, files, i)),
    decreases files.len() - i,
{
    if i < files.len() {
        if spec_file_contrib(d, files[i]) {
            lemma_add_variant_names(
                cat,
                spec_stem_of(spec_basename(files[i])),
                spec_variant_of(tname, root, d, files[i]),
            );
            lemma_scan_files_names(
                spec_add_variant(
                    cat,
                    spec_stem_of(spec_basename(files[i])),
                    spec_variant_of(tname, root, d, files[i]),
                ),
                tname,
                root,
                d,
                files,
                i + 1,
            );
        } else {
            lemma_scan_files_names(cat, tname, root, d, files, i + 1);
        }
    }
}

proof fn lemma_scan_dirs_names(
    cat: Seq<IconMetaV>,
    tname: Seq<char>,
    root: Seq<char>,
    dirs: Seq<ThemeDirV>,
    files: Seq<Seq<char>>,
    i: int,
)
    requires
        cat_names_unique(cat),
        0 <= i <= dirs.len(),
    ensures
        cat_names_unique(spec_scan_dirs(cat, tname, root, dirs, files, i)),
    decreases dirs.len() - i,
{
    if i < dirs.len() {
        lemma_scan_files_names(cat, tname, root, dirs[i], files, 0);
        lemma_scan_dirs_names(
            spec_scan_files(cat, tname, root, dirs[i], files, 0),
            tname,
            root,
            dirs,
            files,
            i + 1,
        );
    }
}

proof fn lemma_discover_from_names(
    cands: Seq<CandidateV>,
    filter: Option<Seq<char>>,
    cat: Seq<IconMetaV>,
    i: int,
)
    requires
        cat_names_unique(cat),
        0 <= i <= cands.len(),
    ensures
        cat_names_unique(spec_discover_from(cands, filter, cat, i)),
    decreases cands.len() - i,
{
    if i < cands.len() {
        let c2 = if spec_dup(cands, i) {
            cat
        } else {
            spec_process(cat, cands[i], filter)
        };
        assert(cat_names_unique(c2)) by {
            if !spec_dup(cands, i) {
                match cands[i].manifest {
                    None => {},
                    Some(m) => match spec_parse_ini(m) {
                        None => {},
                        Some(items) => {
                            let t = crate::icon_theme::spec_theme_def(
                                cands[i].directory_name,
                                cands[i].path,
                                items,
                            );
                            if spec_filter_ok(t, filter) {
                                lemma_scan_dirs_names(
                                    cat,
                                    t.name,
                                    t.root_path,
                                    t.directories,
                                    cands[i].files,
                                    0,
                                );
                            }
                        },
                    },
                }
            }
        }
        lemma_discover_from_names(cands, filter, c2, i + 1);
    }
}

proof fn lemma_sort_metas_names(s: Seq<IconMetaV>, i: int)
    requires
        cat_names_unique(s),
        0 <= i <= s.len(),
    ensures
        cat_names_unique(crate::sorting::spec_sort_from(s, i, crate::sorting::meta_le())),
    decreases s.len() - i,
{
    let leq = crate::sorting::meta_le();
    if i < s.len() {
        lemma_sort_metas_names(s, i + 1);
        let rest = crate::sorting::spec_sort_from(s, i + 1, leq);
        let x = s[i];
        assert forall|l: int| 0 <= l < rest.len() implies (#[trigger] rest[l]).name != x.name by {
            crate::sorting::lemma_sort_from_contains(s, i + 1, leq, rest[l]);
            assert(rest.contains(rest[l]));
            let k = choose|k: int| (i + 1) <= k < s.len() && #[trigger] s[k] == rest[l];
            assert(s[i].name != s[k].name);
        }
        crate::sorting::lemma_first_above(rest, x, leq, 0);
        let p = crate::sorting::first_above(rest, x, leq, 0);
        crate::sorting::lemma_insert_sorted_shape(rest, x, leq, p);
        let r = crate::sorting::spec_sort_from(s, i, leq);
        assert forall|a: int, b: int|
            0 <= a < b < r.len() implies (#[trigger] r[a]).name != (#[trigger] r[b]).name by {
            assert(forall|k: int| 0 <= k < p ==> #[trigger] r[k] == rest[k]);
            assert(r[p] == x);
            assert(forall|k: int| p < k < r.len() ==> #[trigger] r[k] == rest[k - 1]);
            if a < p && b < p {
            } else if a < p && b == p {
                assert(rest[a].name != x.name);
            } else if a < p && b > p {
            } else if a == p && b > p {
                assert(rest[b - 1].name != x.name);
            } else {
            }
        }
    }
}

/// The discovered catalog holds each icon name once: no two entries
/// share a name, so its name order is strictly ascending.
pub proof fn lemma_catalog_names_unique(cands: Seq<CandidateV>, filter: Option<Seq<char>>)
    ensures
        cat_names_unique(spec_catalog(cands, filter)),
{
    lemma_discover_from_names(cands, filter, Seq::<IconMetaV>::empty(), 0);
    lemma_sort_metas_names(spec_discover(cands, filter), 0);
}

/// The catalog holds this variant under this icon name.
pub open spec fn cat_has_variant(cat: Seq<IconMetaV>, name: Seq<char>, v: VariantV) -> bool {
    exists|k: int|
        0 <= k < cat.len() && (#[trigger] cat[k]).name == name && cat[k].variants.contains(v)
}

proof fn lemma_add_variant_keeps(
    cat: Seq<IconMetaV>,
    name: Seq<char>,
    v: VariantV,
    n0: Seq<char>,
    v0: VariantV,
)
    requires
        cat_has_variant(cat, n0, v0),
    ensures
        cat_has_variant(spec_add_variant(cat, name, v), n0, v0),
{
    lemma_find_icon(cat, name);
    let cat2 = spec_add_variant(cat, name, v);
    let k = choose|k: int|
        0 <= k < cat.len() && (#[trigger] cat[k]).name == n0 && cat[k].variants.contains(v0);
    let j = find_icon(cat, name);
    if j == k {
        let l = choose|l: int| 0 <= l < cat[k].variants.len() && cat[k].variants[l] == v0;
        assert(cat2[k].variants[l] == v0);
        assert(cat2[k].variants.contains(v0));
        assert(cat2[k].name == n0);
    } else {
        assert(cat2[k] == cat[k]);
    }
}

proof fn lemma_add_variant_has(cat: Seq<IconMetaV>, name: Seq<char>, v: VariantV)
    ensures
        cat_has_variant(spec_add_variant(cat, name, v), name, v),
{
    lemma_find_icon(cat, name);
    let cat2 = spec_add_variant(cat, name, v);
    let j = find_icon(cat, name);
    if j < 0 {
        assert(cat2[cat.len() as int].name == name);
        assert(cat2[cat.len() as int].variants[0] == v);
        assert(cat2[cat.len() as int].variants.contains(v));
    } else {
        assert(cat2[j].name == name);
        assert(cat2[j].variants[cat[j].variants.len() as int] == v);
        assert(cat2[j].variants.contains(v));
    }
}

proof fn lemma_scan_files_complete(
    cat: Seq<IconMetaV>,
    tname: Seq<char>,
    root: Seq<char>,
    d: ThemeDirV,
    files: Seq<Seq<char>>,
    i: int,
)
    requires
        0 <= i <= files.len(),
    ensures
        forall|n0: Seq<char>, v0: VariantV|
            #[trigger] cat_has_variant(cat, n0, v0) ==> cat_has_variant(
                spec_scan_files(cat, tname, root, d, files, i),
                n0,
                v0,
            ),
        forall|fi: int|
            i <= fi < files.len() && spec_file_contrib(d, #[trigger] files[fi])
                ==> cat_has_variant(
                spec_scan_files(cat, tname, root, d, files, i),
                spec_stem_of(spec_basename(files[fi])),
                spec_variant_of(tname, root, d, files[fi]),
            ),
    decreases files.len() - i,
{
    if i < files.len() {
        let c2 = if spec_file_contrib(d, files[i]) {
            spec_add_variant(
                cat,
                spec_stem_of(spec_basename(files[i])),
                spec_variant_of(tname, root, d, files[i]),
            )
        } else {
            cat
        };
        lemma_scan_files_complete(c2, tname, root, d, files, i + 1);
        if spec_file_contrib(d, files[i]) {
            assert forall|n0: Seq<char>, v0: VariantV|
                #[trigger] cat_has_variant(cat, n0, v0) implies cat_has_variant(
                spec_scan_files(cat, tname, root, d, files, i),
                n0,
                v0,
            ) by {
                lemma_add_variant_keeps(
                    cat,
                    spec_stem_of(spec_basename(files[i])),
                    spec_variant_of(tname, root, d, files[i]),
                    n0,
                    v0,
                );
            }
            lemma_add_variant_has(
                cat,
                spec_stem_of(spec_basename(files[i])),
                spec_variant_of(tname, root, d, files[i]),
            );
        }
    }
}

proof fn lemma_scan_dirs_complete(
    cat: Seq<IconMetaV>,
    tname: Seq<char>,
    root: Seq<char>,
    dirs: Seq<ThemeDirV>,
    files: Seq<Seq<char>>,
    i: int,
)
    requires
        0 <= i <= dirs.len(),
    ensures
        forall|n0: Seq<char>, v0: VariantV|
            #[trigger] cat_has_variant(cat, n0, v0) ==> cat_has_variant(
                spec_scan_dirs(cat, tname, root, dirs, files, i),
                n0,
                v0,
            ),
        forall|di: int, fi: int|
            i <= di < dirs.len() && 0 <= fi < files.len() && spec_file_contrib(
                #[trigger] dirs[di],
                #[trigger] files[fi],
            ) ==> cat_has_variant(
                spec_scan_dirs(cat, tname, root, dirs, files, i),
                spec_stem_of(spec_basename(files[fi])),
                spec_variant_of(tname, root, dirs[di], files[fi]),
            ),
    decreases dirs.len() - i,
{
    if i < dirs.len() {
        let c2 = spec_scan_files(cat, tname, root, dirs[i], files, 0);
        lemma_scan_files_complete(cat, tname, root, dirs[i], files, 0);
        lemma_scan_dirs_complete(c2, tname, root, dirs, files, i + 1);
    }
}

/// Every file below a resolved directory whose extension names a known
/// format and whose stem is non-empty appears in the scanned catalog:
/// under its bare stem stands the variant carrying that theme,
/// directory rule, absolute path and format.
pub proof fn lemma_scan_theme_complete(
    cat: Seq<IconMetaV>,
    t: ThemeDefV,
    files: Seq<Seq<char>>,
)
    ensures
        forall|di: int, fi: int|
            0 <= di < t.directories.len() && 0 <= fi < files.len() && spec_file_contrib(
                #[trigger] t.directories[di],
                #[trigger] files[fi],
            ) ==> cat_has_variant(
                spec_scan_theme(cat, t, files),
                spec_stem_of(spec_basename(files[fi])),
                spec_variant_of(t.name, t.root_path, t.directories[di], files[fi]),
            ),
{
    lemma_scan_dirs_complete(cat, t.name, t.root_path, t.directories, files, 0);
}

/// How many of these variants carry this path.
pub open spec fn count_in_variants(vs: Seq<VariantV>, p: Seq<char>) -> int
    decreases vs.len(),
{
    if vs.len() == 0 {
        0
    } else {
        count_in_variants(vs.drop_last(), p) + (if vs.last().path == p {
            1int
        } else {
            0
        })
    }
}

/// How many variants of the whole catalog carry this path.
pub open spec fn count_variants_path(cat: Seq<IconMetaV>, p: Seq<char>) -> int
    decreases cat.len(),
{
    if cat.len() == 0 {
        0
    } else {
        count_variants_path(cat.drop_last(), p) + count_in_variants(cat.last().variants, p)
    }
}

proof fn lemma_count_in_push(vs: Seq<VariantV>, v: VariantV, p: Seq<char>)
    ensures
        count_in_variants(vs.push(v), p) == count_in_variants(vs, p) + (if v.path == p {
            1int
        } else {
            0
        }),
{
    assert(vs.push(v).drop_last() =~= vs);
}

proof fn lemma_count_update(cat: Seq<IconMetaV>, j: int, v: VariantV, p: Seq<char>)
    requires
        0 <= j < cat.len(),
    ensures
        count_variants_path(
            cat.update(
                j,
                IconMetaV { name: cat[j].name, variants: cat[j].variants.push(v) },
            ),
            p,
        ) == count_variants_path(cat, p) + (if v.path == p {
            1int
        } else {
            0
        }),
    decreases cat.len(),
{
    let m2 = IconMetaV { name: cat[j].name, variants: cat[j].variants.push(v) };
    let cat2 = cat.update(j, m2);
    if j == cat.len() - 1 {
        assert(cat2.drop_last() =~= cat.drop_last());
        assert(cat2.last() == m2);
        lemma_count_in_push(cat[j].variants, v, p);
    } else {
        assert(cat.drop_last()[j] == cat[j]);
        lemma_count_update(cat.drop_last(), j, v, p);
        assert(cat2.drop_last() =~= cat.drop_last().update(
            j,
            IconMetaV {
                name: cat.drop_last()[j].name,
                variants: cat.drop_last()[j].variants.push(v),
            },
        ));
        assert(cat2.last() == cat.last());
    }
}

proof fn lemma_count_add(cat: Seq<IconMetaV>, name: Seq<char>, v: VariantV, p: Seq<char>)
    ensures
        count_variants_path(spec_add_variant(cat, name, v), p) == count_variants_path(cat, p) + (
        if v.path == p {
            1int
        } else {
            0
        }),
{
    lemma_find_icon(cat, name);
    let j = find_icon(cat, name);
    if j < 0 {
        let m = IconMetaV { name, variants: seq![v] };
        let cat2 = cat.push(m);
        assert(cat2.drop_last() =~= cat);
        assert(cat2.last() == m);
        assert(seq![v].drop_last() =~= Seq::<VariantV>::empty());
        assert(count_in_variants(Seq::<VariantV>::empty(), p) == 0);
        assert(count_in_variants(seq![v], p) == (if v.path == p {
            1int
        } else {
            0
        }));
    } else {
        lemma_count_update(cat, j, v, p);
    }
}

/// How many of the files from `i` on contribute under this rule with
/// this absolute path.
pub open spec fn count_files_path(
    root: Seq<char>,
    d: ThemeDirV,
    files: Seq<Seq<char>>,
    i: int,
    p: Seq<char>,
) -> int
    decreases files.len() - i,
    when 0 <= i <= files.len()
{
    if i >= files.len() {
        0
    } else {
        (if spec_file_contrib(d, files[i]) && root + seq!['/'] + files[i] == p {
            1int
        } else {
            0
        }) + count_files_path(root, d, files, i + 1, p)
    }
}

proof fn lemma_scan_files_count(
    cat: Seq<IconMetaV>,
    tname: Seq<char>,
    root: Seq<char>,
    d: ThemeDirV,
    files: Seq<Seq<char>>,
    i: int,
    p: Seq<char>,
)
    requires
        0 <= i <= files.len(),
    ensures
        count_variants_path(spec_scan_files(cat, tname, root, d, files, i), p)
            == count_variants_path(cat, p) + count_files_path(root, d, files, i, p),
    decreases files.len() - i,
{
    if i < files.len() {
        if spec_file_contrib(d, files[i]) {
            let v = spec_variant_of(tname, root, d, files[i]);
            let c2 = spec_add_variant(cat, spec_stem_of(spec_basename(files[i])), v);
            lemma_count_add(cat, spec_stem_of(spec_basename(files[i])), v, p);
            lemma_scan_files_count(c2, tname, root, d, files, i + 1, p);
        } else {
            lemma_scan_files_count(cat, tname, root, d, files, i + 1, p);
        }
    }
}

/// The contributions of the rules from `i` on, summed.
pub open spec fn count_dirs_path(
    root: Seq<char>,
    dirs: Seq<ThemeDirV>,
    files: Seq<Seq<char>>,
    i: int,
    p: Seq<char>,
) -> int
    decreases dirs.len() - i,
    when 0 <= i <= dirs.len()
{
    if i >= dirs.len() {
        0
    } else {
        count_files_path(root, dirs[i], files, 0, p) + count_dirs_path(root, dirs, files, i + 1, p)
    }
}

proof fn lemma_scan_dirs_count(
    cat: Seq<IconMetaV>,
    tname: Seq<char>,
    root: Seq<char>,
    dirs: Seq<ThemeDirV>,
    files: Seq<Seq<char>>,
    i: int,
    p: Seq<char>,
)
    requires
        0 <= i <= dirs.len(),
    ensures
        count_variants_path(spec_scan_dirs(cat, tname, root, dirs, files, i), p)
            == count_variants_path(cat, p) + count_dirs_path(root, dirs, files, i, p),
    decreases dirs.len() - i,
{
    if i < dirs.len() {
        lemma_scan_files_count(cat, tname, root, dirs[i], files, 0, p);
        lemma_scan_dirs_count(
            spec_scan_files(cat, tname, root, dirs[i], files, 0),
            tname,
            root,
            dirs,
            files,
            i + 1,
            p,
        );
    }
}

proof fn lemma_concat_inj(root: Seq<char>, x: Seq<char>, y: Seq<char>)
    requires
        root + seq!['/'] + x == root + seq!['/'] + y,
    ensures
        x == y,
{
    let a = root + seq!['/'] + x;
    assert(x =~= a.subrange(root.len() as int + 1, a.len() as int));
    assert(y =~= a.subrange(root.len() as int + 1, a.len() as int));
}

proof fn lemma_two_prefixes(f: Seq<char>, p1: Seq<char>, p2: Seq<char>)
    requires
        spec_starts_with(f, p1),
        spec_starts_with(f, p2),
        p1.len() <= p2.len(),
    ensures
        spec_starts_with(p2, p1),
{
    assert(p2.subrange(0, p1.len() as int) =~= f.subrange(0, p1.len() as int));
}

proof fn lemma_count_files_single(
    root: Seq<char>,
    d: ThemeDirV,
    files: Seq<Seq<char>>,
    i: int,
    fi: int,
)
    requires
        0 <= i <= files.len(),
        0 <= fi < files.len(),
        forall|a: int, b: int| 0 <= a < b < files.len() ==> #[trigger] files[a] != #[trigger] files[b],
    ensures
        count_files_path(root, d, files, i, root + seq!['/'] + files[fi]) == (if i <= fi
            && spec_file_contrib(d, files[fi]) {
            1int
        } else {
            0
        }),
    decreases files.len() - i,
{
    let p = root + seq!['/'] + files[fi];
    if i < files.len() {
        if root + seq!['/'] + files[i] == p {
            lemma_concat_inj(root, files[i], files[fi]);
            assert(files[i] == files[fi]);
            assert(i == fi);
        }
        lemma_count_files_single(root, d, files, i + 1, fi);
    }
}

proof fn lemma_count_dirs_single(
    root: Seq<char>,
    dirs: Seq<ThemeDirV>,
    files: Seq<Seq<char>>,
    i: int,
    di: int,
    fi: int,
)
    requires
        0 <= i <= dirs.len(),
        0 <= di < dirs.len(),
        0 <= fi < files.len(),
        spec_file_contrib(dirs[di], files[fi]),
        forall|a: int, b: int| 0 <= a < b < files.len() ==> #[trigger] files[a] != #[trigger] files[b],
        forall|a: int, b: int|
            0 <= a < dirs.len() && 0 <= b < dirs.len() && a != b ==> !spec_starts_with(
                (#[trigger] dirs[b]).key + seq!['/'],
                (#[trigger] dirs[a]).key + seq!['/'],
            ),
    ensures
        count_dirs_path(root, dirs, files, i, root + seq!['/'] + files[fi]) == (if i <= di {
            1int
        } else {
            0
        }),
    decreases dirs.len() - i,
{
    let p = root + seq!['/'] + files[fi];
    let f = files[fi];
    if i < dirs.len() {
        lemma_count_files_single(root, dirs[i], files, 0, fi);
        if i != di && spec_file_contrib(dirs[i], f) {
            let pa = dirs[di].key + seq!['/'];
            let pb = dirs[i].key + seq!['/'];
            if pa.len() <= pb.len() {
                lemma_two_prefixes(f, pa, pb);
            } else {
                lemma_two_prefixes(f, pb, pa);
            }
            assert(false);
        }
        lemma_count_dirs_single(root, dirs, files, i + 1, di, fi);
    }
}

/// A contributing file appears exactly once: when the files of a theme
/// folder are distinct and no directory key extends another, a file that
/// lies below the key of one rule, with a known format and a non-empty
/// stem, yields exactly one variant carrying its path in the scan of a
/// catalog that had none.
pub proof fn lemma_file_appears_exactly_once(
    cat: Seq<IconMetaV>,
    t: ThemeDefV,
    files: Seq<Seq<char>>,
    di: int,
    fi: int,
)
    requires
        0 <= di < t.directories.len(),
        0 <= fi < files.len(),
        spec_file_contrib(t.directories[di], files[fi]),
        count_variants_path(cat, t.root_path + seq!['/'] + files[fi]) == 0,
        forall|a: int, b: int| 0 <= a < b < files.len() ==> #[trigger] files[a] != #[trigger] files[b],
        forall|a: int, b: int|
            0 <= a < t.directories.len() && 0 <= b < t.directories.len() && a != b
                ==> !spec_starts_with(
                (#[trigger] t.directories[b]).key + seq!['/'],
                (#[trigger] t.directories[a]).key + seq!['/'],
            ),
    ensures
        count_variants_path(
            spec_scan_theme(cat, t, files),
            t.root_path + seq!['/'] + files[fi],
        ) == 1,
{
    lemma_scan_dirs_count(
        cat,
        t.name,
        t.root_path,
        t.directories,
        files,
        0,
        t.root_path + seq!['/'] + files[fi],
    );
    lemma_count_dirs_single(t.root_path, t.directories, files, 0, di, fi);
}

proof fn lemma_add_variant_src(
    cat: Seq<IconMetaV>,
    name: Seq<char>,
    v: VariantV,
    n0: Seq<char>,
    v0: VariantV,
)
    requires
        cat_has_variant(spec_add_variant(cat, name, v), n0, v0),
    ensures
        cat_has_variant(cat, n0, v0) || (n0 == name && v0 == v),
{
    lemma_find_icon(cat, name);
    let cat2 = spec_add_variant(cat, name, v);
    let k = choose|k: int|
        0 <= k < cat2.len() && (#[trigger] cat2[k]).name == n0 && cat2[k].variants.contains(v0);
    let j = find_icon(cat, name);
    if j < 0 {
        if k < cat.len() {
            assert(cat2[k] == cat[k]);
        } else {
            let l = choose|l: int| 0 <= l < cat2[k].variants.len() && cat2[k].variants[l] == v0;
            assert(cat2[k].variants =~= seq![v]);
            assert(v0 == v);
        }
    } else {
        if k != j {
            assert(cat2[k] == cat[k]);
        } else {
            assert(n0 == cat[j].name);
            let l = choose|l: int| 0 <= l < cat2[k].variants.len() && cat2[k].variants[l] == v0;
            if l < cat[j].variants.len() {
                assert(cat[j].variants[l] == v0);
                assert(cat[j].variants.contains(v0));
            } else {
                assert(v0 == v);
            }
        }
    }
}

proof fn lemma_scan_files_sound(
    cat: Seq<IconMetaV>,
    tname: Seq<char>,
    root: Seq<char>,
    d: ThemeDirV,
    files: Seq<Seq<char>>,
    i: int,
    n0: Seq<char>,
    v0: VariantV,
)
    requires
        0 <= i <= files.len(),
        cat_has_variant(spec_scan_files(cat, tname, root, d, files, i), n0, v0),
    ensures
        cat_has_variant(cat, n0, v0) || exists|fi: int|
            i <= fi < files.len() && spec_file_contrib(d, #[trigger] files[fi]) && n0
                == spec_stem_of(spec_basename(files[fi])) && v0 == spec_variant_of(
                tname,
                root,
                d,
                files[fi],
            ),
    decreases files.len() - i,
{
    if i < files.len() {
        let c2 = if spec_file_contrib(d, files[i]) {
            spec_add_variant(
                cat,
                spec_stem_of(spec_basename(files[i])),
                spec_variant_of(tname, root, d, files[i]),
            )
        } else {
            cat
        };
        lemma_scan_files_sound(c2, tname, root, d, files, i + 1, n0, v0);
        if cat_has_variant(c2, n0, v0) && spec_file_contrib(d, files[i]) {
            lemma_add_variant_src(
                cat,
                spec_stem_of(spec_basename(files[i])),
                spec_variant_of(tname, root, d, files[i]),
                n0,
                v0,
            );
        }
    }
}

proof fn lemma_scan_dirs_sound(
    cat: Seq<IconMetaV>,
    tname: Seq<char>,
    root: Seq<char>,
    dirs: Seq<ThemeDirV>,
    files: Seq<Seq<char>>,
    i: int,
    n0: Seq<char>,
    v0: VariantV,
)
    requires
        0 <= i <= dirs.len(),
        cat_has_variant(spec_scan_dirs(cat, tname, root, dirs, files, i), n0, v0),
    ensures
        cat_has_variant(cat, n0, v0) || exists|di: int, fi: int|
            i <= di < dirs.len() && 0 <= fi < files.len() && spec_file_contrib(
                #[trigger] dirs[di],
                #[trigger] files[fi],
            ) && n0 == spec_stem_of(spec_basename(files[fi])) && v0 == spec_variant_of(
                tname,
                root,
                dirs[di],
                files[fi],
            ),
    decreases dirs.len() - i,
{
    if i < dirs.len() {
        let c2 = spec_scan_files(cat, tname, root, dirs[i], files, 0);
        lemma_scan_dirs_sound(c2, tname, root, dirs, files, i + 1, n0, v0);
        if cat_has_variant(c2, n0, v0) {
            lemma_scan_files_sound(cat, tname, root, dirs[i], files, 0, n0, v0);
        }
    }
}

/// Nothing spurious is scanned: every variant the scan of one theme
/// holds was already in the catalog, or is the variant of a file lying
/// below some directory rule's key with a known format and a non-empty
/// stem — so a file with any other extension, an empty stem, or outside
/// every rule never yields a variant.
pub proof fn lemma_scan_theme_sound(
    cat: Seq<IconMetaV>,
    t: ThemeDefV,
    files: Seq<Seq<char>>,
    n0: Seq<char>,
    v0: VariantV,
)
    requires
        cat_has_variant(spec_scan_theme(cat, t, files), n0, v0),
    ensures
        cat_has_variant(cat, n0, v0) || exists|di: int, fi: int|
            0 <= di < t.directories.len() && 0 <= fi < files.len() && spec_file_contrib(
                #[trigger] t.directories[di],
                #[trigger] files[fi],
            ) && n0 == spec_stem_of(spec_basename(files[fi])) && v0 == spec_variant_of(
                t.name,
                t.root_path,
                t.directories[di],
                files[fi],
            ),
{
    lemma_scan_dirs_sound(cat, t.name, t.root_path, t.directories, files, 0, n0, v0);
}

/// The themes parsed from the candidates from `i` on, in order; a
/// candidate without a readable manifest yields nothing.
pub open spec fn spec_themes_from(cands: Seq<CandidateV>, i: int) -> Seq<ThemeDefV>
    decreases cands.len() - i,
    when 0 <= i <= cands.len()
{
    if i >= cands.len() {
        Seq::<ThemeDefV>::empty()
    } else {
        let rest = spec_themes_from(cands, i + 1);
        match cands[i].manifest {
            None => rest,
            Some(m) => match spec_parse_ini(m) {
                None => rest,
                Some(items) => seq![
                    crate::icon_theme::spec_theme_def(
                        cands[i].directory_name,
                        cands[i].path,
                        items,
                    ),
                ] + rest,
            },
        }
    }
}

/// Parses every candidate folder into a theme definition and yields the
/// themes sorted ascending by display name; folders without a readable
/// manifest are skipped.
pub fn discover_themes(candidates: &Vec<ThemeCandidate>) -> (r: Vec<IconThemeDefinition>)
    ensures
        r.deep_view() == crate::sorting::spec_sort_from(
            spec_themes_from(candidates.deep_view(), 0),
            0,
            crate::sorting::theme_le(),
        ),
        crate::sorting::spec_sorted(r.deep_view(), crate::sorting::theme_le()),
{
    let ghost candsv = candidates.deep_view();
    let mut out: Vec<IconThemeDefinition> = Vec::new();
    let nc = candidates.len();
    let mut i: usize = 0;
    proof {
        assert(out.deep_view() =~= Seq::<ThemeDefV>::empty());
        assert(Seq::<ThemeDefV>::empty() + spec_themes_from(candsv, 0) =~= spec_themes_from(
            candsv,
            0,
        ));
    }
    while i < nc
        invariant
            0 <= i <= nc,
            nc == candidates.len(),
            candsv == candidates.deep_view(),
            out.deep_view() + spec_themes_from(candsv, i as int) == spec_themes_from(candsv, 0),
        decreases nc - i,
    {
        let ghost prev = out.deep_view();
        let c = &candidates[i];
        assert(c@ == candsv[i as int]);
        match IconThemeDefinition::load_from_directory(
            c.path.as_str(),
            c.directory_name.as_str(),
            c.manifest.as_ref(),
        ) {
            Ok(theme) => {
                let ghost tv = theme@;
                out.push(theme);
                proof {
                    assert(out.deep_view() =~= prev.push(tv));
                    assert(prev.push(tv) + spec_themes_from(candsv, i + 1) =~= prev + (seq![tv]
                        + spec_themes_from(candsv, i + 1)));
                }
            },
            Err(_) => {},
        }
        i = i + 1;
    }
    proof {
        assert(out.deep_view() + Seq::<ThemeDefV>::empty() =~= out.deep_view());
    }
    let out = crate::sorting::sort_themes_by_name(out);
    proof {
        crate::sorting::lemma_name_le_laws();
        crate::sorting::lemma_sort_from_sorted(
            spec_themes_from(candsv, 0),
            0,
            crate::sorting::theme_le(),
        );
    }
    out
}

} // verus!
