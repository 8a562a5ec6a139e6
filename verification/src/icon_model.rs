//! The flat icon list shown to the user: one row per icon name with its
//! category and available formats, filtered by search text and category,
//! and carrying the user's chosen replacement path.

use vstd::prelude::*;
use vstd::string::*;

use crate::icon_catalog::{IconCatalog, IconFormat, IconMetaV};
use crate::text::{contains_sub, lower_of, lowercase, spec_contains, str_eq};

verus! {

/// One row of the icon list.
pub struct IconItem {
    pub name: String,
    pub category: String,
    pub has_svg: bool,
    pub has_png: bool,
    pub replacement_path: Option<String>,
}

/// Spec-level counterpart of `IconItem`.
pub struct IconItemV {
    pub name: Seq<char>,
    pub category: Seq<char>,
    pub has_svg: bool,
    pub has_png: bool,
    pub replacement_path: Option<Seq<char>>,
}

impl View for IconItem {
    type V = IconItemV;

    open spec fn view(&self) -> IconItemV {
        IconItemV {
            name: self.name@,
            category: self.category@,
            has_svg: self.has_svg,
            has_png: self.has_png,
            replacement_path: match self.replacement_path {
                Some(ref p) => Some(p@),
                None => None,
            },
        }
    }
}

impl DeepView for IconItem {
    type V = IconItemV;

    open spec fn deep_view(&self) -> IconItemV {
        self.view()
    }
}

/// The row of one catalog entry: its name, the category of its first
/// variant (`Generic` with none), and which formats it has; no
/// replacement yet.
pub open spec fn spec_item_of(m: IconMetaV) -> IconItemV {
    IconItemV {
        name: m.name,
        category: if m.variants.len() > 0 {
            m.variants[0].directory.context
        } else {
            "Generic"@
        },
        has_svg: exists|j: int|
            0 <= j < m.variants.len() && (#[trigger] m.variants[j]).format == IconFormat::Svg,
        has_png: exists|j: int|
            0 <= j < m.variants.len() && (#[trigger] m.variants[j]).format == IconFormat::Png,
        replacement_path: None,
    }
}

/// The rows of the whole catalog, in catalog order.
pub open spec fn spec_items_of(cat: Seq<IconMetaV>) -> Seq<IconItemV> {
    Seq::new(cat.len(), |i: int| spec_item_of(cat[i]))
}

/// Whether any variant of the entry has this format.
fn has_format(m: &crate::icon_catalog::IconMetadata, fmt: IconFormat) -> (r: bool)
    ensures
        r == exists|j: int|
            0 <= j < m@.variants.len() && (#[trigger] m@.variants[j]).format == fmt,
{
    let n = m.variants.len();
    let mut i: usize = 0;
    while i < n
        invariant
            0 <= i <= n,
            n == m.variants.len(),
            forall|j: int| 0 <= j < i ==> (#[trigger] m@.variants[j]).format != fmt,
        decreases n - i,
    {
        assert(m@.variants[i as int] == m.variants[i as int]@);
        if m.variants[i].format == fmt {
            return true;
        }
        i = i + 1;
    }
    false
}

/// Turns the catalog into its rows, one per icon name, sorted ascending
/// by name.
pub fn catalog_to_items(catalog: &IconCatalog) -> (r: Vec<IconItem>)
    ensures
        r.deep_view() == crate::sorting::spec_sort_from(
            spec_items_of(catalog@),
            0,
            crate::sorting::item_le(),
        ),
        crate::sorting::spec_sorted(r.deep_view(), crate::sorting::item_le()),
{
    let metas = catalog.iter();
    let n = metas.len();
    let mut out: Vec<IconItem> = Vec::new();
    let mut i: usize = 0;
    while i < n
        invariant
            0 <= i <= n,
            n == metas.len(),
            metas.deep_view() == catalog@,
            out.deep_view() =~= spec_items_of(catalog@).take(i as int),
        decreases n - i,
    {
        let ghost prev = out.deep_view();
        assert(metas[i as int]@ == catalog@[i as int]);
        let m = &metas[i];
        let category: String = if m.variants.len() > 0 {
            m.variants[0].directory.context.clone()
        } else {
            String::from_str("Generic")
        };
        let has_svg = has_format(m, IconFormat::Svg);
        let has_png = has_format(m, IconFormat::Png);
        let item = IconItem {
            name: m.name.clone(),
            category,
            has_svg,
            has_png,
            replacement_path: None,
        };
        proof {
            assert(item@ == spec_item_of(catalog@[i as int]));
        }
        out.push(item);
        proof {
            assert(out.deep_view() =~= prev.push(spec_item_of(catalog@[i as int])));
            assert(out.deep_view() =~= spec_items_of(catalog@).take(i + 1));
        }
        i = i + 1;
    }
    proof {
        assert(spec_items_of(catalog@).take(n as int) =~= spec_items_of(catalog@));
    }
    let out = crate::sorting::sort_items_by_name(out);
    proof {
        crate::sorting::lemma_name_le_laws();
        crate::sorting::lemma_sort_from_sorted(
            spec_items_of(catalog@),
            0,
            crate::sorting::item_le(),
        );
    }
    out
}

/// Whether a row passes the filters: the folded search text occurs in
/// the folded name (an empty search passes everything), and the
/// category equals the chosen one (empty or `All Categories` passes
/// everything).
pub open spec fn spec_item_passes(it: IconItemV, search_lower: Seq<char>, category: Seq<char>) ->
    bool {
    &&& (search_lower.len() == 0 || spec_contains(lower_of(it.name), search_lower))
    &&& (category.len() == 0 || category == "All Categories"@ || it.category == category)
}

/// The rows from `i` on that pass the filters, in order.
pub open spec fn spec_filter_items(
    items: Seq<IconItemV>,
    search_lower: Seq<char>,
    category: Seq<char>,
    i: int,
) -> Seq<IconItemV>
    decreases items.len() - i,
    when 0 <= i <= items.len()
{
    if i >= items.len() {
        Seq::<IconItemV>::empty()
    } else {
        let rest = spec_filter_items(items, search_lower, category, i + 1);
        if spec_item_passes(items[i], search_lower, category) {
            seq![items[i]] + rest
        } else {
            rest
        }
    }
}

/// Filters the rows by search text and category; the search is folded
/// on both sides, so it is case-insensitive.
pub fn apply_filters(items: &Vec<IconItem>, search_text: &str, category: &str) -> (r: Vec<
    IconItem,
>)
    ensures
        r.deep_view() == spec_filter_items(
            items.deep_view(),
            lower_of(search_text@),
            category@,
            0,
        ),
{
    let ghost iv = items.deep_view();
    let ghost sl = lower_of(search_text@);
    let search_lower = lowercase(search_text);
    let n = items.len();
    let mut out: Vec<IconItem> = Vec::new();
    let mut i: usize = 0;
    proof {
        assert(out.deep_view() =~= Seq::<IconItemV>::empty());
        assert(Seq::<IconItemV>::empty() + spec_filter_items(iv, sl, category@, 0)
            =~= spec_filter_items(iv, sl, category@, 0));
    }
    while i < n
        invariant
            0 <= i <= n,
            n == items.len(),
            iv == items.deep_view(),
            sl == lower_of(search_text@),
            search_lower@ == sl,
            out.deep_view() + spec_filter_items(iv, sl, category@, i as int) == spec_filter_items(
                iv,
                sl,
                category@,
                0,
            ),
        decreases n - i,
    {
        let ghost prev = out.deep_view();
        assert(items[i as int]@ == iv[i as int]);
        let it = &items[i];
        let matches_search: bool = if search_lower.as_str().is_empty() {
            true
        } else {
            let ln = lowercase(it.name.as_str());
            contains_sub(ln.as_str(), search_lower.as_str())
        };
        let matches_category: bool = if category.is_empty() {
            true
        } else if str_eq(category, "All Categories") {
            true
        } else {
            str_eq(it.category.as_str(), category)
        };
        proof {
            assert((matches_search && matches_category) == spec_item_passes(
                iv[i as int],
                sl,
                category@,
            ));
        }
        if matches_search && matches_category {
            out.push(clone_item(it));
            proof {
                assert(out.deep_view() =~= prev.push(iv[i as int]));
                assert(prev.push(iv[i as int]) + spec_filter_items(iv, sl, category@, i + 1)
                    =~= prev + (seq![iv[i as int]] + spec_filter_items(iv, sl, category@, i + 1)));
            }
        }
        i = i + 1;
    }
    proof {
        assert(out.deep_view() + Seq::<IconItemV>::empty() =~= out.deep_view());
    }
    out
}

/// Copies one row, view for view.
fn clone_item(it: &IconItem) -> (r: IconItem)
    ensures
        r@ == it@,
{
    IconItem {
        name: it.name.clone(),
        category: it.category.clone(),
        has_svg: it.has_svg,
        has_png: it.has_png,
        replacement_path: match &it.replacement_path {
            Some(p) => Some(p.clone()),
            None => None,
        },
    }
}

/// The position of the first row with this name, `-1` when none has it.
pub open spec fn find_item(items: Seq<IconItemV>, name: Seq<char>) -> int
    decreases items.len(),
{
    if items.len() == 0 {
        -1
    } else if items[0].name == name {
        0
    } else {
        let r = find_item(items.drop_first(), name);
        if r < 0 {
            -1
        } else {
            r + 1
        }
    }
}

proof fn lemma_find_item(items: Seq<IconItemV>, name: Seq<char>)
    ensures
        -1 <= find_item(items, name) < items.len(),
        find_item(items, name) >= 0 ==> items[find_item(items, name)].name == name,
        forall|k: int|
            0 <= k < items.len() && (k < find_item(items, name) || find_item(items, name) < 0)
                ==> (#[trigger] items[k]).name != name,
    decreases items.len(),
{
    if items.len() > 0 && items[0].name != name {
        lemma_find_item(items.drop_first(), name);
        let r = find_item(items, name);
        assert forall|k: int|
            0 <= k < items.len() && (k < r || r < 0) implies (#[trigger] items[k]).name
            != name by {
            if k > 0 {
                assert(items.drop_first()[k - 1] == items[k]);
            }
        }
    }
}

/// The rows after the replacement of one icon changes: the first row of
/// that name carries the new path, every other row stays; no row of
/// that name, no change.
pub open spec fn spec_with_replacement(
    items: Seq<IconItemV>,
    name: Seq<char>,
    rp: Option<Seq<char>>,
) -> Seq<IconItemV> {
    let j = find_item(items, name);
    if j < 0 {
        items
    } else {
        items.update(j, IconItemV { replacement_path: rp, ..items[j] })
    }
}

/// Records the chosen replacement path on the row of one icon; with no
/// row of that name nothing changes.
pub fn set_replacement(items: &mut Vec<IconItem>, icon_name: &str, file_path: &str)
    ensures
        final(items).deep_view() == spec_with_replacement(
            old(items).deep_view(),
            icon_name@,
            Some(file_path@),
        ),
{
    set_replacement_opt(items, icon_name, Some(String::from_str(file_path)));
}

/// Clears the replacement on the row of one icon; with no row of that
/// name nothing changes.
pub fn clear_replacement(items: &mut Vec<IconItem>, icon_name: &str)
    ensures
        final(items).deep_view() == spec_with_replacement(
            old(items).deep_view(),
            icon_name@,
            None,
        ),
{
    set_replacement_opt(items, icon_name, None);
}

fn set_replacement_opt(items: &mut Vec<IconItem>, icon_name: &str, rp: Option<String>)
    ensures
        final(items).deep_view() == spec_with_replacement(
            old(items).deep_view(),
            icon_name@,
            match rp {
                Some(ref p) => Some(p@),
                None => None,
            },
        ),
{
    let ghost dv = items.deep_view();
    let ghost rpv: Option<Seq<char>> = match rp {
        Some(ref p) => Some(p@),
        None => None,
    };
    let n = items.len();
    let mut i: usize = 0;
    while i < n
        invariant
            0 <= i <= n,
            n == items.len(),
            dv == items.deep_view(),
            items == old(items),
            rpv == match rp {
                Some(ref p) => Some(p@),
                None => None,
            },
            forall|k: int| 0 <= k < i ==> (#[trigger] dv[k]).name != icon_name@,
        decreases n - i,
    {
        assert(dv[i as int] == items[i as int]@);
        if str_eq(items[i].name.as_str(), icon_name) {
            proof {
                lemma_find_item(dv, icon_name@);
                assert(find_item(dv, icon_name@) == i);
            }
            items[i].replacement_path = rp;
            proof {
                assert(items.deep_view() =~= dv.update(
                    i as int,
                    IconItemV { replacement_path: rpv, ..dv[i as int] },
                ));
            }
            return;
        }
        i = i + 1;
    }
    proof {
        lemma_find_item(dv, icon_name@);
        assert(find_item(dv, icon_name@) < 0);
        assert(items.deep_view() =~= dv);
    }
}

} // verus!
