//! Name-ordered lists: a lexicographic order on strings and an
//! insertion sort pinned to a spec-level model, used to keep the
//! catalog, the theme list and the icon rows in ascending name order.

use vstd::prelude::*;
use vstd::string::*;

use crate::icon_catalog::{IconMetaV, IconMetadata};
use crate::icon_model::{IconItem, IconItemV};
use crate::icon_theme::{IconThemeDefinition, ThemeDefV};

verus! {

/// Lexicographic comparison by code point, read from position `i` on:
/// a string that runs out first comes first.
pub open spec fn spec_str_le_from(a: Seq<char>, b: Seq<char>, i: int) -> bool
    decreases a.len() - i,
    when 0 <= i <= a.len()
{
    if i >= a.len() {
        true
    } else if i >= b.len() {
        false
    } else if (a[i] as u32) != (b[i] as u32) {
        (a[i] as u32) < (b[i] as u32)
    } else {
        spec_str_le_from(a, b, i + 1)
    }
}

/// Lexicographic order on strings.
pub open spec fn spec_str_le(a: Seq<char>, b: Seq<char>) -> bool {
    spec_str_le_from(a, b, 0)
}

/// The order is total.
pub proof fn lemma_str_le_total(a: Seq<char>, b: Seq<char>, i: int)
    requires
        0 <= i <= a.len(),
        0 <= i <= b.len(),
    ensures
        spec_str_le_from(a, b, i) || spec_str_le_from(b, a, i),
    decreases a.len() - i,
{
    if i < a.len() && i < b.len() && (a[i] as u32) == (b[i] as u32) {
        lemma_str_le_total(a, b, i + 1);
    }
}

/// The order is transitive.
pub proof fn lemma_str_le_trans(a: Seq<char>, b: Seq<char>, c: Seq<char>, i: int)
    requires
        0 <= i <= a.len(),
        0 <= i <= b.len(),
        0 <= i <= c.len(),
        spec_str_le_from(a, b, i),
        spec_str_le_from(b, c, i),
    ensures
        spec_str_le_from(a, c, i),
    decreases a.len() - i,
{
    if i < a.len() {
        assert(i < b.len());
        assert(i < c.len());
        if (a[i] as u32) == (b[i] as u32) && (b[i] as u32) == (c[i] as u32) {
            lemma_str_le_trans(a, b, c, i + 1);
        }
    }
}

/// Compares two strings lexicographically by code point.
pub fn str_le(a: &str, b: &str) -> (r: bool)
    ensures
        r == spec_str_le(a@, b@),
{
    let an = a.unicode_len();
    let bn = b.unicode_len();
    let mut i: usize = 0;
    while i < an && i < bn
        invariant
            0 <= i <= an,
            0 <= i <= bn,
            an == a@.len(),
            bn == b@.len(),
            spec_str_le(a@, b@) == spec_str_le_from(a@, b@, i as int),
        decreases an - i,
    {
        let ca = a.get_char(i);
        let cb = b.get_char(i);
        if (ca as u32) != (cb as u32) {
            return (ca as u32) < (cb as u32);
        }
        i = i + 1;
    }
    an <= bn
}

/// `x` inserted into a sorted list: behind every element that compares
/// no greater, ahead of the rest.
pub open spec fn spec_insert_sorted<A>(s: Seq<A>, x: A, leq: spec_fn(A, A) -> bool) -> Seq<A>
    decreases s.len(),
{
    if s.len() == 0 {
        seq![x]
    } else if leq(s[0], x) {
        seq![s[0]] + spec_insert_sorted(s.drop_first(), x, leq)
    } else {
        seq![x] + s
    }
}

/// The list sorted by repeated insertion, elements taken from `i` on.
pub open spec fn spec_sort_from<A>(s: Seq<A>, i: int, leq: spec_fn(A, A) -> bool) -> Seq<A>
    decreases s.len() - i,
    when 0 <= i <= s.len()
{
    if i >= s.len() {
        Seq::<A>::empty()
    } else {
        spec_insert_sorted(spec_sort_from(s, i + 1, leq), s[i], leq)
    }
}

/// Every pair of positions is ordered.
pub open spec fn spec_sorted<A>(s: Seq<A>, leq: spec_fn(A, A) -> bool) -> bool {
    forall|p: int, q: int| 0 <= p < q < s.len() ==> leq(#[trigger] s[p], #[trigger] s[q])
}

/// The first position from `i` on whose element does not compare no
/// greater than `x`, or the length.
pub open spec fn first_above<A>(s: Seq<A>, x: A, leq: spec_fn(A, A) -> bool, i: int) -> int
    decreases s.len() - i,
    when 0 <= i <= s.len()
{
    if i >= s.len() {
        s.len() as int
    } else if leq(s[i], x) {
        first_above(s, x, leq, i + 1)
    } else {
        i
    }
}

pub proof fn lemma_first_above<A>(s: Seq<A>, x: A, leq: spec_fn(A, A) -> bool, i: int)
    requires
        0 <= i <= s.len(),
    ensures
        i <= first_above(s, x, leq, i) <= s.len(),
        first_above(s, x, leq, i) < s.len() ==> !leq(s[first_above(s, x, leq, i)], x),
        forall|k: int| i <= k < first_above(s, x, leq, i) ==> leq(#[trigger] s[k], x),
    decreases s.len() - i,
{
    if i < s.len() && leq(s[i], x) {
        lemma_first_above(s, x, leq, i + 1);
    }
}

/// Insertion lands exactly at the first position whose element compares
/// greater.
pub proof fn lemma_insert_sorted_shape<A>(s: Seq<A>, x: A, leq: spec_fn(A, A) -> bool, p: int)
    requires
        0 <= p <= s.len(),
        forall|k: int| 0 <= k < p ==> leq(#[trigger] s[k], x),
        p < s.len() ==> !leq(s[p], x),
    ensures
        spec_insert_sorted(s, x, leq) == s.subrange(0, p) + seq![x] + s.subrange(
            p,
            s.len() as int,
        ),
    decreases p,
{
    if p == 0 {
        assert(s.subrange(0, 0) =~= Seq::<A>::empty());
        assert(s.subrange(0, s.len() as int) =~= s);
        if s.len() > 0 {
            assert(spec_insert_sorted(s, x, leq) =~= s.subrange(0, 0) + seq![x] + s.subrange(
                0,
                s.len() as int,
            ));
        } else {
            assert(spec_insert_sorted(s, x, leq) =~= s.subrange(0, 0) + seq![x] + s.subrange(
                0,
                s.len() as int,
            ));
        }
    } else {
        assert(leq(s[0], x));
        let rest = s.drop_first();
        assert(forall|k: int| 0 <= k < p - 1 ==> #[trigger] rest[k] == s[k + 1]);
        lemma_insert_sorted_shape(rest, x, leq, p - 1);
        assert(spec_insert_sorted(s, x, leq) =~= s.subrange(0, p) + seq![x] + s.subrange(
            p,
            s.len() as int,
        )) by {
            assert(rest.subrange(0, p - 1) =~= s.subrange(1, p));
            assert(rest.subrange(p - 1, rest.len() as int) =~= s.subrange(p, s.len() as int));
        }
    }
}

/// Inserting into a sorted list keeps it sorted, for a total and
/// transitive order.
pub proof fn lemma_insert_sorted_sorted<A>(s: Seq<A>, x: A, leq: spec_fn(A, A) -> bool)
    requires
        spec_sorted(s, leq),
        forall|a: A, b: A| #[trigger] leq(a, b) || #[trigger] leq(b, a),
        forall|a: A, b: A, c: A| #[trigger] leq(a, b) && #[trigger] leq(b, c) ==> leq(a, c),
    ensures
        spec_sorted(spec_insert_sorted(s, x, leq), leq),
{
    lemma_first_above(s, x, leq, 0);
    let p = first_above(s, x, leq, 0);
    lemma_insert_sorted_shape(s, x, leq, p);
    let r = spec_insert_sorted(s, x, leq);
    assert forall|a: int, b: int| 0 <= a < b < r.len() implies leq(#[trigger] r[a], #[trigger] r[b]) by {
        assert(forall|k: int| 0 <= k < p ==> #[trigger] r[k] == s[k]);
        assert(r[p] == x);
        assert(forall|k: int| p < k < r.len() ==> #[trigger] r[k] == s[k - 1]);
        if a < p && b < p {
        } else if a < p && b == p {
            assert(leq(s[a], x));
        } else if a < p && b > p {
            assert(leq(s[a], s[b - 1]));
        } else if a == p && b > p {
            assert(!leq(s[p], x));
            assert(leq(x, s[p]));
            if b - 1 > p {
                assert(leq(s[p], s[b - 1]));
            }
            assert(leq(x, s[b - 1]));
        } else {
            assert(leq(s[a - 1], s[b - 1]));
        }
    }
}

/// What the sorted list holds is what the input holds from `i` on.
pub proof fn lemma_sort_from_contains<A>(s: Seq<A>, i: int, leq: spec_fn(A, A) -> bool, e: A)
    requires
        0 <= i <= s.len(),
    ensures
        spec_sort_from(s, i, leq).contains(e) <==> exists|k: int|
            i <= k < s.len() && #[trigger] s[k] == e,
    decreases s.len() - i,
{
    if i < s.len() {
        lemma_sort_from_contains(s, i + 1, leq, e);
        let rest = spec_sort_from(s, i + 1, leq);
        lemma_first_above(rest, s[i], leq, 0);
        let p = first_above(rest, s[i], leq, 0);
        lemma_insert_sorted_shape(rest, s[i], leq, p);
        let r = spec_sort_from(s, i, leq);
        assert(forall|k: int| 0 <= k < p ==> #[trigger] r[k] == rest[k]);
        assert(r[p] == s[i]);
        assert(forall|k: int| p < k < r.len() ==> #[trigger] r[k] == rest[k - 1]);
        if r.contains(e) {
            let j = choose|j: int| 0 <= j < r.len() && r[j] == e;
            if j == p {
                assert(s[i] == e);
            } else if j < p {
                assert(rest.contains(e));
            } else {
                assert(rest[j - 1] == e);
                assert(rest.contains(e));
            }
        }
        if exists|k: int| i <= k < s.len() && #[trigger] s[k] == e {
            let k = choose|k: int| i <= k < s.len() && #[trigger] s[k] == e;
            if k == i {
                assert(r[p] == e);
            } else {
                assert(rest.contains(e));
                let j = choose|j: int| 0 <= j < rest.len() && rest[j] == e;
                if j < p {
                    assert(r[j] == e);
                } else {
                    assert(r[j + 1] == e);
                }
            }
        }
    }
}

/// The sorted list is sorted, for a total and transitive order.
pub proof fn lemma_sort_from_sorted<A>(s: Seq<A>, i: int, leq: spec_fn(A, A) -> bool)
    requires
        0 <= i <= s.len(),
        forall|a: A, b: A| #[trigger] leq(a, b) || #[trigger] leq(b, a),
        forall|a: A, b: A, c: A| #[trigger] leq(a, b) && #[trigger] leq(b, c) ==> leq(a, c),
    ensures
        spec_sorted(spec_sort_from(s, i, leq), leq),
    decreases s.len() - i,
{
    if i < s.len() {
        lemma_sort_from_sorted(s, i + 1, leq);
        lemma_insert_sorted_sorted(spec_sort_from(s, i + 1, leq), s[i], leq);
    }
}

/// The name order on catalog entries.
pub open spec fn meta_le() -> spec_fn(IconMetaV, IconMetaV) -> bool {
    |a: IconMetaV, b: IconMetaV| spec_str_le(a.name, b.name)
}

/// The name order on icon rows.
pub open spec fn item_le() -> spec_fn(IconItemV, IconItemV) -> bool {
    |a: IconItemV, b: IconItemV| spec_str_le(a.name, b.name)
}

/// The display-name order on themes.
pub open spec fn theme_le() -> spec_fn(ThemeDefV, ThemeDefV) -> bool {
    |a: ThemeDefV, b: ThemeDefV| spec_str_le(a.name, b.name)
}

/// The name order is total and transitive; stated once for each element
/// order the sorts use.
pub proof fn lemma_name_le_laws()
    ensures
        forall|a: IconMetaV, b: IconMetaV| #[trigger] meta_le()(a, b) || #[trigger] meta_le()(
            b,
            a,
        ),
        forall|a: IconMetaV, b: IconMetaV, c: IconMetaV|
            #[trigger] meta_le()(a, b) && #[trigger] meta_le()(b, c) ==> meta_le()(a, c),
        forall|a: IconItemV, b: IconItemV| #[trigger] item_le()(a, b) || #[trigger] item_le()(
            b,
            a,
        ),
        forall|a: IconItemV, b: IconItemV, c: IconItemV|
            #[trigger] item_le()(a, b) && #[trigger] item_le()(b, c) ==> item_le()(a, c),
        forall|a: ThemeDefV, b: ThemeDefV| #[trigger] theme_le()(a, b) || #[trigger] theme_le()(
            b,
            a,
        ),
        forall|a: ThemeDefV, b: ThemeDefV, c: ThemeDefV|
            #[trigger] theme_le()(a, b) && #[trigger] theme_le()(b, c) ==> theme_le()(a, c),
{
    assert forall|a: IconMetaV, b: IconMetaV| #[trigger] meta_le()(a, b) || #[trigger] meta_le()(
        b,
        a,
    ) by {
        lemma_str_le_total(a.name, b.name, 0);
    }
    assert forall|a: IconMetaV, b: IconMetaV, c: IconMetaV|
        #[trigger] meta_le()(a, b) && #[trigger] meta_le()(b, c) implies meta_le()(a, c) by {
        lemma_str_le_trans(a.name, b.name, c.name, 0);
    }
    assert forall|a: IconItemV, b: IconItemV| #[trigger] item_le()(a, b) || #[trigger] item_le()(
        b,
        a,
    ) by {
        lemma_str_le_total(a.name, b.name, 0);
    }
    assert forall|a: IconItemV, b: IconItemV, c: IconItemV|
        #[trigger] item_le()(a, b) && #[trigger] item_le()(b, c) implies item_le()(a, c) by {
        lemma_str_le_trans(a.name, b.name, c.name, 0);
    }
    assert forall|a: ThemeDefV, b: ThemeDefV| #[trigger] theme_le()(a, b) || #[trigger] theme_le()(
        b,
        a,
    ) by {
        lemma_str_le_total(a.name, b.name, 0);
    }
    assert forall|a: ThemeDefV, b: ThemeDefV, c: ThemeDefV|
        #[trigger] theme_le()(a, b) && #[trigger] theme_le()(b, c) implies theme_le()(a, c) by {
        lemma_str_le_trans(a.name, b.name, c.name, 0);
    }
}

/// Sorts catalog entries by icon name.
pub fn sort_metas_by_name(v: Vec<IconMetadata>) -> (r: Vec<IconMetadata>)
    ensures
        r.deep_view() == spec_sort_from(v.deep_view(), 0, meta_le()),
{
    let ghost dv = v.deep_view();
    let mut src = v;
    let mut out: Vec<IconMetadata> = Vec::new();
    proof {
        assert(out.deep_view() =~= Seq::<IconMetaV>::empty());
        assert(src.deep_view() =~= dv.subrange(0, src.len() as int));
    }
    while src.len() > 0
        invariant
            src.len() <= dv.len(),
            src.deep_view() == dv.subrange(0, src.len() as int),
            out.deep_view() == spec_sort_from(dv, src.len() as int, meta_le()),
        decreases src.len(),
    {
        let ghost srcdv = src.deep_view();
        let x = src.pop().unwrap();
        proof {
            assert(x@ == srcdv[srcdv.len() - 1]);
            assert(forall|k: int|
                0 <= k < src.len() ==> #[trigger] src.deep_view()[k] == srcdv[k]);
            assert(x@ == dv[src.len() as int]);
            assert(src.deep_view() =~= dv.subrange(0, src.len() as int));
        }
        let ghost outdv = out.deep_view();
        let ghost xv = x@;
        let mut p: usize = 0;
        let nout = out.len();
        while p < nout && str_le(out[p].name.as_str(), x.name.as_str())
            invariant
                0 <= p <= nout,
                nout == out.len(),
                outdv == out.deep_view(),
                xv == x@,
                forall|k: int| 0 <= k < p ==> meta_le()(#[trigger] outdv[k], xv),
            decreases nout - p,
        {
            assert(outdv[p as int] == out[p as int]@);
            p = p + 1;
        }
        proof {
            if p < nout {
                assert(outdv[p as int] == out[p as int]@);
                assert(!meta_le()(outdv[p as int], xv));
            }
            lemma_insert_sorted_shape(outdv, xv, meta_le(), p as int);
        }
        out.insert(p, x);
        proof {
            assert(out.deep_view() =~= outdv.subrange(0, p as int) + seq![xv] + outdv.subrange(
                p as int,
                outdv.len() as int,
            ));
            assert(out.deep_view() == spec_insert_sorted(outdv, xv, meta_le()));
        }
    }
    proof {
        assert(src.deep_view() =~= Seq::<IconMetaV>::empty());
    }
    out
}

/// Sorts icon rows by name.
pub fn sort_items_by_name(v: Vec<IconItem>) -> (r: Vec<IconItem>)
    ensures
        r.deep_view() == spec_sort_from(v.deep_view(), 0, item_le()),
{
    let ghost dv = v.deep_view();
    let mut src = v;
    let mut out: Vec<IconItem> = Vec::new();
    proof {
        assert(out.deep_view() =~= Seq::<IconItemV>::empty());
        assert(src.deep_view() =~= dv.subrange(0, src.len() as int));
    }
    while src.len() > 0
        invariant
            src.len() <= dv.len(),
            src.deep_view() == dv.subrange(0, src.len() as int),
            out.deep_view() == spec_sort_from(dv, src.len() as int, item_le()),
        decreases src.len(),
    {
        let ghost srcdv = src.deep_view();
        let x = src.pop().unwrap();
        proof {
            assert(x@ == srcdv[srcdv.len() - 1]);
            assert(forall|k: int|
                0 <= k < src.len() ==> #[trigger] src.deep_view()[k] == srcdv[k]);
            assert(x@ == dv[src.len() as int]);
            assert(src.deep_view() =~= dv.subrange(0, src.len() as int));
        }
        let ghost outdv = out.deep_view();
        let ghost xv = x@;
        let mut p: usize = 0;
        let nout = out.len();
        while p < nout && str_le(out[p].name.as_str(), x.name.as_str())
            invariant
                0 <= p <= nout,
                nout == out.len(),
                outdv == out.deep_view(),
                xv == x@,
                forall|k: int| 0 <= k < p ==> item_le()(#[trigger] outdv[k], xv),
            decreases nout - p,
        {
            assert(outdv[p as int] == out[p as int]@);
            p = p + 1;
        }
        proof {
            if p < nout {
                assert(outdv[p as int] == out[p as int]@);
                assert(!item_le()(outdv[p as int], xv));
            }
            lemma_insert_sorted_shape(outdv, xv, item_le(), p as int);
        }
        out.insert(p, x);
        proof {
            assert(out.deep_view() =~= outdv.subrange(0, p as int) + seq![xv] + outdv.subrange(
                p as int,
                outdv.len() as int,
            ));
            assert(out.deep_view() == spec_insert_sorted(outdv, xv, item_le()));
        }
    }
    proof {
        assert(src.deep_view() =~= Seq::<IconItemV>::empty());
    }
    out
}

/// Sorts themes by display name.
pub fn sort_themes_by_name(v: Vec<IconThemeDefinition>) -> (r: Vec<IconThemeDefinition>)
    ensures
        r.deep_view() == spec_sort_from(v.deep_view(), 0, theme_le()),
{
    let ghost dv = v.deep_view();
    let mut src = v;
    let mut out: Vec<IconThemeDefinition> = Vec::new();
    proof {
        assert(out.deep_view() =~= Seq::<ThemeDefV>::empty());
        assert(src.deep_view() =~= dv.subrange(0, src.len() as int));
    }
    while src.len() > 0
        invariant
            src.len() <= dv.len(),
            src.deep_view() == dv.subrange(0, src.len() as int),
            out.deep_view() == spec_sort_from(dv, src.len() as int, theme_le()),
        decreases src.len(),
    {
        let ghost srcdv = src.deep_view();
        let x = src.pop().unwrap();
        proof {
            assert(x@ == srcdv[srcdv.len() - 1]);
            assert(forall|k: int|
                0 <= k < src.len() ==> #[trigger] src.deep_view()[k] == srcdv[k]);
            assert(x@ == dv[src.len() as int]);
            assert(src.deep_view() =~= dv.subrange(0, src.len() as int));
        }
        let ghost outdv = out.deep_view();
        let ghost xv = x@;
        let mut p: usize = 0;
        let nout = out.len();
        while p < nout && str_le(out[p].name.as_str(), x.name.as_str())
            invariant
                0 <= p <= nout,
                nout == out.len(),
                outdv == out.deep_view(),
                xv == x@,
                forall|k: int| 0 <= k < p ==> theme_le()(#[trigger] outdv[k], xv),
            decreases nout - p,
        {
            assert(outdv[p as int] == out[p as int]@);
            p = p + 1;
        }
        proof {
            if p < nout {
                assert(outdv[p as int] == out[p as int]@);
                assert(!theme_le()(outdv[p as int], xv));
            }
            lemma_insert_sorted_shape(outdv, xv, theme_le(), p as int);
        }
        out.insert(p, x);
        proof {
            assert(out.deep_view() =~= outdv.subrange(0, p as int) + seq![xv] + outdv.subrange(
                p as int,
                outdv.len() as int,
            ));
            assert(out.deep_view() == spec_insert_sorted(outdv, xv, theme_le()));
        }
    }
    proof {
        assert(src.deep_view() =~= Seq::<ThemeDefV>::empty());
    }
    out
}

} // verus!
