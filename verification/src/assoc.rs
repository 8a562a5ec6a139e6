//! Association lists with unique keys: the executable form of the
//! string-keyed and (string, size)-keyed maps of projects and
//! generators, with their `Map` views.

use vstd::prelude::*;
use vstd::string::*;

use crate::text::str_eq;

verus! {

/// The map an association list denotes; a later pair would win, and the
/// operations keep keys unique so each key occurs once.
pub open spec fn amap<W>(s: Seq<(Seq<char>, W)>) -> Map<Seq<char>, W>
    decreases s.len(),
{
    if s.len() == 0 {
        Map::<Seq<char>, W>::empty()
    } else {
        amap(s.drop_last()).insert(s.last().0, s.last().1)
    }
}

/// No two pairs share a key.
pub open spec fn akeys_unique<W>(s: Seq<(Seq<char>, W)>) -> bool {
    forall|a: int, b: int| 0 <= a < b < s.len() ==> (#[trigger] s[a]).0 != (#[trigger] s[b]).0
}

pub proof fn lemma_amap_contains<W>(s: Seq<(Seq<char>, W)>, k: Seq<char>)
    ensures
        amap(s).contains_key(k) <==> exists|j: int| 0 <= j < s.len() && (#[trigger] s[j]).0 == k,
    decreases s.len(),
{
    if s.len() > 0 {
        lemma_amap_contains(s.drop_last(), k);
        assert(forall|j: int| 0 <= j < s.len() - 1 ==> #[trigger] s.drop_last()[j] == s[j]);
        if s.last().0 == k {
            assert((s[s.len() - 1]).0 == k);
        }
        if exists|j: int| 0 <= j < s.len() && (#[trigger] s[j]).0 == k {
            let j = choose|j: int| 0 <= j < s.len() && (#[trigger] s[j]).0 == k;
            if j < s.len() - 1 {
                assert(s.drop_last()[j].0 == k);
            }
        }
    }
}

pub proof fn lemma_amap_at<W>(s: Seq<(Seq<char>, W)>, j: int)
    requires
        akeys_unique(s),
        0 <= j < s.len(),
    ensures
        amap(s).contains_key(s[j].0),
        amap(s)[s[j].0] == s[j].1,
    decreases s.len(),
{
    if j < s.len() - 1 {
        assert(forall|a: int| 0 <= a < s.len() - 1 ==> #[trigger] s.drop_last()[a] == s[a]);
        lemma_amap_at(s.drop_last(), j);
        assert(s[s.len() - 1].0 != s[j].0);
    }
}

pub proof fn lemma_amap_absent<W>(s: Seq<(Seq<char>, W)>, k: Seq<char>)
    requires
        forall|j: int| 0 <= j < s.len() ==> (#[trigger] s[j]).0 != k,
    ensures
        !amap(s).contains_key(k),
        amap(s).remove(k) == amap(s),
{
    lemma_amap_contains(s, k);
    assert(amap(s).remove(k) =~= amap(s));
}

pub proof fn lemma_amap_push<W>(s: Seq<(Seq<char>, W)>, k: Seq<char>, w: W)
    ensures
        amap(s.push((k, w))) == amap(s).insert(k, w),
{
    assert(s.push((k, w)).drop_last() =~= s);
}

pub proof fn lemma_amap_remove_at<W>(s: Seq<(Seq<char>, W)>, j: int)
    requires
        akeys_unique(s),
        0 <= j < s.len(),
    ensures
        akeys_unique(s.remove(j)),
        amap(s.remove(j)) == amap(s).remove(s[j].0),
    decreases s.len(),
{
    let k = s[j].0;
    let s2 = s.remove(j);
    assert(forall|a: int, b: int|
        0 <= a < b < s2.len() ==> (#[trigger] s2[a]).0 != (#[trigger] s2[b]).0) by {
        assert(forall|a: int| 0 <= a < s2.len() ==> #[trigger] s2[a] == (if a < j {
            s[a]
        } else {
            s[a + 1]
        }));
    }
    if j == s.len() - 1 {
        assert(s2 =~= s.drop_last());
        assert(forall|a: int| 0 <= a < s.len() - 1 ==> (#[trigger] s.drop_last()[a]).0 != k);
        lemma_amap_absent(s.drop_last(), k);
        assert(amap(s).remove(k) =~= amap(s.drop_last()));
    } else {
        assert(s2.len() == s.len() - 1);
        assert(s2.drop_last() =~= s.drop_last().remove(j));
        assert(s2.last() == s.last());
        assert(forall|a: int| 0 <= a < s.len() - 1 ==> #[trigger] s.drop_last()[a] == s[a]);
        lemma_amap_remove_at(s.drop_last(), j);
        let l0 = s.last().0;
        let l1 = s.last().1;
        assert(l0 != k);
        assert(amap(s2) == amap(s.drop_last()).remove(k).insert(l0, l1));
        assert(amap(s).remove(k) =~= amap(s.drop_last()).remove(k).insert(l0, l1));
    }
}

/// Finds the position of a key.
pub fn assoc_find<V: DeepView>(v: &Vec<(String, V)>, key: &str) -> (r: Option<usize>)
    ensures
        match r {
            Some(i) => i < v.len() && v.deep_view()[i as int].0 == key@,
            None => forall|k: int|
                0 <= k < v.deep_view().len() ==> (#[trigger] v.deep_view()[k]).0 != key@,
        },
{
    let n = v.len();
    let mut i: usize = 0;
    while i < n
        invariant
            0 <= i <= n,
            n == v.len(),
            forall|k: int| 0 <= k < i ==> (#[trigger] v.deep_view()[k]).0 != key@,
        decreases n - i,
    {
        assert(v.deep_view()[i as int] == v[i as int].deep_view());
        if str_eq(v[i].0.as_str(), key) {
            return Some(i);
        }
        i = i + 1;
    }
    None
}

/// Inserts or replaces the value under a key.
pub fn assoc_set<V: DeepView>(v: &mut Vec<(String, V)>, key: &str, value: V)
    requires
        akeys_unique(old(v).deep_view()),
    ensures
        akeys_unique(final(v).deep_view()),
        amap(final(v).deep_view()) == amap(old(v).deep_view()).insert(key@, value.deep_view()),
{
    let ghost dv = v.deep_view();
    let ghost wv = value.deep_view();
    match assoc_find(v, key) {
        Some(i) => {
            proof {
                lemma_amap_remove_at(dv, i as int);
            }
            v.remove(i);
            proof {
                assert(v.deep_view() =~= dv.remove(i as int));
            }
        },
        None => {
            proof {
                lemma_amap_absent(dv, key@);
            }
        },
    }
    let ghost mid = v.deep_view();
    proof {
        assert(amap(mid) == amap(dv).remove(key@));
        assert(forall|k: int| 0 <= k < mid.len() ==> (#[trigger] mid[k]).0 != key@) by {
            if exists|k: int| 0 <= k < mid.len() && (#[trigger] mid[k]).0 == key@ {
                let k = choose|k: int| 0 <= k < mid.len() && (#[trigger] mid[k]).0 == key@;
                lemma_amap_at(mid, k);
                assert(amap(mid).contains_key(key@));
            }
        }
    }
    v.push((String::from_str(key), value));
    proof {
        assert(v.deep_view() =~= mid.push((key@, wv)));
        lemma_amap_push(mid, key@, wv);
        assert(amap(v.deep_view()) =~= amap(dv).insert(key@, wv));
        assert(forall|a: int, b: int|
            0 <= a < b < v.deep_view().len() ==> (#[trigger] v.deep_view()[a]).0 != (
            #[trigger] v.deep_view()[b]).0) by {
            assert(forall|a: int|
                0 <= a < mid.len() ==> #[trigger] v.deep_view()[a] == mid[a]);
        }
    }
}

/// Drops a key, leaving everything else in place; an absent key changes
/// nothing.
pub fn assoc_remove<V: DeepView>(v: &mut Vec<(String, V)>, key: &str)
    requires
        akeys_unique(old(v).deep_view()),
    ensures
        akeys_unique(final(v).deep_view()),
        amap(final(v).deep_view()) == amap(old(v).deep_view()).remove(key@),
{
    let ghost dv = v.deep_view();
    match assoc_find(v, key) {
        Some(i) => {
            proof {
                lemma_amap_remove_at(dv, i as int);
            }
            v.remove(i);
            proof {
                assert(v.deep_view() =~= dv.remove(i as int));
            }
        },
        None => {
            proof {
                lemma_amap_absent(dv, key@);
            }
        },
    }
}

/// Reads the value under a key.
pub fn assoc_get<'a, V: DeepView>(v: &'a Vec<(String, V)>, key: &str) -> (r: Option<&'a V>)
    requires
        akeys_unique(v.deep_view()),
    ensures
        match r {
            Some(value) => amap(v.deep_view()).contains_key(key@) && amap(v.deep_view())[key@]
                == value.deep_view(),
            None => !amap(v.deep_view()).contains_key(key@),
        },
{
    match assoc_find(v, key) {
        Some(i) => {
            proof {
                lemma_amap_at(v.deep_view(), i as int);
            }
            assert(v.deep_view()[i as int] == v[i as int].deep_view());
            Some(&v[i].1)
        },
        None => {
            proof {
                lemma_amap_contains(v.deep_view(), key@);
            }
            None
        },
    }
}

/// Whether a key is present.
pub fn assoc_contains<V: DeepView>(v: &Vec<(String, V)>, key: &str) -> (r: bool)
    requires
        akeys_unique(v.deep_view()),
    ensures
        r == amap(v.deep_view()).contains_key(key@),
{
    match assoc_find(v, key) {
        Some(i) => {
            proof {
                lemma_amap_at(v.deep_view(), i as int);
            }
            true
        },
        None => {
            proof {
                lemma_amap_contains(v.deep_view(), key@);
            }
            false
        },
    }
}

/// Copies a string-valued association list, view for view.
pub fn clone_str_pairs(v: &Vec<(String, String)>) -> (r: Vec<(String, String)>)
    ensures
        r.deep_view() == v.deep_view(),
{
    let n = v.len();
    let mut out: Vec<(String, String)> = Vec::new();
    let mut i: usize = 0;
    while i < n
        invariant
            0 <= i <= n,
            n == v.len(),
            out.deep_view() =~= v.deep_view().take(i as int),
        decreases n - i,
    {
        let ghost prev = out.deep_view();
        out.push((v[i].0.clone(), v[i].1.clone()));
        proof {
            assert(out.deep_view() =~= prev.push(v.deep_view()[i as int]));
            assert(out.deep_view() =~= v.deep_view().take(i + 1));
        }
        i = i + 1;
    }
    proof {
        assert(v.deep_view().take(n as int) =~= v.deep_view());
    }
    out
}

/// Copies a flag-valued association list, view for view.
pub fn clone_bool_pairs(v: &Vec<(String, bool)>) -> (r: Vec<(String, bool)>)
    ensures
        r.deep_view() == v.deep_view(),
{
    let n = v.len();
    let mut out: Vec<(String, bool)> = Vec::new();
    let mut i: usize = 0;
    while i < n
        invariant
            0 <= i <= n,
            n == v.len(),
            out.deep_view() =~= v.deep_view().take(i as int),
        decreases n - i,
    {
        let ghost prev = out.deep_view();
        out.push((v[i].0.clone(), v[i].1));
        proof {
            assert(out.deep_view() =~= prev.push(v.deep_view()[i as int]));
            assert(out.deep_view() =~= v.deep_view().take(i + 1));
        }
        i = i + 1;
    }
    proof {
        assert(v.deep_view().take(n as int) =~= v.deep_view());
    }
    out
}

/// Copies a string-valued size-keyed association list, view for view.
pub fn clone_str_triples(v: &Vec<(String, u32, String)>) -> (r: Vec<(String, u32, String)>)
    ensures
        r.deep_view() == v.deep_view(),
{
    let n = v.len();
    let mut out: Vec<(String, u32, String)> = Vec::new();
    let mut i: usize = 0;
    while i < n
        invariant
            0 <= i <= n,
            n == v.len(),
            out.deep_view() =~= v.deep_view().take(i as int),
        decreases n - i,
    {
        let ghost prev = out.deep_view();
        out.push((v[i].0.clone(), v[i].1, v[i].2.clone()));
        proof {
            assert(out.deep_view() =~= prev.push(v.deep_view()[i as int]));
            assert(out.deep_view() =~= v.deep_view().take(i + 1));
        }
        i = i + 1;
    }
    proof {
        assert(v.deep_view().take(n as int) =~= v.deep_view());
    }
    out
}

/// Copies a flag-valued size-keyed association list, view for view.
pub fn clone_bool_triples(v: &Vec<(String, u32, bool)>) -> (r: Vec<(String, u32, bool)>)
    ensures
        r.deep_view() == v.deep_view(),
{
    let n = v.len();
    let mut out: Vec<(String, u32, bool)> = Vec::new();
    let mut i: usize = 0;
    while i < n
        invariant
            0 <= i <= n,
            n == v.len(),
            out.deep_view() =~= v.deep_view().take(i as int),
        decreases n - i,
    {
        let ghost prev = out.deep_view();
        out.push((v[i].0.clone(), v[i].1, v[i].2));
        proof {
            assert(out.deep_view() =~= prev.push(v.deep_view()[i as int]));
            assert(out.deep_view() =~= v.deep_view().take(i + 1));
        }
        i = i + 1;
    }
    proof {
        assert(v.deep_view().take(n as int) =~= v.deep_view());
    }
    out
}

/// Copies a string list, view for view.
pub fn clone_strings(v: &Vec<String>) -> (r: Vec<String>)
    ensures
        r.deep_view() == v.deep_view(),
{
    let n = v.len();
    let mut out: Vec<String> = Vec::new();
    let mut i: usize = 0;
    while i < n
        invariant
            0 <= i <= n,
            n == v.len(),
            out.deep_view() =~= v.deep_view().take(i as int),
        decreases n - i,
    {
        let ghost prev = out.deep_view();
        out.push(v[i].clone());
        proof {
            assert(out.deep_view() =~= prev.push(v.deep_view()[i as int]));
            assert(out.deep_view() =~= v.deep_view().take(i + 1));
        }
        i = i + 1;
    }
    proof {
        assert(v.deep_view().take(n as int) =~= v.deep_view());
    }
    out
}

/// The key of one size-specific entry.
pub open spec fn key2<W>(e: (Seq<char>, u32, W)) -> (Seq<char>, u32) {
    (e.0, e.1)
}

/// The map a (name, size)-keyed association list denotes.
pub open spec fn amap2<W>(s: Seq<(Seq<char>, u32, W)>) -> Map<(Seq<char>, u32), W>
    decreases s.len(),
{
    if s.len() == 0 {
        Map::<(Seq<char>, u32), W>::empty()
    } else {
        amap2(s.drop_last()).insert(key2(s.last()), s.last().2)
    }
}

/// No two entries share a (name, size) key.
pub open spec fn akeys2_unique<W>(s: Seq<(Seq<char>, u32, W)>) -> bool {
    forall|a: int, b: int|
        0 <= a < b < s.len() ==> key2(#[trigger] s[a]) != key2(#[trigger] s[b])
}

pub proof fn lemma_amap2_contains<W>(s: Seq<(Seq<char>, u32, W)>, k: (Seq<char>, u32))
    ensures
        amap2(s).contains_key(k) <==> exists|j: int|
            0 <= j < s.len() && key2(#[trigger] s[j]) == k,
    decreases s.len(),
{
    if s.len() > 0 {
        lemma_amap2_contains(s.drop_last(), k);
        assert(forall|j: int| 0 <= j < s.len() - 1 ==> #[trigger] s.drop_last()[j] == s[j]);
        if key2(s.last()) == k {
            assert(key2(s[s.len() - 1]) == k);
        }
        if exists|j: int| 0 <= j < s.len() && key2(#[trigger] s[j]) == k {
            let j = choose|j: int| 0 <= j < s.len() && key2(#[trigger] s[j]) == k;
            if j < s.len() - 1 {
                assert(key2(s.drop_last()[j]) == k);
            }
        }
    }
}

pub proof fn lemma_amap2_at<W>(s: Seq<(Seq<char>, u32, W)>, j: int)
    requires
        akeys2_unique(s),
        0 <= j < s.len(),
    ensures
        amap2(s).contains_key(key2(s[j])),
        amap2(s)[key2(s[j])] == s[j].2,
    decreases s.len(),
{
    if j < s.len() - 1 {
        assert(forall|a: int| 0 <= a < s.len() - 1 ==> #[trigger] s.drop_last()[a] == s[a]);
        lemma_amap2_at(s.drop_last(), j);
        assert(key2(s[s.len() - 1]) != key2(s[j]));
    }
}

pub proof fn lemma_amap2_absent<W>(s: Seq<(Seq<char>, u32, W)>, k: (Seq<char>, u32))
    requires
        forall|j: int| 0 <= j < s.len() ==> key2(#[trigger] s[j]) != k,
    ensures
        !amap2(s).contains_key(k),
        amap2(s).remove(k) == amap2(s),
{
    lemma_amap2_contains(s, k);
    assert(amap2(s).remove(k) =~= amap2(s));
}

pub proof fn lemma_amap2_push<W>(s: Seq<(Seq<char>, u32, W)>, k: Seq<char>, z: u32, w: W)
    ensures
        amap2(s.push((k, z, w))) == amap2(s).insert((k, z), w),
{
    assert(s.push((k, z, w)).drop_last() =~= s);
}

pub proof fn lemma_amap2_remove_at<W>(s: Seq<(Seq<char>, u32, W)>, j: int)
    requires
        akeys2_unique(s),
        0 <= j < s.len(),
    ensures
        akeys2_unique(s.remove(j)),
        amap2(s.remove(j)) == amap2(s).remove(key2(s[j])),
    decreases s.len(),
{
    let k = key2(s[j]);
    let s2 = s.remove(j);
    assert(forall|a: int, b: int|
        0 <= a < b < s2.len() ==> key2(#[trigger] s2[a]) != key2(#[trigger] s2[b])) by {
        assert(forall|a: int| 0 <= a < s2.len() ==> #[trigger] s2[a] == (if a < j {
            s[a]
        } else {
            s[a + 1]
        }));
    }
    if j == s.len() - 1 {
        assert(s2 =~= s.drop_last());
        assert(forall|a: int| 0 <= a < s.len() - 1 ==> key2(#[trigger] s.drop_last()[a]) != k);
        lemma_amap2_absent(s.drop_last(), k);
        assert(amap2(s).remove(k) =~= amap2(s.drop_last()));
    } else {
        assert(s2.len() == s.len() - 1);
        assert(s2.drop_last() =~= s.drop_last().remove(j));
        assert(s2.last() == s.last());
        assert(forall|a: int| 0 <= a < s.len() - 1 ==> #[trigger] s.drop_last()[a] == s[a]);
        lemma_amap2_remove_at(s.drop_last(), j);
        let l = s.last();
        assert(key2(l) != k);
        assert(amap2(s2) == amap2(s.drop_last()).remove(k).insert(key2(l), l.2));
        assert(amap2(s).remove(k) =~= amap2(s.drop_last()).remove(k).insert(key2(l), l.2));
    }
}

/// Finds the position of a (name, size) key.
pub fn assoc2_find<V: DeepView>(v: &Vec<(String, u32, V)>, key: &str, size: u32) -> (r: Option<
    usize,
>)
    ensures
        match r {
            Some(i) => i < v.len() && key2(v.deep_view()[i as int]) == (key@, size),
            None => forall|k: int|
                0 <= k < v.deep_view().len() ==> key2(#[trigger] v.deep_view()[k]) != (
                key@,
                size,
            ),
        },
{
    let n = v.len();
    let mut i: usize = 0;
    while i < n
        invariant
            0 <= i <= n,
            n == v.len(),
            forall|k: int| 0 <= k < i ==> key2(#[trigger] v.deep_view()[k]) != (key@, size),
        decreases n - i,
    {
        assert(v.deep_view()[i as int] == v[i as int].deep_view());
        if v[i].1 == size && str_eq(v[i].0.as_str(), key) {
            return Some(i);
        }
        i = i + 1;
    }
    None
}

/// Inserts or replaces the value under a (name, size) key.
pub fn assoc2_set<V: DeepView>(v: &mut Vec<(String, u32, V)>, key: &str, size: u32, value: V)
    requires
        akeys2_unique(old(v).deep_view()),
    ensures
        akeys2_unique(final(v).deep_view()),
        amap2(final(v).deep_view()) == amap2(old(v).deep_view()).insert(
            (key@, size),
            value.deep_view(),
        ),
{
    let ghost dv = v.deep_view();
    let ghost wv = value.deep_view();
    match assoc2_find(v, key, size) {
        Some(i) => {
            proof {
                lemma_amap2_remove_at(dv, i as int);
            }
            v.remove(i);
            proof {
                assert(v.deep_view() =~= dv.remove(i as int));
            }
        },
        None => {
            proof {
                lemma_amap2_absent(dv, (key@, size));
            }
        },
    }
    let ghost mid = v.deep_view();
    proof {
        assert(amap2(mid) == amap2(dv).remove((key@, size)));
        assert(forall|k: int| 0 <= k < mid.len() ==> key2(#[trigger] mid[k]) != (key@, size)) by {
            if exists|k: int| 0 <= k < mid.len() && key2(#[trigger] mid[k]) == (key@, size) {
                let k = choose|k: int|
                    0 <= k < mid.len() && key2(#[trigger] mid[k]) == (key@, size);
                lemma_amap2_at(mid, k);
                assert(amap2(mid).contains_key((key@, size)));
            }
        }
    }
    v.push((String::from_str(key), size, value));
    proof {
        assert(v.deep_view() =~= mid.push((key@, size, wv)));
        lemma_amap2_push(mid, key@, size, wv);
        assert(amap2(v.deep_view()) =~= amap2(dv).insert((key@, size), wv));
        assert(forall|a: int, b: int|
            0 <= a < b < v.deep_view().len() ==> key2(#[trigger] v.deep_view()[a]) != key2(
            #[trigger] v.deep_view()[b])) by {
            assert(forall|a: int|
                0 <= a < mid.len() ==> #[trigger] v.deep_view()[a] == mid[a]);
        }
    }
}

/// Drops a (name, size) key; an absent key changes nothing.
pub fn assoc2_remove<V: DeepView>(v: &mut Vec<(String, u32, V)>, key: &str, size: u32)
    requires
        akeys2_unique(old(v).deep_view()),
    ensures
        akeys2_unique(final(v).deep_view()),
        amap2(final(v).deep_view()) == amap2(old(v).deep_view()).remove((key@, size)),
{
    let ghost dv = v.deep_view();
    match assoc2_find(v, key, size) {
        Some(i) => {
            proof {
                lemma_amap2_remove_at(dv, i as int);
            }
            v.remove(i);
            proof {
                assert(v.deep_view() =~= dv.remove(i as int));
            }
        },
        None => {
            proof {
                lemma_amap2_absent(dv, (key@, size));
            }
        },
    }
}

/// Reads the value under a (name, size) key.
pub fn assoc2_get<'a, V: DeepView>(v: &'a Vec<(String, u32, V)>, key: &str, size: u32) -> (r:
    Option<&'a V>)
    requires
        akeys2_unique(v.deep_view()),
    ensures
        match r {
            Some(value) => amap2(v.deep_view()).contains_key((key@, size)) && amap2(
                v.deep_view(),
            )[(key@, size)] == value.deep_view(),
            None => !amap2(v.deep_view()).contains_key((key@, size)),
        },
{
    match assoc2_find(v, key, size) {
        Some(i) => {
            proof {
                lemma_amap2_at(v.deep_view(), i as int);
            }
            assert(v.deep_view()[i as int] == v[i as int].deep_view());
            Some(&v[i].2)
        },
        None => {
            proof {
                lemma_amap2_contains(v.deep_view(), (key@, size));
            }
            None
        },
    }
}

/// Whether a (name, size) key is present.
pub fn assoc2_contains<V: DeepView>(v: &Vec<(String, u32, V)>, key: &str, size: u32) -> (r: bool)
    requires
        akeys2_unique(v.deep_view()),
    ensures
        r == amap2(v.deep_view()).contains_key((key@, size)),
{
    match assoc2_find(v, key, size) {
        Some(i) => {
            proof {
                lemma_amap2_at(v.deep_view(), i as int);
            }
            true
        },
        None => {
            proof {
                lemma_amap2_contains(v.deep_view(), (key@, size));
            }
            false
        },
    }
}

} // verus!
