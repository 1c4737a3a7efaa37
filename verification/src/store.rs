//! The asset store seen from the entries: which files hold the encoded
//! variants, which assets are handed to the tree, which of those must not be
//! served under their own path, and whether any two registrations meet.

use crate::copy::copy_asset;
use crate::model::{Asset, AssetView, Encoding, Entry, EntryView};
use crate::plan::{find_asset, has_asset};
use crate::texts::{disjoint_texts, distinct_texts};
use crate::trusted::{disjoint, registrable, scopes, url_of, urls};
use vstd::prelude::*;

verus! {

/// The path of the file that holds the asset of `entry` in its `k`-th
/// encoding: the asset's path with the encoding's suffix.
pub open spec fn variant_path(entry: EntryView, k: int) -> Seq<char> {
    entry.path + entry.encodings[k].suffix_spec()
}

/// Every encoding of every entry has its file in the store.
pub open spec fn complete(assets: Seq<AssetView>, entries: Seq<EntryView>) -> bool {
    forall|i: int, k: int|
        0 <= i < entries.len() && 0 <= k < entries[i].encodings.len() ==> has_asset(
            assets,
            #[trigger] variant_path(entries[i], k),
        )
}

/// The `k`-th encoding of entry `i` is the first, in the order of the
/// entries and of their encodings, whose file the store lacks.
pub open spec fn first_missing(
    assets: Seq<AssetView>,
    entries: Seq<EntryView>,
    i: int,
    k: int,
) -> bool {
    &&& 0 <= i < entries.len()
    &&& 0 <= k < entries[i].encodings.len()
    &&& !has_asset(assets, variant_path(entries[i], k))
    &&& forall|l: int|
        0 <= l < k ==> has_asset(assets, #[trigger] variant_path(entries[i], l))
    &&& forall|j: int, l: int|
        0 <= j < i && 0 <= l < entries[j].encodings.len() ==> has_asset(
            assets,
            #[trigger] variant_path(entries[j], l),
        )
}

/// The URL under which the asset at `path` is served.
pub fn url_for(path: &String) -> (url: String)
    ensures
        url@ == url_of(path@),
{
    if path.as_str().unicode_len() > 0 && path.as_str().get_char(0) == '/' {
        path.clone()
    } else {
        proof {
            reveal_strlit("/");
        }
        assert("/"@ =~= seq!['/']);
        String::from_str("/").concat(path.as_str())
    }
}

/// The path of the file that holds the asset at `path` in `encoding`.
pub fn variant_of(path: &String, encoding: Encoding) -> (file: String)
    ensures
        file@ == path@ + encoding.suffix_spec(),
{
    path.clone().concat(encoding.suffix())
}

/// Looks for an encoding whose file the store lacks.
pub fn find_missing_variant(assets: &Vec<Asset>, entries: &Vec<Entry>) -> (missing: Option<
    (usize, usize),
>)
    ensures
        match missing {
            Some((i, k)) => first_missing(
                assets.deep_view(),
                entries.deep_view(),
                i as int,
                k as int,
            ),
            None => complete(assets.deep_view(), entries.deep_view()),
        },
{
    let ghost store = assets.deep_view();
    let ghost es = entries.deep_view();
    let mut i: usize = 0;
    while i < entries.len()
        invariant
            i <= entries.len(),
            store == assets.deep_view(),
            es == entries.deep_view(),
            forall|j: int, l: int|
                0 <= j < i && 0 <= l < es[j].encodings.len() ==> has_asset(
                    store,
                    #[trigger] variant_path(es[j], l),
                ),
        decreases entries.len() - i,
    {
        assert(es[i as int] == entries@[i as int]@);
        let mut k: usize = 0;
        while k < entries[i].encodings.len()
            invariant
                i < entries.len(),
                k <= entries[i as int].encodings.len(),
                store == assets.deep_view(),
                es == entries.deep_view(),
                es[i as int] == entries@[i as int]@,
                forall|l: int| 0 <= l < k ==> has_asset(store, #[trigger] variant_path(es[i as int], l)),
                forall|j: int, l: int|
                    0 <= j < i && 0 <= l < es[j].encodings.len() ==> has_asset(
                        store,
                        #[trigger] variant_path(es[j], l),
                    ),
            decreases entries[i as int].encodings.len() - k,
        {
            let file = variant_of(&entries[i].path, entries[i].encodings[k]);
            assert(file@ == variant_path(es[i as int], k as int));
            match find_asset(assets, &file) {
                None => {
                    return Some((i, k));
                },
                Some(j) => {
                    assert(store[j as int] == assets@[j as int]@);
                },
            }
            k += 1;
        }
        i += 1;
    }
    None
}

/// Some entry is for the asset at `path`.
pub open spec fn has_entry(entries: Seq<EntryView>, path: Seq<char>) -> bool {
    exists|i: int| 0 <= i < entries.len() && (#[trigger] entries[i]).path == path
}

/// The file at `path` holds an encoded variant of some entry's asset.
pub open spec fn is_variant(entries: Seq<EntryView>, path: Seq<char>) -> bool {
    exists|i: int, k: int|
        0 <= i < entries.len() && 0 <= k < entries[i].encodings.len() && #[trigger] variant_path(
            entries[i],
            k,
        ) == path
}

pub open spec fn is_handed(entries: Seq<EntryView>) -> spec_fn(AssetView) -> bool {
    |a: AssetView| has_entry(entries, a.path) || is_variant(entries, a.path)
}

pub open spec fn is_hidden(entries: Seq<EntryView>) -> spec_fn(AssetView) -> bool {
    |a: AssetView| !has_entry(entries, a.path) && is_variant(entries, a.path)
}

/// The assets that the tree is given: those that have an entry, and the
/// files that hold their encoded variants. An asset that no rule governs and
/// that is no such file never reaches the tree.
pub open spec fn handed(assets: Seq<AssetView>, entries: Seq<EntryView>) -> Seq<AssetView> {
    assets.filter(is_handed(entries))
}

/// The files that are handed over only as encoded variants: no rule governs
/// them, so nothing may be served under their own path.
pub open spec fn hidden(assets: Seq<AssetView>, entries: Seq<EntryView>) -> Seq<AssetView> {
    assets.filter(is_hidden(entries))
}

/// Whether some entry is for the asset at `path`.
pub fn has_entry_for(entries: &Vec<Entry>, path: &String) -> (found: bool)
    ensures
        found == has_entry(entries.deep_view(), path@),
{
    let mut i: usize = 0;
    while i < entries.len()
        invariant
            i <= entries.len(),
            forall|j: int| 0 <= j < i ==> (#[trigger] entries@[j]).path@ != path@,
        decreases entries.len() - i,
    {
        if entries[i].path == *path {
            assert(entries.deep_view()[i as int] == entries@[i as int]@);
            return true;
        }
        i += 1;
    }
    assert forall|j: int| 0 <= j < entries.deep_view().len() implies (
    #[trigger] entries.deep_view()[j]).path != path@ by {
        assert(entries.deep_view()[j] == entries@[j]@);
    }
    false
}

/// Whether the file at `path` holds an encoded variant of some entry's asset.
pub fn is_variant_file(entries: &Vec<Entry>, path: &String) -> (found: bool)
    ensures
        found == is_variant(entries.deep_view(), path@),
{
    let ghost es = entries.deep_view();
    let mut i: usize = 0;
    while i < entries.len()
        invariant
            i <= entries.len(),
            es == entries.deep_view(),
            forall|j: int, l: int|
                0 <= j < i && 0 <= l < es[j].encodings.len() ==> #[trigger] variant_path(es[j], l)
                    != path@,
        decreases entries.len() - i,
    {
        assert(es[i as int] == entries@[i as int]@);
        let mut k: usize = 0;
        while k < entries[i].encodings.len()
            invariant
                i < entries.len(),
                k <= entries[i as int].encodings.len(),
                es == entries.deep_view(),
                es[i as int] == entries@[i as int]@,
                forall|l: int| 0 <= l < k ==> #[trigger] variant_path(es[i as int], l) != path@,
            decreases entries[i as int].encodings.len() - k,
        {
            let file = variant_of(&entries[i].path, entries[i].encodings[k]);
            assert(file@ == variant_path(es[i as int], k as int));
            if file == *path {
                return true;
            }
            k += 1;
        }
        i += 1;
    }
    false
}

/// Picks out of the store what the tree is given, and of that the files
/// under whose own path nothing may be served afterwards.
pub fn select(assets: &Vec<Asset>, entries: &Vec<Entry>) -> (picked: (Vec<Asset>, Vec<Asset>))
    ensures
        picked.0.deep_view() == handed(assets.deep_view(), entries.deep_view()),
        picked.1.deep_view() == hidden(assets.deep_view(), entries.deep_view()),
{
    let ghost store = assets.deep_view();
    let ghost es = entries.deep_view();
    let mut given: Vec<Asset> = Vec::new();
    let mut unserved: Vec<Asset> = Vec::new();
    let mut i: usize = 0;
    proof {
        reveal(Seq::filter);
        assert(store.take(0) =~= Seq::<AssetView>::empty());
        assert(given.deep_view() =~= handed(store.take(0), es));
        assert(unserved.deep_view() =~= hidden(store.take(0), es));
    }
    while i < assets.len()
        invariant
            i <= assets.len(),
            store == assets.deep_view(),
            es == entries.deep_view(),
            given.deep_view() == handed(store.take(i as int), es),
            unserved.deep_view() == hidden(store.take(i as int), es),
        decreases assets.len() - i,
    {
        let ghost a = store[i as int];
        let ghost given_before = given.deep_view();
        let ghost unserved_before = unserved.deep_view();
        proof {
            assert(a == assets@[i as int]@);
            assert(store.take(i + 1) =~= store.take(i as int).push(a));
            store.take(i as int).lemma_filter_push(a, is_handed(es));
            store.take(i as int).lemma_filter_push(a, is_hidden(es));
        }
        let owned = has_entry_for(entries, &assets[i].path);
        let variant = is_variant_file(entries, &assets[i].path);
        if owned || variant {
            given.push(copy_asset(&assets[i]));
            assert(given.deep_view() =~= given_before.push(a));
        }
        if !owned && variant {
            unserved.push(copy_asset(&assets[i]));
            assert(unserved.deep_view() =~= unserved_before.push(a));
        }
        i += 1;
    }
    assert(store.take(i as int) =~= store);
    (given, unserved)
}

/// The URLs of the assets, in order.
pub fn asset_urls(assets: &Vec<Asset>) -> (list: Vec<String>)
    ensures
        list.deep_view() == urls(assets.deep_view()),
{
    let ghost store = assets.deep_view();
    let mut list: Vec<String> = Vec::new();
    let mut i: usize = 0;
    assert(list.deep_view() =~= urls(store.take(0)));
    while i < assets.len()
        invariant
            i <= assets.len(),
            store == assets.deep_view(),
            list.deep_view() == urls(store.take(i as int)),
        decreases assets.len() - i,
    {
        let ghost before = list.deep_view();
        assert(store[i as int] == assets@[i as int]@);
        list.push(url_for(&assets[i].path));
        assert(list.deep_view() =~= before.push(url_of(store[i as int].path)));
        assert(urls(store.take(i + 1)) =~= urls(store.take(i as int)).push(
            url_of(store[i as int].path),
        ));
        i += 1;
    }
    assert(store.take(i as int) =~= store);
    list
}

/// The fallback scopes that the entry claims, in order.
pub fn scopes_of(entry: &Entry) -> (list: Vec<String>)
    ensures
        list.deep_view() == scopes(entry@),
{
    let ghost fallbacks = entry.fallback_for.deep_view();
    let mut list: Vec<String> = Vec::new();
    let mut k: usize = 0;
    while k < entry.fallback_for.len()
        invariant
            k <= entry.fallback_for.len(),
            fallbacks == entry.fallback_for.deep_view(),
            list.len() == k,
            forall|l: int| 0 <= l < k ==> (#[trigger] list@[l])@ == fallbacks[l].scope,
        decreases entry.fallback_for.len() - k,
    {
        assert(fallbacks[k as int] == entry.fallback_for@[k as int]@);
        list.push(entry.fallback_for[k].scope.clone());
        k += 1;
    }
    assert(list.deep_view() =~= scopes(entry@));
    list
}

/// Whether entries `i` and `j` claim no alias and no fallback scope in common.
pub open spec fn apart(entries: Seq<EntryView>, i: int, j: int) -> bool {
    &&& disjoint(entries[i].aliased_by, entries[j].aliased_by)
    &&& disjoint(scopes(entries[i]), scopes(entries[j]))
}

fn apart_from_later(entries: &Vec<Entry>, i: usize) -> (ok: bool)
    requires
        i < entries.len(),
    ensures
        ok == forall|j: int| i < j < entries.len() ==> apart(entries.deep_view(), i as int, j),
{
    let ghost es = entries.deep_view();
    let own = scopes_of(&entries[i]);
    assert(es[i as int] == entries@[i as int]@);
    let mut j: usize = i + 1;
    while j < entries.len()
        invariant
            i < j <= entries.len(),
            es == entries.deep_view(),
            es[i as int] == entries@[i as int]@,
            own.deep_view() == scopes(es[i as int]),
            forall|m: int| i < m < j ==> apart(es, i as int, m),
        decreases entries.len() - j,
    {
        assert(es[j as int] == entries@[j as int]@);
        let other = scopes_of(&entries[j]);
        if !disjoint_texts(&entries[i].aliased_by, &entries[j].aliased_by) || !disjoint_texts(
            &own,
            &other,
        ) {
            assert(!apart(es, i as int, j as int));
            return false;
        }
        j += 1;
    }
    true
}

/// Whether no two registrations of these assets and entries meet.
pub fn is_registrable(assets: &Vec<Asset>, entries: &Vec<Entry>) -> (ok: bool)
    ensures
        ok == registrable(assets.deep_view(), entries.deep_view()),
{
    let ghost store = assets.deep_view();
    let ghost es = entries.deep_view();
    let list = asset_urls(assets);
    if !distinct_texts(&list) {
        return false;
    }
    let mut i: usize = 0;
    while i < entries.len()
        invariant
            i <= entries.len(),
            store == assets.deep_view(),
            es == entries.deep_view(),
            list.deep_view() == urls(store),
            forall|m: int| 0 <= m < i ==> disjoint((#[trigger] es[m]).aliased_by, urls(store)),
            forall|m: int| 0 <= m < i ==> scopes(#[trigger] es[m]).no_duplicates(),
            forall|m: int, j: int|
                #![trigger es[m], es[j]]
                0 <= m < i && m < j < es.len() ==> apart(es, m, j),
        decreases entries.len() - i,
    {
        assert(es[i as int] == entries@[i as int]@);
        if !disjoint_texts(&entries[i].aliased_by, &list) {
            return false;
        }
        let own = scopes_of(&entries[i]);
        if !distinct_texts(&own) {
            return false;
        }
        if !apart_from_later(entries, i) {
            let ghost j = choose|j: int| i < j < es.len() && !apart(es, i as int, j);
            assert(!(disjoint(es[i as int].aliased_by, es[j].aliased_by) && disjoint(
                scopes(es[i as int]),
                scopes(es[j]),
            )));
            return false;
        }
        i += 1;
    }
    true
}

} // verus!
