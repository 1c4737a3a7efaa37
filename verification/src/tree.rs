//! The certification tree: built in one piece from an asset store and a
//! rule table, never changed afterwards. A build either yields a tree that
//! holds exactly the responses the rules ask for, or fails and yields
//! nothing.

use crate::copy::{copy_entries, copy_pairs};
use crate::model::{
    Asset, AssetView, BuildError, BuildErrorView, ConfigurationError, Encoding, Entry, EntryView,
    Response, ResponseView, Rule, RuleView,
};
use crate::plan::{
    check_rules, content_at, find_asset, first_fault, has_asset, lemma_planned_statuses, plan,
    planned, rules_sound,
};
use crate::store::{
    asset_urls, complete, find_missing_variant, first_missing, handed, hidden, is_registrable,
    scopes_of, select, url_for, variant_of,
};
use crate::texts::{contains_text, same_bytes, same_pairs};
use crate::trusted::{
    certifiable, certify, ends_in_proof, forget, forgettable, list_fallback_keys, list_keys, lookup,
    lookup_fallback, new_router, picked, registrable, remove, root_hash, router_log, scopes, serve,
    settle, stored, stored_fallback, token_of, tree_root, url_of, urls, without_last, Step,
};
use vstd::prelude::*;

verus! {

/// The key of an encoding in the tree: its token, and none for the identity.
pub open spec fn key_of(encoding: Encoding) -> Option<Seq<char>> {
    if encoding == Encoding::Identity {
        None
    } else {
        Some(encoding.token_spec())
    }
}

/// The entry asks for its asset in this encoding: the identity always, the
/// others where its rule declares them.
pub open spec fn declares(entry: EntryView, encoding: Encoding) -> bool {
    encoding == Encoding::Identity || entry.encodings.contains(encoding)
}

pub open spec fn type_header(content_type: Option<Seq<char>>) -> Seq<(Seq<char>, Seq<char>)> {
    match content_type {
        Some(t) => seq![("content-type"@, t)],
        None => Seq::empty(),
    }
}

pub open spec fn encoding_header(encoding: Encoding) -> Seq<(Seq<char>, Seq<char>)> {
    if encoding == Encoding::Identity {
        Seq::empty()
    } else {
        seq![("content-encoding"@, encoding.token_spec())]
    }
}

/// The headers that the rule of an entry gives a response in an encoding:
/// the rule's headers in order, then the content type where the rule has
/// one, then `content-encoding` unless the encoding is the identity.
pub open spec fn declared_headers(entry: EntryView, encoding: Encoding) -> Seq<
    (Seq<char>, Seq<char>),
> {
    entry.headers + type_header(entry.content_type) + encoding_header(encoding)
}

/// The header list is `inner` between the two headers that the tree makes
/// itself: `content-length` in front, `IC-CertificateExpression` behind.
pub open spec fn framed(
    headers: Seq<(Seq<char>, Seq<char>)>,
    inner: Seq<(Seq<char>, Seq<char>)>,
) -> bool {
    &&& headers.len() == inner.len() + 2
    &&& headers.first().0 == "content-length"@
    &&& headers.last().0 == "IC-CertificateExpression"@
    &&& headers.subrange(1, headers.len() - 1) == inner
}

/// The response is the entry's asset in this encoding: status 200, as body
/// what the file of that encoding holds in the store, and as headers those
/// that the rule declares, in order and no others, between the two that the
/// tree makes.
pub open spec fn presents(
    response: ResponseView,
    assets: Seq<AssetView>,
    entry: EntryView,
    encoding: Encoding,
) -> bool {
    &&& response.status_code == 200
    &&& has_asset(assets, entry.path + encoding.suffix_spec())
    &&& response.body == content_at(assets, entry.path + encoding.suffix_spec())
    &&& framed(response.headers, declared_headers(entry, encoding))
}

/// The same response under another status code.
pub open spec fn with_status(response: ResponseView, status_code: u16) -> ResponseView {
    ResponseView { status_code, headers: response.headers, body: response.body }
}

/// A tree with this record holds the entry's asset in this encoding: under
/// the asset's URL the response that presents it, under each alias of the
/// entry the same response, and for each fallback scope of the entry the
/// same response under the status asked for.
pub open spec fn holds(
    log: Seq<Step>,
    assets: Seq<AssetView>,
    entry: EntryView,
    encoding: Encoding,
) -> bool {
    let key = key_of(encoding);
    stored(log, url_of(entry.path), key, None) matches Some(response) && {
        &&& presents(response, assets, entry, encoding)
        &&& forall|a: int|
            0 <= a < entry.aliased_by.len() ==> stored(
                log,
                #[trigger] entry.aliased_by[a],
                key,
                None,
            ) == Some(response)
        &&& forall|f: int|
            0 <= f < entry.fallback_for.len() ==> stored_fallback(
                log,
                (#[trigger] entry.fallback_for[f]).scope,
                key,
                None,
            ) == Some(with_status(response, entry.fallback_for[f].status_code))
    }
}

/// A tree with this record holds every asset that has an entry, in every
/// encoding that the entry asks for.
pub open spec fn covered(log: Seq<Step>, assets: Seq<AssetView>, entries: Seq<EntryView>) -> bool {
    forall|i: int, encoding: Encoding|
        0 <= i < entries.len() && declares(entries[i], encoding) ==> #[trigger] holds(
            log,
            assets,
            entries[i],
            encoding,
        )
}

/// `encoding` of entry `i` is the first that a tree with this record does
/// not hold: the entries in order, of each the identity first and then its
/// encodings in order.
pub open spec fn first_uncovered(
    log: Seq<Step>,
    assets: Seq<AssetView>,
    entries: Seq<EntryView>,
    i: int,
    encoding: Encoding,
) -> bool {
    &&& 0 <= i < entries.len()
    &&& !holds(log, assets, entries[i], encoding)
    &&& covered(log, assets, entries.take(i))
    &&& encoding != Encoding::Identity ==> holds(log, assets, entries[i], Encoding::Identity)
        && exists|k: int|
        0 <= k < entries[i].encodings.len() && entries[i].encodings[k] == encoding && forall|
            l: int,
        |
            0 <= l < k ==> holds(log, assets, entries[i], #[trigger] entries[i].encodings[l])
}

/// The whole response that a tree with this record holds under a name and
/// an encoding key: among the fallbacks, where `name` is a scope, else among
/// the responses, where `name` is a URL.
pub open spec fn at(
    log: Seq<Step>,
    name: Seq<char>,
    key: Option<Seq<char>>,
    fallback: bool,
) -> Option<ResponseView> {
    if fallback {
        stored_fallback(log, name, key, None)
    } else {
        stored(log, name, key, None)
    }
}

/// The entry offers a response under this encoding key: unencoded always,
/// else under the token of an encoding it asks for.
pub open spec fn offers(entry: EntryView, encoding: Option<Seq<char>>) -> bool {
    encoding matches Some(token) ==> exists|k: int|
        0 <= k < entry.encodings.len() && (#[trigger] entry.encodings[k]).token_spec() == token
}

/// Some entry accounts for a key of the tree: for a response under `name`,
/// by having `name` as the URL of its asset or as an alias; for a fallback
/// under `name`, by claiming `name` as a scope; and by offering the encoding.
pub open spec fn known(
    entries: Seq<EntryView>,
    name: Seq<char>,
    encoding: Option<Seq<char>>,
    fallback: bool,
) -> bool {
    exists|i: int|
        0 <= i < entries.len() && offers(#[trigger] entries[i], encoding) && if fallback {
            scopes(entries[i]).contains(name)
        } else {
            name == url_of(entries[i].path) || entries[i].aliased_by.contains(name)
        }
}

/// A tree with this record holds nothing that no entry accounts for: no
/// response, whole or in ranges, under the URL of a file that no rule
/// governs, under an alias that no rule declares or in an encoding that the
/// governing rule does not ask for, and no fallback for a scope that no rule
/// claims.
pub open spec fn sealed(log: Seq<Step>, entries: Seq<EntryView>) -> bool {
    &&& forall|url: Seq<char>, encoding: Option<Seq<char>>, range: Option<usize>|
        #[trigger] stored(log, url, encoding, range) is Some ==> known(
            entries,
            url,
            encoding,
            false,
        )
    &&& forall|scope: Seq<char>, encoding: Option<Seq<char>>, range: Option<usize>|
        #[trigger] stored_fallback(log, scope, encoding, range) is Some ==> known(
            entries,
            scope,
            encoding,
            true,
        )
}

/// Some entry claims the scope `/`, under which every path lies.
pub open spec fn catches_all(entries: Seq<EntryView>) -> bool {
    exists|i: int, k: int|
        0 <= i < entries.len() && 0 <= k < entries[i].fallback_for.len() && (
        #[trigger] entries[i].fallback_for[k]).scope == seq!['/']
}

/// What a tree is, for its users: the record of what went into it, its root
/// hash, the store and the entries it was built for, and whether an entry
/// catches every path.
pub struct TreeView {
    pub log: Seq<Step>,
    pub root: Seq<u8>,
    pub assets: Seq<AssetView>,
    pub entries: Seq<EntryView>,
    pub catch_all: bool,
}

/// The record of a tree built from these assets and rules: the handed
/// assets certified under the planned entries, then the files that are only
/// encoded variants taken out from under their own paths, as assets and by
/// their URLs.
pub open spec fn build_log(assets: Seq<AssetView>, rules: Seq<RuleView>) -> Seq<Step> {
    let entries = planned(assets, rules);
    seq![
        Step::Certified { assets: handed(assets, entries), entries },
        Step::Forgotten { assets: hidden(assets, entries) },
        Step::Removed { urls: urls(hidden(assets, entries)) },
    ]
}

/// The tree takes all that a build hands it and gives back all that the
/// build takes out again.
pub open spec fn accepted(assets: Seq<AssetView>, entries: Seq<EntryView>) -> bool {
    certifiable(handed(assets, entries), entries) && forgettable(hidden(assets, entries))
}

/// The tree is the one built from these assets and rules. Its root hash is
/// left open: it follows the order in which the tree was filled, which the
/// assets and rules do not decide.
pub open spec fn built_from(tree: TreeView, assets: Seq<AssetView>, rules: Seq<RuleView>) -> bool {
    &&& tree.log == build_log(assets, rules)
    &&& tree.assets == assets
    &&& tree.entries == planned(assets, rules)
    &&& tree.catch_all == catches_all(planned(assets, rules))
}

/// What a build of these assets under these rules comes to. The cases
/// exclude one another, so the inputs decide which it is: a fault of a rule
/// by itself; else registrations that meet; else an encoding without its
/// file; else a tree that refuses, or holds what no entry accounts for;
/// else a response that the tree lacks; else the tree.
pub open spec fn outcome_of(
    assets: Seq<AssetView>,
    rules: Seq<RuleView>,
    result: Result<TreeView, BuildErrorView>,
) -> bool {
    let entries = planned(assets, rules);
    let given = handed(assets, entries);
    let log = build_log(assets, rules);
    match result {
        Err(BuildErrorView::Configuration(fault)) => match fault {
            ConfigurationError::Conflict => rules_sound(assets, rules) && !registrable(
                given,
                entries,
            ),
            ConfigurationError::Rejected => rules_sound(assets, rules) && registrable(
                given,
                entries,
            ) && complete(assets, entries) && (!accepted(assets, entries) || (covered(
                log,
                assets,
                entries,
            ) && !sealed(log, entries))),
            _ => first_fault(assets, rules, fault),
        },
        Err(BuildErrorView::EncodingUnavailable { path, encoding }) => rules_sound(assets, rules)
            && registrable(given, entries) && ((exists|i: int, k: int|
            first_missing(assets, entries, i, k) && path == entries[i].path && encoding
                == entries[i].encodings[k]) || (complete(assets, entries) && accepted(
            assets,
            entries,
        ) && exists|i: int|
            first_uncovered(log, assets, entries, i, encoding) && path == entries[i].path)),
        Ok(tree) => rules_sound(assets, rules) && registrable(given, entries) && complete(
            assets,
            entries,
        ) && accepted(assets, entries) && covered(log, assets, entries) && sealed(log, entries)
            && built_from(tree, assets, rules),
    }
}

/// A built tree. It holds every response that its entries ask for, and
/// nothing else. It is process-wide state: once built it is kept until the
/// process ends, also where the value that stands for it is dropped.
pub struct CertificationTree {
    router: &'static ic_asset_certification::AssetRouter<'static>,
    assets: Ghost<Seq<AssetView>>,
    entries: Vec<Entry>,
    catch_all: bool,
}

impl View for CertificationTree {
    type V = TreeView;

    closed spec fn view(&self) -> TreeView {
        TreeView {
            log: router_log(*self.router),
            root: tree_root(*self.router),
            assets: self.assets@,
            entries: self.entries.deep_view(),
            catch_all: self.catch_all,
        }
    }
}

fn same_but_status(other: &Option<Response>, response: &Response, status_code: u16) -> (same: bool)
    ensures
        same == (other.deep_view() == Some(with_status(response@, status_code))),
{
    match other {
        Some(found) => found.status_code == status_code && same_pairs(
            &found.headers,
            &response.headers,
        ) && same_bytes(&found.body, &response.body),
        None => false,
    }
}

/// The headers that the rule of an entry gives a response in an encoding.
pub fn headers_for(entry: &Entry, encoding: Encoding) -> (headers: Vec<(String, String)>)
    ensures
        headers.deep_view() == declared_headers(entry@, encoding),
{
    let mut headers = copy_pairs(&entry.headers);
    let ghost own = headers.deep_view();
    match &entry.content_type {
        Some(content_type) => {
            headers.push((String::from_str("content-type"), content_type.clone()));
            assert(headers.deep_view() =~= own + type_header(entry@.content_type));
        },
        None => {
            assert(headers.deep_view() =~= own + type_header(entry@.content_type));
        },
    }
    let ghost typed = headers.deep_view();
    match encoding {
        Encoding::Identity => {
            assert(headers.deep_view() =~= typed + encoding_header(encoding));
        },
        _ => {
            headers.push((String::from_str("content-encoding"), String::from_str(encoding.token())));
            assert(headers.deep_view() =~= typed + encoding_header(encoding));
        },
    }
    headers
}

/// Whether the header list is `inner` between `content-length` and
/// `IC-CertificateExpression`.
pub fn is_framed(headers: &Vec<(String, String)>, inner: &Vec<(String, String)>) -> (ok: bool)
    ensures
        ok == framed(headers.deep_view(), inner.deep_view()),
{
    let n = headers.len();
    if n < 2 || n - 2 != inner.len() {
        return false;
    }
    let ghost all = headers.deep_view();
    assert(all[0] == headers@[0].deep_view());
    assert(all[n - 1] == headers@[n - 1].deep_view());
    if !(headers[0].0 == String::from_str("content-length")) || !(headers[n - 1].0
        == String::from_str("IC-CertificateExpression")) {
        return false;
    }
    let mut i: usize = 0;
    while i < inner.len()
        invariant
            i <= inner.len(),
            n == headers.len(),
            n == inner.len() + 2,
            all == headers.deep_view(),
            forall|j: int| 0 <= j < i ==> all[j + 1] == inner.deep_view()[j],
        decreases inner.len() - i,
    {
        assert(all[i + 1] == headers@[i + 1].deep_view());
        assert(inner.deep_view()[i as int] == inner@[i as int].deep_view());
        if !(headers[i + 1].0 == inner[i].0 && headers[i + 1].1 == inner[i].1) {
            assert(all.subrange(1, n - 1)[i as int] == all[i + 1]);
            return false;
        }
        i += 1;
    }
    assert(all.subrange(1, n - 1) =~= inner.deep_view());
    true
}

fn presents_asset(response: &Response, assets: &Vec<Asset>, entry: &Entry, encoding: Encoding) -> (ok:
    bool)
    ensures
        ok == presents(response@, assets.deep_view(), entry@, encoding),
{
    if response.status_code != 200 {
        return false;
    }
    let file = variant_of(&entry.path, encoding);
    match find_asset(assets, &file) {
        None => {
            return false;
        },
        Some(j) => {
            if !same_bytes(&response.body, &assets[j].content) {
                return false;
            }
        },
    }
    let expected = headers_for(entry, encoding);
    is_framed(&response.headers, &expected)
}

fn holds_asset(
    router: &ic_asset_certification::AssetRouter<'static>,
    assets: &Vec<Asset>,
    entry: &Entry,
    encoding: Encoding,
) -> (ok: bool)
    ensures
        ok == holds(router_log(*router), assets.deep_view(), entry@, encoding),
{
    let ghost log = router_log(*router);
    let url = url_for(&entry.path);
    let key = match encoding {
        Encoding::Identity => None,
        _ => Some(encoding),
    };
    assert(token_of(key) == key_of(encoding));
    let found = lookup(router, &url, key);
    let ghost found_view = found.deep_view();
    let response = match found {
        Some(response) => response,
        None => {
            return false;
        },
    };
    assert(found_view == Some(response@));
    assert(stored(log, url_of(entry@.path), key_of(encoding), None) == Some(response@));
    assert(with_status(response@, response.status_code) == response@);
    if !presents_asset(&response, assets, entry, encoding) {
        return false;
    }
    let mut a: usize = 0;
    while a < entry.aliased_by.len()
        invariant
            a <= entry.aliased_by.len(),
            log == router_log(*router),
            token_of(key) == key_of(encoding),
            stored(log, url_of(entry@.path), key_of(encoding), None) == Some(response@),
            with_status(response@, response.status_code) == response@,
            forall|b: int|
                0 <= b < a ==> stored(log, #[trigger] entry@.aliased_by[b], key_of(encoding), None)
                    == Some(response@),
        decreases entry.aliased_by.len() - a,
    {
        assert(entry@.aliased_by[a as int] == entry.aliased_by@[a as int]@);
        let other = lookup(router, &entry.aliased_by[a], key);
        if !same_but_status(&other, &response, response.status_code) {
            return false;
        }
        a += 1;
    }
    let mut f: usize = 0;
    while f < entry.fallback_for.len()
        invariant
            f <= entry.fallback_for.len(),
            log == router_log(*router),
            token_of(key) == key_of(encoding),
            stored(log, url_of(entry@.path), key_of(encoding), None) == Some(response@),
            forall|g: int|
                0 <= g < f ==> stored_fallback(
                    log,
                    (#[trigger] entry@.fallback_for[g]).scope,
                    key_of(encoding),
                    None,
                ) == Some(with_status(response@, entry@.fallback_for[g].status_code)),
        decreases entry.fallback_for.len() - f,
    {
        assert(entry@.fallback_for[f as int] == entry.fallback_for@[f as int]@);
        let other = lookup_fallback(router, &entry.fallback_for[f].scope, key);
        if !same_but_status(&other, &response, entry.fallback_for[f].status_code) {
            return false;
        }
        f += 1;
    }
    true
}

/// Looks for an encoding of an entry that the router does not hold.
fn find_uncovered(
    router: &ic_asset_certification::AssetRouter<'static>,
    assets: &Vec<Asset>,
    entries: &Vec<Entry>,
) -> (gap: Option<(usize, Encoding)>)
    ensures
        match gap {
            Some((i, encoding)) => first_uncovered(
                router_log(*router),
                assets.deep_view(),
                entries.deep_view(),
                i as int,
                encoding,
            ),
            None => covered(router_log(*router), assets.deep_view(), entries.deep_view()),
        },
{
    let ghost log = router_log(*router);
    let ghost store = assets.deep_view();
    let ghost es = entries.deep_view();
    let mut i: usize = 0;
    while i < entries.len()
        invariant
            i <= entries.len(),
            log == router_log(*router),
            store == assets.deep_view(),
            es == entries.deep_view(),
            covered(log, store, es.take(i as int)),
        decreases entries.len() - i,
    {
        assert(es[i as int] == entries@[i as int]@);
        if !holds_asset(router, assets, &entries[i], Encoding::Identity) {
            return Some((i, Encoding::Identity));
        }
        let mut k: usize = 0;
        while k < entries[i].encodings.len()
            invariant
                i < entries.len(),
                k <= entries[i as int].encodings.len(),
                log == router_log(*router),
                store == assets.deep_view(),
                es == entries.deep_view(),
                es[i as int] == entries@[i as int]@,
                covered(log, store, es.take(i as int)),
                holds(log, store, es[i as int], Encoding::Identity),
                forall|l: int|
                    0 <= l < k ==> holds(log, store, es[i as int], #[trigger] es[i as int].encodings[l]),
            decreases entries[i as int].encodings.len() - k,
        {
            let encoding = entries[i].encodings[k];
            if !holds_asset(router, assets, &entries[i], encoding) {
                return Some((i, encoding));
            }
            k += 1;
        }
        assert forall|j: int, encoding: Encoding|
            0 <= j < es.take(i + 1).len() && declares(
                es.take(i + 1)[j],
                encoding,
            ) implies #[trigger] holds(log, store, es.take(i + 1)[j], encoding) by {
            if j < i {
                assert(es.take(i as int)[j] == es[j]);
                assert(holds(log, store, es.take(i as int)[j], encoding));
            } else if encoding != Encoding::Identity {
                let l = choose|l: int|
                    0 <= l < es[i as int].encodings.len() && es[i as int].encodings[l] == encoding;
                assert(holds(log, store, es[i as int], es[i as int].encodings[l]));
            }
        }
        i += 1;
    }
    assert(es.take(i as int) =~= es);
    None
}

/// Whether the entry offers a response under this encoding key.
pub fn offers_key(entry: &Entry, encoding: &Option<String>) -> (ok: bool)
    ensures
        ok == offers(entry@, encoding.deep_view()),
{
    match encoding {
        None => true,
        Some(token) => {
            let mut k: usize = 0;
            while k < entry.encodings.len()
                invariant
                    k <= entry.encodings.len(),
                    encoding.deep_view() == Some(token@),
                    forall|l: int|
                        0 <= l < k ==> (#[trigger] entry@.encodings[l]).token_spec() != token@,
                decreases entry.encodings.len() - k,
            {
                let own = String::from_str(entry.encodings[k].token());
                assert(entry@.encodings[k as int] == entry.encodings@[k as int]);
                assert(own@ == entry@.encodings[k as int].token_spec());
                if own == *token {
                    assert(encoding.deep_view() == Some(token@));
                    assert(offers(entry@, Some(token@)));
                    return true;
                }
                k += 1;
            }
            false
        },
    }
}

/// Whether some entry accounts for a key of the tree.
pub fn is_known(entries: &Vec<Entry>, name: &String, encoding: &Option<String>, fallback: bool) -> (ok:
    bool)
    ensures
        ok == known(entries.deep_view(), name@, encoding.deep_view(), fallback),
{
    let ghost es = entries.deep_view();
    let mut i: usize = 0;
    while i < entries.len()
        invariant
            i <= entries.len(),
            es == entries.deep_view(),
            forall|j: int|
                0 <= j < i ==> !(offers(#[trigger] es[j], encoding.deep_view()) && if fallback {
                    scopes(es[j]).contains(name@)
                } else {
                    name@ == url_of(es[j].path) || es[j].aliased_by.contains(name@)
                }),
        decreases entries.len() - i,
    {
        assert(es[i as int] == entries@[i as int]@);
        if offers_key(&entries[i], encoding) {
            let named = if fallback {
                contains_text(&scopes_of(&entries[i]), name)
            } else {
                url_for(&entries[i].path) == *name || contains_text(&entries[i].aliased_by, name)
            };
            if named {
                return true;
            }
        }
        i += 1;
    }
    false
}

fn all_known(entries: &Vec<Entry>, keys: &Vec<(String, Option<String>, Option<usize>)>, fallback: bool) -> (ok:
    bool)
    ensures
        ok == forall|j: int|
            0 <= j < keys.deep_view().len() ==> known(
                entries.deep_view(),
                (#[trigger] keys.deep_view()[j]).0,
                keys.deep_view()[j].1,
                fallback,
            ),
{
    let ghost ks = keys.deep_view();
    let mut j: usize = 0;
    while j < keys.len()
        invariant
            j <= keys.len(),
            ks == keys.deep_view(),
            forall|l: int|
                0 <= l < j ==> known(entries.deep_view(), (#[trigger] ks[l]).0, ks[l].1, fallback),
        decreases keys.len() - j,
    {
        assert(ks[j as int] == keys@[j as int].deep_view());
        if !is_known(entries, &keys[j].0, &keys[j].1, fallback) {
            return false;
        }
        j += 1;
    }
    true
}

/// Whether the router holds nothing that no entry accounts for.
fn is_sealed(router: &'static ic_asset_certification::AssetRouter<'static>, entries: &Vec<Entry>) -> (ok:
    bool)
    ensures
        ok == sealed(router_log(*router), entries.deep_view()),
{
    let ghost log = router_log(*router);
    let ghost es = entries.deep_view();
    let keys = list_keys(router);
    if !all_known(entries, &keys, false) {
        proof {
            let j = choose|j: int|
                0 <= j < keys.deep_view().len() && !known(
                    es,
                    (#[trigger] keys.deep_view()[j]).0,
                    keys.deep_view()[j].1,
                    false,
                );
            let key = keys.deep_view()[j];
            assert(keys.deep_view().contains(key));
            assert(stored(log, key.0, key.1, key.2) is Some);
        }
        return false;
    }
    let scopes = list_fallback_keys(router);
    if !all_known(entries, &scopes, true) {
        proof {
            let j = choose|j: int|
                0 <= j < scopes.deep_view().len() && !known(
                    es,
                    (#[trigger] scopes.deep_view()[j]).0,
                    scopes.deep_view()[j].1,
                    true,
                );
            let key = scopes.deep_view()[j];
            assert(scopes.deep_view().contains(key));
            assert(stored_fallback(log, key.0, key.1, key.2) is Some);
        }
        return false;
    }
    proof {
        assert forall|url: Seq<char>, encoding: Option<Seq<char>>, range: Option<usize>|
            #[trigger] stored(log, url, encoding, range) is Some implies known(
            es,
            url,
            encoding,
            false,
        ) by {
            assert(keys.deep_view().contains((url, encoding, range)));
            let j = choose|j: int|
                0 <= j < keys.deep_view().len() && keys.deep_view()[j] == (url, encoding, range);
            assert(known(es, keys.deep_view()[j].0, keys.deep_view()[j].1, false));
        }
        assert forall|scope: Seq<char>, encoding: Option<Seq<char>>, range: Option<usize>|
            #[trigger] stored_fallback(log, scope, encoding, range) is Some implies known(
            es,
            scope,
            encoding,
            true,
        ) by {
            assert(scopes.deep_view().contains((scope, encoding, range)));
            let j = choose|j: int|
                0 <= j < scopes.deep_view().len() && scopes.deep_view()[j] == (
                    scope,
                    encoding,
                    range,
                );
            assert(known(es, scopes.deep_view()[j].0, scopes.deep_view()[j].1, true));
        }
    }
    true
}

fn has_catch_all(entries: &Vec<Entry>) -> (found: bool)
    ensures
        found == catches_all(entries.deep_view()),
{
    let ghost es = entries.deep_view();
    let root = String::from_str("/");
    proof {
        reveal_strlit("/");
    }
    assert(root@ =~= seq!['/']);
    let mut i: usize = 0;
    while i < entries.len()
        invariant
            i <= entries.len(),
            es == entries.deep_view(),
            root@ == seq!['/'],
            forall|j: int, k: int|
                0 <= j < i && 0 <= k < es[j].fallback_for.len() ==> (
                #[trigger] es[j].fallback_for[k]).scope != seq!['/'],
        decreases entries.len() - i,
    {
        assert(es[i as int] == entries@[i as int]@);
        let mut k: usize = 0;
        while k < entries[i].fallback_for.len()
            invariant
                i < entries.len(),
                k <= entries[i as int].fallback_for.len(),
                es == entries.deep_view(),
                es[i as int] == entries@[i as int]@,
                root@ == seq!['/'],
                forall|l: int|
                    0 <= l < k ==> (#[trigger] es[i as int].fallback_for[l]).scope != seq!['/'],
            decreases entries[i as int].fallback_for.len() - k,
        {
            assert(es[i as int].fallback_for[k as int] == entries@[i as int].fallback_for@[k as int]@);
            if entries[i].fallback_for[k].scope == root {
                return true;
            }
            k += 1;
        }
        i += 1;
    }
    false
}

impl CertificationTree {
    #[verifier::type_invariant]
    spec fn sound(self) -> bool {
        &&& covered(router_log(*self.router), self.assets@, self.entries.deep_view())
        &&& sealed(router_log(*self.router), self.entries.deep_view())
        &&& self.catch_all == catches_all(self.entries.deep_view())
    }

    /// The digest to publish: the root hash of this tree. Another build of
    /// the same store may give another: the tree's shape follows the order
    /// in which it was filled.
    pub fn root_digest(&self) -> (digest: [u8; 32])
        ensures
            digest@ == self@.root,
    {
        root_hash(self.router)
    }

    /// Whether some entry catches every path by a fallback for `/`.
    pub fn has_universal_fallback(&self) -> (yes: bool)
        ensures
            yes == self@.catch_all,
            yes == catches_all(self@.entries),
    {
        proof {
            use_type_invariant(self);
        }
        self.catch_all
    }

    /// What the tree answers to a request for `url` with these headers: the
    /// response it picks, with the proof of inclusion made from the
    /// certificate appended, or nothing.
    pub(crate) fn answer(&self, certificate: &Vec<u8>, url: &String, headers: &Vec<(String, String)>) -> (found:
        Option<Response>)
        ensures
            match found {
                Some(response) => ends_in_proof(response@) && picked(
                    self@.log,
                    url@,
                    headers.deep_view(),
                ) == Some(without_last(response@)),
                None => picked(self@.log, url@, headers.deep_view()) is None,
            },
    {
        serve(self.router, certificate, url, headers)
    }

    /// The whole response held under a URL, or as the fallback for a scope,
    /// in an encoding.
    pub(crate) fn held(&self, name: &String, encoding: Encoding, fallback: bool) -> (found: Option<
        Response,
    >)
        ensures
            found.deep_view() == at(self@.log, name@, key_of(encoding), fallback),
    {
        let key = match encoding {
            Encoding::Identity => None,
            _ => Some(encoding),
        };
        assert(token_of(key) == key_of(encoding));
        if fallback {
            lookup_fallback(self.router, name, key)
        } else {
            lookup(self.router, name, key)
        }
    }

    /// The whole response held for the asset at `path` in `encoding`,
    /// without a proof. Where the asset has an entry that asks for the
    /// encoding, the response is there and presents the asset in that
    /// encoding. Where no entry accounts for the path in that encoding,
    /// nothing is there.
    pub fn lookup(&self, path: &String, encoding: Encoding) -> (found: Option<Response>)
        ensures
            found.deep_view() == stored(self@.log, url_of(path@), key_of(encoding), None),
            forall|i: int|
                0 <= i < self@.entries.len() && (#[trigger] self@.entries[i]).path == path@
                    && declares(self@.entries[i], encoding) ==> (found.deep_view() matches Some(
                    response,
                ) && presents(response, self@.assets, self@.entries[i], encoding)),
            !known(self@.entries, url_of(path@), key_of(encoding), false) ==> found is None,
    {
        proof {
            use_type_invariant(self);
            assert forall|i: int|
                0 <= i < self@.entries.len() && (#[trigger] self@.entries[i]).path == path@
                    && declares(self@.entries[i], encoding) implies holds(
                self@.log,
                self@.assets,
                self@.entries[i],
                encoding,
            ) by {}
        }
        let url = url_for(path);
        let key = match encoding {
            Encoding::Identity => None,
            _ => Some(encoding),
        };
        assert(token_of(key) == key_of(encoding));
        lookup(self.router, &url, key)
    }
}

/// Builds the tree for an asset store under a rule table: checks the
/// rules, plans the entries, has the responses certified, and checks that
/// the tree holds them and nothing else.
pub fn build(assets: &Vec<Asset>, rules: &Vec<Rule>) -> (built: Result<
    CertificationTree,
    BuildError,
>)
    ensures
        match built {
            Ok(tree) => outcome_of(assets.deep_view(), rules.deep_view(), Ok(tree@)),
            Err(error) => outcome_of(assets.deep_view(), rules.deep_view(), Err(error@)),
        },
{
    match check_rules(assets, rules) {
        Err(fault) => {
            return Err(BuildError::Configuration(fault));
        },
        Ok(()) => {},
    }
    let entries = plan(assets, rules);
    proof {
        lemma_planned_statuses(assets.deep_view(), rules.deep_view());
    }
    let (given, unserved) = select(assets, &entries);
    if !is_registrable(&given, &entries) {
        return Err(BuildError::Configuration(ConfigurationError::Conflict));
    }
    match find_missing_variant(assets, &entries) {
        Some((i, k)) => {
            assert(entries.deep_view()[i as int] == entries@[i as int]@);
            return Err(
                BuildError::EncodingUnavailable {
                    path: entries[i].path.clone(),
                    encoding: entries[i].encodings[k],
                },
            );
        },
        None => {},
    }
    let kept = copy_entries(&entries);
    let catch_all = has_catch_all(&kept);
    let mut router = new_router();
    let unserved_urls = asset_urls(&unserved);
    if !certify(&mut router, given, entries) {
        return Err(BuildError::Configuration(ConfigurationError::Rejected));
    }
    if !forget(&mut router, unserved) {
        return Err(BuildError::Configuration(ConfigurationError::Rejected));
    }
    remove(&mut router, &unserved_urls);
    assert(router_log(router) =~= build_log(assets.deep_view(), rules.deep_view()));
    let router = settle(router);
    match find_uncovered(router, assets, &kept) {
        Some((i, encoding)) => {
            assert(kept.deep_view()[i as int] == kept@[i as int]@);
            return Err(BuildError::EncodingUnavailable { path: kept[i].path.clone(), encoding });
        },
        None => {},
    }
    if !is_sealed(router, &kept) {
        return Err(BuildError::Configuration(ConfigurationError::Rejected));
    }
    Ok(CertificationTree { router, assets: Ghost(assets.deep_view()), entries: kept, catch_all })
}

} // verus!
