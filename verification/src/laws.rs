//! What holds of every build and of every built tree, stated over the
//! models that the contracts use, and proved from them.

use crate::assets::answered;
use crate::model::{
    AssetView, BuildErrorView, ConfigurationError, Encoding, EntryView, RequestView, ResponseView,
    RuleView, ServeError,
};
use crate::plan::{
    entry_of, first_fault, has_asset, is_encoded, is_governed, planned, rule_fault, rules_sound,
};
use crate::negotiate::accepted;
use crate::route::{
    boundary, collapsed, fallback_below, normalized, preferred, query_start, routed, selected,
    settled,
};
use crate::rules::{
    applies, governed, governing, governs, lemma_governed_iff_some_applies, precedes,
};
use crate::store::{complete, first_missing, handed, is_handed, variant_path};
use crate::tree::{
    at, build_log, covered, declared_headers, declares, first_uncovered, holds, key_of,
    known, outcome_of, presents, with_status, TreeView,
};
use crate::trusted::{
    ends_in_proof, registrable, stored, stored_fallback, url_of, urls, Step,
};
use vstd::prelude::*;

verus! {

/// File rules override patterns: where a file rule applies to an asset, a
/// file rule governs it, whatever patterns match it too and wherever they
/// are declared.
pub proof fn law_precedence(rules: Seq<RuleView>, path: Seq<char>, f: int)
    requires
        0 <= f < rules.len(),
        rules[f] is File,
        applies(rules[f], path),
    ensures
        governed(rules, path),
        rules[governing(rules, path)] is File,
        applies(rules[governing(rules, path)], path),
        governing(rules, path) <= f,
{
    lemma_governed_iff_some_applies(rules, path);
    let g = governing(rules, path);
    assert(governs(rules, path, g));
    assert(!precedes(rules, f, g));
}

/// Among pattern rules the first declared wins: where no file rule applies
/// to an asset, the pattern that governs it is the first that matches.
pub proof fn law_first_pattern_wins(rules: Seq<RuleView>, path: Seq<char>, p: int)
    requires
        0 <= p < rules.len(),
        applies(rules[p], path),
        forall|j: int| 0 <= j < rules.len() && rules[j] is File ==> !applies(rules[j], path),
    ensures
        governed(rules, path),
        governing(rules, path) <= p,
{
    lemma_governed_iff_some_applies(rules, path);
    let g = governing(rules, path);
    assert(governs(rules, path, g));
    assert(!precedes(rules, p, g));
}

/// Every governed asset of the store has its entry in the plan, made from
/// the rule that governs it.
pub proof fn lemma_entry_planned(assets: Seq<AssetView>, rules: Seq<RuleView>, a: int) -> (i: int)
    requires
        0 <= a < assets.len(),
        governed(rules, assets[a].path),
    ensures
        0 <= i < planned(assets, rules).len(),
        planned(assets, rules)[i] == entry_of(
            rules[governing(rules, assets[a].path)],
            assets[a].path,
        ),
{
    let kept = assets.filter(is_governed(rules));
    assets.lemma_filter_contains(is_governed(rules), a);
    let i = choose|i: int| 0 <= i < kept.len() && kept[i] == assets[a];
    i
}

/// The rule that governs the asset at index `a` asks for it in `encoding`:
/// in the identity always, in another encoding by declaring it.
pub open spec fn asks_for(
    assets: Seq<AssetView>,
    rules: Seq<RuleView>,
    a: int,
    encoding: Encoding,
) -> bool {
    &&& 0 <= a < assets.len()
    &&& governed(rules, assets[a].path)
    &&& encoding == Encoding::Identity || rules[governing(
        rules,
        assets[a].path,
    )].encodings().contains(encoding)
}

/// A built tree covers its store: every asset that a rule governs is held
/// in every encoding that the rule asks for, under the asset's own URL: with
/// status 200, the bytes of the file of that encoding, and as headers,
/// between the two that the tree makes, exactly those of the governing rule
/// in order, then its content type, then `content-encoding` unless the
/// encoding is the identity.
pub proof fn law_coverage(
    assets: Seq<AssetView>,
    rules: Seq<RuleView>,
    tree: TreeView,
    a: int,
    encoding: Encoding,
)
    requires
        outcome_of(assets, rules, Ok(tree)),
        asks_for(assets, rules, a, encoding),
    ensures
        stored(tree.log, url_of(assets[a].path), key_of(encoding), None) matches Some(response)
            && presents(
            response,
            assets,
            entry_of(rules[governing(rules, assets[a].path)], assets[a].path),
            encoding,
        ),
        declared_headers(
            entry_of(rules[governing(rules, assets[a].path)], assets[a].path),
            encoding,
        ) == rules[governing(rules, assets[a].path)].headers() + crate::tree::type_header(
            rules[governing(rules, assets[a].path)].content_type(),
        ) + crate::tree::encoding_header(encoding),
{
    let i = lemma_entry_planned(assets, rules, a);
    let rule = rules[governing(rules, assets[a].path)];
    let entry = planned(assets, rules)[i];
    lemma_declared(rule, assets[a].path, encoding);
    assert(holds(tree.log, assets, entry, encoding));
}

/// A built tree holds nothing that the plan does not account for: a
/// response, whole or in ranges, only under the URL or an alias of a
/// governed asset and in an encoding that its rule asks for; a fallback only
/// for a scope that a rule claims.
pub proof fn law_nothing_unaccounted(
    assets: Seq<AssetView>,
    rules: Seq<RuleView>,
    tree: TreeView,
    name: Seq<char>,
    encoding: Option<Seq<char>>,
    range: Option<usize>,
)
    requires
        outcome_of(assets, rules, Ok(tree)),
    ensures
        stored(tree.log, name, encoding, range) is Some ==> known(
            planned(assets, rules),
            name,
            encoding,
            false,
        ),
        stored_fallback(tree.log, name, encoding, range) is Some ==> known(
            planned(assets, rules),
            name,
            encoding,
            true,
        ),
{
}

/// A governed asset of the store is handed to the tree.
proof fn lemma_governed_is_handed(assets: Seq<AssetView>, rules: Seq<RuleView>, a: int) -> (x: int)
    requires
        0 <= a < assets.len(),
        governed(rules, assets[a].path),
    ensures
        0 <= x < handed(assets, planned(assets, rules)).len(),
        handed(assets, planned(assets, rules))[x] == assets[a],
{
    let entries = planned(assets, rules);
    let i = lemma_entry_planned(assets, rules, a);
    assert(entries[i].path == assets[a].path);
    assets.lemma_filter_contains(is_handed(entries), a);
    let given = handed(assets, entries);
    let x = choose|x: int| 0 <= x < given.len() && given[x] == assets[a];
    x
}

/// Under the URL of a governed asset a built tree holds responses of that
/// asset's own rule only: whatever encoded response, whole or in ranges, is
/// held there, its encoding is one that the governing rule asks for. No
/// other rule, and no pattern beside a file rule, adds an encoding.
pub proof fn law_only_asked_encodings(
    assets: Seq<AssetView>,
    rules: Seq<RuleView>,
    tree: TreeView,
    a: int,
    token: Seq<char>,
    range: Option<usize>,
)
    requires
        outcome_of(assets, rules, Ok(tree)),
        0 <= a < assets.len(),
        governed(rules, assets[a].path),
        stored(tree.log, url_of(assets[a].path), Some(token), range) is Some,
    ensures
        exists|k: int|
            0 <= k < rules[governing(rules, assets[a].path)].encodings().len() && (
            #[trigger] rules[governing(rules, assets[a].path)].encodings()[k]).token_spec()
                == token,
{
    let entries = planned(assets, rules);
    let given = handed(assets, entries);
    let url = url_of(assets[a].path);
    let rule = rules[governing(rules, assets[a].path)];
    assert(known(entries, url, Some(token), false));
    let i = choose|i: int|
        0 <= i < entries.len() && crate::tree::offers(#[trigger] entries[i], Some(token)) && (url
            == url_of(entries[i].path) || entries[i].aliased_by.contains(url));
    let b = law_only_governed_assets_are_planned(assets, rules, i);
    let x = lemma_governed_is_handed(assets, rules, a);
    let y = lemma_governed_is_handed(assets, rules, b);
    assert(urls(given)[x] == url);
    assert(urls(given)[y] == url_of(assets[b].path));
    assert(registrable(given, entries));
    if entries[i].aliased_by.contains(url) {
        let l = choose|l: int| 0 <= l < entries[i].aliased_by.len() && entries[i].aliased_by[l] == url;
        assert(crate::trusted::disjoint(entries[i].aliased_by, urls(given)));
        assert(entries[i].aliased_by[l] != urls(given)[x]);
    }
    assert(url == url_of(entries[i].path));
    assert(x == y);
    assert(assets[a] == assets[b]);
    assert(entries[i] == entry_of(rule, assets[a].path));
    let k = choose|k: int|
        0 <= k < entries[i].encodings.len() && (#[trigger] entries[i].encodings[k]).token_spec()
            == token;
    let e = entries[i].encodings[k];
    assert(rule.encodings().filter(is_encoded()).contains(e));
    rule.encodings().lemma_filter_contains_rev(is_encoded(), e);
    let m = choose|m: int| 0 <= m < rule.encodings().len() && rule.encodings()[m] == e;
    assert(rule.encodings()[m].token_spec() == token);
}

/// Under a URL that is neither the URL nor an alias of a governed asset, a
/// built tree holds nothing: a file that no rule governs cannot be served
/// under its own path.
pub proof fn law_unregistered_url_is_empty(
    assets: Seq<AssetView>,
    rules: Seq<RuleView>,
    tree: TreeView,
    url: Seq<char>,
    encoding: Option<Seq<char>>,
    range: Option<usize>,
)
    requires
        outcome_of(assets, rules, Ok(tree)),
        forall|a: int|
            0 <= a < assets.len() && governed(rules, (#[trigger] assets[a]).path) ==> url != url_of(
                assets[a].path,
            ) && !rules[governing(rules, assets[a].path)].aliased_by().contains(url),
    ensures
        stored(tree.log, url, encoding, range) is None,
{
    if stored(tree.log, url, encoding, range) is Some {
        let entries = planned(assets, rules);
        assert(known(entries, url, encoding, false));
        let i = choose|i: int|
            0 <= i < entries.len() && crate::tree::offers(#[trigger] entries[i], encoding) && (url
                == url_of(entries[i].path) || entries[i].aliased_by.contains(url));
        let a = law_only_governed_assets_are_planned(assets, rules, i);
        assert(governed(rules, assets[a].path));
    }
}

/// The entry made from a rule asks for every encoding that the rule asks for.
pub proof fn lemma_declared(rule: RuleView, path: Seq<char>, encoding: Encoding)
    requires
        encoding == Encoding::Identity || rule.encodings().contains(encoding),
    ensures
        declares(entry_of(rule, path), encoding),
{
    if encoding != Encoding::Identity {
        let k = choose|k: int| 0 <= k < rule.encodings().len() && rule.encodings()[k] == encoding;
        rule.encodings().lemma_filter_contains(is_encoded(), k);
    }
}

/// An alias is its target: in a built tree, each alias of a governed asset
/// holds, in every encoding that the rule asks for, the very response that
/// the asset's own URL holds.
pub proof fn law_alias_equivalence(
    assets: Seq<AssetView>,
    rules: Seq<RuleView>,
    tree: TreeView,
    a: int,
    encoding: Encoding,
    k: int,
)
    requires
        outcome_of(assets, rules, Ok(tree)),
        asks_for(assets, rules, a, encoding),
        0 <= k < rules[governing(rules, assets[a].path)].aliased_by().len(),
    ensures
        stored(
            tree.log,
            rules[governing(rules, assets[a].path)].aliased_by()[k],
            key_of(encoding),
            None,
        ) == stored(tree.log, url_of(assets[a].path), key_of(encoding), None),
        stored(tree.log, url_of(assets[a].path), key_of(encoding), None) is Some,
{
    let i = lemma_entry_planned(assets, rules, a);
    let rule = rules[governing(rules, assets[a].path)];
    let entry = planned(assets, rules)[i];
    lemma_declared(rule, assets[a].path, encoding);
    assert(holds(tree.log, assets, entry, encoding));
    assert(entry.aliased_by[k] == rule.aliased_by()[k]);
}

/// A fallback is its target under another status: in a built tree, each
/// fallback scope of a governed asset holds, in every encoding that the rule
/// asks for, the response of the asset's own URL under the status asked for.
pub proof fn law_fallback_registered(
    assets: Seq<AssetView>,
    rules: Seq<RuleView>,
    tree: TreeView,
    a: int,
    encoding: Encoding,
    k: int,
)
    requires
        outcome_of(assets, rules, Ok(tree)),
        asks_for(assets, rules, a, encoding),
        0 <= k < rules[governing(rules, assets[a].path)].fallback_for().len(),
    ensures
        stored(tree.log, url_of(assets[a].path), key_of(encoding), None) matches Some(response)
            && stored_fallback(
            tree.log,
            rules[governing(rules, assets[a].path)].fallback_for()[k].scope,
            key_of(encoding),
            None,
        ) == Some(
            with_status(
                response,
                rules[governing(rules, assets[a].path)].fallback_for()[k].status_code,
            ),
        ),
{
    let i = lemma_entry_planned(assets, rules, a);
    let rule = rules[governing(rules, assets[a].path)];
    let entry = planned(assets, rules)[i];
    lemma_declared(rule, assets[a].path, encoding);
    assert(holds(tree.log, assets, entry, encoding));
    assert(entry.fallback_for[k] == rule.fallback_for()[k]);
}

/// Building is repeatable in what the tree holds: two builds of one store
/// under one rule table that both succeed yield trees with the same record
/// and the same entries, and so the same response under every key. Their
/// root digests are not claimed equal, and need not be: the tree is filled
/// in the order of a hash-map walk, and its hash follows the shape that
/// this order gives it.
pub proof fn law_determinism(
    assets: Seq<AssetView>,
    rules: Seq<RuleView>,
    first: TreeView,
    second: TreeView,
    name: Seq<char>,
    encoding: Option<Seq<char>>,
    range: Option<usize>,
)
    requires
        outcome_of(assets, rules, Ok(first)),
        outcome_of(assets, rules, Ok(second)),
    ensures
        first.log == second.log,
        first.entries == second.entries,
        first.catch_all == second.catch_all,
        stored(first.log, name, encoding, range) == stored(second.log, name, encoding, range),
        stored_fallback(first.log, name, encoding, range) == stored_fallback(
            second.log,
            name,
            encoding,
            range,
        ),
{
}

/// A path is plain: it is not empty, holds no `?`, and no `/` follows a `/`.
pub open spec fn is_plain(path: Seq<char>) -> bool {
    &&& path.len() > 0
    &&& !path.contains('?')
    &&& forall|i: int| 0 < i < path.len() ==> !(path[i - 1] == '/' && #[trigger] path[i] == '/')
}

proof fn lemma_collapsed(path: Seq<char>)
    ensures
        collapsed(path).len() <= path.len(),
        path.len() > 0 ==> collapsed(path).len() > 0 && collapsed(path).last() == path.last(),
        forall|c: char| collapsed(path).contains(c) ==> path.contains(c),
        forall|i: int|
            0 < i < collapsed(path).len() ==> !(collapsed(path)[i - 1] == '/'
                && #[trigger] collapsed(path)[i] == '/'),
    decreases path.len(),
{
    if path.len() > 0 {
        let front = path.drop_last();
        lemma_collapsed(front);
        let out = collapsed(path);
        assert forall|c: char| out.contains(c) implies path.contains(c) by {
            let i = choose|i: int| 0 <= i < out.len() && out[i] == c;
            if i < collapsed(front).len() {
                assert(collapsed(front)[i] == c);
                assert(collapsed(front).contains(c));
                assert(front.contains(c));
                let j = choose|j: int| 0 <= j < front.len() && front[j] == c;
                assert(path[j] == c);
            } else {
                assert(path[path.len() - 1] == c);
            }
        }
        if front.len() > 0 {
            assert(front.last() == path[path.len() - 2]);
        }
    }
}

proof fn lemma_collapsed_plain(path: Seq<char>)
    requires
        forall|i: int| 0 < i < path.len() ==> !(path[i - 1] == '/' && #[trigger] path[i] == '/'),
    ensures
        collapsed(path) == path,
    decreases path.len(),
{
    if path.len() > 0 {
        let front = path.drop_last();
        assert forall|i: int| 0 < i < front.len() implies !(front[i - 1] == '/'
            && #[trigger] front[i] == '/') by {
            assert(front[i] == path[i]);
            assert(front[i - 1] == path[i - 1]);
        }
        lemma_collapsed_plain(front);
        if path.len() >= 2 {
            assert(!(path[path.len() - 2] == '/' && path[path.len() - 1] == '/'));
        }
        assert(front.push(path.last()) =~= path);
    }
}

/// What normalizing yields is plain, whatever the URL.
pub proof fn law_normalized_is_plain(url: Seq<char>)
    ensures
        is_plain(normalized(url)),
{
    url.index_of_first_ensures('?');
    let raw = url.take(query_start(url));
    lemma_collapsed(raw);
    if collapsed(raw).contains('?') {
        assert(raw.contains('?'));
        let j = choose|j: int| 0 <= j < raw.len() && raw[j] == '?';
        assert(url[j] == '?');
    }
    if collapsed(raw).len() == 0 {
        assert forall|i: int| 0 <= i < seq!['/'].len() implies seq!['/'][i] != '?' by {}
    }
}

/// A plain path is left as it is, so normalizing twice is normalizing once.
pub proof fn law_normalizing_is_idempotent(url: Seq<char>)
    ensures
        normalized(normalized(url)) == normalized(url),
{
    law_normalized_is_plain(url);
    let path = normalized(url);
    path.index_of_first_ensures('?');
    assert(path.take(path.len() as int) =~= path);
    lemma_collapsed_plain(path);
}

/// Every entry of a plan is the entry of a governed asset of the store, made
/// from the rule that governs it: an asset that no rule governs has none.
pub proof fn law_only_governed_assets_are_planned(assets: Seq<AssetView>, rules: Seq<RuleView>, i: int) -> (a: int)
    requires
        0 <= i < planned(assets, rules).len(),
    ensures
        0 <= a < assets.len(),
        governed(rules, assets[a].path),
        planned(assets, rules)[i] == entry_of(
            rules[governing(rules, assets[a].path)],
            assets[a].path,
        ),
{
    let kept = assets.filter(is_governed(rules));
    assets.lemma_filter_pred(is_governed(rules), i);
    assert(kept.contains(kept[i]));
    assets.lemma_filter_contains_rev(is_governed(rules), kept[i]);
    let a = choose|a: int| 0 <= a < assets.len() && assets[a] == kept[i];
    a
}

/// On a tree built from a store, an encoded response held under an alias of
/// a governed asset is in an encoding that the asset's rule asks for.
proof fn lemma_alias_asked(
    assets: Seq<AssetView>,
    rules: Seq<RuleView>,
    tree: TreeView,
    a: int,
    k: int,
    token: Seq<char>,
    range: Option<usize>,
)
    requires
        outcome_of(assets, rules, Ok(tree)),
        0 <= a < assets.len(),
        governed(rules, assets[a].path),
        0 <= k < rules[governing(rules, assets[a].path)].aliased_by().len(),
        stored(tree.log, rules[governing(rules, assets[a].path)].aliased_by()[k], Some(token), range)
            is Some,
    ensures
        exists|m: int|
            0 <= m < rules[governing(rules, assets[a].path)].encodings().len() && (
            #[trigger] rules[governing(rules, assets[a].path)].encodings()[m]).token_spec()
                == token,
{
    let entries = planned(assets, rules);
    let given = handed(assets, entries);
    let rule = rules[governing(rules, assets[a].path)];
    let alias = rule.aliased_by()[k];
    let own = lemma_entry_planned(assets, rules, a);
    assert(entries[own].aliased_by[k] == alias);
    assert(known(entries, alias, Some(token), false));
    let i = choose|i: int|
        0 <= i < entries.len() && crate::tree::offers(#[trigger] entries[i], Some(token)) && (alias
            == url_of(entries[i].path) || entries[i].aliased_by.contains(alias));
    assert(registrable(given, entries));
    assert(crate::trusted::disjoint(entries[own].aliased_by, urls(given)));
    if alias == url_of(entries[i].path) {
        let b = law_only_governed_assets_are_planned(assets, rules, i);
        let y = lemma_governed_is_handed(assets, rules, b);
        assert(urls(given)[y] == alias);
        assert(entries[own].aliased_by[k] != urls(given)[y]);
    }
    let l = choose|l: int| 0 <= l < entries[i].aliased_by.len() && entries[i].aliased_by[l] == alias;
    if i < own {
        assert(crate::trusted::disjoint(entries[i].aliased_by, entries[own].aliased_by));
        assert(entries[i].aliased_by[l] != entries[own].aliased_by[k]);
    }
    if own < i {
        assert(crate::trusted::disjoint(entries[own].aliased_by, entries[i].aliased_by));
        assert(entries[own].aliased_by[k] != entries[i].aliased_by[l]);
    }
    assert(i == own);
    let n = choose|n: int|
        0 <= n < entries[i].encodings.len() && (#[trigger] entries[i].encodings[n]).token_spec()
            == token;
    let e = entries[i].encodings[n];
    assert(rule.encodings().filter(is_encoded()).contains(e));
    rule.encodings().lemma_filter_contains_rev(is_encoded(), e);
    let m = choose|m: int| 0 <= m < rule.encodings().len() && rule.encodings()[m] == e;
    assert(rule.encodings()[m].token_spec() == token);
}

proof fn lemma_token_names_encoding(one: Encoding, other: Encoding)
    requires
        one.token_spec() == other.token_spec(),
    ensures
        one == other,
{
    assert(one.token_spec().len() == other.token_spec().len());
}

/// On a tree built from a store, an alias of a governed asset holds in each
/// encoding what the asset's own URL holds, or nothing where that holds
/// nothing.
proof fn lemma_alias_at(
    assets: Seq<AssetView>,
    rules: Seq<RuleView>,
    tree: TreeView,
    a: int,
    k: int,
    encoding: Encoding,
)
    requires
        outcome_of(assets, rules, Ok(tree)),
        0 <= a < assets.len(),
        governed(rules, assets[a].path),
        0 <= k < rules[governing(rules, assets[a].path)].aliased_by().len(),
    ensures
        at(tree.log, rules[governing(rules, assets[a].path)].aliased_by()[k], key_of(encoding), false)
            == at(tree.log, url_of(assets[a].path), key_of(encoding), false),
        encoding == Encoding::Identity ==> at(
            tree.log,
            url_of(assets[a].path),
            key_of(encoding),
            false,
        ) is Some,
{
    let rule = rules[governing(rules, assets[a].path)];
    let alias = rule.aliased_by()[k];
    let url = url_of(assets[a].path);
    if encoding == Encoding::Identity || rule.encodings().contains(encoding) {
        law_alias_equivalence(assets, rules, tree, a, encoding, k);
    } else {
        let token = encoding.token_spec();
        if stored(tree.log, url, Some(token), None) is Some {
            law_only_asked_encodings(assets, rules, tree, a, token, None);
            let m = choose|m: int|
                0 <= m < rule.encodings().len() && (#[trigger] rule.encodings()[m]).token_spec()
                    == token;
            lemma_token_names_encoding(rule.encodings()[m], encoding);
        }
        if stored(tree.log, alias, Some(token), None) is Some {
            lemma_alias_asked(assets, rules, tree, a, k, token, None);
            let m = choose|m: int|
                0 <= m < rule.encodings().len() && (#[trigger] rule.encodings()[m]).token_spec()
                    == token;
            lemma_token_names_encoding(rule.encodings()[m], encoding);
        }
    }
}

/// An alias answers as its target: on a tree built from a store, whatever a
/// request accepts, the response selected for an alias of a governed asset
/// is the response selected for the asset's own URL, and there is one.
pub proof fn law_alias_selected(
    assets: Seq<AssetView>,
    rules: Seq<RuleView>,
    tree: TreeView,
    a: int,
    k: int,
    headers: Seq<(Seq<char>, Seq<char>)>,
)
    requires
        outcome_of(assets, rules, Ok(tree)),
        0 <= a < assets.len(),
        governed(rules, assets[a].path),
        0 <= k < rules[governing(rules, assets[a].path)].aliased_by().len(),
    ensures
        selected(tree.log, headers, rules[governing(rules, assets[a].path)].aliased_by()[k])
            == selected(tree.log, headers, url_of(assets[a].path)),
        selected(tree.log, headers, url_of(assets[a].path)) is Some,
{
    lemma_alias_at(assets, rules, tree, a, k, Encoding::Identity);
    lemma_alias_at(assets, rules, tree, a, k, Encoding::Gzip);
    lemma_alias_at(assets, rules, tree, a, k, Encoding::Brotli);
}

/// Gzip is served where brotli is not accepted: for a request that accepts
/// gzip and not brotli, the response selected for a path under which a gzip
/// response is held is that gzip response, never the brotli one and never
/// the unencoded one.
pub proof fn law_gzip_without_brotli(
    log: Seq<Step>,
    headers: Seq<(Seq<char>, Seq<char>)>,
    path: Seq<char>,
)
    requires
        accepted(headers, Encoding::Gzip),
        !accepted(headers, Encoding::Brotli),
        stored(log, path, key_of(Encoding::Gzip), None) is Some,
    ensures
        selected(log, headers, path) == stored(log, path, key_of(Encoding::Gzip), None),
{
}

proof fn lemma_fallback_skips(
    log: Seq<Step>,
    headers: Seq<(Seq<char>, Seq<char>)>,
    path: Seq<char>,
    j: int,
    k: int,
)
    requires
        -1 <= k <= j,
        forall|i: int|
            k < i <= j && boundary(path, i) ==> #[trigger] preferred(log, headers, path.take(i), true)
                is None,
    ensures
        fallback_below(log, headers, path, j) == fallback_below(log, headers, path, k),
    decreases j - k,
{
    if k < j {
        lemma_fallback_skips(log, headers, path, j - 1, k);
    }
}

/// A path that nothing is registered for gets the fallback of the longest
/// scope it lies under: where nothing is held under the path, the first `j`
/// characters are such a scope with a fallback, and no longer scope that the
/// path lies under has one, the selected response is that fallback.
pub proof fn law_fallback_scoping(
    log: Seq<Step>,
    headers: Seq<(Seq<char>, Seq<char>)>,
    path: Seq<char>,
    j: int,
)
    requires
        preferred(log, headers, path, false) is None,
        boundary(path, j),
        preferred(log, headers, path.take(j), true) is Some,
        forall|i: int|
            j < i <= path.len() && boundary(path, i) ==> #[trigger] preferred(
                log,
                headers,
                path.take(i),
                true,
            ) is None,
    ensures
        selected(log, headers, path) == preferred(log, headers, path.take(j), true),
{
    lemma_fallback_skips(log, headers, path, path.len() as int, j);
}

/// What a settled request is answered is what is selected for it: the
/// result of routing it is the selected response with its proof appended,
/// or an error.
pub proof fn law_settled_answers_are_selected(
    tree: TreeView,
    request: RequestView,
    certificate: Option<Seq<u8>>,
    result: Result<ResponseView, ServeError>,
)
    requires
        routed(tree, request, certificate, result),
        settled(tree, request),
    ensures
        result matches Ok(answer) ==> selected(
            tree.log,
            request.headers,
            normalized(request.url),
        ) == Some(crate::trusted::without_last(answer)),
{
}

/// Nothing is answered before a tree is built, whatever is asked and
/// whatever certificate is at hand.
pub proof fn law_no_answer_before_a_build(
    request: RequestView,
    certificate: Option<Seq<u8>>,
    result: Result<ResponseView, ServeError>,
)
    requires
        answered(None, request, certificate, result),
    ensures
        result == Err::<ResponseView, ServeError>(ServeError::ProofUnavailable),
{
}

/// No response is passed on without a certificate, and every response that
/// is passed on ends in its proof.
pub proof fn law_no_answer_without_proof(
    state: Option<TreeView>,
    request: RequestView,
    certificate: Option<Seq<u8>>,
    result: Result<ResponseView, ServeError>,
)
    requires
        answered(state, request, certificate, result),
    ensures
        certificate is None ==> result is Err,
        result matches Ok(response) ==> ends_in_proof(response),
{
}

proof fn lemma_first_fault_unique(
    assets: Seq<AssetView>,
    rules: Seq<RuleView>,
    first: ConfigurationError,
    second: ConfigurationError,
)
    requires
        first_fault(assets, rules, first),
        first_fault(assets, rules, second),
    ensures
        first == second,
        !rules_sound(assets, rules),
{
    let i = choose|i: int|
        0 <= i < rules.len() && i <= usize::MAX && rule_fault(assets, #[trigger] rules[i], i as usize)
            == Some(first) && forall|j: int|
            0 <= j < i ==> rule_fault(assets, #[trigger] rules[j], j as usize) is None;
    let k = choose|k: int|
        0 <= k < rules.len() && k <= usize::MAX && rule_fault(assets, #[trigger] rules[k], k as usize)
            == Some(second) && forall|j: int|
            0 <= j < k ==> rule_fault(assets, #[trigger] rules[j], j as usize) is None;
    if i < k {
        assert(rule_fault(assets, rules[i], i as usize) is None);
    }
    if k < i {
        assert(rule_fault(assets, rules[k], k as usize) is None);
    }
}

proof fn lemma_first_missing_unique(
    assets: Seq<AssetView>,
    entries: Seq<EntryView>,
    i: int,
    k: int,
    j: int,
    l: int,
)
    requires
        first_missing(assets, entries, i, k),
        first_missing(assets, entries, j, l),
    ensures
        i == j,
        k == l,
        !complete(assets, entries),
{
    if i < j {
        assert(has_asset(assets, variant_path(entries[i], k)));
    }
    if j < i {
        assert(has_asset(assets, variant_path(entries[j], l)));
    }
    if i == j && k < l {
        assert(has_asset(assets, variant_path(entries[i], k)));
    }
    if i == j && l < k {
        assert(has_asset(assets, variant_path(entries[i], l)));
    }
}

proof fn lemma_first_uncovered_declared(
    log: Seq<Step>,
    assets: Seq<AssetView>,
    entries: Seq<EntryView>,
    i: int,
    encoding: Encoding,
)
    requires
        first_uncovered(log, assets, entries, i, encoding),
    ensures
        declares(entries[i], encoding),
        !covered(log, assets, entries),
{
}

proof fn lemma_first_uncovered_unique(
    log: Seq<Step>,
    assets: Seq<AssetView>,
    entries: Seq<EntryView>,
    i: int,
    first: Encoding,
    j: int,
    second: Encoding,
)
    requires
        first_uncovered(log, assets, entries, i, first),
        first_uncovered(log, assets, entries, j, second),
    ensures
        i == j,
        first == second,
{
    lemma_first_uncovered_declared(log, assets, entries, i, first);
    lemma_first_uncovered_declared(log, assets, entries, j, second);
    if i < j {
        assert(entries.take(j)[i] == entries[i]);
        assert(holds(log, assets, entries.take(j)[i], first));
    }
    if j < i {
        assert(entries.take(i)[j] == entries[j]);
        assert(holds(log, assets, entries.take(i)[j], second));
    }
    if i == j && first != second {
        if first != Encoding::Identity && second != Encoding::Identity {
            let k = choose|k: int|
                0 <= k < entries[i].encodings.len() && entries[i].encodings[k] == first && forall|
                    l: int,
                |
                    0 <= l < k ==> holds(log, assets, entries[i], #[trigger] entries[i].encodings[l]);
            let m = choose|m: int|
                0 <= m < entries[i].encodings.len() && entries[i].encodings[m] == second && forall|
                    l: int,
                |
                    0 <= l < m ==> holds(log, assets, entries[i], #[trigger] entries[i].encodings[l]);
            if k < m {
                assert(holds(log, assets, entries[i], entries[i].encodings[k]));
            }
            if m < k {
                assert(holds(log, assets, entries[i], entries[i].encodings[m]));
            }
        }
    }
}

/// Two results of a build are the same but for the root hash of the tree.
pub open spec fn same_outcome(
    first: Result<TreeView, BuildErrorView>,
    second: Result<TreeView, BuildErrorView>,
) -> bool {
    match (first, second) {
        (Ok(a), Ok(b)) => a.log == b.log && a.assets == b.assets && a.entries == b.entries
            && a.catch_all == b.catch_all,
        (Err(e), Err(f)) => e == f,
        _ => false,
    }
}

/// The inputs decide the build: whatever two builds of one store under one
/// rule table come to, it is the same error, or trees that differ in their
/// root hash at most.
pub proof fn law_build_decided(
    assets: Seq<AssetView>,
    rules: Seq<RuleView>,
    first: Result<TreeView, BuildErrorView>,
    second: Result<TreeView, BuildErrorView>,
)
    requires
        outcome_of(assets, rules, first),
        outcome_of(assets, rules, second),
    ensures
        same_outcome(first, second),
{
    let entries = planned(assets, rules);
    let log = build_log(assets, rules);
    lemma_encoding_unavailable(assets, rules, first);
    lemma_encoding_unavailable(assets, rules, second);
    match (first, second) {
        (
            Err(BuildErrorView::Configuration(one)),
            Err(BuildErrorView::Configuration(other)),
        ) => {
            if first_fault(assets, rules, one) && first_fault(assets, rules, other) {
                lemma_first_fault_unique(assets, rules, one, other);
            } else if first_fault(assets, rules, one) {
                lemma_first_fault_unique(assets, rules, one, one);
            } else if first_fault(assets, rules, other) {
                lemma_first_fault_unique(assets, rules, other, other);
            }
        },
        (Err(BuildErrorView::Configuration(one)), _) => {
            if first_fault(assets, rules, one) {
                lemma_first_fault_unique(assets, rules, one, one);
            }
        },
        (_, Err(BuildErrorView::Configuration(other))) => {
            if first_fault(assets, rules, other) {
                lemma_first_fault_unique(assets, rules, other, other);
            }
        },
        (
            Err(BuildErrorView::EncodingUnavailable { path: p, encoding: e }),
            Err(BuildErrorView::EncodingUnavailable { path: q, encoding: d }),
        ) => {
            if complete(assets, entries) {
                let i = choose|i: int|
                    first_uncovered(log, assets, entries, i, e) && p == entries[i].path;
                let j = choose|j: int|
                    first_uncovered(log, assets, entries, j, d) && q == entries[j].path;
                lemma_first_uncovered_unique(log, assets, entries, i, e, j, d);
            } else {
                let (i, k) = choose|i: int, k: int|
                    first_missing(assets, entries, i, k) && p == entries[i].path && e
                        == entries[i].encodings[k];
                let (j, l) = choose|j: int, l: int|
                    first_missing(assets, entries, j, l) && q == entries[j].path && d
                        == entries[j].encodings[l];
                lemma_first_missing_unique(assets, entries, i, k, j, l);
            }
        },
        _ => {},
    }
}

/// Where a build comes to an unavailable encoding, either a file is missing
/// from the store, or the store is complete, the tree accepted, and the
/// tree lacks a response.
proof fn lemma_encoding_unavailable(
    assets: Seq<AssetView>,
    rules: Seq<RuleView>,
    result: Result<TreeView, BuildErrorView>,
)
    requires
        outcome_of(assets, rules, result),
    ensures
        result matches Err(BuildErrorView::EncodingUnavailable { .. }) ==> !complete(
            assets,
            planned(assets, rules),
        ) || (crate::tree::accepted(assets, planned(assets, rules)) && !covered(
            build_log(assets, rules),
            assets,
            planned(assets, rules),
        )),
{
    let entries = planned(assets, rules);
    let log = build_log(assets, rules);
    if let Err(BuildErrorView::EncodingUnavailable { path, encoding }) = result {
        if complete(assets, entries) {
            if exists|i: int, k: int|
                first_missing(assets, entries, i, k) && path == entries[i].path && encoding
                    == entries[i].encodings[k] {
                let (i, k) = choose|i: int, k: int|
                    first_missing(assets, entries, i, k) && path == entries[i].path && encoding
                        == entries[i].encodings[k];
                lemma_first_missing_unique(assets, entries, i, k, i, k);
            }
            let i = choose|i: int|
                first_uncovered(log, assets, entries, i, encoding) && path == entries[i].path;
            lemma_first_uncovered_declared(log, assets, entries, i, encoding);
        }
    }
}

} // verus!
