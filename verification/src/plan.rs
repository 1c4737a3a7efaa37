//! From assets and rules to the entries that are certified: the rule table
//! is checked against the asset store, and every governed asset gets one
//! entry that carries what its governing rule declares.

use crate::copy::{copy_fallbacks, copy_pairs, copy_text, copy_texts};
use crate::model::{
    Asset, AssetView, ConfigurationError, Encoding, Entry, EntryView, Fallback, FallbackView, Rule,
    RuleView,
};
use crate::rules::{find_governing, governed, governing, governs, lemma_governing_unique};
use crate::trusted::{
    glob_is_valid, glob_small, glob_valid, opens_group, statuses_valid, valid_status,
    valid_statuses, MAX_GLOB_GROUPS, MAX_GLOB_LENGTH,
};
use vstd::prelude::*;

verus! {

/// Some asset of the store lies at `path`.
pub open spec fn has_asset(assets: Seq<AssetView>, path: Seq<char>) -> bool {
    exists|j: int| 0 <= j < assets.len() && (#[trigger] assets[j]).path == path
}

/// The asset at index `j` is the first of the store that lies at `path`.
pub open spec fn first_at(assets: Seq<AssetView>, path: Seq<char>, j: int) -> bool {
    &&& 0 <= j < assets.len()
    &&& assets[j].path == path
    &&& forall|k: int| 0 <= k < j ==> (#[trigger] assets[k]).path != path
}

/// What the first asset at `path` holds, where the store has one there.
pub open spec fn content_at(assets: Seq<AssetView>, path: Seq<char>) -> Seq<u8> {
    assets[choose|j: int| first_at(assets, path, j)].content
}

/// What is wrong with the rule declared at `index`, taken by itself: a file
/// rule must name an asset of the store and ask for valid fallback statuses,
/// a pattern rule must hold a small glob that parses.
pub open spec fn rule_fault(assets: Seq<AssetView>, rule: RuleView, index: usize) -> Option<
    ConfigurationError,
> {
    match rule {
        RuleView::File { path, fallback_for, .. } => {
            if !has_asset(assets, path) {
                Some(ConfigurationError::MissingAsset { rule: index })
            } else if !valid_statuses(fallback_for) {
                Some(ConfigurationError::InvalidStatus { rule: index })
            } else {
                None
            }
        },
        RuleView::Pattern { pattern, .. } => {
            if !glob_small(pattern) || !glob_valid(pattern) {
                Some(ConfigurationError::InvalidPattern { rule: index })
            } else {
                None
            }
        },
    }
}

/// No rule has a fault.
pub open spec fn rules_sound(assets: Seq<AssetView>, rules: Seq<RuleView>) -> bool {
    forall|i: int| 0 <= i < rules.len() ==> rule_fault(assets, #[trigger] rules[i], i as usize) is None
}

/// `fault` is the fault of the first rule that has one.
pub open spec fn first_fault(
    assets: Seq<AssetView>,
    rules: Seq<RuleView>,
    fault: ConfigurationError,
) -> bool {
    exists|i: int|
        0 <= i < rules.len() && i <= usize::MAX && rule_fault(assets, #[trigger] rules[i], i as usize)
            == Some(fault) && forall|j: int|
            0 <= j < i ==> rule_fault(assets, #[trigger] rules[j], j as usize) is None
}

/// Finds the first asset at `path`.
pub fn find_asset(assets: &Vec<Asset>, path: &String) -> (found: Option<usize>)
    ensures
        match found {
            Some(j) => first_at(assets.deep_view(), path@, j as int) && has_asset(
                assets.deep_view(),
                path@,
            ) && assets@[j as int].content@ == content_at(assets.deep_view(), path@),
            None => !has_asset(assets.deep_view(), path@),
        },
{
    let ghost store = assets.deep_view();
    assert forall|k: int| 0 <= k < store.len() implies (#[trigger] store[k]) == assets@[k]@ by {}
    let mut j: usize = 0;
    while j < assets.len()
        invariant
            j <= assets.len(),
            store == assets.deep_view(),
            forall|k: int| 0 <= k < j ==> (#[trigger] assets@[k]).path@ != path@,
        decreases assets.len() - j,
    {
        if assets[j].path == *path {
            proof {
                assert(store[j as int] == assets@[j as int]@);
                assert forall|k: int| 0 <= k < j implies (#[trigger] store[k]).path != path@ by {
                    assert(store[k] == assets@[k]@);
                }
                assert(first_at(store, path@, j as int));
                let c = choose|c: int| first_at(store, path@, c);
                assert(c == j) by {
                    if c < j {
                        assert(store[c].path != path@);
                    }
                    if j < c {
                        assert(store[j as int].path != path@);
                    }
                }
            }
            return Some(j);
        }
        j += 1;
    }
    assert forall|k: int| 0 <= k < assets.deep_view().len() implies (#[trigger] assets.deep_view()[k]).path
        != path@ by {
        assert(assets.deep_view()[k] == assets@[k]@);
    }
    None
}

fn statuses_are_valid(fallbacks: &Vec<Fallback>) -> (ok: bool)
    ensures
        ok == valid_statuses(fallbacks.deep_view()),
{
    let mut k: usize = 0;
    while k < fallbacks.len()
        invariant
            k <= fallbacks.len(),
            forall|l: int| 0 <= l < k ==> valid_status((#[trigger] fallbacks@[l]).status_code),
        decreases fallbacks.len() - k,
    {
        if fallbacks[k].status_code < 100 || fallbacks[k].status_code > 999 {
            assert(fallbacks.deep_view()[k as int] == fallbacks@[k as int]@);
            return false;
        }
        k += 1;
    }
    assert forall|l: int| 0 <= l < fallbacks.deep_view().len() implies valid_status(
        (#[trigger] fallbacks.deep_view()[l]).status_code,
    ) by {
        assert(fallbacks.deep_view()[l] == fallbacks@[l]@);
    }
    true
}

/// Whether the glob is small enough to be compiled.
pub fn is_small_glob(pattern: &str) -> (small: bool)
    ensures
        small == glob_small(pattern@),
{
    let n = pattern.unicode_len();
    if n > MAX_GLOB_LENGTH {
        return false;
    }
    let mut groups: usize = 0;
    let mut i: usize = 0;
    proof {
        reveal(Seq::filter);
        assert(pattern@.take(0) =~= Seq::<char>::empty());
    }
    while i < n
        invariant
            i <= n,
            n == pattern@.len(),
            n <= MAX_GLOB_LENGTH,
            groups == pattern@.take(i as int).filter(opens_group()).len(),
            groups <= i,
        decreases n - i,
    {
        let c = pattern.get_char(i);
        proof {
            assert(pattern@.take(i + 1) =~= pattern@.take(i as int).push(c));
            pattern@.take(i as int).lemma_filter_push(c, opens_group());
        }
        if c == '{' {
            groups += 1;
        }
        i += 1;
    }
    assert(pattern@.take(i as int) =~= pattern@);
    groups <= MAX_GLOB_GROUPS
}

/// The entries of a plan made under sound rules ask for valid statuses only.
pub proof fn lemma_planned_statuses(assets: Seq<AssetView>, rules: Seq<RuleView>)
    requires
        rules_sound(assets, rules),
    ensures
        statuses_valid(planned(assets, rules)),
{
    let kept = assets.filter(is_governed(rules));
    assert forall|i: int| 0 <= i < planned(assets, rules).len() implies valid_statuses(
        (#[trigger] planned(assets, rules)[i]).fallback_for,
    ) by {
        assets.lemma_filter_pred(is_governed(rules), i);
        let g = governing(rules, kept[i].path);
        assert(governs(rules, kept[i].path, g));
        assert(rule_fault(assets, rules[g], g as usize) is None);
    }
}

/// Checks each rule by itself against the asset store, in the order of
/// declaration, and reports the fault of the first rule that has one.
pub fn check_rules(assets: &Vec<Asset>, rules: &Vec<Rule>) -> (checked: Result<
    (),
    ConfigurationError,
>)
    ensures
        match checked {
            Ok(()) => rules_sound(assets.deep_view(), rules.deep_view()),
            Err(fault) => first_fault(assets.deep_view(), rules.deep_view(), fault),
        },
{
    let ghost store = assets.deep_view();
    let ghost rs = rules.deep_view();
    let mut i: usize = 0;
    while i < rules.len()
        invariant
            i <= rules.len(),
            store == assets.deep_view(),
            rs == rules.deep_view(),
            forall|j: int| 0 <= j < i ==> rule_fault(store, #[trigger] rs[j], j as usize) is None,
        decreases rules.len() - i,
    {
        assert(rs[i as int] == rules@[i as int]@);
        match &rules[i] {
            Rule::File { path, fallback_for, .. } => {
                match find_asset(assets, path) {
                    None => {
                        assert(rule_fault(store, rs[i as int], i) == Some(
                            ConfigurationError::MissingAsset { rule: i },
                        ));
                        return Err(ConfigurationError::MissingAsset { rule: i });
                    },
                    Some(j) => {
                        assert(store[j as int] == assets@[j as int]@);
                    },
                }
                if !statuses_are_valid(fallback_for) {
                    assert(rule_fault(store, rs[i as int], i) == Some(
                        ConfigurationError::InvalidStatus { rule: i },
                    ));
                    return Err(ConfigurationError::InvalidStatus { rule: i });
                }
            },
            Rule::Pattern { pattern, .. } => {
                if !is_small_glob(pattern.as_str()) || !glob_is_valid(pattern.as_str()) {
                    assert(rule_fault(store, rs[i as int], i) == Some(
                        ConfigurationError::InvalidPattern { rule: i },
                    ));
                    return Err(ConfigurationError::InvalidPattern { rule: i });
                }
            },
        }
        i += 1;
    }
    Ok(())
}

/// The encodings that have a file of their own: all but the identity, in
/// which every asset is certified in any case.
pub open spec fn is_encoded() -> spec_fn(Encoding) -> bool {
    |e: Encoding| e != Encoding::Identity
}

/// What is certified for the asset at `path` under the rule that governs it.
pub open spec fn entry_of(rule: RuleView, path: Seq<char>) -> EntryView {
    EntryView {
        path,
        content_type: rule.content_type(),
        headers: rule.headers(),
        fallback_for: rule.fallback_for(),
        aliased_by: rule.aliased_by(),
        encodings: rule.encodings().filter(is_encoded()),
    }
}

pub open spec fn is_governed(rules: Seq<RuleView>) -> spec_fn(AssetView) -> bool {
    |a: AssetView| governed(rules, a.path)
}

pub open spec fn entry_maker(rules: Seq<RuleView>) -> spec_fn(AssetView) -> EntryView {
    |a: AssetView| entry_of(rules[governing(rules, a.path)], a.path)
}

/// The entries of a build: one for each governed asset, in the order of the
/// store, made from the rule that governs the asset. An asset that no rule
/// governs has none.
pub open spec fn planned(assets: Seq<AssetView>, rules: Seq<RuleView>) -> Seq<EntryView> {
    assets.filter(is_governed(rules)).map_values(entry_maker(rules))
}

fn encoded_only(encodings: &Vec<Encoding>) -> (kept: Vec<Encoding>)
    ensures
        kept@ == encodings@.filter(is_encoded()),
{
    let mut kept: Vec<Encoding> = Vec::new();
    let mut i: usize = 0;
    proof {
        reveal(Seq::filter);
        assert(encodings@.take(0) =~= Seq::<Encoding>::empty());
    }
    while i < encodings.len()
        invariant
            i <= encodings.len(),
            kept@ == encodings@.take(i as int).filter(is_encoded()),
        decreases encodings.len() - i,
    {
        proof {
            assert(encodings@.take(i + 1) =~= encodings@.take(i as int).push(encodings@[i as int]));
            encodings@.take(i as int).lemma_filter_push(encodings@[i as int], is_encoded());
        }
        match encodings[i] {
            Encoding::Identity => {},
            Encoding::Gzip => {
                kept.push(Encoding::Gzip);
            },
            Encoding::Brotli => {
                kept.push(Encoding::Brotli);
            },
        }
        i += 1;
    }
    assert(encodings@.take(i as int) =~= encodings@);
    kept
}

/// Makes the entry of the asset at `path` from the rule that governs it.
pub fn entry_for(rule: &Rule, path: &String) -> (entry: Entry)
    ensures
        entry@ == entry_of(rule@, path@),
{
    match rule {
        Rule::File { content_type, headers, fallback_for, aliased_by, encodings, .. } => Entry {
            path: path.clone(),
            content_type: copy_text(content_type),
            headers: copy_pairs(headers),
            fallback_for: copy_fallbacks(fallback_for),
            aliased_by: copy_texts(aliased_by),
            encodings: encoded_only(encodings),
        },
        Rule::Pattern { content_type, headers, encodings, .. } => {
            let fallback_for: Vec<Fallback> = Vec::new();
            let aliased_by: Vec<String> = Vec::new();
            assert(fallback_for.deep_view() =~= Seq::<FallbackView>::empty());
            assert(aliased_by.deep_view() =~= Seq::<Seq<char>>::empty());
            Entry {
                path: path.clone(),
                content_type: copy_text(content_type),
                headers: copy_pairs(headers),
                fallback_for,
                aliased_by,
                encodings: encoded_only(encodings),
            }
        },
    }
}

/// Plans a build: finds for each asset the rule that governs it and makes
/// the asset's entry from that rule.
pub fn plan(assets: &Vec<Asset>, rules: &Vec<Rule>) -> (entries: Vec<Entry>)
    ensures
        entries.deep_view() == planned(assets.deep_view(), rules.deep_view()),
{
    let ghost store = assets.deep_view();
    let ghost rs = rules.deep_view();
    let mut entries: Vec<Entry> = Vec::new();
    let mut i: usize = 0;
    proof {
        reveal(Seq::filter);
        assert(store.take(0) =~= Seq::<AssetView>::empty());
        assert(entries.deep_view() =~= planned(store.take(0), rs));
    }
    while i < assets.len()
        invariant
            i <= assets.len(),
            store == assets.deep_view(),
            rs == rules.deep_view(),
            entries.deep_view() == planned(store.take(i as int), rs),
        decreases assets.len() - i,
    {
        let ghost before = entries.deep_view();
        let ghost a = store[i as int];
        proof {
            assert(a == assets@[i as int]@);
            assert(store.take(i + 1) =~= store.take(i as int).push(a));
            store.take(i as int).lemma_filter_push(a, is_governed(rs));
        }
        match find_governing(rules, &assets[i].path) {
            Some(g) => {
                let entry = entry_for(&rules[g], &assets[i].path);
                proof {
                    assert(governed(rs, a.path));
                    lemma_governing_unique(rs, a.path, g as int, governing(rs, a.path));
                    assert(rs[g as int] == rules@[g as int]@);
                    assert(entry@ == entry_maker(rs)(a));
                }
                entries.push(entry);
                assert(entries.deep_view() =~= before.push(entry@));
                assert(store.take(i as int).filter(is_governed(rs)).push(a).map_values(
                    entry_maker(rs),
                ) =~= store.take(i as int).filter(is_governed(rs)).map_values(entry_maker(rs)).push(
                    entry_maker(rs)(a),
                ));
            },
            None => {},
        }
        i += 1;
    }
    assert(store.take(i as int) =~= store);
    entries
}

} // verus!
