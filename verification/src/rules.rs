//! Which rule governs an asset. File rules are overrides and pattern rules
//! are defaults: a file rule for an asset's path wins over every pattern,
//! and among rules of one kind the one declared first wins.

use crate::model::{Rule, RuleView};
use crate::plan::is_small_glob;
use crate::trusted::{glob_is_match, glob_is_valid, glob_matches, glob_small, glob_valid};
use vstd::prelude::*;

verus! {

/// Whether the rule applies to the asset at `path`: a file rule by naming
/// exactly that path, a pattern rule by a small glob that parses and matches
/// it.
pub open spec fn applies(rule: RuleView, path: Seq<char>) -> bool {
    match rule {
        RuleView::File { path: own, .. } => own == path,
        RuleView::Pattern { pattern, .. } => glob_small(pattern) && glob_valid(pattern)
            && glob_matches(pattern, path),
    }
}

/// Rule `j` is consulted before rule `i`: file rules before pattern rules,
/// and within one kind in the order of declaration.
pub open spec fn precedes(rules: Seq<RuleView>, j: int, i: int) -> bool {
    if rules[j] is File == rules[i] is File {
        j < i
    } else {
        rules[j] is File
    }
}

/// Rule `i` governs the asset at `path`: it applies, and no rule consulted
/// before it does.
pub open spec fn governs(rules: Seq<RuleView>, path: Seq<char>, i: int) -> bool {
    &&& 0 <= i < rules.len()
    &&& applies(rules[i], path)
    &&& forall|j: int|
        0 <= j < rules.len() && applies(#[trigger] rules[j], path) ==> !precedes(rules, j, i)
}

/// Some rule governs the asset at `path`.
pub open spec fn governed(rules: Seq<RuleView>, path: Seq<char>) -> bool {
    exists|i: int| governs(rules, path, i)
}

/// The index of the rule that governs the asset at `path`, where one does.
pub open spec fn governing(rules: Seq<RuleView>, path: Seq<char>) -> int {
    choose|i: int| governs(rules, path, i)
}

/// At most one rule governs an asset.
pub proof fn lemma_governing_unique(rules: Seq<RuleView>, path: Seq<char>, i: int, j: int)
    requires
        governs(rules, path, i),
        governs(rules, path, j),
    ensures
        i == j,
{
    assert(applies(rules[i], path));
    assert(applies(rules[j], path));
    assert(!precedes(rules, j, i));
    assert(!precedes(rules, i, j));
}

/// An asset is governed exactly if some rule applies to it.
pub proof fn lemma_governed_iff_some_applies(rules: Seq<RuleView>, path: Seq<char>)
    ensures
        governed(rules, path) <==> exists|i: int|
            0 <= i < rules.len() && applies(#[trigger] rules[i], path),
{
    if exists|i: int| 0 <= i < rules.len() && applies(#[trigger] rules[i], path) {
        let first_file = choose_first(rules, path, true, 0);
        let first_pattern = choose_first(rules, path, false, 0);
        lemma_choose_first(rules, path, true, 0);
        lemma_choose_first(rules, path, false, 0);
        if first_file < rules.len() {
            assert(governs(rules, path, first_file));
        } else {
            assert(governs(rules, path, first_pattern));
        }
    }
    if governed(rules, path) {
        let i = governing(rules, path);
        assert(applies(rules[i], path));
    }
}

/// The first index from `from` on of a rule of the given kind that applies,
/// or the number of rules where there is none.
pub open spec fn choose_first(rules: Seq<RuleView>, path: Seq<char>, file: bool, from: int) -> int
    decreases rules.len() - from,
{
    if from < 0 || from >= rules.len() {
        rules.len() as int
    } else if rules[from] is File == file && applies(rules[from], path) {
        from
    } else {
        choose_first(rules, path, file, from + 1)
    }
}

pub proof fn lemma_choose_first(rules: Seq<RuleView>, path: Seq<char>, file: bool, from: int)
    requires
        0 <= from,
    ensures
        from <= choose_first(rules, path, file, from) <= rules.len() || rules.len() < from,
        choose_first(rules, path, file, from) < rules.len() ==> rules[choose_first(
            rules,
            path,
            file,
            from,
        )] is File == file && applies(rules[choose_first(rules, path, file, from)], path),
        forall|j: int|
            from <= j < choose_first(rules, path, file, from) && j < rules.len() ==> !(
            #[trigger] rules[j] is File == file && applies(rules[j], path)),
    decreases rules.len() - from,
{
    if from < rules.len() && !(rules[from] is File == file && applies(rules[from], path)) {
        lemma_choose_first(rules, path, file, from + 1);
    }
}

/// Finds the rule that governs the asset at `path`.
pub fn find_governing(rules: &Vec<Rule>, path: &String) -> (found: Option<usize>)
    ensures
        match found {
            Some(i) => governs(rules.deep_view(), path@, i as int),
            None => !governed(rules.deep_view(), path@),
        },
{
    let ghost rs = rules.deep_view();
    let mut i: usize = 0;
    while i < rules.len()
        invariant
            i <= rules.len(),
            rs == rules.deep_view(),
            forall|j: int| 0 <= j < i ==> !(#[trigger] rs[j] is File && applies(rs[j], path@)),
        decreases rules.len() - i,
    {
        match &rules[i] {
            Rule::File { path: own, .. } => {
                if *own == *path {
                    assert(rs[i as int] == rules@[i as int]@);
                    return Some(i);
                }
            },
            Rule::Pattern { .. } => {},
        }
        assert(rs[i as int] == rules@[i as int]@);
        i += 1;
    }
    let mut k: usize = 0;
    while k < rules.len()
        invariant
            k <= rules.len(),
            rs == rules.deep_view(),
            forall|j: int| 0 <= j < rs.len() ==> !(#[trigger] rs[j] is File && applies(rs[j], path@)),
            forall|j: int| 0 <= j < k ==> !applies(#[trigger] rs[j], path@),
        decreases rules.len() - k,
    {
        assert(rs[k as int] == rules@[k as int]@);
        match &rules[k] {
            Rule::File { .. } => {},
            Rule::Pattern { pattern, .. } => {
                if is_small_glob(pattern.as_str()) && glob_is_valid(pattern.as_str()) && glob_is_match(
                    pattern.as_str(),
                    path.as_str(),
                ) {
                    return Some(k);
                }
            },
        }
        k += 1;
    }
    proof {
        if governed(rs, path@) {
            let g = governing(rs, path@);
            assert(applies(rs[g], path@));
        }
    }
    None
}

} // verus!
