//! Comparisons of texts, lists of texts, header lists and byte strings.

use crate::trusted::disjoint;
use vstd::prelude::*;

verus! {

/// Whether `text` is among `texts`.
pub fn contains_text(texts: &Vec<String>, text: &String) -> (found: bool)
    ensures
        found == texts.deep_view().contains(text@),
{
    let mut i: usize = 0;
    while i < texts.len()
        invariant
            i <= texts.len(),
            forall|j: int| 0 <= j < i ==> (#[trigger] texts@[j])@ != text@,
        decreases texts.len() - i,
    {
        if texts[i] == *text {
            assert(texts.deep_view()[i as int] == text@);
            return true;
        }
        i += 1;
    }
    assert forall|j: int| 0 <= j < texts.deep_view().len() implies #[trigger] texts.deep_view()[j]
        != text@ by {
        assert(texts.deep_view()[j] == texts@[j]@);
    }
    false
}

/// Whether no text of `a` is among `b`.
pub fn disjoint_texts(a: &Vec<String>, b: &Vec<String>) -> (apart: bool)
    ensures
        apart == disjoint(a.deep_view(), b.deep_view()),
{
    let mut k: usize = 0;
    while k < a.len()
        invariant
            k <= a.len(),
            forall|m: int| 0 <= m < k ==> !b.deep_view().contains(#[trigger] a.deep_view()[m]),
        decreases a.len() - k,
    {
        assert(a.deep_view()[k as int] == a@[k as int]@);
        if contains_text(b, &a[k]) {
            let ghost l = choose|l: int|
                0 <= l < b.deep_view().len() && b.deep_view()[l] == a.deep_view()[k as int];
            assert(a.deep_view()[k as int] == b.deep_view()[l]);
            return false;
        }
        k += 1;
    }
    assert forall|m: int, l: int|
        0 <= m < a.deep_view().len() && 0 <= l < b.deep_view().len() implies #[trigger] a.deep_view()[m]
        != #[trigger] b.deep_view()[l] by {
        assert(!b.deep_view().contains(a.deep_view()[m]));
    }
    true
}

/// Whether the texts differ pairwise.
pub fn distinct_texts(texts: &Vec<String>) -> (distinct: bool)
    ensures
        distinct == texts.deep_view().no_duplicates(),
{
    let ghost ts = texts.deep_view();
    let mut i: usize = 0;
    while i < texts.len()
        invariant
            i <= texts.len(),
            ts == texts.deep_view(),
            forall|p: int, q: int| 0 <= p < q < ts.len() && p < i ==> ts[p] != ts[q],
        decreases texts.len() - i,
    {
        let mut j: usize = i + 1;
        while j < texts.len()
            invariant
                i < j <= texts.len(),
                ts == texts.deep_view(),
                forall|q: int| i < q < j ==> ts[i as int] != ts[q],
            decreases texts.len() - j,
        {
            assert(ts[i as int] == texts@[i as int]@);
            assert(ts[j as int] == texts@[j as int]@);
            if texts[i] == texts[j] {
                return false;
            }
            j += 1;
        }
        i += 1;
    }
    assert forall|p: int, q: int| 0 <= p < ts.len() && 0 <= q < ts.len() && p != q implies ts[p]
        != ts[q] by {
        if p < q {
            assert(ts[p] != ts[q]);
        } else {
            assert(ts[q] != ts[p]);
        }
    }
    true
}

/// Whether the two byte strings are equal.
pub fn same_bytes(a: &Vec<u8>, b: &Vec<u8>) -> (same: bool)
    ensures
        same == (a@ == b@),
{
    if a.len() != b.len() {
        return false;
    }
    let mut i: usize = 0;
    while i < a.len()
        invariant
            i <= a.len(),
            a.len() == b.len(),
            forall|j: int| 0 <= j < i ==> a@[j] == b@[j],
        decreases a.len() - i,
    {
        if a[i] != b[i] {
            return false;
        }
        i += 1;
    }
    assert(a@ =~= b@);
    true
}

/// Whether the two header lists are equal, order included.
pub fn same_pairs(a: &Vec<(String, String)>, b: &Vec<(String, String)>) -> (same: bool)
    ensures
        same == (a.deep_view() == b.deep_view()),
{
    if a.len() != b.len() {
        assert(a.deep_view().len() != b.deep_view().len());
        return false;
    }
    let mut i: usize = 0;
    while i < a.len()
        invariant
            i <= a.len(),
            a.len() == b.len(),
            forall|j: int| 0 <= j < i ==> a.deep_view()[j] == b.deep_view()[j],
        decreases a.len() - i,
    {
        assert(a.deep_view()[i as int] == a@[i as int].deep_view());
        assert(b.deep_view()[i as int] == b@[i as int].deep_view());
        if !(a[i].0 == b[i].0 && a[i].1 == b[i].1) {
            return false;
        }
        i += 1;
    }
    assert(a.deep_view() =~= b.deep_view());
    true
}

} // verus!
