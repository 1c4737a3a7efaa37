//! Copies of the library's values, each proved equal in view to its source.

use crate::model::{Asset, Encoding, Entry, Fallback};
use vstd::prelude::*;

verus! {

pub fn copy_bytes(bytes: &Vec<u8>) -> (copy: Vec<u8>)
    ensures
        copy@ == bytes@,
{
    let mut copy: Vec<u8> = Vec::new();
    let mut i: usize = 0;
    while i < bytes.len()
        invariant
            i <= bytes.len(),
            copy@ == bytes@.take(i as int),
        decreases bytes.len() - i,
    {
        copy.push(bytes[i]);
        assert(bytes@.take(i + 1) =~= bytes@.take(i as int).push(bytes@[i as int]));
        i += 1;
    }
    assert(bytes@.take(i as int) =~= bytes@);
    copy
}

pub fn copy_encodings(encodings: &Vec<Encoding>) -> (copy: Vec<Encoding>)
    ensures
        copy@ == encodings@,
{
    let mut copy: Vec<Encoding> = Vec::new();
    let mut i: usize = 0;
    while i < encodings.len()
        invariant
            i <= encodings.len(),
            copy@ == encodings@.take(i as int),
        decreases encodings.len() - i,
    {
        copy.push(encodings[i]);
        assert(encodings@.take(i + 1) =~= encodings@.take(i as int).push(encodings@[i as int]));
        i += 1;
    }
    assert(encodings@.take(i as int) =~= encodings@);
    copy
}

pub fn copy_text(text: &Option<String>) -> (copy: Option<String>)
    ensures
        copy.deep_view() == text.deep_view(),
{
    match text {
        Some(t) => Some(t.clone()),
        None => None,
    }
}

pub fn copy_texts(texts: &Vec<String>) -> (copy: Vec<String>)
    ensures
        copy.deep_view() == texts.deep_view(),
{
    let mut copy: Vec<String> = Vec::new();
    let mut i: usize = 0;
    while i < texts.len()
        invariant
            i <= texts.len(),
            copy.len() == i,
            forall|j: int| 0 <= j < i ==> (#[trigger] copy@[j])@ == texts@[j]@,
        decreases texts.len() - i,
    {
        copy.push(texts[i].clone());
        i += 1;
    }
    assert(copy.deep_view() =~= texts.deep_view());
    copy
}

pub fn copy_pairs(pairs: &Vec<(String, String)>) -> (copy: Vec<(String, String)>)
    ensures
        copy.deep_view() == pairs.deep_view(),
{
    let mut copy: Vec<(String, String)> = Vec::new();
    let mut i: usize = 0;
    while i < pairs.len()
        invariant
            i <= pairs.len(),
            copy.len() == i,
            forall|j: int|
                0 <= j < i ==> (#[trigger] copy@[j]).deep_view() == pairs@[j].deep_view(),
        decreases pairs.len() - i,
    {
        copy.push((pairs[i].0.clone(), pairs[i].1.clone()));
        i += 1;
    }
    assert(copy.deep_view() =~= pairs.deep_view());
    copy
}

pub fn copy_fallbacks(fallbacks: &Vec<Fallback>) -> (copy: Vec<Fallback>)
    ensures
        copy.deep_view() == fallbacks.deep_view(),
{
    let mut copy: Vec<Fallback> = Vec::new();
    let mut i: usize = 0;
    while i < fallbacks.len()
        invariant
            i <= fallbacks.len(),
            copy.len() == i,
            forall|j: int| 0 <= j < i ==> (#[trigger] copy@[j])@ == fallbacks@[j]@,
        decreases fallbacks.len() - i,
    {
        copy.push(
            Fallback { scope: fallbacks[i].scope.clone(), status_code: fallbacks[i].status_code },
        );
        i += 1;
    }
    assert(copy.deep_view() =~= fallbacks.deep_view());
    copy
}

pub fn copy_asset(asset: &Asset) -> (copy: Asset)
    ensures
        copy@ == asset@,
{
    Asset { path: asset.path.clone(), content: copy_bytes(&asset.content) }
}

pub fn copy_entry(entry: &Entry) -> (copy: Entry)
    ensures
        copy@ == entry@,
{
    Entry {
        path: entry.path.clone(),
        content_type: copy_text(&entry.content_type),
        headers: copy_pairs(&entry.headers),
        fallback_for: copy_fallbacks(&entry.fallback_for),
        aliased_by: copy_texts(&entry.aliased_by),
        encodings: copy_encodings(&entry.encodings),
    }
}

pub fn copy_entries(entries: &Vec<Entry>) -> (copy: Vec<Entry>)
    ensures
        copy.deep_view() == entries.deep_view(),
{
    let mut copy: Vec<Entry> = Vec::new();
    let mut i: usize = 0;
    while i < entries.len()
        invariant
            i <= entries.len(),
            copy.len() == i,
            forall|j: int| 0 <= j < i ==> (#[trigger] copy@[j])@ == entries@[j]@,
        decreases entries.len() - i,
    {
        copy.push(copy_entry(&entries[i]));
        i += 1;
    }
    assert(copy.deep_view() =~= entries.deep_view());
    copy
}

} // verus!
