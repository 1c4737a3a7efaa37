use certified_assets::model::{Asset, Encoding, Entry, Fallback};
use certified_assets::store::{
    asset_urls, find_missing_variant, has_entry_for, is_registrable, is_variant_file, scopes_of,
    select, url_for, variant_of,
};
use certified_assets::texts::{
    contains_text, disjoint_texts, distinct_texts, same_bytes, same_pairs,
};

fn text(s: &str) -> String {
    s.to_string()
}

fn asset(path: &str, content: &[u8]) -> Asset {
    Asset { path: text(path), content: content.to_vec() }
}

fn entry(path: &str, aliases: &[&str], scopes: &[&str], encodings: &[Encoding]) -> Entry {
    Entry {
        path: text(path),
        content_type: None,
        headers: vec![],
        fallback_for: scopes.iter().map(|s| Fallback { scope: text(s), status_code: 200 }).collect(),
        aliased_by: aliases.iter().map(|a| text(a)).collect(),
        encodings: encodings.to_vec(),
    }
}

#[test]
fn a_url_starts_with_one_slash() {
    assert_eq!(url_for(&text("index.html")), "/index.html");
    assert_eq!(url_for(&text("/index.html")), "/index.html");
    assert_eq!(url_for(&text("")), "/");
    assert_eq!(url_for(&text("/")), "/");
    assert_eq!(url_for(&text("a/b")), "/a/b");
    assert_eq!(url_for(&text("é.txt")), "/é.txt");
}

#[test]
fn a_variant_file_is_named_by_suffix() {
    assert_eq!(variant_of(&text("app.js"), Encoding::Gzip), "app.js.gz");
    assert_eq!(variant_of(&text("app.js"), Encoding::Brotli), "app.js.br");
    assert_eq!(variant_of(&text("app.js"), Encoding::Identity), "app.js");
}

#[test]
fn the_first_missing_variant_is_found() {
    let entries = vec![
        entry("a.js", &[], &[], &[Encoding::Brotli, Encoding::Gzip]),
        entry("b.js", &[], &[], &[Encoding::Gzip, Encoding::Brotli]),
    ];
    let all = vec![
        asset("a.js", b""),
        asset("a.js.br", b""),
        asset("a.js.gz", b""),
        asset("b.js", b""),
        asset("b.js.gz", b""),
        asset("b.js.br", b""),
    ];
    assert_eq!(find_missing_variant(&all, &entries), None);
    let mut some = all.clone();
    some.remove(5);
    assert_eq!(find_missing_variant(&some, &entries), Some((1, 1)));
    some.remove(2);
    assert_eq!(find_missing_variant(&some, &entries), Some((0, 1)));
    some.remove(1);
    assert_eq!(find_missing_variant(&some, &entries), Some((0, 0)));
    assert_eq!(find_missing_variant(&Vec::new(), &Vec::new()), None);
}

#[test]
fn entries_and_variant_files_are_told_apart() {
    let entries = vec![entry("a.js", &[], &[], &[Encoding::Gzip])];
    assert!(has_entry_for(&entries, &text("a.js")));
    assert!(!has_entry_for(&entries, &text("a.js.gz")));
    assert!(is_variant_file(&entries, &text("a.js.gz")));
    assert!(!is_variant_file(&entries, &text("a.js.br")));
    assert!(!is_variant_file(&entries, &text("a.js")));
}

#[test]
fn only_governed_assets_and_their_variants_are_handed_over() {
    let entries = vec![
        entry("a.js", &[], &[], &[Encoding::Gzip]),
        entry("a.js.gz", &[], &[], &[]),
        entry("b.js", &[], &[], &[Encoding::Brotli]),
    ];
    let assets = vec![
        asset("notes.txt", b"0"),
        asset("a.js", b"1"),
        asset("a.js.gz", b"2"),
        asset("b.js.br", b"3"),
        asset("b.js", b"4"),
        asset("b.js.gz", b"5"),
    ];
    let (given, hidden) = select(&assets, &entries);
    assert_eq!(given, vec![assets[1].clone(), assets[2].clone(), assets[3].clone(), assets[4].clone()]);
    assert_eq!(hidden, vec![assets[3].clone()]);
}

#[test]
fn urls_and_scopes_are_listed_in_order() {
    let assets = vec![asset("a", b""), asset("/b", b"")];
    assert_eq!(asset_urls(&assets), vec![text("/a"), text("/b")]);
    assert_eq!(scopes_of(&entry("a", &[], &["/", "/x"], &[])), vec![text("/"), text("/x")]);
}

#[test]
fn registrations_that_do_not_meet_are_accepted() {
    let assets = vec![asset("a", b""), asset("b", b"")];
    let entries = vec![
        entry("a", &["/", "/home", "/"], &["/"], &[]),
        entry("b", &["/other"], &["/b"], &[]),
    ];
    assert!(is_registrable(&assets, &entries));
    assert!(is_registrable(&Vec::new(), &Vec::new()));
}

#[test]
fn two_assets_under_one_url_meet() {
    let assets = vec![asset("a", b""), asset("/a", b"")];
    assert!(!is_registrable(&assets, &Vec::new()));
}

#[test]
fn an_alias_that_is_an_asset_url_meets_it() {
    let assets = vec![asset("a", b""), asset("b", b"")];
    assert!(!is_registrable(&assets, &vec![entry("a", &["/b"], &[], &[])]));
    assert!(!is_registrable(&assets, &vec![entry("a", &["/a"], &[], &[])]));
}

#[test]
fn an_alias_or_scope_claimed_twice_meets() {
    let assets = vec![asset("a", b""), asset("b", b""), asset("c", b"")];
    let aliases = vec![
        entry("a", &["/x"], &[], &[]),
        entry("b", &[], &[], &[]),
        entry("c", &["/y", "/x"], &[], &[]),
    ];
    assert!(!is_registrable(&assets, &aliases));
    let scopes = vec![entry("a", &[], &["/s"], &[]), entry("b", &[], &["/t", "/s"], &[])];
    assert!(!is_registrable(&assets, &scopes));
    let twice = vec![entry("a", &[], &["/s", "/s"], &[])];
    assert!(!is_registrable(&assets, &twice));
}

#[test]
fn text_lists_are_compared_by_content() {
    let a = vec![text("x"), text("y")];
    let b = vec![text("z"), text("y")];
    let c = vec![text("u"), text("v")];
    assert!(contains_text(&a, &text("y")));
    assert!(!contains_text(&a, &text("z")));
    assert!(!disjoint_texts(&a, &b));
    assert!(disjoint_texts(&a, &c));
    assert!(disjoint_texts(&a, &Vec::new()));
    assert!(distinct_texts(&a));
    assert!(!distinct_texts(&vec![text("x"), text("y"), text("x")]));
    assert!(distinct_texts(&Vec::new()));
}

#[test]
fn headers_and_bytes_are_compared_by_content() {
    let h = vec![(text("a"), text("1")), (text("b"), text("2"))];
    assert!(same_pairs(&h, &h.clone()));
    assert!(!same_pairs(&h, &vec![(text("b"), text("2")), (text("a"), text("1"))]));
    assert!(!same_pairs(&h, &vec![(text("a"), text("1"))]));
    assert!(same_bytes(&vec![1, 2, 3], &vec![1, 2, 3]));
    assert!(!same_bytes(&vec![1, 2, 3], &vec![1, 2, 4]));
    assert!(!same_bytes(&vec![1, 2, 3], &vec![1, 2]));
    assert!(same_bytes(&Vec::new(), &Vec::new()));
}
