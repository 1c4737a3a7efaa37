use certified_assets::model::Encoding;
use certified_assets::negotiate::{
    accepts, find_header, is_direct, is_safe_path, lists_token, matches_name,
};
use certified_assets::trusted::RANGE_SIZE;

fn text(s: &str) -> String {
    s.to_string()
}

fn headers(pairs: &[(&str, &str)]) -> Vec<(String, String)> {
    pairs.iter().map(|(n, v)| (text(n), text(v))).collect()
}

#[test]
fn the_range_size_is_the_tree_s() {
    assert_eq!(RANGE_SIZE, 2_000_000);
    assert_eq!(RANGE_SIZE, ic_asset_certification::ASSET_CHUNK_SIZE);
}

#[test]
fn header_names_match_in_any_case() {
    assert!(matches_name("accept-encoding", "accept-encoding"));
    assert!(matches_name("Accept-Encoding", "accept-encoding"));
    assert!(matches_name("ACCEPT-ENCODING", "accept-encoding"));
    assert!(!matches_name("accept_encoding", "accept-encoding"));
    assert!(!matches_name("accept-encodin", "accept-encoding"));
    assert!(!matches_name("accept-encoding ", "accept-encoding"));
    assert!(!matches_name("\u{212A}", "k"));
    assert!(matches_name("", ""));
}

#[test]
fn the_first_header_of_a_name_is_found() {
    let list = headers(&[("Host", "a"), ("RANGE", "x"), ("range", "y")]);
    assert_eq!(find_header(&list, "range"), Some(1));
    assert_eq!(find_header(&list, "host"), Some(0));
    assert_eq!(find_header(&list, "accept-encoding"), None);
    assert_eq!(find_header(&Vec::new(), "range"), None);
}

#[test]
fn a_list_names_the_tokens_of_its_items() {
    for value in ["gzip", "gzip, br", "br,gzip", " br ,\tgzip ", "br;q=1.0, gzip;q=0.8", "gzip ; q=0", "deflate,gzip"] {
        assert!(lists_token(value, "gzip"), "{value:?}");
    }
    for value in ["", "br", "gzipx", "xgzip", "x-gzip", "GZIP", "gz ip", "br;gzip", "br; gzip", "identity;q=gzip", "g,zip"] {
        assert!(!lists_token(value, "gzip"), "{value:?}");
    }
    assert!(lists_token("gzip, br", "br"));
    assert!(lists_token("br", "br"));
    assert!(!lists_token("b", "br"));
    assert!(!lists_token("brr", "br"));
}

#[test]
fn only_the_first_accept_encoding_header_counts() {
    let list = headers(&[("Accept-Encoding", "gzip"), ("accept-encoding", "br")]);
    assert!(accepts(&list, Encoding::Gzip));
    assert!(!accepts(&list, Encoding::Brotli));
    assert!(!accepts(&list, Encoding::Identity));
    assert!(!accepts(&Vec::new(), Encoding::Gzip));
    assert!(accepts(&headers(&[("accept-encoding", "identity")]), Encoding::Identity));
}

#[test]
fn a_safe_path_spells_what_it_names() {
    for path in ["/", "/index.html", "/a/b-c_d~e.F9", "/.well-known/ic-domains"] {
        assert!(is_safe_path(path), "{path:?}");
    }
    for path in ["", "index.html", "/a b", "/a%20b", "/a?b", "/a#b", "/é", "/a+b", "/a:b", "/a@b"] {
        assert!(!is_safe_path(path), "{path:?}");
    }
}

#[test]
fn a_direct_request_has_a_safe_path_no_range_and_plain_preferences() {
    assert!(is_direct(&Vec::new(), "/index.html"));
    assert!(is_direct(&headers(&[("Accept-Encoding", "gzip, br")]), "/"));
    assert!(!is_direct(&Vec::new(), "/a%2Eb"));
    assert!(!is_direct(&headers(&[("Range", "bytes=0-")]), "/"));
    assert!(!is_direct(&headers(&[("rAnGe", "")]), "/"));
    assert!(!is_direct(&headers(&[("Accept-Encoding", "gzip,\u{a0}br")]), "/"));
    assert!(is_direct(&headers(&[("Accept-Encoding", "gzip"), ("accept-encoding", "\u{a0}")]), "/"));
}
