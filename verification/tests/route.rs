use certified_assets::model::{Asset, Encoding, Fallback, Request, Response, Rule, ServeError};
use certified_assets::route::{
    conclude, extends, find_query, normalize, reads, route, select, withhold,
};
use certified_assets::tree::{build, CertificationTree};

fn text(s: &str) -> String {
    s.to_string()
}

fn asset(path: &str, content: &[u8]) -> Asset {
    Asset { path: text(path), content: content.to_vec() }
}

fn request(method: &str, url: &str, accept: Option<&str>) -> Request {
    Request {
        method: text(method),
        url: text(url),
        headers: accept.map(|a| (text("Accept-Encoding"), text(a))).into_iter().collect(),
    }
}

fn get(url: &str) -> Request {
    request("GET", url, None)
}

fn header<'a>(response: &'a Response, name: &str) -> Option<&'a str> {
    response.headers.iter().find(|(n, _)| n.eq_ignore_ascii_case(name)).map(|(_, v)| v.as_str())
}

fn without_proof(mut response: Response) -> Response {
    response.headers.retain(|(n, _)| n != "IC-Certificate");
    response
}

fn certificate() -> Option<Vec<u8>> {
    Some(vec![0xd9, 0xd9, 0xf7])
}

fn page_rule(path: &str, cache: &str, aliases: &[&str], scopes: &[(&str, u16)]) -> Rule {
    Rule::File {
        path: text(path),
        content_type: Some(text("text/html")),
        headers: vec![(text("cache-control"), text(cache))],
        fallback_for: scopes
            .iter()
            .map(|(scope, status_code)| Fallback { scope: text(scope), status_code: *status_code })
            .collect(),
        aliased_by: aliases.iter().map(|a| text(a)).collect(),
        encodings: vec![],
    }
}

fn script_rule(encodings: &[Encoding]) -> Rule {
    Rule::Pattern {
        pattern: text("**/*.js"),
        content_type: Some(text("text/javascript")),
        headers: vec![(text("cache-control"), text("forever"))],
        encodings: encodings.to_vec(),
    }
}

fn site() -> CertificationTree {
    let assets = vec![
        asset("index.html", b"<html>entry</html>"),
        asset("docs/missing.html", b"<html>no such page</html>"),
        asset("app.js", b"plain"),
        asset("app.js.br", b"brotli"),
        asset("app.js.gz", b"gzip"),
    ];
    let rules = vec![
        script_rule(&[Encoding::Brotli, Encoding::Gzip]),
        page_rule("index.html", "no-cache", &["/"], &[("/", 200)]),
        page_rule("docs/missing.html", "no-cache", &[], &[("/docs", 404)]),
    ];
    build(&assets, &rules).unwrap()
}

#[test]
fn the_query_starts_at_the_first_question_mark() {
    assert_eq!(find_query("/a?b?c"), 2);
    assert_eq!(find_query("/abc"), 4);
    assert_eq!(find_query("?"), 0);
    assert_eq!(find_query(""), 0);
    assert_eq!(find_query("/é?x"), 2);
}

#[test]
fn urls_are_brought_to_plain_paths() {
    assert_eq!(normalize("/index.html"), "/index.html");
    assert_eq!(normalize("/index.html?lang=en&x=//"), "/index.html");
    assert_eq!(normalize("//a///b//"), "/a/b/");
    assert_eq!(normalize(""), "/");
    assert_eq!(normalize("?q=1"), "/");
    assert_eq!(normalize("/"), "/");
    assert_eq!(normalize("////"), "/");
    assert_eq!(normalize("a//b"), "a/b");
    assert_eq!(normalize("/é//ü?ß"), "/é/ü");
}

#[test]
fn normalizing_twice_is_normalizing_once() {
    for url in ["", "/", "//a//b?c//d", "a///", "/x?y?z", "?"] {
        let once = normalize(url);
        assert_eq!(normalize(&once), once);
        assert!(!once.is_empty());
        assert!(!once.contains('?'));
        assert!(!once.contains("//"));
    }
}

#[test]
fn only_get_and_head_read() {
    assert!(reads(&text("GET")));
    assert!(reads(&text("HEAD")));
    assert!(!reads(&text("POST")));
    assert!(!reads(&text("get")));
    assert!(!reads(&text("")));
}

#[test]
fn an_answer_without_a_proof_is_not_passed_on() {
    let bare = Response { status_code: 200, headers: vec![(text("a"), text("b"))], body: vec![1] };
    assert_eq!(conclude(Some(bare)), Err(ServeError::ProofUnavailable));
    let proved = Response {
        status_code: 200,
        headers: vec![(text("a"), text("b")), (text("IC-Certificate"), text("c"))],
        body: vec![1],
    };
    assert_eq!(conclude(Some(proved.clone())), Ok(proved));
    assert_eq!(conclude(None), Err(ServeError::NotFound));
}

#[test]
fn the_exact_rule_governs_over_a_pattern() {
    let assets = vec![asset("index.html", b"<html/>"), asset("about.html", b"<html>about</html>")];
    let rules = vec![
        Rule::Pattern {
            pattern: text("**/*.html"),
            content_type: Some(text("text/html")),
            headers: vec![(text("cache-control"), text("public, max-age=600"))],
            encodings: vec![],
        },
        page_rule("index.html", "no-store", &[], &[]),
    ];
    let tree = build(&assets, &rules).unwrap();
    let response = route(&get("/index.html"), &tree, &certificate()).unwrap();
    assert_eq!(header(&response, "cache-control"), Some("no-store"));
    let response = route(&get("/about.html"), &tree, &certificate()).unwrap();
    assert_eq!(header(&response, "cache-control"), Some("public, max-age=600"));
}

#[test]
fn an_unregistered_path_gets_the_fallback_of_its_scope() {
    let tree = site();
    let response = route(&get("/app/dashboard"), &tree, &certificate()).unwrap();
    assert_eq!(response.status_code, 200);
    assert_eq!(response.body, b"<html>entry</html>".to_vec());
    let proof = header(&response, "IC-Certificate").unwrap();
    assert!(proof.starts_with("certificate=:2dn3:, tree=:"));
    assert!(proof.ends_with(", version=2"));
}

#[test]
fn the_longest_scope_wins() {
    let tree = site();
    let response = route(&get("/docs/guide/intro"), &tree, &certificate()).unwrap();
    assert_eq!(response.status_code, 404);
    assert_eq!(response.body, b"<html>no such page</html>".to_vec());
    let response = route(&get("/documents"), &tree, &certificate()).unwrap();
    assert_eq!(response.status_code, 200);
    assert_eq!(response.body, b"<html>entry</html>".to_vec());
}

#[test]
fn gzip_is_served_where_brotli_is_not_accepted() {
    let tree = site();
    let response =
        route(&request("GET", "/app.js", Some("gzip, identity")), &tree, &certificate()).unwrap();
    assert_eq!(response.body, b"gzip".to_vec());
    assert_eq!(header(&response, "content-encoding"), Some("gzip"));
}

#[test]
fn brotli_is_preferred_over_gzip_and_gzip_over_identity() {
    let tree = site();
    let served = |accept: Option<&str>| {
        route(&request("GET", "/app.js", accept), &tree, &certificate()).unwrap().body
    };
    assert_eq!(served(Some("gzip, br, identity")), b"brotli".to_vec());
    assert_eq!(served(Some("identity, gzip")), b"gzip".to_vec());
    assert_eq!(served(Some("identity")), b"plain".to_vec());
    assert_eq!(served(Some("deflate")), b"plain".to_vec());
    assert_eq!(served(None), b"plain".to_vec());
}

#[test]
fn an_alias_resolves_to_the_response_of_its_target() {
    let tree = site();
    let by_alias = route(&get("/"), &tree, &certificate()).unwrap();
    let by_path = route(&get("/index.html"), &tree, &certificate()).unwrap();
    assert_eq!(by_alias.status_code, 200);
    assert_eq!(by_alias.body, b"<html>entry</html>".to_vec());
    assert!(header(&by_alias, "IC-Certificate").is_some());
    assert!(header(&by_path, "IC-Certificate").is_some());
    assert_eq!(without_proof(by_alias), without_proof(by_path));
}

#[test]
fn the_query_and_doubled_slashes_do_not_matter() {
    let tree = site();
    let plain = route(&get("/app.js"), &tree, &certificate()).unwrap();
    assert_eq!(route(&get("/app.js?v=3"), &tree, &certificate()), Ok(plain.clone()));
    assert_eq!(route(&get("//app.js"), &tree, &certificate()), Ok(plain));
    let entry = route(&get("/"), &tree, &certificate()).unwrap();
    assert_eq!(route(&get(""), &tree, &certificate()), Ok(entry));
}

#[test]
fn nothing_is_found_where_nothing_is_registered() {
    let assets = vec![asset("app.js", b"plain")];
    let tree = build(&assets, &vec![script_rule(&[])]).unwrap();
    assert_eq!(route(&get("/app.css"), &tree, &certificate()), Err(ServeError::NotFound));
    assert_eq!(route(&get("/"), &tree, &certificate()), Err(ServeError::NotFound));
    assert!(route(&get("/app.js"), &tree, &certificate()).is_ok());
}

#[test]
fn a_request_that_does_not_read_finds_nothing_without_a_universal_fallback() {
    let assets = vec![asset("app.js", b"plain")];
    let tree = build(&assets, &vec![script_rule(&[])]).unwrap();
    assert_eq!(
        route(&request("POST", "/app.js", None), &tree, &certificate()),
        Err(ServeError::NotFound)
    );
    assert!(route(&request("HEAD", "/app.js", None), &tree, &certificate()).is_ok());
    let caught = route(&request("POST", "/anything", None), &site(), &certificate()).unwrap();
    assert_eq!(caught.body, b"<html>entry</html>".to_vec());
}

#[test]
fn no_certificate_no_answer() {
    let tree = site();
    assert_eq!(route(&get("/index.html"), &tree, &None), Err(ServeError::ProofUnavailable));
    assert_eq!(route(&get("/nowhere"), &tree, &None), Err(ServeError::ProofUnavailable));
    assert_eq!(
        route(&request("POST", "/index.html", None), &tree, &None),
        Err(ServeError::ProofUnavailable)
    );
}

#[test]
fn nothing_found_needs_no_certificate() {
    let assets = vec![asset("app.js", b"plain")];
    let tree = build(&assets, &vec![script_rule(&[])]).unwrap();
    assert_eq!(route(&get("/app.css"), &tree, &None), Err(ServeError::NotFound));
    assert_eq!(route(&get("/app.js"), &tree, &None), Err(ServeError::ProofUnavailable));
    assert_eq!(route(&request("POST", "/app.js", None), &tree, &None), Err(ServeError::NotFound));
}

#[test]
fn a_response_is_withheld_without_a_certificate() {
    let proved = Response {
        status_code: 200,
        headers: vec![(text("IC-Certificate"), text("c"))],
        body: vec![1],
    };
    assert_eq!(withhold(Some(proved)), Err(ServeError::ProofUnavailable));
    assert_eq!(withhold(None), Err(ServeError::NotFound));
}

#[test]
fn the_certificate_goes_into_the_proof() {
    let tree = site();
    let one = route(&get("/index.html"), &tree, &Some(vec![1])).unwrap();
    let two = route(&get("/index.html"), &tree, &Some(vec![2])).unwrap();
    assert_ne!(header(&one, "IC-Certificate"), header(&two, "IC-Certificate"));
    assert_eq!(without_proof(one), without_proof(two));
}

#[test]
fn a_url_that_is_no_path_finds_nothing() {
    let tree = site();
    assert_eq!(route(&get("/a b"), &tree, &certificate()), Err(ServeError::NotFound));
}

#[test]
fn a_large_variant_is_served_in_ranges_under_its_asset_only() {
    let mut big = vec![7u8; 4_000_001];
    big[2_000_000] = 8;
    let assets = vec![asset("app.js", b"plain"), asset("app.js.gz", &big)];
    let tree = build(&assets, &vec![script_rule(&[Encoding::Gzip])]).unwrap();
    let ranged = |url: &str, range: Option<&str>| {
        let mut request = request("GET", url, Some("gzip"));
        if let Some(range) = range {
            request.headers.push((text("Range"), text(range)));
        }
        route(&request, &tree, &certificate())
    };
    let first = ranged("/app.js", None).unwrap();
    assert_eq!(first.status_code, 206);
    assert_eq!(first.body, vec![7u8; 2_000_000]);
    assert_eq!(header(&first, "content-range"), Some("bytes 0-1999999/4000001"));
    let second = ranged("/app.js", Some("bytes=2000000-")).unwrap();
    assert_eq!(second.body.len(), 2_000_000);
    assert_eq!(second.body[0], 8);
    let last = ranged("/app.js", Some("bytes=4000000-")).unwrap();
    assert_eq!(last.body, vec![7u8]);
    for range in [None, Some("bytes=0-"), Some("bytes=2000000-"), Some("bytes=4000000-")] {
        assert_eq!(ranged("/app.js.gz", range), Err(ServeError::NotFound));
    }
}

#[test]
fn the_selection_prefers_brotli_then_gzip_then_the_plain_response() {
    let tree = site();
    let with = |accept: &str| vec![(text("ACCEPT-ENCODING"), text(accept))];
    let body = |headers: &Vec<(String, String)>, path: &str| {
        select(&tree, headers, &text(path)).map(|r| (r.status_code, r.body))
    };
    assert_eq!(body(&with("gzip;q=1, br;q=0.1"), "/app.js"), Some((200, b"brotli".to_vec())));
    assert_eq!(body(&with("identity, gzip"), "/app.js"), Some((200, b"gzip".to_vec())));
    assert_eq!(body(&with("BR, GZIP"), "/app.js"), Some((200, b"plain".to_vec())));
    assert_eq!(body(&Vec::new(), "/app.js"), Some((200, b"plain".to_vec())));
    assert_eq!(body(&with("br"), "/"), Some((200, b"<html>entry</html>".to_vec())));
    assert_eq!(body(&with("br"), "/docs"), Some((200, b"<html>entry</html>".to_vec())));
    assert_eq!(body(&with("br"), "/docs/"), Some((404, b"<html>no such page</html>".to_vec())));
    assert_eq!(body(&with("br"), "/docs/x/y"), Some((404, b"<html>no such page</html>".to_vec())));
    assert_eq!(body(&with("br"), "/docsx/y"), Some((200, b"<html>entry</html>".to_vec())));
    assert_eq!(body(&with("br"), "nowhere"), None);
}

#[test]
fn every_direct_answer_is_the_selected_response_with_its_proof() {
    let tree = site();
    let accepts = [None, Some("br"), Some("gzip"), Some("gzip, br"), Some("identity"), Some("zstd, deflate")];
    let urls = ["/", "/index.html", "/app.js", "/app.js?x=1", "/docs", "/docs/", "/docs/a", "/a/b/c", "/app.js.gz", "//"];
    for url in urls {
        for accept in accepts {
            let asked = request("GET", url, accept);
            let chosen = select(&tree, &asked.headers, &normalize(url)).unwrap();
            let answer = route(&asked, &tree, &certificate()).unwrap();
            assert!(extends(&answer, &chosen), "{url} {accept:?}");
            assert_eq!(answer.headers.last().unwrap().0, "IC-Certificate");
            assert_eq!(without_proof(answer), chosen);
        }
    }
}

#[test]
fn an_answer_extends_its_response_by_one_header() {
    let response = Response { status_code: 200, headers: vec![(text("a"), text("1"))], body: vec![1] };
    let mut answer = response.clone();
    assert!(!extends(&answer, &response));
    answer.headers.push((text("IC-Certificate"), text("p")));
    assert!(extends(&answer, &response));
    let mut other = answer.clone();
    other.status_code = 206;
    assert!(!extends(&other, &response));
    let mut other = answer.clone();
    other.body = vec![2];
    assert!(!extends(&other, &response));
    let mut other = answer.clone();
    other.headers[0].1 = text("2");
    assert!(!extends(&other, &response));
    let bare = Response { status_code: 200, headers: vec![], body: vec![1] };
    assert!(!extends(&bare, &bare));
}

#[test]
fn a_path_to_decode_is_left_to_the_tree() {
    let tree = site();
    let answer = route(&get("/app%2Ejs"), &tree, &certificate()).unwrap();
    assert_eq!(answer.body, b"plain".to_vec());
}
