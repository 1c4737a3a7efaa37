use certified_assets::defaults::default_rules;
use certified_assets::model::{Asset, ConfigurationError, Encoding, Fallback, Rule};
use certified_assets::plan::{check_rules, entry_for, find_asset, is_small_glob, plan};
use certified_assets::rules::find_governing;

fn text(s: &str) -> String {
    s.to_string()
}

fn asset(path: &str, content: &[u8]) -> Asset {
    Asset { path: text(path), content: content.to_vec() }
}

fn file_rule(path: &str, cache: &str) -> Rule {
    Rule::File {
        path: text(path),
        content_type: Some(text("text/html")),
        headers: vec![(text("cache-control"), text(cache))],
        fallback_for: vec![],
        aliased_by: vec![],
        encodings: vec![],
    }
}

fn pattern_rule(pattern: &str, cache: &str) -> Rule {
    Rule::Pattern {
        pattern: text(pattern),
        content_type: None,
        headers: vec![(text("cache-control"), text(cache))],
        encodings: vec![Encoding::Gzip],
    }
}

#[test]
fn the_default_table_is_the_declared_one() {
    let rules = default_rules();
    assert_eq!(rules.len(), 6);
    assert_eq!(
        rules[0],
        Rule::File {
            path: text("index.html"),
            content_type: Some(text("text/html")),
            headers: vec![(text("cache-control"), text("public, no-cache, no-store"))],
            fallback_for: vec![Fallback { scope: text("/"), status_code: 200 }],
            aliased_by: vec![text("/")],
            encodings: vec![Encoding::Brotli, Encoding::Gzip],
        }
    );
    assert_eq!(
        rules[1],
        Rule::File {
            path: text(".well-known/ic-domains"),
            content_type: Some(text("text/plain")),
            headers: vec![(text("cache-control"), text("public, no-cache, no-store"))],
            fallback_for: vec![],
            aliased_by: vec![],
            encodings: vec![Encoding::Brotli, Encoding::Gzip],
        }
    );
    let defaults = [
        ("**/*.js", "text/javascript"),
        ("**/*.css", "text/css"),
        ("**/*.ico", "image/x-icon"),
        ("**/*.svg", "image/svg+xml"),
    ];
    for (i, (pattern, content_type)) in defaults.iter().enumerate() {
        assert_eq!(
            rules[2 + i],
            Rule::Pattern {
                pattern: text(pattern),
                content_type: Some(text(content_type)),
                headers: vec![(text("cache-control"), text("public, max-age=31536000, immutable"))],
                encodings: vec![Encoding::Brotli, Encoding::Gzip],
            }
        );
    }
}

#[test]
fn a_file_rule_wins_over_a_pattern_declared_before_it() {
    let rules = vec![pattern_rule("**/*.html", "a"), file_rule("index.html", "b")];
    assert_eq!(find_governing(&rules, &text("index.html")), Some(1));
    assert_eq!(find_governing(&rules, &text("about.html")), Some(0));
}

#[test]
fn the_first_of_two_matching_patterns_wins() {
    let rules = vec![pattern_rule("assets/**/*.js", "a"), pattern_rule("**/*.js", "b")];
    assert_eq!(find_governing(&rules, &text("assets/x/app.js")), Some(0));
    assert_eq!(find_governing(&rules, &text("app.js")), Some(1));
}

#[test]
fn the_first_of_two_file_rules_for_one_path_wins() {
    let rules = vec![file_rule("a.html", "a"), file_rule("a.html", "b")];
    assert_eq!(find_governing(&rules, &text("a.html")), Some(0));
}

#[test]
fn no_rule_governs_an_asset_that_none_applies_to() {
    let rules = vec![pattern_rule("**/*.js", "a"), file_rule("index.html", "b")];
    assert_eq!(find_governing(&rules, &text("notes.txt")), None);
    assert_eq!(find_governing(&rules, &text("/index.html")), None);
    assert_eq!(find_governing(&Vec::new(), &text("index.html")), None);
}

#[test]
fn a_glob_decides_by_the_path_not_by_equal_text() {
    let rules = vec![pattern_rule("**/*.js", "a")];
    assert_eq!(find_governing(&rules, &text("deep/down/app.js")), Some(0));
    assert_eq!(find_governing(&rules, &text("**/*.js")), Some(0));
    assert_eq!(find_governing(&rules, &text("app.css")), None);
}

#[test]
fn a_pattern_that_does_not_parse_applies_to_nothing() {
    let rules = vec![pattern_rule("a[", "a")];
    assert_eq!(find_governing(&rules, &text("a[")), None);
}

#[test]
fn find_asset_gives_the_first_asset_at_the_path() {
    let assets = vec![asset("a", b"1"), asset("b", b"2"), asset("b", b"3")];
    assert_eq!(find_asset(&assets, &text("b")), Some(1));
    assert_eq!(find_asset(&assets, &text("c")), None);
}

#[test]
fn sound_rules_pass_the_check() {
    let assets = vec![asset("index.html", b"x")];
    let rules = vec![file_rule("index.html", "a"), pattern_rule("**/*.js", "b")];
    assert_eq!(check_rules(&assets, &rules), Ok(()));
    assert_eq!(check_rules(&assets, &Vec::new()), Ok(()));
}

#[test]
fn a_file_rule_without_its_asset_is_a_fault() {
    let assets = vec![asset("index.html", b"x")];
    let rules = vec![file_rule("index.html", "a"), file_rule("gone.html", "b")];
    assert_eq!(check_rules(&assets, &rules), Err(ConfigurationError::MissingAsset { rule: 1 }));
}

#[test]
fn a_glob_that_does_not_parse_is_a_fault() {
    let assets = vec![asset("index.html", b"x")];
    let rules = vec![pattern_rule("**/*.{js", "a")];
    assert_eq!(check_rules(&assets, &rules), Err(ConfigurationError::InvalidPattern { rule: 0 }));
}

#[test]
fn a_fallback_status_out_of_range_is_a_fault() {
    let assets = vec![asset("index.html", b"x")];
    for code in [0u16, 99, 1000, u16::MAX] {
        let rules = vec![Rule::File {
            path: text("index.html"),
            content_type: None,
            headers: vec![],
            fallback_for: vec![Fallback { scope: text("/"), status_code: code }],
            aliased_by: vec![],
            encodings: vec![],
        }];
        assert_eq!(check_rules(&assets, &rules), Err(ConfigurationError::InvalidStatus { rule: 0 }));
    }
    for code in [100u16, 200, 404, 999] {
        let rules = vec![Rule::File {
            path: text("index.html"),
            content_type: None,
            headers: vec![],
            fallback_for: vec![Fallback { scope: text("/"), status_code: code }],
            aliased_by: vec![],
            encodings: vec![],
        }];
        assert_eq!(check_rules(&assets, &rules), Ok(()));
    }
}

#[test]
fn the_first_faulty_rule_is_reported() {
    let assets = vec![asset("index.html", b"x")];
    let rules = vec![
        file_rule("index.html", "a"),
        pattern_rule("[", "b"),
        file_rule("gone.html", "c"),
    ];
    assert_eq!(check_rules(&assets, &rules), Err(ConfigurationError::InvalidPattern { rule: 1 }));
}

#[test]
fn an_entry_takes_what_its_rule_declares() {
    let rule = Rule::File {
        path: text("index.html"),
        content_type: Some(text("text/html")),
        headers: vec![(text("cache-control"), text("no-cache"))],
        fallback_for: vec![Fallback { scope: text("/"), status_code: 200 }],
        aliased_by: vec![text("/")],
        encodings: vec![Encoding::Identity, Encoding::Brotli, Encoding::Identity, Encoding::Gzip],
    };
    let entry = entry_for(&rule, &text("index.html"));
    assert_eq!(entry.path, "index.html");
    assert_eq!(entry.content_type, Some(text("text/html")));
    assert_eq!(entry.headers, vec![(text("cache-control"), text("no-cache"))]);
    assert_eq!(entry.fallback_for, vec![Fallback { scope: text("/"), status_code: 200 }]);
    assert_eq!(entry.aliased_by, vec![text("/")]);
    assert_eq!(entry.encodings, vec![Encoding::Brotli, Encoding::Gzip]);

    let entry = entry_for(&pattern_rule("**/*.js", "forever"), &text("a/app.js"));
    assert_eq!(entry.path, "a/app.js");
    assert_eq!(entry.content_type, None);
    assert_eq!(entry.headers, vec![(text("cache-control"), text("forever"))]);
    assert!(entry.fallback_for.is_empty());
    assert!(entry.aliased_by.is_empty());
    assert_eq!(entry.encodings, vec![Encoding::Gzip]);
}

#[test]
fn the_plan_has_one_entry_for_each_governed_asset_in_store_order() {
    let assets = vec![
        asset("app.js", b"1"),
        asset("notes.txt", b"2"),
        asset("index.html", b"3"),
        asset("app.js.gz", b"4"),
    ];
    let rules = vec![pattern_rule("**/*.js", "a"), file_rule("index.html", "b")];
    let entries = plan(&assets, &rules);
    assert_eq!(entries.len(), 2);
    assert_eq!(entries[0], entry_for(&rules[0], &text("app.js")));
    assert_eq!(entries[1], entry_for(&rules[1], &text("index.html")));
    assert!(plan(&assets, &Vec::new()).is_empty());
    assert!(plan(&Vec::new(), &rules).is_empty());
}

#[test]
fn a_small_glob_has_few_characters_and_few_groups() {
    assert!(is_small_glob(""));
    assert!(is_small_glob("**/*.{js,css}"));
    assert!(is_small_glob(&"a".repeat(256)));
    assert!(!is_small_glob(&"a".repeat(257)));
    assert!(is_small_glob(&"é".repeat(256)));
    assert!(is_small_glob(&"{".repeat(16)));
    assert!(!is_small_glob(&"{".repeat(17)));
    assert!(is_small_glob(&format!("{}{}", "{".repeat(16), "}".repeat(240))));
}

#[test]
fn a_glob_beyond_the_bounds_applies_to_nothing() {
    let long = "?".repeat(257);
    let rules = vec![pattern_rule(&long, "a")];
    assert_eq!(find_governing(&rules, &"b".repeat(257)), None);
}

#[test]
fn small_globs_of_every_shape_are_matched_without_fault() {
    let shapes = [
        "*".repeat(256),
        "?".repeat(256),
        "**/".repeat(85),
        "[a-z]".repeat(51),
        "[!a-z0-9_]".repeat(25),
        format!("{}{}", "{a,b,c,d}".repeat(16), "*".repeat(112)),
        "é".repeat(256),
        format!("{}x{}", "{a,{b,".repeat(8), "}}".repeat(8)),
    ];
    for shape in shapes {
        assert!(is_small_glob(&shape));
        let rules = vec![pattern_rule(&shape, "a")];
        let _ = find_governing(&rules, &text("a/b/c/d.js"));
        let _ = find_governing(&rules, &"a".repeat(300));
    }
}
