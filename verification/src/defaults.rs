//! The rule table of the served site: the entry page and the domain list
//! are never cached, scripts, style sheets and images are cached for good,
//! and everything is offered compressed.

use crate::model::{Encoding, Fallback, FallbackView, Rule, RuleView};
use vstd::prelude::*;

verus! {

pub open spec fn never_cached() -> Seq<(Seq<char>, Seq<char>)> {
    seq![("cache-control"@, "public, no-cache, no-store"@)]
}

pub open spec fn cached_for_good() -> Seq<(Seq<char>, Seq<char>)> {
    seq![("cache-control"@, "public, max-age=31536000, immutable"@)]
}

pub open spec fn compressed() -> Seq<Encoding> {
    seq![Encoding::Brotli, Encoding::Gzip]
}

/// The rule for the entry page: it answers `/` too, and every path that
/// nothing else answers, with status 200.
pub open spec fn entry_page_rule() -> RuleView {
    RuleView::File {
        path: "index.html"@,
        content_type: Some("text/html"@),
        headers: never_cached(),
        fallback_for: seq![FallbackView { scope: "/"@, status_code: 200 }],
        aliased_by: seq!["/"@],
        encodings: compressed(),
    }
}

pub open spec fn domain_list_rule() -> RuleView {
    RuleView::File {
        path: ".well-known/ic-domains"@,
        content_type: Some("text/plain"@),
        headers: never_cached(),
        fallback_for: Seq::empty(),
        aliased_by: Seq::empty(),
        encodings: compressed(),
    }
}

/// The default for every asset that `pattern` matches.
pub open spec fn cached_rule(pattern: Seq<char>, content_type: Seq<char>) -> RuleView {
    RuleView::Pattern {
        pattern,
        content_type: Some(content_type),
        headers: cached_for_good(),
        encodings: compressed(),
    }
}

pub open spec fn default_rules_spec() -> Seq<RuleView> {
    seq![
        entry_page_rule(),
        domain_list_rule(),
        cached_rule("**/*.js"@, "text/javascript"@),
        cached_rule("**/*.css"@, "text/css"@),
        cached_rule("**/*.ico"@, "image/x-icon"@),
        cached_rule("**/*.svg"@, "image/svg+xml"@),
    ]
}

fn cache_control(value: &str) -> (headers: Vec<(String, String)>)
    ensures
        headers.deep_view() == seq![("cache-control"@, value@)],
{
    let headers = vec![(String::from_str("cache-control"), String::from_str(value))];
    assert(headers.deep_view() =~= seq![("cache-control"@, value@)]);
    headers
}

fn both_compressions() -> (encodings: Vec<Encoding>)
    ensures
        encodings@ == compressed(),
{
    let encodings = vec![Encoding::Brotli, Encoding::Gzip];
    assert(encodings@ =~= compressed());
    encodings
}

fn cached(pattern: &str, content_type: &str) -> (rule: Rule)
    ensures
        rule@ == cached_rule(pattern@, content_type@),
{
    Rule::Pattern {
        pattern: String::from_str(pattern),
        content_type: Some(String::from_str(content_type)),
        headers: cache_control("public, max-age=31536000, immutable"),
        encodings: both_compressions(),
    }
}

fn entry_page() -> (rule: Rule)
    ensures
        rule@ == entry_page_rule(),
{
    let fallback_for = vec![Fallback { scope: String::from_str("/"), status_code: 200 }];
    let aliased_by = vec![String::from_str("/")];
    assert(fallback_for.deep_view() =~= seq![FallbackView { scope: "/"@, status_code: 200 }]);
    assert(aliased_by.deep_view() =~= seq!["/"@]);
    Rule::File {
        path: String::from_str("index.html"),
        content_type: Some(String::from_str("text/html")),
        headers: cache_control("public, no-cache, no-store"),
        fallback_for,
        aliased_by,
        encodings: both_compressions(),
    }
}

fn domain_list() -> (rule: Rule)
    ensures
        rule@ == domain_list_rule(),
{
    let fallback_for: Vec<Fallback> = Vec::new();
    let aliased_by: Vec<String> = Vec::new();
    assert(fallback_for.deep_view() =~= Seq::<FallbackView>::empty());
    assert(aliased_by.deep_view() =~= Seq::<Seq<char>>::empty());
    Rule::File {
        path: String::from_str(".well-known/ic-domains"),
        content_type: Some(String::from_str("text/plain")),
        headers: cache_control("public, no-cache, no-store"),
        fallback_for,
        aliased_by,
        encodings: both_compressions(),
    }
}

/// The rule table, in the order of declaration.
pub fn default_rules() -> (rules: Vec<Rule>)
    ensures
        rules.deep_view() == default_rules_spec(),
{
    let rules = vec![
        entry_page(),
        domain_list(),
        cached("**/*.js", "text/javascript"),
        cached("**/*.css", "text/css"),
        cached("**/*.ico", "image/x-icon"),
        cached("**/*.svg", "image/svg+xml"),
    ];
    assert(rules.deep_view() =~= default_rules_spec());
    rules
}

} // verus!
