//! What the library takes on trust from the crates it calls: glob matching
//! from `globset`, and certifying and serving from `ic_asset_certification`.
//! Nothing here is proved; each contract says what the called code is relied
//! on to do.

use crate::model::{AssetView, Encoding, Entry, EntryView, FallbackView, Response, ResponseView};
use ic_asset_certification::{Asset, AssetConfig, AssetEncoding, AssetFallbackConfig, AssetMap};
use ic_http_certification::{HttpRequest, StatusCode};
use vstd::prelude::*;

verus! {

/// The longest glob that the library takes, in characters.
pub const MAX_GLOB_LENGTH: usize = 256;

/// The most alternate groups (`{`) that the library takes in one glob.
pub const MAX_GLOB_GROUPS: usize = 16;

pub open spec fn opens_group() -> spec_fn(char) -> bool {
    |c: char| c == '{'
}

/// The glob is small: at most 256 characters, at most 16 of them `{`.
/// `globset` turns a glob into a regular expression, one group for each
/// alternate group and a few states for each character, and compiling that
/// expression fails beyond 250 nested groups or 10 MiB of automaton. A small
/// glob stays far below both.
pub open spec fn glob_small(pattern: Seq<char>) -> bool {
    pattern.len() <= MAX_GLOB_LENGTH && pattern.filter(opens_group()).len() <= MAX_GLOB_GROUPS
}

/// Whether `globset::Glob::new` accepts the pattern.
pub uninterp spec fn glob_valid(pattern: Seq<char>) -> bool;

/// Whether the matcher compiled from the pattern by `globset` matches the path.
pub uninterp spec fn glob_matches(pattern: Seq<char>, path: Seq<char>) -> bool;

/// Calls `globset::Glob::new` and reports whether the pattern parsed. The
/// outcome depends on the pattern's text alone.
#[verifier::external_body]
pub(crate) fn glob_is_valid(pattern: &str) -> (ok: bool)
    ensures
        ok == glob_valid(pattern@),
{
    globset::Glob::new(pattern).is_ok()
}

/// Calls `globset::GlobMatcher::is_match` on the matcher that
/// `Glob::compile_matcher` builds for a pattern that parses.
/// `compile_matcher` panics where the regular expression of the glob does
/// not compile, so only small globs are admitted. The outcome depends on
/// the two texts alone.
#[verifier::external_body]
pub(crate) fn glob_is_match(pattern: &str, path: &str) -> (hit: bool)
    requires
        glob_small(pattern@),
        glob_valid(pattern@),
    ensures
        hit == glob_matches(pattern@, path@),
{
    globset::Glob::new(pattern).unwrap().compile_matcher().is_match(path)
}

/// `ASSET_CHUNK_SIZE` of `ic_asset_certification`: a response whose body is
/// longer is answered in ranges of this size, not whole.
pub const RANGE_SIZE: usize = 2_000_000;

/// The router of `ic_asset_certification`: the certified responses by
/// request key, and the hash tree over them. Its inside is not visible here.
#[verifier::external_type_specification]
#[verifier::external_body]
pub struct ExAssetRouter<'content>(ic_asset_certification::AssetRouter<'content>);

/// One change made to a router.
pub enum Step {
    /// `certify_assets` succeeded on these assets and entries.
    Certified { assets: Seq<AssetView>, entries: Seq<EntryView> },
    /// `delete_assets` succeeded on these assets, without configurations.
    Forgotten { assets: Seq<AssetView> },
    /// `delete_assets_by_path` was called with these URLs.
    Removed { urls: Seq<Seq<char>> },
}

/// The changes made to a router since it was created, in order. Under the
/// demands of [`certify`] this record determines the responses that the
/// router holds and under which keys. It does not determine the shape of
/// the router's hash tree: the router walks a hash map when it certifies and
/// deletes, and the tree's shape, and with it the root hash and every
/// witness, follows the order of that walk.
pub uninterp spec fn router_log(router: ic_asset_certification::AssetRouter<'static>) -> Seq<Step>;

/// The root hash of the tree that this router holds.
pub uninterp spec fn tree_root(router: ic_asset_certification::AssetRouter<'static>) -> Seq<u8>;

/// Whether `certify_assets` certifies every response that the entries ask
/// for on these assets.
pub uninterp spec fn certifiable(assets: Seq<AssetView>, entries: Seq<EntryView>) -> bool;

/// Whether `delete_assets` finds, for each of these assets taken without a
/// configuration, the response to delete.
pub uninterp spec fn forgettable(assets: Seq<AssetView>) -> bool;

/// The response that `serve_asset` picks, on a router with this record, for
/// a request for `url` with these headers: one of the responses that the
/// router holds, as it is held. `None` where it picks none or fails.
pub uninterp spec fn picked(
    log: Seq<Step>,
    url: Seq<char>,
    headers: Seq<(Seq<char>, Seq<char>)>,
) -> Option<ResponseView>;

/// The response that a router with this record holds under the key made of
/// `url`, the token of an encoding (`None`: unencoded) and the start of a
/// range (`None`: the whole body), if any.
pub uninterp spec fn stored(
    log: Seq<Step>,
    url: Seq<char>,
    encoding: Option<Seq<char>>,
    range: Option<usize>,
) -> Option<ResponseView>;

/// The response that a router with this record holds as a fallback under
/// the key made of `scope`, the token of an encoding and the start of a
/// range, if any.
pub uninterp spec fn stored_fallback(
    log: Seq<Step>,
    scope: Seq<char>,
    encoding: Option<Seq<char>>,
    range: Option<usize>,
) -> Option<ResponseView>;

/// The token under which the router keys an encoding.
pub open spec fn token_of(encoding: Option<Encoding>) -> Option<Seq<char>> {
    match encoding {
        Some(e) => Some(e.token_spec()),
        None => None,
    }
}

/// A status code that an HTTP response can carry.
pub open spec fn valid_status(code: u16) -> bool {
    100 <= code <= 999
}

pub open spec fn valid_statuses(fallbacks: Seq<FallbackView>) -> bool {
    forall|k: int| 0 <= k < fallbacks.len() ==> valid_status((#[trigger] fallbacks[k]).status_code)
}

/// Every fallback of every entry asks for a status that a response can carry.
pub open spec fn statuses_valid(entries: Seq<EntryView>) -> bool {
    forall|i: int| 0 <= i < entries.len() ==> valid_statuses((#[trigger] entries[i]).fallback_for)
}

/// The URL under which the router serves the asset at `path`: the path
/// itself, with a `/` put in front unless it starts with one.
pub open spec fn url_of(path: Seq<char>) -> Seq<char> {
    if path.len() > 0 && path[0] == '/' {
        path
    } else {
        seq!['/'] + path
    }
}

/// No text of `a` is a text of `b`.
pub open spec fn disjoint(a: Seq<Seq<char>>, b: Seq<Seq<char>>) -> bool {
    forall|k: int, l: int| 0 <= k < a.len() && 0 <= l < b.len() ==> #[trigger] a[k] != #[trigger] b[l]
}

/// The URLs of the assets, in order.
pub open spec fn urls(assets: Seq<AssetView>) -> Seq<Seq<char>> {
    assets.map_values(|a: AssetView| url_of(a.path))
}

/// The fallback scopes that an entry claims, in order.
pub open spec fn scopes(entry: EntryView) -> Seq<Seq<char>> {
    entry.fallback_for.map_values(|f: FallbackView| f.scope)
}

/// No two registrations meet: the assets' URLs differ pairwise, no alias is
/// an asset's URL, no alias or fallback scope is claimed by two entries, and
/// no entry claims one scope twice. The router walks its assets in no fixed
/// order and the later of two writes under one key wins, so only then are
/// the responses it ends up holding determined by what it was given.
pub open spec fn registrable(assets: Seq<AssetView>, entries: Seq<EntryView>) -> bool {
    &&& urls(assets).no_duplicates()
    &&& forall|i: int|
        0 <= i < entries.len() ==> disjoint((#[trigger] entries[i]).aliased_by, urls(assets))
    &&& forall|i: int, j: int|
        #![trigger entries[i], entries[j]]
        0 <= i < j < entries.len() ==> disjoint(entries[i].aliased_by, entries[j].aliased_by)
    &&& forall|i: int, j: int|
        #![trigger entries[i], entries[j]]
        0 <= i < j < entries.len() ==> disjoint(scopes(entries[i]), scopes(entries[j]))
    &&& forall|i: int| 0 <= i < entries.len() ==> scopes(#[trigger] entries[i]).no_duplicates()
}

/// Calls `AssetRouter::new`, which creates a router that holds nothing.
#[verifier::external_body]
pub(crate) fn new_router() -> (router: ic_asset_certification::AssetRouter<'static>)
    ensures
        router_log(router) == Seq::<Step>::empty(),
{
    ic_asset_certification::AssetRouter::new()
}

/// Calls `AssetRouter::certify_assets` with the assets as they are and one
/// file configuration per entry, each encoding with the suffix that
/// [`Encoding::suffix`] gives. A status that no response can carry would be
/// handed over as none, so such entries are not admitted. It reports whether
/// the router accepted all of them; only then is anything claimed of what
/// the router holds.
#[verifier::external_body]
pub(crate) fn certify(
    router: &mut ic_asset_certification::AssetRouter<'static>,
    assets: Vec<crate::model::Asset>,
    entries: Vec<Entry>,
) -> (ok: bool)
    requires
        registrable(assets.deep_view(), entries.deep_view()),
        statuses_valid(entries.deep_view()),
    ensures
        ok == certifiable(assets.deep_view(), entries.deep_view()),
        ok ==> router_log(*final(router)) == router_log(*old(router)).push(
            Step::Certified { assets: assets.deep_view(), entries: entries.deep_view() },
        ),
{
    let assets = assets.into_iter().map(|a| Asset::new(a.path, a.content));
    let configs = entries.into_iter().map(|e| AssetConfig::File {
        path: e.path,
        content_type: e.content_type,
        headers: e.headers,
        fallback_for: e.fallback_for.into_iter().map(|f| AssetFallbackConfig { scope: f.scope, status_code: StatusCode::from_u16(f.status_code).ok() }).collect(),
        aliased_by: e.aliased_by,
        encodings: e.encodings.into_iter().map(|c| (match c {
            Encoding::Identity => AssetEncoding::Identity,
            Encoding::Gzip => AssetEncoding::Gzip,
            Encoding::Brotli => AssetEncoding::Brotli,
        }, c.suffix().into())).collect(),
    });
    router.certify_assets(assets, configs).is_ok()
}

/// Calls `AssetRouter::delete_assets` with the assets as they are and no
/// configuration, which drops what the router stored for each of them as an
/// asset that no configuration matches: its unencoded response, whole and
/// in ranges, and the tree's entry for the whole response. It reports
/// whether the router did so for all of them; only then is anything claimed
/// of what the router holds.
#[verifier::external_body]
pub(crate) fn forget(
    router: &mut ic_asset_certification::AssetRouter<'static>,
    assets: Vec<crate::model::Asset>,
) -> (ok: bool)
    ensures
        ok == forgettable(assets.deep_view()),
        ok ==> router_log(*final(router)) == router_log(*old(router)).push(
            Step::Forgotten { assets: assets.deep_view() },
        ),
{
    let assets = assets.into_iter().map(|a| Asset::new(a.path, a.content));
    router.delete_assets(assets, Vec::new()).is_ok()
}

/// Calls `AssetRouter::delete_assets_by_path`, which drops, for each URL,
/// the unencoded whole response stored under it and the tree's entries for
/// that exact path.
#[verifier::external_body]
pub(crate) fn remove(router: &mut ic_asset_certification::AssetRouter<'static>, urls: &Vec<String>)
    ensures
        router_log(*final(router)) == router_log(*old(router)).push(
            Step::Removed { urls: urls.deep_view() },
        ),
{
    router.delete_assets_by_path(urls.iter().map(|u| u.as_str()))
}

/// Calls `AssetRouter::root_hash`: the root hash of the router's tree.
#[verifier::external_body]
pub(crate) fn root_hash(router: &ic_asset_certification::AssetRouter<'static>) -> (digest: [u8; 32])
    ensures
        digest@ == tree_root(*router),
{
    router.root_hash()
}

/// The response without its last header.
pub open spec fn without_last(response: ResponseView) -> ResponseView {
    ResponseView {
        status_code: response.status_code,
        headers: response.headers.drop_last(),
        body: response.body,
    }
}

/// The response ends in a header named `IC-Certificate`.
pub open spec fn ends_in_proof(response: ResponseView) -> bool {
    response.headers.len() > 0 && response.headers.last().0 == "IC-Certificate"@
}

/// Calls `AssetRouter::serve_asset` on a `GET` request for `url` with the
/// given headers, and copies the answer out; an error of any kind is `None`.
/// The answer is the response that the router picks among those it holds,
/// with one header appended, named `IC-Certificate`, that holds the
/// certificate, a witness from the tree and the path asked for. Nothing is
/// claimed of that header's value.
#[verifier::external_body]
pub(crate) fn serve(
    router: &ic_asset_certification::AssetRouter<'static>,
    certificate: &Vec<u8>,
    url: &String,
    headers: &Vec<(String, String)>,
) -> (answer: Option<Response>)
    ensures
        match answer {
            Some(response) => ends_in_proof(response@) && picked(
                router_log(*router),
                url@,
                headers.deep_view(),
            ) == Some(without_last(response@)),
            None => picked(router_log(*router), url@, headers.deep_view()) is None,
        },
{
    let request = HttpRequest::get(url.clone()).with_headers(headers.clone()).build();
    router.serve_asset(certificate, &request).ok().map(|r| Response {
        status_code: r.status_code().as_u16(),
        headers: r.headers().to_vec(),
        body: r.body().to_vec(),
    })
}

/// Calls `AssetMap::get` on `AssetRouter::get_assets` for the whole response
/// under `url` and `encoding`, and copies it out. The router keys an
/// encoding by its token.
#[verifier::external_body]
pub(crate) fn lookup(
    router: &ic_asset_certification::AssetRouter<'static>,
    url: &String,
    encoding: Option<Encoding>,
) -> (found: Option<Response>)
    ensures
        found.deep_view() == stored(router_log(*router), url@, token_of(encoding), None),
{
    let encoding = encoding.map(|c| match c {
        Encoding::Identity => AssetEncoding::Identity,
        Encoding::Gzip => AssetEncoding::Gzip,
        Encoding::Brotli => AssetEncoding::Brotli,
    });
    router.get_assets().get(url.as_str(), encoding, None).map(|r| Response {
        status_code: r.status_code().as_u16(),
        headers: r.headers().to_vec(),
        body: r.body().to_vec(),
    })
}

/// Calls `AssetMap::get` on `AssetRouter::get_fallback_assets` for the
/// whole fallback response under `scope` and `encoding`, and copies it out.
#[verifier::external_body]
pub(crate) fn lookup_fallback(
    router: &ic_asset_certification::AssetRouter<'static>,
    scope: &String,
    encoding: Option<Encoding>,
) -> (found: Option<Response>)
    ensures
        found.deep_view() == stored_fallback(router_log(*router), scope@, token_of(encoding), None),
{
    let encoding = encoding.map(|c| match c {
        Encoding::Identity => AssetEncoding::Identity,
        Encoding::Gzip => AssetEncoding::Gzip,
        Encoding::Brotli => AssetEncoding::Brotli,
    });
    router.get_fallback_assets().get(scope.as_str(), encoding, None).map(|r| Response {
        status_code: r.status_code().as_u16(),
        headers: r.headers().to_vec(),
        body: r.body().to_vec(),
    })
}

/// Calls `Box::leak` on the boxed router: the router is kept for the rest
/// of the process and may be read from then on, not changed. The router
/// hands out its keys only to a reader that holds it that long.
#[verifier::external_body]
pub(crate) fn settle(router: ic_asset_certification::AssetRouter<'static>) -> (kept:
    &'static ic_asset_certification::AssetRouter<'static>)
    ensures
        *kept == router,
{
    Box::leak(Box::new(router))
}

/// Calls `AssetMap::iter` on `AssetRouter::get_assets` and copies the keys
/// out: every key under which the router holds a response, each once, in no
/// fixed order.
#[verifier::external_body]
pub(crate) fn list_keys(router: &'static ic_asset_certification::AssetRouter<'static>) -> (keys: Vec<
    (String, Option<String>, Option<usize>),
>)
    ensures
        forall|url: Seq<char>, encoding: Option<Seq<char>>, range: Option<usize>|
            #[trigger] stored(router_log(*router), url, encoding, range) is Some
                <==> keys.deep_view().contains((url, encoding, range)),
{
    router.get_assets().iter().map(|((p, e, r), _)| (p.to_string(), e.map(|e| e.to_string()), r)).collect()
}

/// Calls `AssetMap::iter` on `AssetRouter::get_fallback_assets` and copies
/// the keys out: every key under which the router holds a fallback, each
/// once, in no fixed order.
#[verifier::external_body]
pub(crate) fn list_fallback_keys(router: &'static ic_asset_certification::AssetRouter<'static>) -> (keys:
    Vec<(String, Option<String>, Option<usize>)>)
    ensures
        forall|scope: Seq<char>, encoding: Option<Seq<char>>, range: Option<usize>|
            #[trigger] stored_fallback(router_log(*router), scope, encoding, range) is Some
                <==> keys.deep_view().contains((scope, encoding, range)),
{
    router.get_fallback_assets().iter().map(|((p, e, r), _)| (p.to_string(), e.map(|e| e.to_string()), r)).collect()
}

} // verus!
