//! Answering a request from a built tree: the URL is brought to a plain
//! path, the response is selected among those that the tree holds, and the
//! tree's answer is passed on where it is that response with its proof.
//! Without a certificate no response is passed on.

use crate::model::{Encoding, Request, RequestView, Response, ResponseView, ServeError};
use crate::negotiate::{accepted, accepts, direct, is_direct};
use crate::texts::same_bytes;
use crate::tree::{at, key_of, CertificationTree, TreeView};
use crate::trusted::{ends_in_proof, picked, without_last, Step, RANGE_SIZE};
use vstd::prelude::*;

verus! {

/// Where the query string of `url` starts: at its first `?`, or at its end.
pub open spec fn query_start(url: Seq<char>) -> int {
    match url.index_of_first('?') {
        Some(k) => k,
        None => url.len() as int,
    }
}

/// `path` with every run of `/` brought down to one `/`.
pub open spec fn collapsed(path: Seq<char>) -> Seq<char>
    decreases path.len(),
{
    if path.len() == 0 {
        path
    } else if path.last() == '/' && path.len() >= 2 && path[path.len() - 2] == '/' {
        collapsed(path.drop_last())
    } else {
        collapsed(path.drop_last()).push(path.last())
    }
}

/// The path that a URL asks for: the URL without its query string, every
/// run of `/` brought down to one, and `/` where nothing is left.
pub open spec fn normalized(url: Seq<char>) -> Seq<char> {
    let path = collapsed(url.take(query_start(url)));
    if path.len() == 0 {
        seq!['/']
    } else {
        path
    }
}

/// A method that only reads.
pub open spec fn is_read(method: Seq<char>) -> bool {
    method == "GET"@ || method == "HEAD"@
}

/// Finds where the query string of `url` starts, counted in characters.
pub fn find_query(url: &str) -> (k: usize)
    ensures
        k == query_start(url@),
        k <= url@.len(),
{
    let n = url.unicode_len();
    let mut k: usize = 0;
    while k < n
        invariant
            k <= n,
            n == url@.len(),
            forall|j: int| 0 <= j < k ==> url@[j] != '?',
        decreases n - k,
    {
        if url.get_char(k) == '?' {
            proof {
                url@.index_of_first_ensures('?');
                assert(url@.contains('?'));
            }
            return k;
        }
        k += 1;
    }
    proof {
        url@.index_of_first_ensures('?');
    }
    k
}

/// Brings a URL to the path it asks for.
pub fn normalize(url: &str) -> (path: String)
    ensures
        path@ == normalized(url@),
{
    let end = find_query(url);
    let ghost raw = url@.take(end as int);
    let mut path = String::new();
    let mut after_slash = false;
    let mut i: usize = 0;
    assert(raw.take(0) =~= Seq::<char>::empty());
    while i < end
        invariant
            i <= end <= url@.len(),
            raw == url@.take(end as int),
            path@ == collapsed(raw.take(i as int)),
            after_slash == (i > 0 && raw[i - 1] == '/'),
        decreases end - i,
    {
        let c = url.get_char(i);
        proof {
            assert(raw.take(i + 1).drop_last() =~= raw.take(i as int));
            assert(raw.take(i + 1).last() == c);
            if i > 0 {
                assert(raw.take(i + 1)[i - 1] == raw[i - 1]);
            }
        }
        if !(c == '/' && after_slash) {
            let ghost before = path@;
            path.append(url.substring_char(i, i + 1));
            assert(url@.subrange(i as int, i + 1) =~= seq![c]);
            assert(path@ =~= before.push(c));
        }
        after_slash = c == '/';
        i += 1;
    }
    assert(raw.take(i as int) =~= raw);
    if path.as_str().unicode_len() == 0 {
        proof {
            reveal_strlit("/");
        }
        assert("/"@ =~= seq!['/']);
        String::from_str("/")
    } else {
        path
    }
}

/// Whether the method only reads.
pub fn reads(method: &String) -> (yes: bool)
    ensures
        yes == is_read(method@),
{
    *method == String::from_str("GET") || *method == String::from_str("HEAD")
}

/// What the tree's answer to a request with a certificate comes to:
/// nothing found; or a response, which is passed on only if it ends in its
/// proof.
pub open spec fn concluded(answer: Option<ResponseView>) -> Result<ResponseView, ServeError> {
    match answer {
        Some(response) => if ends_in_proof(response) {
            Ok(response)
        } else {
            Err(ServeError::ProofUnavailable)
        },
        None => Err(ServeError::NotFound),
    }
}

/// What the tree's answer comes to where no certificate is at hand, the
/// tree being asked with an empty one: nothing found, or no proof.
pub open spec fn unproved(answer: Option<ResponseView>) -> Result<ResponseView, ServeError> {
    match answer {
        Some(_) => Err(ServeError::ProofUnavailable),
        None => Err(ServeError::NotFound),
    }
}

/// The response that a request prefers among those held under one name:
/// the brotli one where the request accepts it and it is held, else the gzip
/// one likewise, else the unencoded one.
pub open spec fn preferred(
    log: Seq<Step>,
    headers: Seq<(Seq<char>, Seq<char>)>,
    name: Seq<char>,
    fallback: bool,
) -> Option<ResponseView> {
    if accepted(headers, Encoding::Brotli) && at(log, name, key_of(Encoding::Brotli), fallback)
        is Some {
        at(log, name, key_of(Encoding::Brotli), fallback)
    } else if accepted(headers, Encoding::Gzip) && at(log, name, key_of(Encoding::Gzip), fallback)
        is Some {
        at(log, name, key_of(Encoding::Gzip), fallback)
    } else {
        at(log, name, None, fallback)
    }
}

/// The first `j` characters of the path are a scope that the path lies
/// under: they end where a segment of the path ends, before or behind a `/`.
pub open spec fn boundary(path: Seq<char>, j: int) -> bool {
    &&& 0 <= j <= path.len()
    &&& (j < path.len() && path[j] == '/') || (j > 0 && path[j - 1] == '/')
}

/// The fallback for a path, among the scopes of at most `j` characters: that
/// of the longest scope that the path lies under and that has one.
pub open spec fn fallback_below(
    log: Seq<Step>,
    headers: Seq<(Seq<char>, Seq<char>)>,
    path: Seq<char>,
    j: int,
) -> Option<ResponseView>
    decreases j + 1,
{
    if j < 0 {
        None
    } else if boundary(path, j) && preferred(log, headers, path.take(j), true) is Some {
        preferred(log, headers, path.take(j), true)
    } else {
        fallback_below(log, headers, path, j - 1)
    }
}

/// The response selected for a path: the preferred one of those held under
/// the path itself, which covers aliases; where there is none, the preferred
/// fallback of the longest scope that the path lies under.
pub open spec fn selected(
    log: Seq<Step>,
    headers: Seq<(Seq<char>, Seq<char>)>,
    path: Seq<char>,
) -> Option<ResponseView> {
    match preferred(log, headers, path, false) {
        Some(response) => Some(response),
        None => fallback_below(log, headers, path, path.len() as int),
    }
}

/// The request is settled by the selection: it asks directly, and what is
/// selected for it, if anything, is short enough to be answered whole.
pub open spec fn settled(tree: TreeView, request: RequestView) -> bool {
    &&& direct(request.headers, normalized(request.url))
    &&& selected(tree.log, request.headers, normalized(request.url)) matches Some(response)
        ==> response.body.len() <= RANGE_SIZE
}

/// `result` is what a request comes to, on a tree and with the certificate
/// at hand.
///
/// A request that does not read finds nothing, unless the tree catches
/// every path.
///
/// A settled request gets the selected response. Where none is selected,
/// nothing is found, and no proof is asked for. Where one is, the result is
/// that very response with its proof appended as the last header; without a
/// certificate, or where the tree does not answer with that response, no
/// response at all.
///
/// Any other request (a path to decode, a range, a body answered in ranges)
/// gets the response that the tree picks, with its proof appended; nothing
/// found where it picks none, and no response without a certificate.
///
/// The proof itself is left open: it follows the shape of the tree.
pub open spec fn routed(
    tree: TreeView,
    request: RequestView,
    certificate: Option<Seq<u8>>,
    result: Result<ResponseView, ServeError>,
) -> bool {
    let path = normalized(request.url);
    let pick = picked(tree.log, path, request.headers);
    if !is_read(request.method) && !tree.catch_all {
        result == Err::<ResponseView, ServeError>(ServeError::NotFound)
    } else if settled(tree, request) {
        match selected(tree.log, request.headers, path) {
            None => result == Err::<ResponseView, ServeError>(ServeError::NotFound),
            Some(response) => match result {
                Ok(answer) => certificate is Some && ends_in_proof(answer) && without_last(answer)
                    == response,
                Err(error) => error == ServeError::ProofUnavailable && (certificate is None || pick
                    != Some(response)),
            },
        }
    } else {
        match pick {
            None => result == Err::<ResponseView, ServeError>(ServeError::NotFound),
            Some(response) => match certificate {
                None => result == Err::<ResponseView, ServeError>(ServeError::ProofUnavailable),
                Some(_) => result matches Ok(answer) && ends_in_proof(answer) && without_last(
                    answer,
                ) == response,
            },
        }
    }
}

pub open spec fn bytes_of(certificate: Option<Vec<u8>>) -> Option<Seq<u8>> {
    match certificate {
        Some(bytes) => Some(bytes@),
        None => None,
    }
}

pub open spec fn result_view(result: Result<Response, ServeError>) -> Result<
    ResponseView,
    ServeError,
> {
    match result {
        Ok(response) => Ok(response@),
        Err(error) => Err(error),
    }
}

/// Turns the tree's answer to a request with a certificate into the result
/// of the request.
pub fn conclude(answer: Option<Response>) -> (result: Result<Response, ServeError>)
    ensures
        result_view(result) == concluded(answer.deep_view()),
{
    match answer {
        Some(response) => {
            let n = response.headers.len();
            if n > 0 && response.headers[n - 1].0 == String::from_str("IC-Certificate") {
                assert(response@.headers.last() == response.headers@[n - 1].deep_view());
                Ok(response)
            } else {
                if n > 0 {
                    assert(response@.headers.last() == response.headers@[n - 1].deep_view());
                }
                Err(ServeError::ProofUnavailable)
            }
        },
        None => Err(ServeError::NotFound),
    }
}

/// Turns the tree's answer into the result of a request for which no
/// certificate is at hand: the response is withheld.
pub fn withhold(answer: Option<Response>) -> (result: Result<Response, ServeError>)
    ensures
        result_view(result) == unproved(answer.deep_view()),
{
    match answer {
        Some(_) => Err(ServeError::ProofUnavailable),
        None => Err(ServeError::NotFound),
    }
}

fn prefer(
    tree: &CertificationTree,
    headers: &Vec<(String, String)>,
    name: &String,
    fallback: bool,
) -> (found: Option<Response>)
    ensures
        found.deep_view() == preferred(tree@.log, headers.deep_view(), name@, fallback),
{
    if accepts(headers, Encoding::Brotli) {
        let brotli = tree.held(name, Encoding::Brotli, fallback);
        if brotli.is_some() {
            return brotli;
        }
    }
    if accepts(headers, Encoding::Gzip) {
        let gzip = tree.held(name, Encoding::Gzip, fallback);
        if gzip.is_some() {
            return gzip;
        }
    }
    tree.held(name, Encoding::Identity, fallback)
}

fn is_boundary(path: &str, j: usize) -> (yes: bool)
    requires
        j <= path@.len(),
    ensures
        yes == boundary(path@, j as int),
{
    let n = path.unicode_len();
    (j < n && path.get_char(j) == '/') || (j > 0 && path.get_char(j - 1) == '/')
}

/// Selects the response for a path: the preferred one held under the path,
/// else the preferred fallback of the longest scope that the path lies
/// under.
pub fn select(tree: &CertificationTree, headers: &Vec<(String, String)>, path: &String) -> (found:
    Option<Response>)
    ensures
        found.deep_view() == selected(tree@.log, headers.deep_view(), path@),
{
    let ghost log = tree@.log;
    let ghost hs = headers.deep_view();
    match prefer(tree, headers, path, false) {
        Some(response) => {
            return Some(response);
        },
        None => {},
    }
    let n = path.as_str().unicode_len();
    let mut j: usize = n;
    loop
        invariant_except_break
            j <= n,
            n == path@.len(),
            log == tree@.log,
            hs == headers.deep_view(),
            preferred(log, hs, path@, false) is None,
            fallback_below(log, hs, path@, n as int) == fallback_below(log, hs, path@, j as int),
        ensures
            fallback_below(log, hs, path@, n as int) is None,
        decreases j,
    {
        if is_boundary(path.as_str(), j) {
            let scope = String::from_str(path.as_str().substring_char(0, j));
            assert(scope@ =~= path@.take(j as int));
            match prefer(tree, headers, &scope, true) {
                Some(response) => {
                    assert(fallback_below(log, hs, path@, j as int) == Some(response@));
                    return Some(response);
                },
                None => {},
            }
        }
        assert(fallback_below(log, hs, path@, j as int) == fallback_below(log, hs, path@, j - 1));
        if j == 0 {
            assert(fallback_below(log, hs, path@, -1) is None);
            break;
        }
        j -= 1;
    }
    None
}

/// Whether `answer` is `response` with one header appended.
pub fn extends(answer: &Response, response: &Response) -> (yes: bool)
    ensures
        yes == (answer@.headers.len() > 0 && without_last(answer@) == response@),
{
    let n = answer.headers.len();
    let ghost all = answer.headers.deep_view();
    let ghost inner = response.headers.deep_view();
    if n == 0 {
        return false;
    }
    assert(all.drop_last().len() == n - 1);
    if n - 1 != response.headers.len() {
        assert(without_last(answer@).headers.len() != response@.headers.len());
        return false;
    }
    if answer.status_code != response.status_code || !same_bytes(&answer.body, &response.body) {
        return false;
    }
    let mut i: usize = 0;
    while i < n - 1
        invariant
            i <= n - 1,
            n == answer.headers.len(),
            n - 1 == response.headers.len(),
            all == answer.headers.deep_view(),
            inner == response.headers.deep_view(),
            forall|j: int| 0 <= j < i ==> all[j] == inner[j],
        decreases n - 1 - i,
    {
        assert(all[i as int] == answer.headers@[i as int].deep_view());
        assert(inner[i as int] == response.headers@[i as int].deep_view());
        if !(answer.headers[i].0 == response.headers[i].0 && answer.headers[i].1
            == response.headers[i].1) {
            assert(all.drop_last()[i as int] == all[i as int]);
            return false;
        }
        i += 1;
    }
    assert(all.drop_last() =~= inner);
    true
}

/// Answers a request from a tree.
pub fn route(request: &Request, tree: &CertificationTree, certificate: &Option<Vec<u8>>) -> (result:
    Result<Response, ServeError>)
    ensures
        routed(tree@, request@, bytes_of(*certificate), result_view(result)),
{
    if !reads(&request.method) && !tree.has_universal_fallback() {
        return Err(ServeError::NotFound);
    }
    let path = normalize(request.url.as_str());
    if is_direct(&request.headers, path.as_str()) {
        match select(tree, &request.headers, &path) {
            None => {
                return Err(ServeError::NotFound);
            },
            Some(response) => {
                if response.body.len() <= RANGE_SIZE {
                    return match certificate {
                        None => Err(ServeError::ProofUnavailable),
                        Some(bytes) => match tree.answer(bytes, &path, &request.headers) {
                            Some(answer) => {
                                if extends(&answer, &response) {
                                    Ok(answer)
                                } else {
                                    Err(ServeError::ProofUnavailable)
                                }
                            },
                            None => Err(ServeError::ProofUnavailable),
                        },
                    };
                }
            },
        }
    }
    match certificate {
        Some(bytes) => conclude(tree.answer(bytes, &path, &request.headers)),
        None => {
            let empty: Vec<u8> = Vec::new();
            withhold(tree.answer(&empty, &path, &request.headers))
        },
    }
}

} // verus!
