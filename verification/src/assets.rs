//! The two entry points of the served site: certifying its assets under its
//! rule table, and answering a request from what was certified.

use crate::defaults::{default_rules, default_rules_spec};
use crate::model::{Asset, BuildError, Request, RequestView, Response, ResponseView, ServeError};
use crate::route::{bytes_of, result_view, route, routed};
use crate::tree::{build, outcome_of, CertificationTree, TreeView};
use crate::trusted::ends_in_proof;
use vstd::prelude::*;

verus! {

/// Builds the tree of the site: the assets under the site's own rule table.
/// The caller publishes the root digest of the tree it gets, and keeps the
/// tree for serving; after a failure it has nothing to publish or to serve.
pub fn certify_all_assets(assets: &Vec<Asset>) -> (built: Result<CertificationTree, BuildError>)
    ensures
        match built {
            Ok(tree) => outcome_of(assets.deep_view(), default_rules_spec(), Ok(tree@)),
            Err(error) => outcome_of(assets.deep_view(), default_rules_spec(), Err(error@)),
        },
{
    let rules = default_rules();
    build(assets, &rules)
}

pub open spec fn tree_view(state: Option<CertificationTree>) -> Option<TreeView> {
    match state {
        Some(tree) => Some(tree@),
        None => None,
    }
}

/// `result` is what a request comes to in a state of the site: before a
/// tree is built no proof can be had, afterwards the tree answers.
pub open spec fn answered(
    state: Option<TreeView>,
    request: RequestView,
    certificate: Option<Seq<u8>>,
    result: Result<ResponseView, ServeError>,
) -> bool {
    match state {
        None => result == Err::<ResponseView, ServeError>(ServeError::ProofUnavailable),
        Some(tree) => routed(tree, request, certificate, result),
    }
}

/// Answers a request from the tree that was built last, if any, with the
/// certificate of its published digest, if any. No response is ever passed
/// on without both.
pub fn serve_asset(
    state: &Option<CertificationTree>,
    request: &Request,
    certificate: &Option<Vec<u8>>,
) -> (result: Result<Response, ServeError>)
    ensures
        answered(tree_view(*state), request@, bytes_of(*certificate), result_view(result)),
        *state is None ==> result == Err::<Response, ServeError>(ServeError::ProofUnavailable),
        result matches Ok(response) ==> *state is Some && *certificate is Some && ends_in_proof(
            response@,
        ),
{
    match state {
        None => Err(ServeError::ProofUnavailable),
        Some(tree) => route(request, tree, certificate),
    }
}

} // verus!
