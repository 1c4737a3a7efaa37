//! A certified static-content server core. It plans which responses a rule
//! table yields for an asset store, has them certified in a hash tree whose
//! root digest is to be published, and answers read requests with a response
//! and its proof of inclusion.
//!
//! - [`model`]: assets, rules, entries, requests, responses, errors.
//! - [`rules`]: which rule governs an asset.
//! - [`plan`]: checking a rule table and planning the entries of a build.
//! - [`store`]: encoded variants, what is handed to the tree, conflicts.
//! - [`tree`]: building the certification tree, and what a built tree holds.
//! - [`negotiate`]: which encodings a request accepts, and whether it asks
//!   directly.
//! - [`route`]: normalizing a URL, selecting the response, and answering a
//!   request from a tree.
//! - [`assets`]: the site's own rule table applied: build and serve.
//! - [`defaults`]: the site's rule table.
//! - [`transfer`]: deciding a token transfer.
//! - [`laws`]: what holds of every build and every built tree.
//! - [`trusted`]: what is taken on trust from the crates that are called.
//! - [`copy`], [`texts`]: copies and comparisons of the plain values.

pub mod assets;
pub mod copy;
pub mod defaults;
pub mod laws;
pub mod model;
pub mod negotiate;
pub mod plan;
pub mod route;
pub mod rules;
pub mod store;
pub mod texts;
pub mod transfer;
pub mod tree;
pub mod trusted;
