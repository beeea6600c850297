//! Verified core of a small HTTP file server: path rules, authorization,
//! the file cache, response construction and request routing.
use vstd::prelude::*;

pub mod authenticator;
pub mod cache;
pub mod cli;
pub mod http;
pub mod listing;
pub mod paths;
pub mod server;
pub mod text;

verus! {

} // verus!
