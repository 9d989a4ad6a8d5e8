//! The account service: its API description and its stored models.
use vstd::prelude::*;

pub mod models;

verus! {

/// The path under which the account endpoints are served.
pub const SUB_ROUTE: &'static str = "/accounts";

/// The OpenAPI description of the account endpoints.
#[derive(Debug)]
pub struct AccountsApiDoc;

} // verus!
