//! Verified core of a small microservice bootstrap: the account service's
//! e-mail validation, password hashing and mail composition, and the API
//! gateway's configuration, routing, load balancing and request rewriting.
pub mod text;
pub mod common;
pub mod hashing;
pub mod utils;
pub mod accounts;
pub mod gateway;
