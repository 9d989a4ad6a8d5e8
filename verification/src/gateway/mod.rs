//! The API gateway: configuration, backend addresses, routes and the
//! per-request decisions of the reverse proxy.
pub mod config;
pub mod url;
pub mod route;
pub mod proxy;
