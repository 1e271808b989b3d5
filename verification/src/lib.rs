//! A small HTTP connection library: a request/response `Connection`, route
//! patterns with `:variable` captures, and the path grammar of the routing macro.

pub mod connection;
pub mod gumshoe;
pub mod route;
pub mod text;

