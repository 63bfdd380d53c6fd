//! Gmail: message payload handling, outgoing message composition and the
//! OAuth token rules.
pub mod client;
pub mod auth;
pub mod routes;
