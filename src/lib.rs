//! A credential-validation library for token-review webhooks: it decides
//! whether a `principal:secret` bearer token names a known principal, and with
//! which groups, through an ordered chain of authenticators.

pub mod authenticators;
pub mod pipeline;
pub mod token_review;
