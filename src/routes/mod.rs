//! The decisions behind the two HTTP routes.
pub mod prompt;
pub mod webhooks;
