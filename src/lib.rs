//! Recipe management service core: pagination, the recipe composer, the
//! reconciler that turns a requested recipe state into minimal writes, and
//! the account rules behind registration, login and password changes.
pub mod pagination;
pub mod models;
pub mod reconcile;
pub mod composer;
pub mod responses;
pub mod auth;
pub mod toggles;
pub mod recipes;
pub mod apidoc;
