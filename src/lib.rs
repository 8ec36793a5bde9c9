//! A local secret vault: named secrets sealed under a key derived from a
//! master password, session tokens that stand in for the password for a
//! bounded time, and a resolver that turns variable templates into shell
//! exports.
pub mod auth;
pub mod commands;
pub mod crypto;
pub mod db;
pub mod error;
pub mod renv;
pub mod rotation;
pub mod secret;
pub mod session;
pub mod shell_type;
pub mod store;
pub mod text;
pub mod user;
