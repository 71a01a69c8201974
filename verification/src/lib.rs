//! Core logic of the open-in-browser desktop helper.
//!
//! The helper runs a small HTTP service on `localhost`. A request carries a
//! list of shell-style command lines and a JWT in the `x-openinbrowser-auth`
//! header; every command line is split into words, checked against a
//! blacklist of dangerous executables and arguments, and only then spawned.
//!
//! This crate holds the decisions of that service, each with its contract:
//! * `text`    - character-level string helpers (search, replace, join)
//! * `config`  - the persisted configuration and how an update is applied
//! * `error`   - the application's error values and their messages
//! * `utils`   - parsing and blacklist checking of command lines, and the
//!               report on spawned commands
//! * `auth`    - the JWT check of a request
//! * `client`  - what the HTTP handlers answer
//! * `tray`    - what the tray menu does for a clicked item

pub mod text;
pub mod config;
pub mod error;
pub mod utils;
pub mod auth;
pub mod client;
pub mod tray;
