//! Blogging backend core: posts, their version history ("drafts"), the
//! publish state machine, the audit substrate every record carries, and the
//! session-token and person records built on the same store.
pub mod db;
pub mod errors;
pub mod middleware;
pub mod models;
pub mod repos;
pub mod services;
pub mod utils;
