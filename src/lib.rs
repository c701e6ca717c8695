//! A passwordless authentication core: signed refresh and session tokens
//! carried in hardened cookies, a single-consumption store of ceremony
//! states, and the decisions of the registration and authentication
//! ceremonies around an outside ceremony engine.

pub mod ceremony;
pub mod content;
pub mod cookies;
pub mod payload;
pub mod session;
pub mod store;
pub mod token;
pub mod utils;
