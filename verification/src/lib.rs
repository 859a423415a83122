//! A shared, multi-author todo list whose state is a signed, mergeable
//! replicated value, together with the request handling of the private
//! per-task notes store and the pure parts of the browser client.

pub mod crypto;
pub mod todo;
pub mod laws;
pub mod contract;
pub mod text;
pub mod base58;
pub mod delegate;
pub mod client;
