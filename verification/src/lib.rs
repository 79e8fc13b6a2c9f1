//! Session-authenticated chat relay core.
//!
//! The connection core of a real-time chat relay: a shared cache of valid
//! session tokens, a bounded broadcast fanout, the per-message
//! authenticate/persist/publish pipeline of a connection, and the periodic
//! reconciliation of the cache against the durable session store.
//!
//! Network and database plumbing live outside this crate; the functions here
//! take the results of those calls as plain values and decide everything else.

pub mod api;
pub mod bus;
pub mod cache;
pub mod handler;
pub mod login;
pub mod message;
pub mod recon;
pub mod wire;
