//! Keeps a tray menu in line with the proxy groups of a remote proxy server.
//!
//! The library holds the decisions: how two states of the groups differ,
//! which commands bring the menu from one to the other, what the menu shows,
//! and which menu events ask for a proxy to be selected. Fetching, waiting
//! and drawing are left to the caller.

pub mod order;
pub mod model;
pub mod diff;
pub mod store;
pub mod reconcile;
pub mod menu;
pub mod event;
