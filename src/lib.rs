//! Session core of a local chat application: a day-partitioned conversation
//! store, the single-flight download slot, the active-model slot and the
//! cooperative inference session, each with a verified contract.

pub mod commands;
pub mod conversation;
pub mod date;
pub mod decimal;
pub mod error;
pub mod event;
pub mod history;
pub mod session;
pub mod slot;
pub mod store;
