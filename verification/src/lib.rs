//! Persistence and polling-scheduler core for a desktop automation tool.
//!
//! The crate holds the durable-store logic for agents, their audit logs and
//! event handlers (`store`), the timestamp ordering that the store's read
//! contracts are stated over (`order`), the clock and timestamp parsing
//! (`clock`), and the poller that decides which handlers are due (`poller`).

pub mod clock;
pub mod order;
pub mod poller;
pub mod store;
