//! Uptime accrual and reward ledger for remote test agents.
//!
//! Every agent has three counters that only move forward: the uptime reported
//! for it, the part of that uptime that its owner has been told of, and the
//! part that has been redeemed. The store keeps them ordered
//! (`claimed <= notified <= raw`) and keeps the link between chats and agents
//! one to one.
//!
//! The collector adds reported uptime, the notifier turns whole accrual units
//! into notices, the claim processor turns notified units into reward
//! requests, and the binder links chats to agents. None of them sends or
//! fetches anything: the caller does, and hands back what came of it.
pub mod record;
pub mod schedule;
pub mod model;
pub mod store;
pub mod binder;
pub mod payload;
pub mod collector;
pub mod notifier;
pub mod claim;
pub mod command;
pub mod menu;
pub mod handler;
