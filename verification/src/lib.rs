//! Decision-and-aggregation pipeline for task-completion notifications.
//!
//! One event is emitted per executed shell command; the library decides
//! whether it is worth surfacing, whether it should be merged with other
//! recent events into a single batched notification, and when a batch is
//! ready to flush.  The batch state survives across independent process
//! invocations, so it is modelled here as a value that the surrounding
//! application loads from and stores to durable storage; the encoding of
//! that value is part of the library and proved invertible.

pub mod aggregator;
pub mod codec;
pub mod config;
pub mod dispatch;
pub mod integration;
pub mod notification;
pub mod path_manager;
pub mod platform;
pub mod policy;
pub mod text;
