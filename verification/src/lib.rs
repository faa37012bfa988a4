//! A request-interception filter core and its event-counting protocol.
//!
//! The filter side classifies a request by its trigger headers, decides the
//! response action, and produces a counting event for a shared queue. The
//! consumer side drains those events and keeps one persistent counter per
//! event kind in a versioned key-value store, updated by compare-and-swap.
//! Everything that computes or decides lives here; host integration (the
//! proxy runtime's callbacks, queues and store) stays outside the library.

pub mod action;
pub mod bytes;
pub mod counter;
pub mod filter;
pub mod json;
pub mod store;
