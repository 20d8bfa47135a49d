//! A unification layer over cryptocurrency exchange streaming APIs.
//!
//! The crate normalizes one exchange's wire protocol into a single
//! notification stream: order-book deltas, public trades, and the lifecycle
//! of the caller's own orders. Prices and sizes are held as exact integer
//! tick counts, wire frames are decoded by a verified parser, and the
//! protocol state machine that dispatches decoded frames is specified and
//! proved down to the notifications it emits.

pub mod auth;
pub mod digits;
pub mod errors;
pub mod frame;
pub mod handler;
pub mod json;
pub mod registry;
pub mod tick;
pub mod timestamp;
pub mod types;
