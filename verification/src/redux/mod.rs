//! A composable, immutable state container.
//!
//! The state of an application is assembled out of independent slices
//! ([`slice`]); a [`store::Store`] holds the current state, feeds each
//! dispatched action through the reducer and then notifies its subscribers.

pub mod slice;
pub mod store;
