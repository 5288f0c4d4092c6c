//! A ledger of time-gated breeding processes over paired parent assets.
//!
//! Each record is opened by its owner, matures after a configured duration,
//! and becomes eligible for a one-time settlement. The crate holds the
//! domain core — configuration, identifier allocation, the per-record state
//! machine, and the paginated query layer — as verified code over explicit
//! state. The host envelope (message decoding, storage, identity
//! resolution, message dispatch) stays outside and drives this core with
//! plain values.

pub mod contract;
pub mod error;
pub mod msg;
pub mod state;
