//! A left-right guarded value: two copies of one value, one that readers see
//! and one that the single writer changes. Operations are appended to a batch
//! and made visible all at once by swapping the copies; each operation is
//! applied once to each copy, the second time a publish later.
//!
//! Waiting for readers to leave a copy cannot be bounded, so it is offered as
//! a pass (`WriteHandle::poll_readers`) that a caller repeats; every step that
//! changes a copy requires that the last pass found all readers gone.

pub mod absorb;
pub mod registry;
pub mod write;

pub use crate::absorb::{Absorb, CounterAddOp};
pub use crate::registry::Epochs;
pub use crate::write::{Taken, WriteHandle};
