//! Decoding of binary deltas: a target buffer rebuilt from a source buffer
//! and a stream of copy and insert commands.

pub mod error;
pub mod varint;
pub mod header;
pub mod command;
pub mod patcher;
pub mod laws;

pub use command::DeltaOp;
pub use error::DeltaError;
pub use header::DeltaHeader;
pub use patcher::{patch, DeltaPatcher};
