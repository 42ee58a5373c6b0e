//! An address registry for an incremental blockchain scan.
//!
//! The registry holds the highest block height processed so far together with
//! the set of distinct account addresses seen up to that height. It can be
//! written to bytes and read back, and a small state machine drives it from
//! its current height to a target height, one block at a time.

pub mod address;
pub mod block;
pub mod codec;
pub mod error;
pub mod listing;
pub mod registry;
pub mod report;
pub mod run;
pub mod scanner;

pub use address::Address;
pub use block::{Block, Transaction};
pub use error::ScanError;
pub use registry::AddressBook;
pub use scanner::{Action, Event, ScanState, Scanner};
