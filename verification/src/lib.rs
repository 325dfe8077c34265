//! Account-based trading venue core: order matching, position accounting,
//! a bounded event ring buffer, and fixed-layout binary records, with the
//! instruction dispatcher that sequences them.
//!
//! Every record is a fixed-width byte layout; the processor receives the
//! record buffers, ownership flags, and the current clock values from its
//! host environment and never performs I/O itself.

pub mod codec;
pub mod error;
pub mod instruction;
pub mod matching;
pub mod oracle;
pub mod processor;
pub mod queue;
pub mod state;
