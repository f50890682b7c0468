//! Parameter sweeps and differential evolution over build recipes.
//!
//! The crate holds the decisions of the driver: how an axis expression is
//! read, in which order the product of the axes is walked, how a trial vector
//! is crossed, which candidates survive a generation and when a trial may
//! start. Processes, files and binary64 arithmetic belong to the caller, which
//! hands their results in as plain values.

pub mod chance;
pub mod de;
pub mod float;
pub mod log;
pub mod map;
pub mod matching;
pub mod message;
pub mod metric;
pub mod number;
pub mod options;
pub mod pool;
pub mod read;
pub mod supervisor;
pub mod tee;
pub mod text;
pub mod util;
pub mod value;
