//! A generic and parallel test case reducer.

pub mod error;
pub mod score;
pub mod test_case;
pub mod traits;
pub mod interesting;
pub mod reducers;
pub mod oracle;
pub mod actors;
pub mod queue;
pub mod options;
pub mod ipc;

pub use crate::options::Options;
pub mod range_order;
pub mod ranges;
pub mod script_ranges;
pub mod lines;
pub mod finders;
pub mod script;
pub mod line_chunks;
pub mod clex;
pub mod topformflat;
pub mod clang_format;
pub mod clang_delta;
