//! The reduction state of reducer scripts that apply a `clang_delta`
//! transformation.

pub use crate::script::{ClangDelta, ClangDeltaReducer};
