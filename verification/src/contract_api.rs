//! What contracts are handed to reach the global state.
pub mod pointers;
