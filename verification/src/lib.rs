//! Keys and values of the global state of a virtual machine, the rights that
//! a reference to the state carries, and the binary encoding of all of them.
//!
//! The encoding is canonical: a value has one encoding, the encoding delimits
//! itself, and decoding accepts nothing else. All of it is pure computation
//! on values; there is no I/O and no shared state.
pub mod bytesrepr;
pub mod contract_api;
pub mod key;
pub mod value;
