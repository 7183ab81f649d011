//! What the operations of the library do, stated of every call.
//!
//! Each law speaks of all calls of an operation: of what goes in, what comes out, and what changes
//! and stays as it is.
pub mod emit;
pub mod encoder;
pub mod engine;
pub mod fuel;
pub mod ir;
pub mod labels;
pub mod ops;
pub mod pos;
pub mod text;
pub mod word;
