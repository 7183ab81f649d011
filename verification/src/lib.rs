//! Fuel metering and the encoding of operators into one contiguous byte stream.
//!
//! - [`fuel`] counts fuel and knows the fuel costs of operations.
//! - [`encoder`] encodes the operators of a function, resolves their branches and relocates them
//!   to their final address. It builds on [`ops`], the buffer of encoded operators, and on
//!   [`labels`], the targets of branches.
//! - [`emit`] holds the sinks that items are encoded to, and [`ir`] the items.
//! - [`laws`] and [`session`] state what relates the operations of the encoder to each other and
//!   what every sequence of them keeps.
//! - [`behaviour`] states what each operation does, of every call of it.
#![allow(unused_imports)]

pub mod behaviour;
pub mod emit;
pub mod encoder;
pub mod engine;
pub mod fuel;
pub mod ir;
pub mod labels;
pub mod laws;
pub mod ops;
pub mod pos;
pub mod reuse;
pub mod session;
pub mod text;
pub mod word;
