//! The engine configuration and the errors of translation.
use crate::ir::{BlockFuelOutOfBounds, Dispatch, OpCode};
use vstd::prelude::*;

verus! {

/// An error that may occur upon translating a function.
#[derive(Debug, Copy, Clone, PartialEq, Eq, Structural)]
pub enum TranslationError {
    /// The system has no more memory for the encoded operators.
    OutOfSystemMemory,
    /// The fuel of a block of operators is out of bounds.
    BlockFuelOutOfBounds,
}

/// An error of the engine.
#[derive(Debug, Copy, Clone, PartialEq, Eq, Structural)]
pub enum Error {
    /// Translation of a function failed.
    Translation(TranslationError),
}

impl From<TranslationError> for Error {
    fn from(error: TranslationError) -> (result: Self) {
        Self::Translation(error)
    }
}

impl vstd::std_specs::convert::FromSpecImpl<TranslationError> for Error {
    open spec fn obeys_from_spec() -> bool {
        true
    }

    open spec fn from_spec(error: TranslationError) -> Self {
        Error::Translation(error)
    }
}

impl From<BlockFuelOutOfBounds> for Error {
    fn from(_error: BlockFuelOutOfBounds) -> (result: Self) {
        Self::Translation(TranslationError::BlockFuelOutOfBounds)
    }
}

impl vstd::std_specs::convert::FromSpecImpl<BlockFuelOutOfBounds> for Error {
    open spec fn obeys_from_spec() -> bool {
        true
    }

    open spec fn from_spec(_error: BlockFuelOutOfBounds) -> Self {
        Error::Translation(TranslationError::BlockFuelOutOfBounds)
    }
}

/// The configuration of an [`Engine`].
#[derive(Debug, Copy, Clone, PartialEq, Eq, Structural)]
pub struct Config {
    /// This is `true` if fuel metering is enabled.
    pub consume_fuel: bool,
    /// The operator dispatch technique.
    pub dispatch: Dispatch,
}

impl Config {
    /// Returns `true` if fuel metering is enabled.
    pub fn get_consume_fuel(&self) -> (enabled: bool)
        ensures
            enabled == self.consume_fuel,
    {
        self.consume_fuel
    }

    /// Returns the operator dispatch technique.
    pub fn get_dispatch(&self) -> (dispatch: Dispatch)
        ensures
            dispatch == self.dispatch,
    {
        self.dispatch
    }
}

/// The engine that operators are encoded for.
#[derive(Debug, Copy, Clone, PartialEq, Eq, Structural)]
pub struct Engine {
    /// The configuration of the engine.
    pub config: Config,
    /// The op-code of the operator that consumes fuel.
    pub consume_fuel_code: OpCode,
}

impl Engine {
    /// Returns the configuration of the engine.
    pub fn config(&self) -> (config: &Config)
        ensures
            *config == self.config,
    {
        &self.config
    }
}

} // verus!
