//! What the configuration of the engine and the errors of translation are.
use crate::engine::{Config, Engine, Error, TranslationError};
use crate::ir::{BlockFuelOutOfBounds, Dispatch};
use vstd::prelude::*;

verus! {

/// The configuration is read as it is.
pub proof fn law_config(engine: Engine, config: Config)
    ensures
        forall|read: &Config| #[trigger]
            call_ensures(Engine::config, (&engine,), read) ==> *read == engine.config,
        forall|enabled: bool| #[trigger]
            call_ensures(Config::get_consume_fuel, (&config,), enabled) ==> enabled
                == config.consume_fuel,
        forall|dispatch: Dispatch| #[trigger]
            call_ensures(Config::get_dispatch, (&config,), dispatch) ==> dispatch
                == config.dispatch,
{
}

/// An error of translation is kept, and fuel that is out of bounds is such an error.
pub proof fn law_errors(error: TranslationError, out_of_bounds: BlockFuelOutOfBounds)
    ensures
        forall|converted: Error| #[trigger]
            call_ensures(<Error as From<TranslationError>>::from, (error,), converted) ==> (
            converted matches Error::Translation(kept) && kept == error),
        forall|converted: Error| #[trigger]
            call_ensures(<Error as From<BlockFuelOutOfBounds>>::from, (out_of_bounds,), converted)
                ==> converted == Error::Translation(TranslationError::BlockFuelOutOfBounds),
{
}

} // verus!
