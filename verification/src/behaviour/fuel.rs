//! What the fuel counter and the fuel costs do.
use crate::fuel::{CustomFuelCosts, Fuel, FuelCosts, FuelCostsProvider, FuelError};
use crate::text;
use vstd::prelude::*;

verus! {

/// A new counter has no fuel left, and it meters fuel if and only if it is told to.
pub proof fn law_new(enabled: bool, costs: FuelCostsProvider)
    ensures
        forall|fuel: Fuel| #[trigger]
            call_ensures(Fuel::new, (enabled, costs), fuel) ==> {
                &&& fuel@.remaining == 0
                &&& fuel@.enabled == enabled
                &&& fuel@.costs == costs
            },
{
}

/// Setting the fuel succeeds exactly if fuel is metered. All of it is left then, and nothing else
/// changes.
pub proof fn law_set_fuel(amount: u64)
    ensures
        forall|fuel: &mut Fuel, result: Result<(), FuelError>| #[trigger]
            call_ensures(Fuel::set_fuel, (fuel, amount), result) ==> {
                &&& result is Ok <==> fuel@.enabled
                &&& result is Ok ==> final(fuel)@.remaining == amount
                &&& result matches Err(error) ==> {
                    &&& error is FuelMeteringDisabled
                    &&& final(fuel)@.remaining == fuel@.remaining
                }
                &&& final(fuel)@.enabled == fuel@.enabled
                &&& final(fuel)@.costs == fuel@.costs
            },
{
}

/// The fuel that is left can be read exactly if fuel is metered.
pub proof fn law_get_fuel(fuel: Fuel)
    ensures
        forall|result: Result<u64, FuelError>| #[trigger]
            call_ensures(Fuel::get_fuel, (&fuel,), result) ==> {
                &&& result is Ok <==> fuel@.enabled
                &&& result matches Ok(left) ==> left == fuel@.remaining
                &&& result matches Err(error) ==> error is FuelMeteringDisabled
            },
{
}

/// Reading the fuel after setting it yields the amount that was set.
pub proof fn law_get_after_set(amount: u64)
    ensures
        forall|fuel: &mut Fuel, set: Result<(), FuelError>, get: Result<u64, FuelError>|
            {
                &&& #[trigger] call_ensures(Fuel::set_fuel, (fuel, amount), set)
                &&& #[trigger] call_ensures(Fuel::get_fuel, (final(fuel),), get)
                &&& set is Ok
            } ==> get == Ok::<u64, FuelError>(amount),
{
}

/// Consuming succeeds exactly if there is enough fuel. It returns the fuel that is left after the
/// call, and together with the consumed amount this is the fuel from before the call. Nothing is
/// consumed otherwise, and the error names the amount that was required.
pub proof fn law_consume_fuel_unchecked(delta: u64)
    ensures
        forall|fuel: &mut Fuel, result: Result<u64, FuelError>| #[trigger]
            call_ensures(Fuel::consume_fuel_unchecked, (fuel, delta), result) ==> {
                &&& result is Ok <==> delta <= fuel@.remaining
                &&& result matches Ok(left) ==> {
                    &&& left == final(fuel)@.remaining
                    &&& left + delta == fuel@.remaining
                }
                &&& result matches Err(error) ==> {
                    &&& error matches FuelError::OutOfFuel { required_fuel }
                    &&& required_fuel == delta
                    &&& final(fuel)@.remaining == fuel@.remaining
                }
                &&& final(fuel)@.enabled == fuel@.enabled
                &&& final(fuel)@.costs == fuel@.costs
            },
{
}

/// Consuming the amount that `f` yields for the fuel costs does what consuming that amount does if
/// fuel is metered. It fails and consumes nothing otherwise.
pub proof fn law_consume_fuel<F: FnOnce(&FuelCostsProvider) -> u64>(f: F)
    ensures
        forall|fuel: &mut Fuel, result: Result<u64, FuelError>| #[trigger]
            call_ensures(Fuel::consume_fuel, (fuel, f), result) ==> {
                &&& fuel@.enabled ==> match result {
                    Ok(left) => {
                        let delta = fuel@.remaining - left;
                        &&& left == final(fuel)@.remaining
                        &&& 0 <= delta <= u64::MAX
                        &&& f.ensures((&fuel@.costs,), delta as u64)
                    },
                    Err(error) => {
                        &&& error matches FuelError::OutOfFuel { required_fuel }
                        &&& required_fuel > fuel@.remaining
                        &&& f.ensures((&fuel@.costs,), required_fuel)
                        &&& final(fuel)@.remaining == fuel@.remaining
                    },
                }
                &&& !fuel@.enabled ==> {
                    &&& result matches Err(error) && error is FuelMeteringDisabled
                    &&& final(fuel)@.remaining == fuel@.remaining
                }
                &&& final(fuel)@.enabled == fuel@.enabled
                &&& final(fuel)@.costs == fuel@.costs
            },
{
    assert forall|fuel: &mut Fuel, result: Result<u64, FuelError>| #[trigger]
        call_ensures(Fuel::consume_fuel, (fuel, f), result) && fuel@.enabled implies match result {
        Ok(left) => {
            let delta = fuel@.remaining - left;
            &&& left == final(fuel)@.remaining
            &&& 0 <= delta <= u64::MAX
            &&& f.ensures((&fuel@.costs,), delta as u64)
        },
        Err(error) => {
            &&& error matches FuelError::OutOfFuel { required_fuel }
            &&& required_fuel > fuel@.remaining
            &&& f.ensures((&fuel@.costs,), required_fuel)
            &&& final(fuel)@.remaining == fuel@.remaining
        },
    } by {
        let delta = choose|delta: u64|
            {
                &&& #[trigger] f.ensures((&fuel@.costs,), delta)
                &&& fuel@.is_consume_result(delta, result)
                &&& final(fuel)@ == fuel@.consumed(delta as nat)
            };
        if result is Ok {
            assert((fuel@.remaining - result->Ok_0) as u64 == delta);
        }
    }
}

/// Consuming the amount that `f` yields for the fuel costs, if fuel is metered, takes it from the
/// fuel that is left, or fails and takes nothing if there is too little. Nothing is consumed, and
/// nothing fails, if fuel is not metered.
pub proof fn law_consume_fuel_if<F: FnOnce(&FuelCostsProvider) -> u64>(f: F)
    ensures
        forall|fuel: &mut Fuel, result: Result<(), FuelError>| #[trigger]
            call_ensures(Fuel::consume_fuel_if, (fuel, f), result) ==> {
                &&& fuel@.enabled ==> match result {
                    Ok(()) => {
                        let delta = fuel@.remaining - final(fuel)@.remaining;
                        &&& 0 <= delta <= u64::MAX
                        &&& f.ensures((&fuel@.costs,), delta as u64)
                    },
                    Err(error) => {
                        &&& error matches FuelError::OutOfFuel { required_fuel }
                        &&& required_fuel > fuel@.remaining
                        &&& f.ensures((&fuel@.costs,), required_fuel)
                        &&& final(fuel)@.remaining == fuel@.remaining
                    },
                }
                &&& !fuel@.enabled ==> {
                    &&& result is Ok
                    &&& final(fuel)@.remaining == fuel@.remaining
                }
                &&& final(fuel)@.enabled == fuel@.enabled
                &&& final(fuel)@.costs == fuel@.costs
            },
{
    assert forall|fuel: &mut Fuel, result: Result<(), FuelError>| #[trigger]
        call_ensures(Fuel::consume_fuel_if, (fuel, f), result) && fuel@.enabled
            && result is Ok implies {
        let delta = fuel@.remaining - final(fuel)@.remaining;
        &&& 0 <= delta <= u64::MAX
        &&& f.ensures((&fuel@.costs,), delta as u64)
    } by {
        let delta = choose|delta: u64|
            {
                &&& #[trigger] f.ensures((&fuel@.costs,), delta)
                &&& result == (if delta <= fuel@.remaining {
                    Ok::<(), FuelError>(())
                } else {
                    Err(FuelError::OutOfFuel { required_fuel: delta })
                })
                &&& final(fuel)@ == fuel@.consumed(delta as nat)
            };
        assert((fuel@.remaining - final(fuel)@.remaining) as u64 == delta);
    }
}

/// Consuming two amounts one after another leaves what consuming their sum at once leaves.
pub proof fn law_consuming_twice_adds_up(first: u64, second: u64)
    requires
        first + second <= u64::MAX,
    ensures
        forall|
            fuel: &mut Fuel,
            again: &mut Fuel,
            once: &mut Fuel,
            a: Result<u64, FuelError>,
            b: Result<u64, FuelError>,
            c: Result<u64, FuelError>,
        |
            {
                &&& #[trigger] call_ensures(Fuel::consume_fuel_unchecked, (fuel, first), a)
                &&& #[trigger] call_ensures(Fuel::consume_fuel_unchecked, (again, second), b)
                &&& #[trigger] call_ensures(
                    Fuel::consume_fuel_unchecked,
                    (once, (first + second) as u64),
                    c,
                )
                &&& again@ == final(fuel)@
                &&& once@ == fuel@
                &&& c is Ok
            } ==> a is Ok && b == c && final(again)@ == final(once)@,
{
}

/// Custom fuel costs are those that they were made of, and the default fuel costs are fixed.
pub proof fn law_provider(custom: CustomFuelCosts)
    ensures
        forall|provider: FuelCostsProvider| #[trigger]
            call_ensures(FuelCostsProvider::custom, (custom,), provider) ==> {
                &&& provider@.bytes_copied_per_fuel == custom.bytes_copied_per_fuel
                &&& provider@.fuel_per_bytes_translated == custom.fuel_per_bytes_translated
                &&& provider@.fuel_per_bytes_validated == custom.fuel_per_bytes_validated
            },
        forall|provider: FuelCostsProvider| #[trigger]
            call_ensures(FuelCostsProvider::default, (), provider) ==> {
                &&& provider@.bytes_copied_per_fuel == 64
                &&& provider@.fuel_per_bytes_translated == 7
                &&& provider@.fuel_per_bytes_validated == 2
            },
        forall|provider: FuelCostsProvider, cloned: FuelCostsProvider| #[trigger]
            call_ensures(FuelCostsProvider::clone, (&provider,), cloned) ==> cloned == provider,
{
}

/// Each of the fuel costs is read as it is.
pub proof fn law_costs_are_read(provider: FuelCostsProvider, custom: CustomFuelCosts)
    ensures
        forall|bytes: u32| #[trigger]
            call_ensures(FuelCostsProvider::bytes_copied_per_fuel, (&provider,), bytes)
                ==> bytes == provider@.bytes_copied_per_fuel,
        forall|fuel: u32| #[trigger]
            call_ensures(FuelCostsProvider::fuel_per_bytes_translated, (&provider,), fuel)
                ==> fuel == provider@.fuel_per_bytes_translated,
        forall|fuel: u32| #[trigger]
            call_ensures(FuelCostsProvider::fuel_per_bytes_validated, (&provider,), fuel)
                ==> fuel == provider@.fuel_per_bytes_validated,
        forall|bytes: u32| #[trigger]
            call_ensures(<CustomFuelCosts as FuelCosts>::bytes_copied_per_fuel, (&custom,), bytes)
                ==> bytes == custom.bytes_copied_per_fuel,
        forall|fuel: u32| #[trigger]
            call_ensures(<CustomFuelCosts as FuelCosts>::fuel_per_bytes_translated, (&custom,), fuel)
                ==> fuel == custom.fuel_per_bytes_translated,
        forall|fuel: u32| #[trigger]
            call_ensures(<CustomFuelCosts as FuelCosts>::fuel_per_bytes_validated, (&custom,), fuel)
                ==> fuel == custom.fuel_per_bytes_validated,
{
}

/// Translating and validating cost the fuel per byte for every byte, or the largest amount of fuel
/// if that is more.
pub proof fn law_costs_per_byte(provider: FuelCostsProvider, len_bytes: u64)
    ensures
        forall|fuel: u64| #[trigger]
            call_ensures(
                FuelCostsProvider::fuel_for_translating_bytes,
                (&provider, len_bytes),
                fuel,
            ) ==> {
                let exact = len_bytes * provider@.fuel_per_bytes_translated;
                fuel == exact || exact > u64::MAX && fuel == u64::MAX
            },
        forall|fuel: u64| #[trigger]
            call_ensures(
                FuelCostsProvider::fuel_for_validating_bytes,
                (&provider, len_bytes),
                fuel,
            ) ==> {
                let exact = len_bytes * provider@.fuel_per_bytes_validated;
                fuel == exact || exact > u64::MAX && fuel == u64::MAX
            },
{
}

/// Copying costs a unit of fuel for every full batch of bytes that is copied per unit of fuel, and
/// the largest amount of fuel if no byte can be copied for a unit of fuel.
pub proof fn law_costs_of_copying(provider: FuelCostsProvider, len_bytes: u64)
    ensures
        forall|fuel: u64| #[trigger]
            call_ensures(FuelCostsProvider::fuel_for_copying_bytes, (&provider, len_bytes), fuel)
                ==> {
                let batch = provider@.bytes_copied_per_fuel;
                &&& batch == 0 ==> fuel == u64::MAX
                &&& batch > 0 ==> fuel * batch <= len_bytes < (fuel + 1) * batch
            },
{
    let batch = provider@.bytes_copied_per_fuel as int;
    let len = len_bytes as int;
    if batch > 0 {
        assert((len / batch) * batch <= len < (len / batch + 1) * batch) by (nonlinear_arith)
            requires
                batch > 0,
        ;
    }
}

/// Copying values costs what copying their bytes costs, and the largest amount of fuel if there are
/// too many bytes to count.
pub proof fn law_costs_of_copying_values<T>(provider: FuelCostsProvider, len_values: u64)
    ensures
        forall|fuel: u64| #[trigger]
            call_ensures(
                FuelCostsProvider::fuel_for_copying_values::<T>,
                (&provider, len_values),
                fuel,
            ) ==> {
                let batch = provider@.bytes_copied_per_fuel;
                let len_bytes = len_values * vstd::layout::size_of::<T>();
                &&& batch == 0 || len_bytes > u64::MAX ==> fuel == u64::MAX
                &&& batch > 0 && len_bytes <= u64::MAX ==> fuel * batch <= len_bytes < (fuel + 1)
                    * batch
            },
{
    let batch = provider@.bytes_copied_per_fuel as int;
    let len = len_values * vstd::layout::size_of::<T>();
    assert(len >= 0) by (nonlinear_arith)
        requires
            len == len_values * vstd::layout::size_of::<T>(),
            len_values >= 0,
            vstd::layout::size_of::<T>() >= 0,
    ;
    if batch > 0 {
        assert((len / batch) * batch <= len < (len / batch + 1) * batch) by (nonlinear_arith)
            requires
                batch > 0,
        ;
    }
}

/// The errors are what they are made for, and texts name the required fuel and the fuel costs.
pub proof fn law_errors_and_texts(error: FuelError, required: u64)
    ensures
        forall|made: FuelError| #[trigger]
            call_ensures(FuelError::fuel_metering_disabled, (), made)
                ==> made is FuelMeteringDisabled,
        forall|made: FuelError| #[trigger]
            call_ensures(FuelError::out_of_fuel, (required,), made) ==> {
                &&& made matches FuelError::OutOfFuel { required_fuel }
                &&& required_fuel == required
            },
        forall|cloned: FuelError| #[trigger]
            call_ensures(FuelError::clone, (&error,), cloned) ==> cloned == error,
        forall|message: String| #[trigger]
            call_ensures(FuelError::to_string, (&error,), message) ==> match error {
                FuelError::FuelMeteringDisabled => message@ == "fuel metering is disabled"@,
                FuelError::OutOfFuel { required_fuel } => message@ == "ouf of fuel. required="@
                    + text::decimal(required_fuel as nat),
            },
        forall|text: String, provider: FuelCostsProvider| #[trigger]
            call_ensures(FuelCostsProvider::to_debug_string, (&provider,), text) ==> text@
                == "FuelCostsProvider { bytes_copied_per_fuel: "@ + text::decimal(
                provider@.bytes_copied_per_fuel as nat,
            ) + ", fuel_per_bytes_translated: "@ + text::decimal(
                provider@.fuel_per_bytes_translated as nat,
            ) + ", fuel_per_bytes_validated: "@ + text::decimal(
                provider@.fuel_per_bytes_validated as nat,
            ) + " }"@,
{
}

/// Every call is admitted, whatever the arguments. Only `f` has to admit the fuel costs if fuel is
/// metered.
pub proof fn law_calls_are_admitted<T, F: FnOnce(&FuelCostsProvider) -> u64>(
    counter: Fuel,
    provider: FuelCostsProvider,
    amount: u64,
    enabled: bool,
    f: F,
)
    ensures
        call_requires(Fuel::new, (enabled, provider)),
        call_requires(Fuel::get_fuel, (&counter,)),
        forall|fuel: &mut Fuel| #[trigger] call_requires(Fuel::set_fuel, (fuel, amount)),
        forall|fuel: &mut Fuel| #[trigger]
            call_requires(Fuel::consume_fuel_unchecked, (fuel, amount)),
        forall|fuel: &mut Fuel|
            (fuel@.enabled ==> f.requires((&fuel@.costs,))) ==> #[trigger] call_requires(
                Fuel::consume_fuel,
                (fuel, f),
            ),
        forall|fuel: &mut Fuel|
            (fuel@.enabled ==> f.requires((&fuel@.costs,))) ==> #[trigger] call_requires(
                Fuel::consume_fuel_if,
                (fuel, f),
            ),
        call_requires(FuelCostsProvider::fuel_for_translating_bytes, (&provider, amount)),
        call_requires(FuelCostsProvider::fuel_for_validating_bytes, (&provider, amount)),
        call_requires(FuelCostsProvider::fuel_for_copying_bytes, (&provider, amount)),
        call_requires(FuelCostsProvider::fuel_for_copying_values::<T>, (&provider, amount)),
{
}

} // verus!
