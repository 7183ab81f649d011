//! Fuel metering and the fuel costs of operations.
use crate::text;
use core::mem;
use vstd::prelude::*;
use vstd::string::*;

verus! {

/// Fuel costs of operations.
pub trait FuelCosts {
    /// All fuel costs at once.
    spec fn all_costs(&self) -> CustomFuelCosts;

    /// Returns the amount of bytes that can be copied for a single unit of fuel.
    fn bytes_copied_per_fuel(&self) -> (bytes: u32)
        ensures
            bytes == self.all_costs().bytes_copied_per_fuel,
    ;

    /// Returns the amount of fuel required to translate one byte of bytecode.
    fn fuel_per_bytes_translated(&self) -> (fuel: u32)
        ensures
            fuel == self.all_costs().fuel_per_bytes_translated,
    ;

    /// Returns the amount of fuel required to validate one byte of bytecode.
    fn fuel_per_bytes_validated(&self) -> (fuel: u32)
        ensures
            fuel == self.all_costs().fuel_per_bytes_validated,
    ;
}

/// The default fuel costs.
struct DefaultFuelCosts;

/// The fuel costs that apply if there are no custom fuel costs.
pub open spec fn default_fuel_costs() -> CustomFuelCosts {
    CustomFuelCosts {
        bytes_copied_per_fuel: 64,
        fuel_per_bytes_translated: 7,
        fuel_per_bytes_validated: 2,
    }
}

impl FuelCosts for DefaultFuelCosts {
    open spec fn all_costs(&self) -> CustomFuelCosts {
        default_fuel_costs()
    }

    fn bytes_copied_per_fuel(&self) -> (bytes: u32) {
        64
    }

    fn fuel_per_bytes_translated(&self) -> (fuel: u32) {
        7
    }

    fn fuel_per_bytes_validated(&self) -> (fuel: u32) {
        2
    }
}

/// Custom fuel costs for dynamic fuel metering.
#[derive(Debug, Copy, Clone)]
pub struct CustomFuelCosts {
    /// The amount of bytes that can be copied for a single unit of fuel.
    pub bytes_copied_per_fuel: u32,
    /// The amount of fuel required to translate one byte of bytecode.
    pub fuel_per_bytes_translated: u32,
    /// The amount of fuel required to validate one byte of bytecode.
    pub fuel_per_bytes_validated: u32,
}

impl FuelCosts for CustomFuelCosts {
    open spec fn all_costs(&self) -> CustomFuelCosts {
        *self
    }

    fn bytes_copied_per_fuel(&self) -> (bytes: u32) {
        self.bytes_copied_per_fuel
    }

    fn fuel_per_bytes_translated(&self) -> (fuel: u32) {
        self.fuel_per_bytes_translated
    }

    fn fuel_per_bytes_validated(&self) -> (fuel: u32) {
        self.fuel_per_bytes_validated
    }
}

/// `value` or the largest amount of fuel if `value` is larger than that.
pub open spec fn saturated(value: nat) -> nat {
    if value <= u64::MAX {
        value
    } else {
        u64::MAX as nat
    }
}

/// Returns the product of `a` and `b`, or `u64::MAX` if it overflows.
fn saturating_mul(a: u64, b: u64) -> (product: u64)
    ensures
        product == saturated(a as nat * b as nat),
{
    match a.checked_mul(b) {
        Some(product) => product,
        None => u64::MAX,
    }
}

impl CustomFuelCosts {
    /// The fuel costs for translating `len_bytes` of bytecode.
    pub open spec fn translating(self, len_bytes: nat) -> nat {
        saturated(len_bytes * self.fuel_per_bytes_translated as nat)
    }

    /// The fuel costs for validating `len_bytes` of bytecode.
    pub open spec fn validating(self, len_bytes: nat) -> nat {
        saturated(len_bytes * self.fuel_per_bytes_validated as nat)
    }

    /// The fuel costs for copying `len_bytes`.
    pub open spec fn copying(self, len_bytes: nat) -> nat {
        if self.bytes_copied_per_fuel == 0 {
            u64::MAX as nat
        } else {
            len_bytes / self.bytes_copied_per_fuel as nat
        }
    }
}

/// Type storing all kinds of fuel costs of operations.
#[derive(Debug)]
pub struct FuelCostsProvider {
    /// Optional custom fuel costs.
    custom: Option<CustomFuelCosts>,
}

impl View for FuelCostsProvider {
    type V = CustomFuelCosts;

    closed spec fn view(&self) -> CustomFuelCosts {
        match self.custom {
            Some(costs) => costs,
            None => default_fuel_costs(),
        }
    }
}

impl Default for FuelCostsProvider {
    fn default() -> (provider: Self)
        ensures
            provider@ == default_fuel_costs(),
    {
        Self { custom: None }
    }
}

impl Clone for FuelCostsProvider {
    fn clone(&self) -> (provider: Self)
        ensures
            provider == *self,
    {
        Self { custom: self.custom }
    }
}

impl FuelCostsProvider {
    /// Creates a new [`FuelCostsProvider`] from the given [`CustomFuelCosts`].
    pub fn custom(custom: CustomFuelCosts) -> (provider: Self)
        ensures
            provider@ == custom,
    {
        Self { custom: Some(custom) }
    }

    /// Returns either the default or the custom fuel costs.
    fn get_costs(&self) -> (costs: CustomFuelCosts)
        ensures
            costs == self@,
    {
        match self.custom {
            Some(costs) => costs,
            None => CustomFuelCosts {
                bytes_copied_per_fuel: DefaultFuelCosts.bytes_copied_per_fuel(),
                fuel_per_bytes_translated: DefaultFuelCosts.fuel_per_bytes_translated(),
                fuel_per_bytes_validated: DefaultFuelCosts.fuel_per_bytes_validated(),
            },
        }
    }

    /// Returns the number of bytes that can be copied per unit of fuel.
    pub fn bytes_copied_per_fuel(&self) -> (bytes: u32)
        ensures
            bytes == self@.bytes_copied_per_fuel,
    {
        self.get_costs().bytes_copied_per_fuel()
    }

    /// Returns the amount of fuel required to translate one byte of bytecode.
    pub fn fuel_per_bytes_translated(&self) -> (fuel: u32)
        ensures
            fuel == self@.fuel_per_bytes_translated,
    {
        self.get_costs().fuel_per_bytes_translated()
    }

    /// Returns the amount of fuel required to validate one byte of bytecode.
    pub fn fuel_per_bytes_validated(&self) -> (fuel: u32)
        ensures
            fuel == self@.fuel_per_bytes_validated,
    {
        self.get_costs().fuel_per_bytes_validated()
    }

    /// Returns the amount of fuel required to translate `len_bytes` of bytecode.
    ///
    /// On overflow this returns [`u64::MAX`].
    pub fn fuel_for_translating_bytes(&self, len_bytes: u64) -> (fuel: u64)
        ensures
            fuel == self@.translating(len_bytes as nat),
    {
        let fuel_per_bytes: u32 = self.fuel_per_bytes_translated();
        saturating_mul(len_bytes, u64::from(fuel_per_bytes))
    }

    /// Returns the amount of fuel required to validate `len_bytes` of bytecode.
    ///
    /// On overflow this returns [`u64::MAX`].
    pub fn fuel_for_validating_bytes(&self, len_bytes: u64) -> (fuel: u64)
        ensures
            fuel == self@.validating(len_bytes as nat),
    {
        let fuel_per_bytes: u32 = self.fuel_per_bytes_validated();
        saturating_mul(len_bytes, u64::from(fuel_per_bytes))
    }

    /// Returns the fuel costs for `len_bytes` byte copies.
    ///
    /// If no bytes can be copied for a unit of fuel this returns [`u64::MAX`].
    pub fn fuel_for_copying_bytes(&self, len_bytes: u64) -> (fuel: u64)
        ensures
            fuel == self@.copying(len_bytes as nat),
    {
        let bytes_per_fuel: u32 = self.bytes_copied_per_fuel();
        if bytes_per_fuel == 0 {
            return u64::MAX;
        }
        len_bytes / u64::from(bytes_per_fuel)
    }

    /// Returns the fuel costs for copying `len_values` items of type `T`.
    ///
    /// On overflow this returns [`u64::MAX`].
    pub fn fuel_for_copying_values<T>(&self, len_values: u64) -> (fuel: u64)
        ensures
            ({
                let len_bytes = len_values as nat * vstd::layout::size_of::<T>();
                fuel == (if len_bytes <= u64::MAX {
                    self@.copying(len_bytes)
                } else {
                    u64::MAX as nat
                })
            }),
    {
        let bytes_per_value: u64 = mem::size_of::<T>() as u64;
        match len_values.checked_mul(bytes_per_value) {
            Some(len_bytes) => self.fuel_for_copying_bytes(len_bytes),
            None => u64::MAX,
        }
    }
}

/// An error that may be encountered when using [`Fuel`].
#[derive(Debug)]
pub enum FuelError {
    /// Returned by some [`Fuel`] methods when fuel metering is disabled.
    FuelMeteringDisabled,
    /// Raised when trying to consume more fuel than is available.
    OutOfFuel {
        /// The amount of fuel that was tried to consume.
        required_fuel: u64,
    },
}

impl Clone for FuelError {
    fn clone(&self) -> (error: Self)
        ensures
            error == *self,
    {
        match self {
            FuelError::FuelMeteringDisabled => FuelError::FuelMeteringDisabled,
            FuelError::OutOfFuel { required_fuel } => FuelError::OutOfFuel {
                required_fuel: *required_fuel,
            },
        }
    }
}

impl FuelError {
    /// Returns an error indicating that fuel metering has been disabled.
    pub fn fuel_metering_disabled() -> (error: Self)
        ensures
            error == FuelError::FuelMeteringDisabled,
    {
        Self::FuelMeteringDisabled
    }

    /// Returns an error indicating that too much fuel has been consumed.
    pub fn out_of_fuel(required_fuel: u64) -> (error: Self)
        ensures
            error == (FuelError::OutOfFuel { required_fuel }),
    {
        Self::OutOfFuel { required_fuel }
    }

    /// Returns the message of the error.
    pub fn to_string(&self) -> (message: String)
        ensures
            message@ == (match self {
                FuelError::FuelMeteringDisabled => "fuel metering is disabled"@,
                FuelError::OutOfFuel { required_fuel } => "ouf of fuel. required="@
                    + text::decimal(*required_fuel as nat),
            }),
    {
        match self {
            FuelError::FuelMeteringDisabled => "fuel metering is disabled".to_owned(),
            FuelError::OutOfFuel { required_fuel } => {
                let mut message = "ouf of fuel. required=".to_owned();
                message.append(text::to_decimal(*required_fuel).as_str());
                message
            },
        }
    }
}

impl FuelCostsProvider {
    /// Returns a description of the fuel costs for debugging.
    pub fn to_debug_string(&self) -> (description: String)
        ensures
            description@ == "FuelCostsProvider { bytes_copied_per_fuel: "@ + text::decimal(
                self@.bytes_copied_per_fuel as nat,
            ) + ", fuel_per_bytes_translated: "@ + text::decimal(
                self@.fuel_per_bytes_translated as nat,
            ) + ", fuel_per_bytes_validated: "@ + text::decimal(
                self@.fuel_per_bytes_validated as nat,
            ) + " }"@,
    {
        let bytes_per_fuel: u32 = self.bytes_copied_per_fuel();
        let fuel_per_bytes_translated: u32 = self.fuel_per_bytes_translated();
        let fuel_per_bytes_validated: u32 = self.fuel_per_bytes_validated();
        let mut description = "FuelCostsProvider { bytes_copied_per_fuel: ".to_owned();
        description.append(text::to_decimal(u64::from(bytes_per_fuel)).as_str());
        description.append(", fuel_per_bytes_translated: ");
        description.append(text::to_decimal(u64::from(fuel_per_bytes_translated)).as_str());
        description.append(", fuel_per_bytes_validated: ");
        description.append(text::to_decimal(u64::from(fuel_per_bytes_validated)).as_str());
        description.append(" }");
        description
    }
}

/// The remaining and consumed fuel counters.
#[derive(Debug)]
pub struct Fuel {
    /// The remaining fuel.
    remaining: u64,
    /// This is `true` if fuel metering is enabled.
    enabled: bool,
    /// The fuel costs.
    costs: FuelCostsProvider,
}

/// Model of [`Fuel`].
pub struct FuelState {
    /// The remaining fuel.
    pub remaining: nat,
    /// Whether fuel metering is enabled.
    pub enabled: bool,
    /// The fuel costs.
    pub costs: FuelCostsProvider,
}

impl View for Fuel {
    type V = FuelState;

    closed spec fn view(&self) -> FuelState {
        FuelState { remaining: self.remaining as nat, enabled: self.enabled, costs: self.costs }
    }
}

impl FuelState {
    /// The counters with `remaining` units of fuel left.
    pub open spec fn with_remaining(self, remaining: nat) -> Self {
        FuelState { remaining, ..self }
    }

    /// The counters after trying to consume `delta` units of fuel.
    ///
    /// Nothing is consumed if there is too little fuel left.
    pub open spec fn consumed(self, delta: nat) -> Self {
        if delta <= self.remaining {
            self.with_remaining((self.remaining - delta) as nat)
        } else {
            self
        }
    }

    /// Whether `result` is that of trying to consume `delta` units of fuel.
    pub open spec fn is_consume_result(self, delta: u64, result: Result<u64, FuelError>) -> bool {
        match result {
            Ok(remaining) => delta <= self.remaining && remaining == self.remaining - delta,
            Err(error) => delta > self.remaining && error == (FuelError::OutOfFuel {
                required_fuel: delta,
            }),
        }
    }
}

impl Fuel {
    /// Creates a new [`Fuel`].
    pub fn new(enabled: bool, costs: FuelCostsProvider) -> (fuel: Self)
        ensures
            fuel@ == (FuelState { remaining: 0, enabled, costs }),
    {
        Self { remaining: 0, enabled, costs }
    }

    /// Returns `true` if fuel metering is enabled.
    fn is_fuel_metering_enabled(&self) -> (enabled: bool)
        ensures
            enabled == self@.enabled,
    {
        self.enabled
    }

    /// Returns `Ok` if fuel metering is enabled.
    ///
    /// # Errors
    ///
    /// If fuel metering is disabled.
    fn check_fuel_metering_enabled(&self) -> (result: Result<(), FuelError>)
        ensures
            result == (if self@.enabled {
                Ok::<(), FuelError>(())
            } else {
                Err(FuelError::FuelMeteringDisabled)
            }),
    {
        if !self.is_fuel_metering_enabled() {
            return Err(FuelError::fuel_metering_disabled());
        }
        Ok(())
    }

    /// Sets the remaining fuel to `fuel`.
    ///
    /// # Errors
    ///
    /// If fuel metering is disabled.
    pub fn set_fuel(&mut self, fuel: u64) -> (result: Result<(), FuelError>)
        ensures
            if old(self)@.enabled {
                &&& result == Ok::<(), FuelError>(())
                &&& final(self)@ == old(self)@.with_remaining(fuel as nat)
            } else {
                &&& result == Err::<(), FuelError>(FuelError::FuelMeteringDisabled)
                &&& final(self)@ == old(self)@
            },
    {
        match self.check_fuel_metering_enabled() {
            Ok(()) => {
                self.remaining = fuel;
                Ok(())
            },
            Err(error) => Err(error),
        }
    }

    /// Returns the remaining fuel.
    ///
    /// # Errors
    ///
    /// If fuel metering is disabled.
    pub fn get_fuel(&self) -> (result: Result<u64, FuelError>)
        ensures
            match result {
                Ok(remaining) => self@.enabled && remaining == self@.remaining,
                Err(error) => !self@.enabled && error == FuelError::FuelMeteringDisabled,
            },
    {
        match self.check_fuel_metering_enabled() {
            Ok(()) => Ok(self.remaining),
            Err(error) => Err(error),
        }
    }

    /// Synthetically consumes an amount of [`Fuel`].
    ///
    /// Returns the remaining amount of [`Fuel`] after this operation.
    ///
    /// - This does _not_ check if fuel metering is enabled.
    /// - This API is intended for use cases where it is clear that fuel metering is enabled and
    ///   where a check would incur unnecessary overhead in a hot path. An example of this is the
    ///   execution of consume fuel instructions since those only exist if fuel metering is enabled.
    ///
    /// # Errors
    ///
    /// If out of fuel.
    pub fn consume_fuel_unchecked(&mut self, delta: u64) -> (result: Result<u64, FuelError>)
        ensures
            old(self)@.is_consume_result(delta, result),
            final(self)@ == old(self)@.consumed(delta as nat),
    {
        match self.remaining.checked_sub(delta) {
            Some(remaining) => {
                self.remaining = remaining;
                Ok(remaining)
            },
            None => Err(FuelError::out_of_fuel(delta)),
        }
    }

    /// Consumes an amount of [`Fuel`].
    ///
    /// Returns the remaining amount of [`Fuel`] after this operation.
    ///
    /// # Errors
    ///
    /// - If fuel metering is disabled.
    /// - If out of fuel.
    pub fn consume_fuel(&mut self, f: impl FnOnce(&FuelCostsProvider) -> u64) -> (result: Result<
        u64,
        FuelError,
    >)
        requires
            old(self)@.enabled ==> f.requires((&old(self)@.costs,)),
        ensures
            if old(self)@.enabled {
                exists|delta: u64|
                    {
                        &&& #[trigger] f.ensures((&old(self)@.costs,), delta)
                        &&& old(self)@.is_consume_result(delta, result)
                        &&& final(self)@ == old(self)@.consumed(delta as nat)
                    }
            } else {
                &&& result == Err::<u64, FuelError>(FuelError::FuelMeteringDisabled)
                &&& final(self)@ == old(self)@
            },
    {
        match self.check_fuel_metering_enabled() {
            Ok(()) => {
                let delta: u64 = f(&self.costs);
                self.consume_fuel_unchecked(delta)
            },
            Err(error) => Err(error),
        }
    }

    /// Consumes an amount of [`Fuel`] if fuel metering is enabled.
    ///
    /// This does nothing if fuel metering is disabled.
    ///
    /// # Errors
    ///
    /// - If out of fuel.
    pub fn consume_fuel_if(&mut self, f: impl FnOnce(&FuelCostsProvider) -> u64) -> (result: Result<
        (),
        FuelError,
    >)
        requires
            old(self)@.enabled ==> f.requires((&old(self)@.costs,)),
        ensures
            if old(self)@.enabled {
                exists|delta: u64|
                    {
                        &&& #[trigger] f.ensures((&old(self)@.costs,), delta)
                        &&& result == (if delta <= old(self)@.remaining {
                            Ok::<(), FuelError>(())
                        } else {
                            Err(FuelError::OutOfFuel { required_fuel: delta })
                        })
                        &&& final(self)@ == old(self)@.consumed(delta as nat)
                    }
            } else {
                &&& result == Ok::<(), FuelError>(())
                &&& final(self)@ == old(self)@
            },
    {
        if !self.is_fuel_metering_enabled() {
            return Ok(());
        }
        let delta: u64 = f(&self.costs);
        match self.consume_fuel_unchecked(delta) {
            Ok(_) => Ok(()),
            Err(error) => Err(error),
        }
    }
}

/// Consuming two amounts of fuel one after another is the same as consuming both at once.
pub proof fn law_consuming_adds_up(state: FuelState, first: nat, second: nat)
    requires
        first + second <= state.remaining,
    ensures
        state.consumed(first).consumed(second) == state.consumed(first + second),
        state.consumed(first + second).remaining + first + second == state.remaining,
{
}

/// Consuming fuel never increases the remaining fuel, and consuming too much changes nothing.
pub proof fn law_consuming_never_gains(state: FuelState, delta: nat)
    ensures
        state.consumed(delta).remaining <= state.remaining,
        delta > state.remaining ==> state.consumed(delta) == state,
        state.consumed(delta).enabled == state.enabled,
        state.consumed(delta).costs == state.costs,
{
}

/// Fuel costs do not decrease with the number of bytes and always fit into 64 bits.
pub proof fn law_costs_are_monotone(costs: CustomFuelCosts, fewer: nat, more: nat)
    requires
        fewer <= more <= u64::MAX,
    ensures
        costs.translating(fewer) <= costs.translating(more) <= u64::MAX,
        costs.validating(fewer) <= costs.validating(more) <= u64::MAX,
        costs.copying(fewer) <= costs.copying(more) <= u64::MAX,
{
    let t = costs.fuel_per_bytes_translated as nat;
    let v = costs.fuel_per_bytes_validated as nat;
    assert(fewer * t <= more * t && fewer * v <= more * v) by (nonlinear_arith)
        requires
            fewer <= more,
    ;
    if costs.bytes_copied_per_fuel != 0 {
        let c = costs.bytes_copied_per_fuel as nat;
        assert(fewer / c <= more / c && more / c <= more) by (nonlinear_arith)
            requires
                fewer <= more,
                c > 0,
        ;
    }
}

} // verus!
