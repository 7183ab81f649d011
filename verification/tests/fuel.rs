use op_encoder::fuel::{CustomFuelCosts, Fuel, FuelCosts, FuelCostsProvider, FuelError};

fn custom() -> CustomFuelCosts {
    CustomFuelCosts {
        bytes_copied_per_fuel: 10,
        fuel_per_bytes_translated: 3,
        fuel_per_bytes_validated: 5,
    }
}

#[test]
fn default_costs() {
    let costs = FuelCostsProvider::default();
    assert_eq!(costs.bytes_copied_per_fuel(), 64);
    assert_eq!(costs.fuel_per_bytes_translated(), 7);
    assert_eq!(costs.fuel_per_bytes_validated(), 2);
    assert_eq!(costs.fuel_for_translating_bytes(100), 700);
    assert_eq!(costs.fuel_for_validating_bytes(100), 200);
    assert_eq!(costs.fuel_for_copying_bytes(63), 0);
    assert_eq!(costs.fuel_for_copying_bytes(64), 1);
    assert_eq!(costs.fuel_for_copying_bytes(129), 2);
}

#[test]
fn custom_costs() {
    let costs = FuelCostsProvider::custom(custom());
    assert_eq!(costs.fuel_for_translating_bytes(7), 21);
    assert_eq!(costs.fuel_for_validating_bytes(7), 35);
    assert_eq!(costs.fuel_for_copying_bytes(109), 10);
    assert_eq!(costs.fuel_for_copying_values::<u64>(5), 4);
    assert_eq!(costs.fuel_for_copying_values::<u8>(5), 0);
    assert_eq!(costs.fuel_for_copying_values::<()>(u64::MAX), 0);
    let cloned = costs.clone();
    assert_eq!(cloned.fuel_for_translating_bytes(7), 21);
}

#[test]
fn costs_of_custom_fuel_costs() {
    let costs = custom();
    assert_eq!(FuelCosts::bytes_copied_per_fuel(&costs), 10);
    assert_eq!(FuelCosts::fuel_per_bytes_translated(&costs), 3);
    assert_eq!(FuelCosts::fuel_per_bytes_validated(&costs), 5);
}

#[test]
fn costs_saturate() {
    let costs = FuelCostsProvider::default();
    assert_eq!(costs.fuel_for_translating_bytes(u64::MAX), u64::MAX);
    assert_eq!(costs.fuel_for_validating_bytes(u64::MAX), u64::MAX);
    assert_eq!(costs.fuel_for_validating_bytes(u64::MAX / 2), u64::MAX - 1);
    assert_eq!(costs.fuel_for_copying_bytes(u64::MAX), u64::MAX / 64);
    assert_eq!(costs.fuel_for_copying_values::<u64>(u64::MAX / 8), (u64::MAX / 8) * 8 / 64);
    assert_eq!(costs.fuel_for_copying_values::<u64>(u64::MAX / 8 + 1), u64::MAX);
}

#[test]
fn copying_without_bytes_per_fuel() {
    let costs = FuelCostsProvider::custom(CustomFuelCosts {
        bytes_copied_per_fuel: 0,
        ..custom()
    });
    assert_eq!(costs.fuel_for_copying_bytes(0), u64::MAX);
    assert_eq!(costs.fuel_for_copying_bytes(1), u64::MAX);
    assert_eq!(costs.fuel_for_copying_values::<u32>(1), u64::MAX);
}

#[test]
fn costs_are_monotone() {
    let costs = FuelCostsProvider::custom(custom());
    for n in [0u64, 1, 9, 10, 11, 1000, u64::MAX - 1] {
        assert!(costs.fuel_for_translating_bytes(n) <= costs.fuel_for_translating_bytes(n + 1));
        assert!(costs.fuel_for_validating_bytes(n) <= costs.fuel_for_validating_bytes(n + 1));
        assert!(costs.fuel_for_copying_bytes(n) <= costs.fuel_for_copying_bytes(n + 1));
    }
}

#[test]
fn debug_string_of_costs() {
    assert_eq!(
        FuelCostsProvider::default().to_debug_string(),
        "FuelCostsProvider { bytes_copied_per_fuel: 64, fuel_per_bytes_translated: 7, \
         fuel_per_bytes_validated: 2 }"
    );
}

#[test]
fn set_and_get_fuel() {
    let mut fuel = Fuel::new(true, FuelCostsProvider::default());
    assert!(matches!(fuel.get_fuel(), Ok(0)));
    assert!(matches!(fuel.set_fuel(42), Ok(())));
    assert!(matches!(fuel.get_fuel(), Ok(42)));
}

#[test]
fn consume_fuel_until_empty() {
    let mut fuel = Fuel::new(true, FuelCostsProvider::default());
    assert!(matches!(fuel.set_fuel(10), Ok(())));
    assert!(matches!(fuel.consume_fuel_unchecked(4), Ok(6)));
    assert!(matches!(
        fuel.consume_fuel_unchecked(7),
        Err(FuelError::OutOfFuel { required_fuel: 7 })
    ));
    assert!(matches!(fuel.get_fuel(), Ok(6)));
    assert!(matches!(fuel.consume_fuel_unchecked(6), Ok(0)));
    assert!(matches!(fuel.consume_fuel_unchecked(0), Ok(0)));
    assert!(matches!(
        fuel.consume_fuel_unchecked(1),
        Err(FuelError::OutOfFuel { required_fuel: 1 })
    ));
}

#[test]
fn consuming_adds_up() {
    let mut a = Fuel::new(true, FuelCostsProvider::default());
    let mut b = Fuel::new(true, FuelCostsProvider::default());
    assert!(a.set_fuel(100).is_ok() && b.set_fuel(100).is_ok());
    assert!(a.consume_fuel_unchecked(30).is_ok() && a.consume_fuel_unchecked(12).is_ok());
    assert!(b.consume_fuel_unchecked(42).is_ok());
    assert!(matches!((a.get_fuel(), b.get_fuel()), (Ok(58), Ok(58))));
}

#[test]
fn consume_fuel_by_costs() {
    let mut fuel = Fuel::new(true, FuelCostsProvider::custom(custom()));
    assert!(fuel.set_fuel(20).is_ok());
    assert!(matches!(fuel.consume_fuel(|costs| costs.fuel_for_translating_bytes(2)), Ok(14)));
    assert!(fuel.consume_fuel_if(|costs| costs.fuel_for_validating_bytes(2)).is_ok());
    assert!(matches!(fuel.get_fuel(), Ok(4)));
    assert!(matches!(
        fuel.consume_fuel(|costs| costs.fuel_for_validating_bytes(1)),
        Err(FuelError::OutOfFuel { required_fuel: 5 })
    ));
    assert!(matches!(
        fuel.consume_fuel_if(|costs| costs.fuel_for_validating_bytes(3)),
        Err(FuelError::OutOfFuel { required_fuel: 15 })
    ));
    assert!(matches!(fuel.get_fuel(), Ok(4)));
}

#[test]
fn disabled_fuel_metering() {
    let mut fuel = Fuel::new(false, FuelCostsProvider::default());
    assert!(matches!(fuel.set_fuel(1), Err(FuelError::FuelMeteringDisabled)));
    assert!(matches!(fuel.get_fuel(), Err(FuelError::FuelMeteringDisabled)));
    assert!(matches!(fuel.consume_fuel(|_| 0), Err(FuelError::FuelMeteringDisabled)));
    assert!(matches!(fuel.consume_fuel_if(|_| 1), Ok(())));
    assert!(matches!(fuel.consume_fuel_unchecked(0), Ok(0)));
    assert!(matches!(
        fuel.consume_fuel_unchecked(1),
        Err(FuelError::OutOfFuel { required_fuel: 1 })
    ));
}

#[test]
fn fuel_error_messages() {
    assert_eq!(FuelError::fuel_metering_disabled().to_string(), "fuel metering is disabled");
    assert_eq!(FuelError::out_of_fuel(0).to_string(), "ouf of fuel. required=0");
    assert_eq!(FuelError::out_of_fuel(1207).clone().to_string(), "ouf of fuel. required=1207");
    assert_eq!(
        FuelError::out_of_fuel(u64::MAX).to_string(),
        "ouf of fuel. required=18446744073709551615"
    );
}
