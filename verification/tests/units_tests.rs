use unitconvert::units::{are_unit_types_equal, CapacityUnit, TemperatureUnit, Unit};

#[test]
fn units_of_same_type_equal() {
    let a = Unit::Capacity(CapacityUnit::Liters);
    let b = Unit::Capacity(CapacityUnit::Kiloliters);

    assert!(are_unit_types_equal(a, b));
}

#[test]
fn units_of_different_types_equal() {
    let a = Unit::Capacity(CapacityUnit::Liters);
    let b = Unit::Temperature(TemperatureUnit::Celsius);

    assert!(!are_unit_types_equal(a, b));
}
