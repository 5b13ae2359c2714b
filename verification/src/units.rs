//! Closed unit vocabularies and their category comparison.

use vstd::prelude::*;

verus! {

#[derive(Debug, Clone, PartialEq, Eq, Structural, Copy)]
pub enum TemperatureUnit {
    Celsius,
    Fahrenheit,
    Kelvin,
}

#[derive(Debug, Clone, PartialEq, Eq, Structural, Copy)]
pub enum LengthUnit {
    Millimeters,
    Centimeters,
    Meters,
    Kilometers,
    Inch,
    Hand,
    Feet,
    Yard,
    Mile,
    League,
    Fathom,
    Cable,
    NauticalMile,
}

#[derive(Debug, Clone, PartialEq, Eq, Structural, Copy)]
pub enum WeightUnit {
    Milligrams,
    Centigrams,
    Grams,
    Kilograms,
    Tonne,
    Grain,
    Ounce,
    Quarter,
    Stone,
    Pound,
    Ton,
}

#[derive(Debug, Clone, PartialEq, Eq, Structural, Copy)]
pub enum CapacityUnit {
    Millimeters,
    Centiliters,
    Liters,
    Kiloliters,
    FluidOunce,
    Gill,
    Pint,
    Quart,
    Gallon,
}

#[derive(Debug, Clone, PartialEq, Eq, Structural, Copy)]
pub enum Unit {
    Temperature(TemperatureUnit),
    Length(LengthUnit),
    Weight(WeightUnit),
    Capacity(CapacityUnit),
}

pub open spec fn same_unit_type(a: Unit, b: Unit) -> bool {
    match (a, b) {
        (Unit::Temperature(_), Unit::Temperature(_)) => true,
        (Unit::Length(_), Unit::Length(_)) => true,
        (Unit::Weight(_), Unit::Weight(_)) => true,
        (Unit::Capacity(_), Unit::Capacity(_)) => true,
        _ => false,
    }
}

/// Whether the two units belong to the same category, whatever the units
/// themselves are.
pub fn are_unit_types_equal(a: Unit, b: Unit) -> (r: bool)
    ensures
        r == same_unit_type(a, b),
{
    match (a, b) {
        (Unit::Temperature(_), Unit::Temperature(_)) => true,
        (Unit::Length(_), Unit::Length(_)) => true,
        (Unit::Weight(_), Unit::Weight(_)) => true,
        (Unit::Capacity(_), Unit::Capacity(_)) => true,
        _ => false,
    }
}

} // verus!
