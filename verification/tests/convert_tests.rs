use unitconvert::builder::{ConversionDefinition, ConversionValueDefinition, UnitConverterBuilder};
use unitconvert::converter::UnitConverter;
use unitconvert::numeric::NumericOp;
use unitconvert::parser::UnitAbbreviation;

fn apply(op: NumericOp, a: u64, b: u64) -> u64 {
    let x = f64::from_bits(a);
    let y = f64::from_bits(b);
    match op {
        NumericOp::Add => (x + y).to_bits(),
        NumericOp::Sub => (x - y).to_bits(),
        NumericOp::Mul => (x * y).to_bits(),
        NumericOp::Div => (x / y).to_bits(),
        NumericOp::Rem => (x % y).to_bits(),
        NumericOp::Pow => x.powf(y).to_bits(),
        NumericOp::Neg => (-x).to_bits(),
        NumericOp::Sin => x.sin().to_bits(),
        NumericOp::Cos => x.cos().to_bits(),
        NumericOp::Tan => x.tan().to_bits(),
        NumericOp::MaxStep => {
            if y > x {
                b
            } else {
                a
            }
        },
        NumericOp::MinStep => {
            if y < x {
                b
            } else {
                a
            }
        },
    }
}

fn parse_num(s: String) -> Option<u64> {
    s.parse::<f64>().ok().map(|v| v.to_bits())
}

fn abbrev(unit: &str, short: &str, unit_type: &str) -> UnitAbbreviation {
    UnitAbbreviation {
        unit: unit.to_owned(),
        abbrev: short.to_owned(),
        unit_type: unit_type.to_owned(),
    }
}

fn multiplier(category: &str, from: &str, to: &str, x: f64) -> ConversionDefinition {
    ConversionDefinition {
        category: category.to_owned(),
        from: from.to_owned(),
        to: to.to_owned(),
        val: ConversionValueDefinition::Multiplier(x.to_bits()),
    }
}

fn formula(category: &str, from: &str, to: &str, text: &str) -> ConversionDefinition {
    ConversionDefinition {
        category: category.to_owned(),
        from: from.to_owned(),
        to: to.to_owned(),
        val: ConversionValueDefinition::Expression(text.to_owned()),
    }
}

fn setup() -> UnitConverter {
    let units = vec![
        abbrev("Kilometers", "km", "Length"),
        abbrev("Meters", "m", "Length"),
        abbrev("NauticalMiles", "nmi", "Length"),
        abbrev("Celsius", "C", "Temperature"),
        abbrev("Fahrenheit", "F", "Temperature"),
    ];
    let conversions = vec![
        multiplier("Length", "Kilometers", "Meters", 1000.0),
        multiplier("Length", "Meters", "NauticalMiles", 1.0 / 1852.0),
        formula("Temperature", "Celsius", "Fahrenheit", "{C} * 1.8 + 32"),
        formula("Temperature", "Fahrenheit", "Celsius", "({F} - 32) / 1.8"),
    ];

    UnitConverterBuilder::new()
        .cache_results(true)
        .add_unit_definitions(units)
        .add_base_conversions(conversions)
        .build(&apply, &parse_num)
        .unwrap()
}

fn convert(converter: &mut UnitConverter, input: &str) -> f64 {
    let outcome = converter.convert_from_expression(input, &apply, &parse_num);
    assert!(outcome.is_ok(), "Returned error {:?}", outcome.err().map(|e| e.describe()));
    f64::from_bits(outcome.unwrap().value)
}

#[test]
fn chained_conversion_with_caching_is_transparent() {
    let mut converter = setup();

    // First run composes two multiplier hops and memoizes the product;
    // the second run takes the cached direct edge.
    let first = convert(&mut converter, "2km -> nmi");
    assert_eq!(first, 1.0799136069114472);
    let second = convert(&mut converter, "2km -> nmi");
    assert_eq!(first.to_bits(), second.to_bits());
}

#[test]
fn chained_conversion_equals_product_of_multipliers() {
    let mut converter = setup();

    let result = convert(&mut converter, "2km -> nmi");
    let product: f64 = 2.0 * ((1.0 * 1000.0) * (1.0 / 1852.0));
    assert_eq!(result.to_bits(), product.to_bits());
}

#[test]
fn celsius_to_fahrenheit() {
    let mut converter = setup();
    assert_eq!(convert(&mut converter, "20C -> F"), 68.0);
}

#[test]
fn fahrenheit_to_celsius() {
    let mut converter = setup();
    assert_eq!(convert(&mut converter, "100F -> C"), 37.77777777777778);
}

#[test]
fn temperature_conversion_is_not_cached() {
    let mut converter = setup();
    let first = convert(&mut converter, "20C -> F");
    let second = convert(&mut converter, "20C -> F");
    assert_eq!(first.to_bits(), second.to_bits());
}

#[test]
fn category_mismatch_rejection() {
    let mut converter = setup();
    let outcome = converter.convert_from_expression("5km -> C", &apply, &parse_num);
    assert_eq!(outcome.unwrap_err().describe(), "Units are of different types");
}

#[test]
fn unknown_unit_is_reported() {
    let mut converter = setup();
    let outcome = converter.convert_from_expression("5zz -> km", &apply, &parse_num);
    assert_eq!(outcome.unwrap_err().describe(), "'zz' is not a valid unit");
}

#[test]
fn no_path_between_units() {
    let units = vec![abbrev("Meters", "m", "Length"), abbrev("Kilometers", "km", "Length")];
    // An edge only from kilometers to meters: the reverse direction has
    // no path.
    let conversions = vec![multiplier("Length", "Kilometers", "Meters", 1000.0)];
    let mut converter = UnitConverterBuilder::new()
        .add_unit_definitions(units)
        .add_base_conversions(conversions)
        .build(&apply, &parse_num)
        .unwrap();

    let outcome = converter.convert_from_expression("5m -> km", &apply, &parse_num);
    assert_eq!(outcome.unwrap_err().describe(), "Unable to find conversion");
}

#[test]
fn auto_reverse_creates_reciprocal_edges() {
    let units = vec![abbrev("Meters", "m", "Length"), abbrev("Kilometers", "km", "Length")];
    let conversions = vec![multiplier("Length", "Kilometers", "Meters", 1000.0)];
    let mut converter = UnitConverterBuilder::new()
        .reverse_base_conversions(true)
        .add_unit_definitions(units)
        .add_base_conversions(conversions)
        .build(&apply, &parse_num)
        .unwrap();

    assert_eq!(convert(&mut converter, "5m -> km"), 0.005);
}

#[test]
fn unit_info_resolves_case_insensitively() {
    let converter = setup();
    let info = converter.unit_info("kilometers").unwrap();
    assert_eq!(info.unit, "Kilometers");
    assert_eq!(info.abbrev, "km");
    assert_eq!(info.unit_type, "Length");
}

#[test]
fn same_unit_conversion_keeps_value() {
    let mut converter = setup();
    assert_eq!(convert(&mut converter, "7km -> km"), 7.0);
}
