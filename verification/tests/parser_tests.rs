use unitconvert::parser::{parse_conversion, UnitAbbreviation, UnitConversion};

fn parse_num(s: String) -> Option<u64> {
    s.parse::<f64>().ok().map(|v| v.to_bits())
}

fn abbrev(unit: &str, short: &str, unit_type: &str) -> UnitAbbreviation {
    UnitAbbreviation {
        unit: unit.to_owned(),
        abbrev: short.to_owned(),
        unit_type: unit_type.to_owned(),
    }
}

fn construct_unit_abbreviations() -> Vec<UnitAbbreviation> {
    vec![
        abbrev("Celsius", "C", "Temperature"),
        abbrev("Fahrenheit", "F", "Temperature"),
        abbrev("Millimeter", "mm", "Length"),
        abbrev("Megameter", "Mm", "Length"),
        abbrev("Kilometer", "km", "Length"),
        abbrev("NauticalMile", "nmi", "Length"),
    ]
}

#[test]
fn valid_temperature_conversion() {
    let input = "20C -> F";
    let abbreviations = construct_unit_abbreviations();

    let expected = UnitConversion {
        value: 20.0f64.to_bits(),
        from: "Celsius".to_string(),
        to: "Fahrenheit".to_string(),
        unit_type: "Temperature".to_string(),
    };
    let actual = parse_conversion(&abbreviations, input, &parse_num).unwrap();
    assert_eq!(expected, actual);
}

#[test]
fn invalid_unit() {
    let input = "20x -> F";
    let abbreviations = construct_unit_abbreviations();

    let actual = parse_conversion(&abbreviations, input, &parse_num);
    assert!(actual.is_err());
}

#[test]
fn invalid_unit_value() {
    let input = "C -> F";
    let abbreviations = construct_unit_abbreviations();

    let actual = parse_conversion(&abbreviations, input, &parse_num);
    assert!(actual.is_err());
}

#[test]
fn same_characters_different_case() {
    let input = "1Mm -> mm";
    let abbreviations = construct_unit_abbreviations();

    let expected = UnitConversion {
        value: 1.0f64.to_bits(),
        from: String::from("Megameter"),
        to: String::from("Millimeter"),
        unit_type: String::from("Length"),
    };
    let actual = parse_conversion(&abbreviations, input, &parse_num).unwrap();
    assert_eq!(expected, actual)
}

#[test]
fn e_notation() {
    let input = "1.079913e9km -> nmi";
    let abbreviations = construct_unit_abbreviations();

    let expected = UnitConversion {
        value: 1079913000.0f64.to_bits(),
        from: String::from("Kilometer"),
        to: String::from("NauticalMile"),
        unit_type: String::from("Length"),
    };
    let actual = parse_conversion(&abbreviations, input, &parse_num).unwrap();
    assert_eq!(expected, actual)
}

#[test]
fn spelled_arrow_word() {
    let input = "20C to F";
    let abbreviations = construct_unit_abbreviations();

    let actual = parse_conversion(&abbreviations, input, &parse_num).unwrap();
    assert_eq!(actual.from, "Celsius");
    assert_eq!(actual.to, "Fahrenheit");
}

#[test]
fn category_mismatch_is_rejected() {
    let input = "5km -> C";
    let abbreviations = construct_unit_abbreviations();

    let actual = parse_conversion(&abbreviations, input, &parse_num);
    assert_eq!(actual.unwrap_err().describe(), "Units are of different types");
}
