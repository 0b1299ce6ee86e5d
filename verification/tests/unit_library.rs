use dagger::dim::processor::{UnitProcessor, UnitReading};
use dagger::dim::types::UnitParseResult;
use dagger::dim::validator::{
    check_unit_compatibility, dimensions, get_dimension, validate_dimension,
};
use dagger::value::{Float, StringMap, TomlValue};

/// A processor that knows what the unit library reads from `100 bar`.
fn processor_with_library() -> UnitProcessor {
    let mut readings = StringMap::new();
    readings.insert(
        "100 bar".to_string(),
        UnitReading {
            value: Float::from_bits(1e7f64.to_bits()),
            dimensions: vec!["pressure".to_string()],
        },
    );
    UnitProcessor::with_readings(readings)
}

fn parsed(original: &str, value: f64, base_unit: &str) -> UnitParseResult {
    UnitParseResult {
        value: Float::from_bits(value.to_bits()),
        base_unit: base_unit.to_string(),
        original: original.to_string(),
        formatted: None,
    }
}

/// What the unit library answers when asked whether `text` is of each kind
/// of quantity, for the texts of these tests.
fn kinds_of(text: &str) -> Vec<bool> {
    let kind = match text {
        "100 bar" | "10 psi" => "pressure",
        "10 m" | "5 km" => "length",
        "20 C" => "temperature",
        _ => "",
    };
    dimensions().into_iter().map(|d| d == kind).collect()
}

fn compatible(text: &str, dimension: &str) -> bool {
    let answers = kinds_of(text);
    dimensions()
        .into_iter()
        .position(|d| d == dimension)
        .map(|i| answers[i])
        .unwrap_or(false)
}

#[test]
fn test_process_simple_unit_string() {
    for processor in [UnitProcessor::new(), processor_with_library()] {
        let value = TomlValue::String("100 bar".to_string());

        let result = processor.process_value(&value);
        match result {
            Ok(TomlValue::Float(_)) => {}
            Ok(TomlValue::String(s)) => {
                assert_eq!(s, "100 bar");
            }
            _ => panic!("Unexpected result type"),
        }
    }
}

#[test]
fn test_process_non_unit_string() {
    for processor in [UnitProcessor::new(), processor_with_library()] {
        let value = TomlValue::String("not a unit".to_string());

        let result = processor.process_value(&value).unwrap();
        assert!(matches!(result, TomlValue::String(s) if s == "not a unit"));
    }
}

#[test]
fn test_process_array() {
    for processor in [UnitProcessor::new(), processor_with_library()] {
        let value = TomlValue::Array(vec![
            TomlValue::String("100 bar".to_string()),
            TomlValue::String("not a unit".to_string()),
            TomlValue::Integer(42),
        ]);

        let result = processor.process_value(&value).unwrap();
        assert!(matches!(result, TomlValue::Array(_)));
    }
}

#[test]
fn test_process_table() {
    for processor in [UnitProcessor::new(), processor_with_library()] {
        let table = vec![
            (
                "pressure".to_string(),
                TomlValue::String("100 bar".to_string()),
            ),
            ("name".to_string(), TomlValue::String("test".to_string())),
        ];
        let value = TomlValue::Table(table);

        let result = processor.process_value(&value).unwrap();
        if let TomlValue::Table(t) = result {
            let contains_key = |key: &str| t.iter().any(|(k, _)| k == key);
            assert!(contains_key("pressure") || contains_key("_pressure_original"));
            assert!(contains_key("name"));
        } else {
            panic!("Expected Table");
        }
    }
}

#[test]
fn test_check_unit_compatibility() {
    assert!(check_unit_compatibility(compatible("100 bar", "pressure")).unwrap());
    assert!(check_unit_compatibility(compatible("10 psi", "pressure")).unwrap());

    assert!(check_unit_compatibility(compatible("10 m", "length")).unwrap());
    assert!(check_unit_compatibility(compatible("5 km", "length")).unwrap());

    assert!(!check_unit_compatibility(compatible("100 bar", "length")).unwrap());
    assert!(!check_unit_compatibility(compatible("10 m", "pressure")).unwrap());
}

#[test]
fn test_validate_dimension() {
    let result = parsed("100 bar", 1e7, "Pa");

    assert!(validate_dimension(&result, "pressure", compatible("100 bar", "pressure")).is_ok());

    assert!(validate_dimension(&result, "length", compatible("100 bar", "length")).is_err());
}

#[test]
fn test_get_dimension() {
    assert_eq!(
        get_dimension(&kinds_of("100 bar")),
        Some("pressure".to_string())
    );

    assert_eq!(get_dimension(&kinds_of("10 m")), Some("length".to_string()));

    assert_eq!(
        get_dimension(&kinds_of("20 C")),
        Some("temperature".to_string())
    );
}
