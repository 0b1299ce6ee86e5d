use dagger::dim::error::DimError;
use dagger::dim::formatter::{get_reference_unit_for_dimension, UnitPreferences};
use dagger::dim::types::{UnitParseResult, UnitValue};
use dagger::dim::validator::{
    check_unit_compatibility, compatibility_expression, dimensions, get_dimension,
    validate_dimension,
};
use dagger::schema::registry::PropertyMetadata;
use dagger::value::{Float, StringMap};

fn parsed(original: &str) -> UnitParseResult {
    UnitParseResult {
        value: Float::from_bits(1e7f64.to_bits()),
        base_unit: "Pa".to_string(),
        original: original.to_string(),
        formatted: None,
    }
}

#[test]
fn reference_units() {
    assert_eq!(
        get_reference_unit_for_dimension("pressure"),
        Some("Pa".to_string())
    );
    assert_eq!(
        get_reference_unit_for_dimension("flow_rate"),
        Some("m³/s".to_string())
    );
    assert_eq!(
        get_reference_unit_for_dimension("density"),
        Some("kg/m³".to_string())
    );
    assert_eq!(get_reference_unit_for_dimension("colour"), None);
    assert_eq!(
        dagger::dim::validator::get_reference_unit_for_dimension("area"),
        Some("1 m²")
    );
    assert_eq!(
        dagger::dim::validator::get_reference_unit_for_dimension("Area"),
        None
    );
    for name in dimensions() {
        assert!(get_reference_unit_for_dimension(name).is_some());
        assert!(dagger::dim::validator::get_reference_unit_for_dimension(name).is_some());
    }
}

#[test]
fn dimension_check() {
    assert_eq!(compatibility_expression("100 bar", "1 Pa"), "100 bar + 1 Pa");
    assert_eq!(check_unit_compatibility(true), Ok(true));
    assert_eq!(check_unit_compatibility(false), Ok(false));
    assert_eq!(validate_dimension(&parsed("100 bar"), "pressure", true), Ok(()));
    assert_eq!(
        validate_dimension(&parsed("100 bar"), "length", false),
        Err(DimError::ParseError(
            "Dimension mismatch: expected 'length', but parsed unit '100 bar' is not compatible with reference unit '1 m'"
                .to_string()
        ))
    );
    assert_eq!(
        validate_dimension(&parsed("100 bar"), "colour", true),
        Err(DimError::ParseError(
            "Unknown dimension type: colour".to_string()
        ))
    );
}

#[test]
fn first_compatible_dimension() {
    let mut answers = vec![false; 13];
    assert_eq!(get_dimension(&answers), None);
    answers[2] = true;
    answers[5] = true;
    assert_eq!(get_dimension(&answers), Some("temperature".to_string()));
    assert_eq!(get_dimension(&vec![true]), Some("pressure".to_string()));
    assert_eq!(get_dimension(&vec![]), None);
    let mut long = vec![false; 20];
    long[15] = true;
    assert_eq!(get_dimension(&long), None);
    assert_eq!(dimensions().len(), 13);
    assert_eq!(dimensions()[12], "density");
}

#[test]
fn unit_error_messages() {
    assert_eq!(DimError::WasmError("a".to_string()).message(), "WASM error: a");
    assert_eq!(DimError::ParseError("b".to_string()).message(), "Parse error: b");
    assert_eq!(
        DimError::ConversionError("c".to_string()).message(),
        "Conversion error: c"
    );
    assert_eq!(DimError::InvalidUnit("d".to_string()).message(), "Invalid unit: d");
}

fn map(pairs: &[(&str, &str)]) -> StringMap<String> {
    let mut m = StringMap::new();
    for (k, v) in pairs {
        m.insert(k.to_string(), v.to_string());
    }
    m
}

#[test]
fn preferred_unit_precedence() {
    let mut block_types = StringMap::new();
    block_types.insert("Pipe".to_string(), map(&[("pressure", "kPa"), ("length", "km")]));
    let preferences = UnitPreferences {
        query_overrides: map(&[("pressure", "psi")]),
        block_types,
        dimensions: map(&[("length", "mm"), ("temperature", "C")]),
        original_strings: StringMap::new(),
    };
    let metadata = |dimension: Option<&str>, unit: Option<&str>| PropertyMetadata {
        dimension: dimension.map(|s| s.to_string()),
        default_unit: unit.map(|s| s.to_string()),
        title: None,
    };
    let length = metadata(Some("length"), Some("m"));
    let temperature = metadata(Some("temperature"), Some("K"));
    let mass = metadata(Some("mass"), Some("kg"));
    let bare = metadata(None, None);
    let unit = |p: &str, t: Option<&str>, m: Option<&PropertyMetadata>| {
        preferences.preferred_unit_for(p, t, m).cloned()
    };
    assert_eq!(unit("pressure", Some("Pipe"), Some(&length)), Some("psi".to_string()));
    assert_eq!(unit("length", Some("Pipe"), Some(&length)), Some("km".to_string()));
    assert_eq!(unit("length", Some("Valve"), Some(&length)), Some("mm".to_string()));
    assert_eq!(unit("length", None, Some(&length)), Some("mm".to_string()));
    assert_eq!(unit("t", None, Some(&temperature)), Some("C".to_string()));
    assert_eq!(unit("m", Some("Pipe"), Some(&mass)), Some("kg".to_string()));
    assert_eq!(unit("m", Some("Pipe"), Some(&bare)), None);
    assert_eq!(unit("m", Some("Pipe"), None), None);
    let none = UnitPreferences::default();
    assert_eq!(none.preferred_unit_for("pressure", Some("Pipe"), None), None);
    assert_eq!(
        none.preferred_unit_for("pressure", None, Some(&length)),
        Some(&"m".to_string())
    );
}

#[test]
fn unit_values() {
    let value = UnitValue::Parsed(parsed("100 bar"));
    match value {
        UnitValue::Parsed(p) => assert_eq!(p.original, "100 bar"),
        UnitValue::Unparsed(_) => panic!("expected a parsed value"),
    }
    match UnitValue::Unparsed("x".to_string()) {
        UnitValue::Unparsed(s) => assert_eq!(s, "x"),
        UnitValue::Parsed(_) => panic!("expected an unparsed value"),
    }
}
