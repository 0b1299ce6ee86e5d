use dagger::dim::detector::{looks_like_unit_string, unit_string_verdict};

#[test]
fn test_unit_detection() {
    assert!(looks_like_unit_string("100 bar"));
    assert!(looks_like_unit_string("10.5 m"));
    assert!(looks_like_unit_string("5 kg/s"));
    assert!(looks_like_unit_string("1e3 Pa"));
    assert!(looks_like_unit_string("-20 C"));
    assert!(looks_like_unit_string("100 kPa"));

    assert!(!looks_like_unit_string("100"));
    assert!(!looks_like_unit_string("bar"));
    assert!(!looks_like_unit_string("hello world"));
    assert!(!looks_like_unit_string(""));
}

#[test]
fn unit_detection_ignores_surrounding_whitespace() {
    assert!(looks_like_unit_string("  100 bar \n"));
    assert!(!looks_like_unit_string("   "));
    assert!(looks_like_unit_string("20 °C"));
    assert!(!looks_like_unit_string("x 100 bar"));
}

#[test]
fn unit_verdict_needs_text_and_a_match() {
    assert!(unit_string_verdict("100 bar", Some(true)));
    assert!(!unit_string_verdict("100 bar", Some(false)));
    assert!(!unit_string_verdict("100 bar", None));
    assert!(!unit_string_verdict("", Some(true)));
}
