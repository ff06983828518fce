use scribble::opts::{parse_output_type, OutputType};

#[test]
fn parse_output_type_defaults_to_vtt() {
    assert!(matches!(parse_output_type(None), Ok(OutputType::Vtt)));
}

#[test]
fn parse_output_type_accepts_known_values_case_insensitively() {
    assert!(matches!(parse_output_type(Some(" json ")), Ok(OutputType::Json)));
    assert!(matches!(parse_output_type(Some("VTT")), Ok(OutputType::Vtt)));
}

#[test]
fn parse_output_type_rejects_unknown_value() {
    let err = parse_output_type(Some("nope")).unwrap_err();
    assert!(err.message().contains("unknown output type"));
}
