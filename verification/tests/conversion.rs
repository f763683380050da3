//! Integration tests across format boundaries with realistic inputs.

use convrs::error::FormatError;
use convrs::format::FileFormat;

// --- round trips: format A to B and back ---

#[test]
fn roundtrip_json_yaml() {
    let json = r#"{"name":"convrs","version":1}"#;

    let yaml = FileFormat::Json.convert(json, FileFormat::Yaml).expect("JSON \u{2192} YAML");
    assert!(yaml.contains("name") && yaml.contains("convrs"));

    let back = FileFormat::Yaml.convert(&yaml, FileFormat::Json).expect("YAML \u{2192} JSON");
    assert!(back.contains("convrs") && back.contains("version"));
}

#[test]
fn roundtrip_toml_json() {
    let toml_input = "title = \"Test\"\n\n[section]\nkey = \"value\"";

    let json = FileFormat::Toml.convert(toml_input, FileFormat::Json).expect("TOML \u{2192} JSON");
    assert!(json.contains("title") && json.contains("section"));

    let toml_back = FileFormat::Json.convert(&json, FileFormat::Toml).expect("JSON \u{2192} TOML");
    assert!(toml_back.contains("key") && toml_back.contains("value"));
}

#[test]
fn roundtrip_csv_json() {
    let csv = "name,age\nAlice,30\nBob,25";

    let json = FileFormat::Csv.convert(csv, FileFormat::Json).expect("CSV \u{2192} JSON");
    assert!(json.contains("Alice") && json.contains("Bob"));

    let csv_back = FileFormat::Json.convert(&json, FileFormat::Csv).expect("JSON \u{2192} CSV");
    assert!(csv_back.contains("name") && csv_back.contains("age"));
    assert!(csv_back.contains("Alice") && csv_back.contains("30"));
}

#[test]
fn roundtrip_yaml_toml() {
    let yaml = "title: Test\ncount: 10";

    let toml = FileFormat::Yaml.convert(yaml, FileFormat::Toml).expect("YAML \u{2192} TOML");
    assert!(toml.contains("title") && toml.contains("Test"));

    let yaml_back = FileFormat::Toml.convert(&toml, FileFormat::Yaml).expect("TOML \u{2192} YAML");
    assert!(yaml_back.contains("title") && yaml_back.contains("Test"));
}

// --- identity conversions ---

#[test]
fn identity_all_formats() {
    let json = r#"{"a":1}"#;
    let toml = "key = \"value\"";
    let yaml = "name: test";
    let csv = "a,b\n1,2";

    assert!(FileFormat::Json.convert(json, FileFormat::Json).is_ok());
    assert!(FileFormat::Toml.convert(toml, FileFormat::Toml).is_ok());
    assert!(FileFormat::Yaml.convert(yaml, FileFormat::Yaml).is_ok());
    assert!(FileFormat::Csv.convert(csv, FileFormat::Csv).is_ok());
}

#[test]
fn identity_json_pretty_prints() {
    let minified = r#"{"name":"Alice","age":30}"#;
    let result = FileFormat::Json.convert(minified, FileFormat::Json).unwrap();
    assert!(result.contains("  "));
    assert!(result.contains('\n'));
}

// --- format parsing ---

#[test]
fn parse_format_from_extension() {
    assert_eq!("json".parse::<FileFormat>().unwrap(), FileFormat::Json);
    assert_eq!("yaml".parse::<FileFormat>().unwrap(), FileFormat::Yaml);
    assert_eq!("yml".parse::<FileFormat>().unwrap(), FileFormat::Yaml);
    assert_eq!("toml".parse::<FileFormat>().unwrap(), FileFormat::Toml);
    assert_eq!("csv".parse::<FileFormat>().unwrap(), FileFormat::Csv);
}

#[test]
fn parse_format_case_insensitive() {
    assert_eq!("JSON".parse::<FileFormat>().unwrap(), FileFormat::Json);
    assert_eq!("Yaml".parse::<FileFormat>().unwrap(), FileFormat::Yaml);
    assert_eq!("TOML".parse::<FileFormat>().unwrap(), FileFormat::Toml);
}

#[test]
fn parse_format_unknown_fails() {
    assert!("xml".parse::<FileFormat>().is_err());
    assert!("html".parse::<FileFormat>().is_err());
    assert!("".parse::<FileFormat>().is_err());
}

// --- error handling ---

#[test]
fn invalid_json_returns_parse_error() {
    let result = FileFormat::Json.convert("not valid json {{{", FileFormat::Yaml);
    assert!(result.is_err());
    assert!(matches!(result.unwrap_err(), FormatError::ParseError(_)));
}

#[test]
fn invalid_toml_returns_parse_error() {
    let result = FileFormat::Toml.convert("not valid toml [ [ [", FileFormat::Json);
    assert!(result.is_err());
    assert!(matches!(result.unwrap_err(), FormatError::ParseError(_)));
}

#[test]
fn invalid_csv_empty_returns_parse_error() {
    let result = FileFormat::Csv.convert("", FileFormat::Json);
    assert!(result.is_err());
    assert!(matches!(result.unwrap_err(), FormatError::ParseError(_)));
}

// --- cross-format chains ---

#[test]
fn chain_csv_json_yaml_toml() {
    let csv = "name,age\nAlice,30";

    let json = FileFormat::Csv.convert(csv, FileFormat::Json).unwrap();
    assert!(json.contains("Alice"));

    let yaml = FileFormat::Json.convert(&json, FileFormat::Yaml).unwrap();
    assert!(yaml.contains("Alice"));

    let toml = FileFormat::Yaml.convert(&yaml, FileFormat::Toml).unwrap();
    assert!(toml.contains("Alice"));
}

// --- edge cases ---

#[test]
fn json_array_to_toml_wraps_in_data() {
    let input = r#"[{"x":1},{"x":2}]"#;
    let result = FileFormat::Json.convert(input, FileFormat::Toml).unwrap();
    assert!(result.contains("data"));
}

#[test]
fn nested_json_to_csv_flattens() {
    let input = "[{\"user\":{\"name\":\"Alice\",\"address\":{\"city\":\"Z\u{fc}rich\"}}}]";
    let result = FileFormat::Json.convert(input, FileFormat::Csv).unwrap();
    assert!(result.contains("user_name"));
    assert!(result.contains("user_address_city"));
    assert!(result.contains("Alice"));
    assert!(result.contains("Z\u{fc}rich"));
}
