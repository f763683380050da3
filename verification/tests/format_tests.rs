//! Tests of the error type and the format tag.

use convrs::error::FormatError;
use convrs::format::FileFormat;
use convrs::formats::toml::toml_to_toml_string;

// --- FormatError message tests ---

#[test]
fn test_display_io_error() {
    let err = FormatError::IoError("file not found".to_string());
    assert_eq!(err.message(), "IO Error: file not found");
}

#[test]
fn test_display_parse_error() {
    let err = FormatError::ParseError("Invalid JSON".to_string());
    assert_eq!(err.message(), "Parse Error: Invalid JSON");
}

#[test]
fn test_display_serialization_error() {
    let err = FormatError::SerializationError("TOML error".to_string());
    assert_eq!(err.message(), "Serialization Error: TOML error");
}

#[test]
fn test_display_invalid_format() {
    let err = FormatError::InvalidFormat("xml".to_string());
    assert_eq!(err.message(), "Invalid Format: xml");
}

#[test]
fn test_display_unknown_error() {
    let err = FormatError::UnknownError("unexpected".to_string());
    assert_eq!(err.message(), "Unknown Error: unexpected");
}

#[test]
fn test_error_is_debug() {
    let err = FormatError::ParseError("test".to_string());
    let debug_str = format!("{:?}", err);
    assert!(debug_str.contains("ParseError"));
}

// --- FromStr tests ---

#[test]
fn test_from_str_lowercase() {
    assert_eq!("json".parse::<FileFormat>().unwrap(), FileFormat::Json);
    assert_eq!("toml".parse::<FileFormat>().unwrap(), FileFormat::Toml);
    assert_eq!("yaml".parse::<FileFormat>().unwrap(), FileFormat::Yaml);
    assert_eq!("csv".parse::<FileFormat>().unwrap(), FileFormat::Csv);
}

#[test]
fn test_from_str_uppercase() {
    assert_eq!("JSON".parse::<FileFormat>().unwrap(), FileFormat::Json);
    assert_eq!("YAML".parse::<FileFormat>().unwrap(), FileFormat::Yaml);
    assert_eq!("CSV".parse::<FileFormat>().unwrap(), FileFormat::Csv);
}

#[test]
fn test_from_str_yml_alias() {
    assert_eq!("yml".parse::<FileFormat>().unwrap(), FileFormat::Yaml);
    assert_eq!("YML".parse::<FileFormat>().unwrap(), FileFormat::Yaml);
}

#[test]
fn test_from_str_unknown_format() {
    let err = "xml".parse::<FileFormat>().unwrap_err();
    assert!(matches!(err, FormatError::ParseError(_)));
    assert!(err.message().contains("Unknown format"));
}

#[test]
fn test_from_str() {
    assert_eq!("json".parse::<FileFormat>().unwrap(), FileFormat::Json);
    assert_eq!("YAML".parse::<FileFormat>().unwrap(), FileFormat::Yaml);
    assert_eq!("yml".parse::<FileFormat>().unwrap(), FileFormat::Yaml);
    assert_eq!("toml".parse::<FileFormat>().unwrap(), FileFormat::Toml);
    assert_eq!("CSV".parse::<FileFormat>().unwrap(), FileFormat::Csv);
}

// --- as_str / extension tests ---

#[test]
fn test_as_str() {
    assert_eq!(FileFormat::Json.as_str(), "json");
    assert_eq!(FileFormat::Toml.as_str(), "toml");
    assert_eq!(FileFormat::Yaml.as_str(), "yaml");
    assert_eq!(FileFormat::Csv.as_str(), "csv");
}

#[test]
fn format_test_as_str() {
    assert_eq!(FileFormat::Json.as_str(), "json");
    assert_eq!(FileFormat::Toml.as_str(), "toml");
    assert_eq!(FileFormat::Yaml.as_str(), "yaml");
    assert_eq!(FileFormat::Csv.as_str(), "csv");
}

#[test]
fn test_extension() {
    assert_eq!(FileFormat::Json.extension(), "json");
    assert_eq!(FileFormat::Yaml.extension(), "yaml");
}

#[test]
fn test_display() {
    assert_eq!(FileFormat::Json.as_str(), "json");
    assert_eq!(FileFormat::Csv.as_str(), "csv");
}

// --- convert() tests ---

#[test]
fn test_convert_json_to_json() {
    let input = r#"{"name":"Test","value":42}"#;
    let result = FileFormat::Json.convert(input, FileFormat::Json).unwrap();
    assert!(result.contains("\"name\""));
    assert!(result.contains("42"));
}

#[test]
fn test_convert_json_to_yaml() {
    let input = r#"{"name":"Test","value":42}"#;
    let result = FileFormat::Json.convert(input, FileFormat::Yaml).unwrap();
    assert!(result.contains("name"));
    assert!(result.contains("42"));
}

#[test]
fn test_convert_json_to_toml() {
    let input = r#"{"title":"Hello","count":10}"#;
    let result = FileFormat::Json.convert(input, FileFormat::Toml).unwrap();
    assert!(result.contains("title"));
    assert!(result.contains("Hello"));
}

#[test]
fn test_convert_json_to_csv() {
    let input = r#"[{"name":"Alice","age":"30"}]"#;
    let result = FileFormat::Json.convert(input, FileFormat::Csv).unwrap();
    assert!(result.contains("name"));
    assert!(result.contains("Alice"));
}

#[test]
fn test_convert_toml_to_json() {
    let input = "title = \"Hello\"\ncount = 10";
    let result = FileFormat::Toml.convert(input, FileFormat::Json).unwrap();
    assert!(result.contains("title") && result.contains("Hello"));
}

#[test]
fn test_convert_csv_to_json() {
    let input = "name,age\nAlice,30\nBob,25";
    let result = FileFormat::Csv.convert(input, FileFormat::Json).unwrap();
    assert!(result.contains("Alice") && result.contains("30"));
}

#[test]
fn test_convert_invalid_json_fails() {
    let result = FileFormat::Json.convert("{ broken json ", FileFormat::Yaml);
    assert!(result.is_err());
    assert!(matches!(result.unwrap_err(), FormatError::ParseError(_)));
}

#[test]
fn test_convert_invalid_toml_fails() {
    let result = FileFormat::Toml.convert("not valid toml [ [ [", FileFormat::Json);
    assert!(result.is_err());
    assert!(matches!(result.unwrap_err(), FormatError::ParseError(_)));
}

#[test]
fn test_convert_all_identity() {
    assert!(FileFormat::Json.convert(r#"{"a":1}"#, FileFormat::Json).is_ok());
    assert!(FileFormat::Toml.convert("key = \"value\"", FileFormat::Toml).is_ok());
    assert!(FileFormat::Yaml.convert("name: test", FileFormat::Yaml).is_ok());
    assert!(FileFormat::Csv.convert("a,b\n1,2", FileFormat::Csv).is_ok());
}

#[test]
fn test_convert() {
    let json_input = r#"{"name":"Test","value":42}"#;
    let result = FileFormat::Json.convert(json_input, FileFormat::Json);
    assert!(result.is_ok());
}

#[test]
fn test_toml_to_toml_pretty() {
    let input = "title=\"Hello\"\ncount=10";
    let result = toml_to_toml_string(input).unwrap();
    assert!(result.contains("title"));
    assert!(result.contains("= "));
}
