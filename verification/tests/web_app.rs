//! Tests of the front-end helpers, the shell state, and the library's
//! cross-conversion properties on concrete inputs.

use convrs::app::App;
use convrs::format::FileFormat;
use convrs::web::extract_error_line;
use convrs::web::is_syntax_error;
use convrs::web::perform_conversion;

// --- front-end conversion ---

#[test]
fn test_perform_conversion_json_to_yaml() {
    let result = perform_conversion(r#"{"name":"Test"}"#, "json", "yaml");
    assert!(result.is_ok());
    assert!(result.unwrap().contains("name"));
}

#[test]
fn test_perform_conversion_invalid_format() {
    let result = perform_conversion("{}", "xml", "json");
    assert!(result.is_err());
    assert!(result.unwrap_err().contains("Invalid input format"));
}

// --- syntax-error heuristic ---

#[test]
fn test_is_syntax_error_real_error() {
    assert!(is_syntax_error("Parse Error: Invalid JSON: line 31 column 5"));
}

#[test]
fn test_is_syntax_error_format_mismatch() {
    assert!(!is_syntax_error("Parse Error: Invalid JSON: line 1 column 3"));
}

#[test]
fn test_is_syntax_error_non_parse() {
    assert!(!is_syntax_error("IO Error: file not found"));
}

#[test]
fn test_extract_error_line() {
    assert_eq!(extract_error_line("Parse Error: Invalid JSON: line 31 column 5"), Some(31));
}

#[test]
fn test_extract_error_line_no_match() {
    assert_eq!(extract_error_line("IO Error: something"), None);
}

// --- shell state ---

#[test]
fn app_detects_formats_from_paths() {
    let mut app = App::new();
    assert_eq!(app.input_format, 0);
    app.set_input_file("data/input.CSV".to_string());
    assert_eq!(app.input_format, 3);
    app.set_output_file("out.yml".to_string());
    assert_eq!(app.output_format, 2);
    assert!(app.status.contains("CSV"));
    assert!(app.status.contains("YAML"));
}

#[test]
fn app_converts_text_between_chosen_formats() {
    let mut app = App::new();
    app.set_input_file("in.json".to_string());
    app.set_output_file("out.yaml".to_string());
    let out = app.convert(r#"{"name":"Test"}"#).unwrap();
    assert!(out.contains("name"));
    assert!(app.status.contains("JSON"));
    assert!(app.status.contains("YAML"));
}

#[test]
fn app_requires_both_files() {
    let mut app = App::new();
    let r = app.convert("{}");
    assert!(r.is_err());
    assert_eq!(r.unwrap_err().message(), "Serialization Error: Keine Eingabedatei");
}

// --- identity conversions stabilize after one application ---

#[test]
fn identity_json_idempotent() {
    let first = FileFormat::Json.convert(r#"{"b":2,"a":1}"#, FileFormat::Json).unwrap();
    let second = FileFormat::Json.convert(&first, FileFormat::Json).unwrap();
    assert_eq!(first, second);
}

#[test]
fn identity_yaml_idempotent() {
    let first = FileFormat::Yaml.convert("name: test\ncount: 3", FileFormat::Yaml).unwrap();
    let second = FileFormat::Yaml.convert(&first, FileFormat::Yaml).unwrap();
    assert_eq!(first, second);
}

#[test]
fn identity_toml_idempotent() {
    let first = FileFormat::Toml.convert("b = 2\n[a]\nc = \"x\"", FileFormat::Toml).unwrap();
    let second = FileFormat::Toml.convert(&first, FileFormat::Toml).unwrap();
    assert_eq!(first, second);
}

#[test]
fn identity_csv_idempotent() {
    let first = FileFormat::Csv.convert("name,age\nAlice,30\nBob,25", FileFormat::Csv).unwrap();
    let second = FileFormat::Csv.convert(&first, FileFormat::Csv).unwrap();
    assert_eq!(first, second);
}

// --- exact outputs: the canonical renderings pin the writers down ---

#[test]
fn json_pretty_exact_and_sorted() {
    let out = FileFormat::Json.convert(r#"{"b":2,"a":1}"#, FileFormat::Json).unwrap();
    assert_eq!(out, "{\n  \"a\": 1,\n  \"b\": 2\n}");
}

#[test]
fn json_to_yaml_exact() {
    let out = FileFormat::Json.convert(r#"{"name":"Test","count":42}"#, FileFormat::Yaml).unwrap();
    assert_eq!(out, "count: 42\nname: Test\n");
}

#[test]
fn yaml_identity_exact_keeps_order() {
    let out = FileFormat::Yaml.convert("name: Alice\nage: 30", FileFormat::Yaml).unwrap();
    assert_eq!(out, "name: Alice\nage: 30\n");
}

#[test]
fn csv_identity_exact_sorted_columns() {
    let out = FileFormat::Csv.convert("name,age\nAlice,30\nBob,25", FileFormat::Csv).unwrap();
    assert_eq!(out, "age,name\n30,Alice\n25,Bob\n");
}

// --- inferred CSV numbers stay numbers in JSON ---

#[test]
fn csv_ages_become_numbers() {
    let json = FileFormat::Csv.convert("name,age\nAlice,30\nBob,25", FileFormat::Json).unwrap();
    assert!(json.contains("\"age\": 30"));
    assert!(json.contains("\"age\": 25"));
    assert!(!json.contains("\"30\""));
}

// --- conversions are pure: equal inputs give equal results ---

#[test]
fn convert_is_deterministic() {
    let a = FileFormat::Json.convert("{ nope", FileFormat::Yaml);
    let b = FileFormat::Json.convert("{ nope", FileFormat::Yaml);
    assert_eq!(a.unwrap_err().message(), b.unwrap_err().message());
    let c = FileFormat::Csv.convert("a,b\n1,2", FileFormat::Toml).unwrap();
    let d = FileFormat::Csv.convert("a,b\n1,2", FileFormat::Toml).unwrap();
    assert_eq!(c, d);
}

#[test]
fn csv_export_of_empty_objects_succeeds() {
    let out = FileFormat::Json.convert("[{},{}]", FileFormat::Csv).unwrap();
    assert_eq!(out, "\"\"\n\"\"\n\"\"\n");
}

// --- lossy policies that must hold ---

#[test]
fn toml_null_becomes_empty_string() {
    let toml = FileFormat::Json.convert(r#"{"a":null}"#, FileFormat::Toml).unwrap();
    assert!(toml.contains("a = \"\""));
}

#[test]
fn csv_scalar_root_is_rejected() {
    let r = FileFormat::Json.convert("5", FileFormat::Csv);
    assert!(r.is_err());
    let msg = r.unwrap_err().message();
    assert!(msg.contains("JSON must be an array or object for CSV"));
}

#[test]
fn csv_missing_keys_render_empty() {
    let json = r#"[{"a":1,"b":"x"},{"a":2}]"#;
    let csv = FileFormat::Json.convert(json, FileFormat::Csv).unwrap();
    let mut lines = csv.lines();
    assert_eq!(lines.next().unwrap(), "a,b");
    assert_eq!(lines.next().unwrap(), "1,x");
    assert_eq!(lines.next().unwrap(), "2,");
}

#[test]
fn toml_data_wrapper_unwraps_to_csv() {
    let toml = "[[data]]\nx = 1\n\n[[data]]\nx = 2";
    let csv = FileFormat::Toml.convert(toml, FileFormat::Csv).unwrap();
    let mut lines = csv.lines();
    assert_eq!(lines.next().unwrap(), "x");
    assert_eq!(lines.next().unwrap(), "1");
    assert_eq!(lines.next().unwrap(), "2");
}

#[test]
fn csv_toml_csv_recovers_records() {
    let toml = FileFormat::Csv.convert("name,age\nAlice,30", FileFormat::Toml).unwrap();
    let back = FileFormat::Toml.convert(&toml, FileFormat::Csv).unwrap();
    assert_eq!(back, "age,name\n30,Alice\n");
}

#[test]
fn toml_data_beside_other_keys_stays_wrapped() {
    let toml = "x = 1\n\n[[data]]\ny = 2";
    let csv = FileFormat::Toml.convert(toml, FileFormat::Csv).unwrap();
    assert_eq!(csv.lines().next().unwrap(), "data,x");
}

#[test]
fn csv_identity_keeps_numbers() {
    let out = FileFormat::Csv.convert("a,b\ntrue,1.50\n,x", FileFormat::Csv).unwrap();
    assert_eq!(out, "a,b\ntrue,1.5\n,x\n");
}

#[test]
fn infer_accepts_rust_float_forms() {
    match convrs::formats::csv::infer_type(".5") {
        convrs::value::CanonicalValue::Float(t) => assert_eq!(t, "0.5"),
        _ => panic!("a bare fraction is a float"),
    }
    match convrs::formats::csv::infer_type("+1.5") {
        convrs::value::CanonicalValue::Float(t) => assert_eq!(t, "1.5"),
        _ => panic!("a signed float parses"),
    }
}
