//! Tests of the per-format conversion functions and the shared helpers.

use convrs::formats::csv::csv_to_csv_string;
use convrs::formats::csv::csv_to_json_string;
use convrs::formats::csv::csv_to_toml_string;
use convrs::formats::csv::csv_to_yaml_string;
use convrs::formats::csv::infer_type;
use convrs::formats::json::json_to_csv_string;
use convrs::formats::json::json_to_json_string;
use convrs::formats::json::json_to_toml_string;
use convrs::formats::json::json_to_yaml_string;
use convrs::formats::toml::toml_to_csv_string;
use convrs::formats::toml::toml_to_json_string;
use convrs::formats::toml::toml_to_yaml_string;
use convrs::formats::utils::flatten_value;
use convrs::formats::utils::json_value_to_string;
use convrs::formats::utils::toml_ready_value;
use convrs::formats::yaml::yaml_to_csv_string;
use convrs::formats::yaml::yaml_to_json_string;
use convrs::formats::yaml::yaml_to_toml_string;
use convrs::formats::yaml::yaml_to_yaml_string;
use convrs::value::CanonicalValue;

fn flat_lookup<'a>(flat: &'a [(String, String)], key: &str) -> Option<&'a str> {
    for (k, v) in flat {
        if k == key {
            return Some(v);
        }
    }
    None
}

// --- CSV source ---

#[test]
fn test_csv_to_json() {
    let input = "name,age\nAlice,30\nBob,25";
    let result = csv_to_json_string(input).unwrap();
    assert!(result.contains("Alice"));
    assert!(result.contains("Bob"));
    assert!(result.contains("30"));
}

#[test]
fn test_csv_to_yaml() {
    let input = "name,age\nAlice,30";
    let result = csv_to_yaml_string(input).unwrap();
    assert!(result.contains("name"));
    assert!(result.contains("Alice"));
}

#[test]
fn test_csv_to_toml() {
    let input = "name,age\nAlice,30";
    let result = csv_to_toml_string(input).unwrap();
    assert!(result.contains("data"));
    assert!(result.contains("Alice"));
}

#[test]
fn test_csv_to_csv_roundtrip() {
    let input = "name,age\nAlice,30\nBob,25";
    let result = csv_to_csv_string(input).unwrap();
    assert!(result.contains("name"));
    assert!(result.contains("Alice"));
    assert!(result.contains("Bob"));
}

#[test]
fn test_csv_empty_fails() {
    let result = csv_to_json_string("");
    assert!(result.is_err());
}

#[test]
fn test_csv_no_commas_fails() {
    let result = csv_to_json_string("just a single line without commas");
    assert!(result.is_err());
    assert!(result.unwrap_err().message().contains("no commas"));
}

#[test]
fn test_csv_inconsistent_columns_fails() {
    let result = csv_to_json_string("a,b,c\n1,2\n3,4,5");
    assert!(result.is_err());
}

#[test]
fn test_infer_type_boolean() {
    assert!(matches!(infer_type("true"), CanonicalValue::Bool(true)));
    assert!(matches!(infer_type("false"), CanonicalValue::Bool(false)));
    assert!(matches!(infer_type("TRUE"), CanonicalValue::Bool(true)));
}

#[test]
fn test_infer_type_number() {
    assert!(matches!(infer_type("42"), CanonicalValue::Int(42)));
    assert!(matches!(infer_type("0"), CanonicalValue::Int(0)));
}

#[test]
fn test_infer_type_string_fallback() {
    match infer_type("hello") {
        CanonicalValue::Str(s) => assert_eq!(s, "hello"),
        _ => panic!("expected a string"),
    }
}

#[test]
fn test_infer_type_empty_is_null() {
    assert!(matches!(infer_type(""), CanonicalValue::Null));
}

#[test]
fn test_infer_type_float_canonical() {
    match infer_type("1.50") {
        CanonicalValue::Float(t) => assert_eq!(t, "1.5"),
        _ => panic!("expected a float"),
    }
    match infer_type("NaN") {
        CanonicalValue::Str(s) => assert_eq!(s, "NaN"),
        _ => panic!("non-finite text must stay a string"),
    }
}

#[test]
fn csv_nested_headers_build_objects() {
    let json =
        convrs::formats::csv::csv_to_json_nested_string("name,contact.email\nAlice,a@example.com")
            .unwrap();
    assert!(json.contains("\"contact\""));
    assert!(json.contains("\"email\": \"a@example.com\""));
    assert!(json.contains("\"name\": \"Alice\""));
}

#[test]
fn csv_nested_insert_keeps_scalar_on_path() {
    let json = convrs::formats::csv::csv_to_json_nested_string("a,a.b\n1,2").unwrap();
    assert!(json.contains("\"a\": 1"));
    assert!(!json.contains("\"b\""));
}

#[test]
fn test_csv_duplicate_header_last_wins() {
    let result = csv_to_json_string("a,a\n1,2").unwrap();
    assert!(result.contains("\"a\": 2"));
    assert!(!result.contains("\"a\": 1"));
}

// --- JSON source ---

#[test]
fn test_json_to_json_pretty_prints() {
    let input = r#"{"a":1,"b":"hello"}"#;
    let result = json_to_json_string(input).unwrap();
    assert!(result.contains("\"a\""));
    assert!(result.contains("\"b\""));
    assert!(result.contains('\n'));
}

#[test]
fn test_json_to_json_invalid_fails() {
    let result = json_to_json_string("{ invalid }");
    assert!(result.is_err());
    assert!(matches!(result.unwrap_err(), convrs::error::FormatError::ParseError(_)));
}

#[test]
fn test_json_to_yaml() {
    let input = r#"{"name":"Test","count":42}"#;
    let result = json_to_yaml_string(input).unwrap();
    assert!(result.contains("name"));
    assert!(result.contains("Test"));
    assert!(result.contains("42"));
}

#[test]
fn test_json_to_toml_object() {
    let input = r#"{"title":"Hello","section":{"key":"value"}}"#;
    let result = json_to_toml_string(input).unwrap();
    assert!(result.contains("key"));
    assert!(result.contains("value"));
}

#[test]
fn test_json_to_toml_array_wraps_in_data() {
    let input = r#"[{"x":1},{"x":2}]"#;
    let result = json_to_toml_string(input).unwrap();
    assert!(result.contains("data") || result.contains("[["));
}

#[test]
fn test_json_to_csv_array_of_objects() {
    let input = r#"[{"name":"Alice","age":"30"},{"name":"Bob","age":"25"}]"#;
    let result = json_to_csv_string(input).unwrap();
    assert!(result.contains("name"));
    assert!(result.contains("Alice"));
    assert!(result.contains("Bob"));
}

#[test]
fn test_json_to_csv_single_object() {
    let input = r#"{"name":"Alice","age":30}"#;
    let result = json_to_csv_string(input).unwrap();
    assert!(result.contains("name"));
    assert!(result.contains("Alice"));
}

#[test]
fn test_json_to_csv_empty_array() {
    let result = json_to_csv_string("[]").unwrap();
    assert!(result.is_empty());
}

// --- TOML source ---

#[test]
fn test_toml_to_json() {
    let input = "title = \"Hello\"\ncount = 10";
    let result = toml_to_json_string(input).unwrap();
    assert!(result.contains("title"));
    assert!(result.contains("Hello"));
    assert!(result.contains("10"));
}

#[test]
fn test_toml_to_yaml() {
    let input = "title = \"Hello\"\ncount = 10";
    let result = toml_to_yaml_string(input).unwrap();
    assert!(result.contains("title"));
    assert!(result.contains("Hello"));
}

#[test]
fn test_toml_to_csv_with_data_wrapper() {
    let input = "[[data]]\nname = \"Alice\"\nage = 30\n\n[[data]]\nname = \"Bob\"\nage = 25";
    let result = toml_to_csv_string(input).unwrap();
    assert!(result.contains("name"));
    assert!(result.contains("Alice"));
    assert!(result.contains("Bob"));
}

#[test]
fn test_toml_invalid_fails() {
    let result = toml_to_json_string("not valid toml [ [ [");
    assert!(result.is_err());
}

// --- YAML source ---

#[test]
fn test_yaml_to_json() {
    let input = "name: Alice\nage: 30";
    let result = yaml_to_json_string(input).unwrap();
    assert!(result.contains("Alice"));
    assert!(result.contains("30"));
}

#[test]
fn test_yaml_to_yaml_pretty() {
    let input = "name: Alice\nage: 30";
    let result = yaml_to_yaml_string(input).unwrap();
    assert!(result.contains("name"));
    assert!(result.contains("Alice"));
}

#[test]
fn test_yaml_to_toml() {
    let input = "title: Hello\ncount: 10";
    let result = yaml_to_toml_string(input).unwrap();
    assert!(result.contains("title"));
    assert!(result.contains("Hello"));
}

#[test]
fn test_yaml_to_csv() {
    let input = "- name: Alice\n  age: 30\n- name: Bob\n  age: 25";
    let result = yaml_to_csv_string(input).unwrap();
    assert!(result.contains("name"));
    assert!(result.contains("Alice"));
    assert!(result.contains("Bob"));
}

#[test]
fn test_yaml_invalid_fails() {
    let result = yaml_to_json_string("  invalid:\n yaml\n  : broken");
    assert!(result.is_err());
}

// --- shared helpers ---

#[test]
fn test_json_to_toml_value_string() {
    let ready = toml_ready_value(&CanonicalValue::Str("hello".to_string()));
    match ready {
        CanonicalValue::Str(s) => assert_eq!(s, "hello"),
        _ => panic!("expected a string"),
    }
}

#[test]
fn test_json_to_toml_value_number() {
    let ready = toml_ready_value(&CanonicalValue::Int(42));
    assert!(matches!(ready, CanonicalValue::Int(42)));
}

#[test]
fn test_json_to_toml_value_bool() {
    let ready = toml_ready_value(&CanonicalValue::Bool(true));
    assert!(matches!(ready, CanonicalValue::Bool(true)));
}

#[test]
fn test_json_to_toml_value_null_becomes_empty_string() {
    let ready = toml_ready_value(&CanonicalValue::Null);
    match ready {
        CanonicalValue::Str(s) => assert_eq!(s, ""),
        _ => panic!("null must become the empty string"),
    }
}

#[test]
fn test_json_to_toml_value_object() {
    let mut pairs: Vec<(String, CanonicalValue)> = Vec::new();
    pairs.push(("key".to_string(), CanonicalValue::Str("value".to_string())));
    let ready = toml_ready_value(&CanonicalValue::Object(pairs));
    assert!(matches!(ready, CanonicalValue::Object(_)));
}

#[test]
fn test_json_value_to_string_primitives() {
    assert_eq!(json_value_to_string(&CanonicalValue::Str("hello".to_string())), "hello");
    assert_eq!(json_value_to_string(&CanonicalValue::Int(42)), "42");
    assert_eq!(json_value_to_string(&CanonicalValue::Bool(true)), "true");
    assert_eq!(json_value_to_string(&CanonicalValue::Null), "");
}

#[test]
fn test_flatten_json_simple() {
    let mut pairs: Vec<(String, CanonicalValue)> = Vec::new();
    pairs.push(("age".to_string(), CanonicalValue::Int(30)));
    pairs.push(("name".to_string(), CanonicalValue::Str("Alice".to_string())));
    let value = CanonicalValue::Object(pairs);
    let flat = flatten_value(&value, "");
    assert_eq!(flat_lookup(&flat, "name").unwrap(), "Alice");
    assert_eq!(flat_lookup(&flat, "age").unwrap(), "30");
}

#[test]
fn test_flatten_json_nested() {
    let mut address: Vec<(String, CanonicalValue)> = Vec::new();
    address.push(("city".to_string(), CanonicalValue::Str("Z\u{fc}rich".to_string())));
    let mut user: Vec<(String, CanonicalValue)> = Vec::new();
    user.push(("address".to_string(), CanonicalValue::Object(address)));
    user.push(("name".to_string(), CanonicalValue::Str("Alice".to_string())));
    let mut root: Vec<(String, CanonicalValue)> = Vec::new();
    root.push(("user".to_string(), CanonicalValue::Object(user)));
    let value = CanonicalValue::Object(root);
    let flat = flatten_value(&value, "");
    assert_eq!(flat_lookup(&flat, "user_name").unwrap(), "Alice");
    assert_eq!(flat_lookup(&flat, "user_address_city").unwrap(), "Z\u{fc}rich");
}

#[test]
fn test_flatten_array_renders_compact_json() {
    let mut items: Vec<CanonicalValue> = Vec::new();
    items.push(CanonicalValue::Int(1));
    items.push(CanonicalValue::Int(2));
    let mut pairs: Vec<(String, CanonicalValue)> = Vec::new();
    pairs.push(("xs".to_string(), CanonicalValue::Array(items)));
    let value = CanonicalValue::Object(pairs);
    let flat = flatten_value(&value, "");
    assert_eq!(flat_lookup(&flat, "xs").unwrap(), "[1,2]");
}
