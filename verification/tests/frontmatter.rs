use rubberdux::error::Error;
use rubberdux::frontmatter::{
    format_yaml_front_matter, parse_yaml_front_matter, unreadable, unwritable,
};
use rubberdux::json_object::extract_json_object;
use serde_yaml::{Mapping, Value};

fn doc(title: &str, count: u32) -> Value {
    let mut fields = Mapping::new();
    fields.insert(Value::from("title"), Value::from(title));
    fields.insert(Value::from("count"), Value::from(count));
    Value::Mapping(fields)
}

#[test]
fn test_parse_valid() {
    let content = "---\ntitle: Hello\ncount: 42\n---\nbody text";
    let yaml = parse_yaml_front_matter(content).unwrap();
    let parsed: Value = serde_yaml::from_str(&yaml).unwrap();
    assert_eq!(parsed["title"], "Hello");
    assert_eq!(parsed["count"], 42);
    assert_eq!(yaml, "title: Hello\ncount: 42");
}

#[test]
fn test_parse_missing_delimiters() {
    let result = parse_yaml_front_matter("no delimiters here");
    assert!(result.is_err());
    match result {
        Err(Error::FrontMatter(m)) => {
            assert_eq!(m, "Invalid front matter: missing --- delimiters")
        }
        other => panic!("unexpected {:?}", other),
    }
    assert!(parse_yaml_front_matter("--- only one").is_err());
}

#[test]
fn test_format_roundtrip() {
    let data = doc("RT", 7);
    let formatted = format_yaml_front_matter(&serde_yaml::to_string(&data).unwrap(), "");
    let parsed: Value =
        serde_yaml::from_str(&parse_yaml_front_matter(&formatted).unwrap()).unwrap();
    assert_eq!(data, parsed);
}

#[test]
fn test_format_preserves_body() {
    let data = doc("X", 1);
    let body = "# Notes\nSome text";
    let output = format_yaml_front_matter(&serde_yaml::to_string(&data).unwrap(), body);
    assert!(output.contains("# Notes\nSome text"));
    assert_eq!(output, "---\ntitle: X\ncount: 1\n---\n# Notes\nSome text");
}

#[test]
fn the_errors_of_the_header_say_why() {
    match unreadable("bad") {
        Error::FrontMatter(m) => assert_eq!(m, "Failed to parse YAML front matter: bad"),
        other => panic!("unexpected {:?}", other),
    }
    match unwritable("bad") {
        Error::FrontMatter(m) => assert_eq!(m, "Failed to serialize YAML: bad"),
        other => panic!("unexpected {:?}", other),
    }
}

#[test]
fn the_first_object_is_found() {
    assert_eq!(
        extract_json_object("Sure: {\"a\": {\"b\": \"}\"}} and {}"),
        Some("{\"a\": {\"b\": \"}\"}}".to_string())
    );
    assert_eq!(extract_json_object("{\"a\": \"\\\"}\"}"), Some("{\"a\": \"\\\"}\"}".to_string()));
    assert_eq!(extract_json_object("none"), None);
    assert_eq!(extract_json_object("{ never closed"), None);
}
