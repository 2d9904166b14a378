use rpg_primitive_survey::json::JsonMember;
use rpg_primitive_survey::json::JsonNumber;
use rpg_primitive_survey::json::JsonValue;
use rpg_primitive_survey::shape::structural_signature;
use sha2::Digest;

fn model(value: &serde_json::Value) -> JsonValue {
    match value {
        serde_json::Value::Null => JsonValue::Null,
        serde_json::Value::Bool(b) => JsonValue::Bool(*b),
        serde_json::Value::Number(n) => JsonValue::Number(JsonNumber {
            text: n.to_string(),
            integer: n.is_i64() || n.is_u64(),
        }),
        serde_json::Value::String(s) => JsonValue::String(s.clone()),
        serde_json::Value::Array(items) => JsonValue::Array(items.iter().map(model).collect()),
        serde_json::Value::Object(map) => JsonValue::Object(
            map.iter()
                .map(|(key, value)| JsonMember { key: key.clone(), value: model(value) })
                .collect(),
        ),
    }
}

fn parse(text: &str) -> JsonValue {
    model(&serde_json::from_str::<serde_json::Value>(text).expect("test JSON"))
}

#[test]
fn signatures_ignore_values_but_retain_structure() {
    let left = parse(r#"{"name": "Synthetic Blade", "system": {"damage": 4}}"#);
    let same_shape = parse(r#"{"name": "Synthetic Wand", "system": {"damage": 99}}"#);
    let different = parse(r#"{"name": "Synthetic Wand", "system": {"damage": "4"}}"#);

    assert_eq!(
        structural_signature(&left, false),
        structural_signature(&same_shape, false)
    );
    assert_ne!(
        structural_signature(&left, false),
        structural_signature(&different, false)
    );
}

#[test]
fn signatures_ignore_dynamic_identifier_map_keys() {
    let left = parse(
        r#"{"system": {"activities": {"aaaaaaaaaaaaaaaa": {"type": "attack", "target": {"kind": "single"}}}}}"#,
    );
    let same_shape = parse(
        r#"{"system": {"activities": {"B9xY7wV5uT3sR1qP": {"type": "save", "target": {"kind": "area"}}}}}"#,
    );
    assert_eq!(
        structural_signature(&left, true),
        structural_signature(&same_shape, true)
    );
    assert_ne!(
        structural_signature(&left, false),
        structural_signature(&same_shape, false)
    );
}

#[test]
fn signature_is_lower_hex_sha256_of_the_canonical_shape() {
    // The shape of `null` encodes as the JSON string "null"; its SHA-256:
    let expected = {
        let digest = sha2::Sha256::digest(b"\"null\"");
        digest.iter().map(|b| format!("{b:02x}")).collect::<String>()
    };
    assert_eq!(structural_signature(&JsonValue::Null, false), expected);
    assert_eq!(expected.len(), 64);
}

#[test]
fn array_shapes_are_a_sorted_set_of_member_shapes() {
    let a = parse(r#"[1, "x", 2, "y", null]"#);
    let b = parse(r#"[null, "z", 7]"#);
    assert_eq!(structural_signature(&a, false), structural_signature(&b, false));
    let c = parse(r#"[1.5, "x"]"#);
    let d = parse(r#"[1, "x"]"#);
    assert_ne!(structural_signature(&c, false), structural_signature(&d, false));
}

#[test]
fn canonical_shape_text_matches_serde_json_of_the_shape() {
    let expected = {
        let digest = sha2::Sha256::digest(br#"{"a":["integer","string"],"b":{"c":"boolean"}}"#);
        digest.iter().map(|b| format!("{b:02x}")).collect::<String>()
    };
    let value = parse(r#"{"a": ["s", 3, "t"], "b": {"c": true}}"#);
    assert_eq!(structural_signature(&value, false), expected);
}

#[test]
fn identifier_map_normalisation_keeps_ordinary_records() {
    let record = parse(r#"{"name": {"x": 1}}"#);
    assert_eq!(
        structural_signature(&record, true),
        structural_signature(&record, false)
    );
    let expected = {
        let digest = sha2::Sha256::digest(br#"{"$identifierMap":[{"k":"integer"}]}"#);
        digest.iter().map(|b| format!("{b:02x}")).collect::<String>()
    };
    let map = parse(r#"{"abcdefgh12345678": {"k": 1}, "ABCDEFGH12345678": {"k": 2}}"#);
    assert_eq!(structural_signature(&map, true), expected);
}
