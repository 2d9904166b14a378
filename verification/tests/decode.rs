use rpg_primitive_survey::decode::decode_documents;
use rpg_primitive_survey::decode::parse_json_file;
use rpg_primitive_survey::json::JsonValue;

fn names(values: &[JsonValue]) -> Vec<String> {
    values
        .iter()
        .map(|value| match value {
            JsonValue::Object(members) => match &members[0].value {
                JsonValue::String(s) => s.clone(),
                _ => panic!("the first member is a name"),
            },
            _ => panic!("documents are objects"),
        })
        .collect()
}

#[test]
fn a_top_level_array_is_its_items() {
    let docs = decode_documents(br#"[{"name": "a"}, {"name": "b"}]"#, false, "packs/p/x.json").expect("decodes");
    assert_eq!(names(&docs), vec!["a", "b"]);
    let single = decode_documents(br#"{"name": "only"}"#, false, "packs/p/y.json").expect("decodes");
    assert_eq!(names(&single), vec!["only"]);
}

#[test]
fn object_keys_come_out_in_ascending_order() {
    match parse_json_file(br#"{"zeta": 1, "alpha": {"b": 2, "a": 3}}"#, "system.json").expect("decodes") {
        JsonValue::Object(members) => {
            let keys: Vec<&str> = members.iter().map(|m| m.key.as_str()).collect();
            assert_eq!(keys, vec!["alpha", "zeta"]);
            match &members[1].value {
                JsonValue::Number(n) => {
                    assert_eq!(n.text, "1");
                    assert!(n.integer);
                }
                _ => panic!("zeta is a number"),
            }
        }
        _ => panic!("the manifest is an object"),
    }
}

#[test]
fn line_delimited_files_skip_blank_lines() {
    let bytes = "{\"name\": \"a\"}\r\n   \n\n{\"name\": \"b\"}\n".as_bytes();
    let docs = decode_documents(bytes, true, "packs/p/x.jsonl").expect("decodes");
    assert_eq!(names(&docs), vec!["a", "b"]);
}

#[test]
fn decoding_failures_name_the_file() {
    let error = decode_documents(b"{\"name\": ", false, "/w/packs/x.json").err().expect("truncated");
    assert!(error.starts_with("failed to decode /w/packs/x.json: "), "{error}");
    assert!(error.contains("EOF while parsing"), "{error}");
    let line_error = decode_documents(b"{\"name\": \"a\"}\n@bad\n", true, "/w/x.jsonl").err().expect("bad line");
    assert!(line_error.starts_with("failed to decode /w/x.jsonl: expected value at line 1 column 1"), "{line_error}");
    let utf8_error = decode_documents(&[0x7b, 0xff, 0x7d], true, "/w/x.ndjson").err().expect("not UTF-8");
    assert!(utf8_error.starts_with("/w/x.ndjson is not UTF-8: "), "{utf8_error}");
    assert!(parse_json_file(b"", "system.json").is_err());
}
