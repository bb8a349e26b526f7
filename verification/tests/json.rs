use tv_shell::json::{parse_json, Json};

const DOCUMENTS: [&str; 22] = [
    "null",
    "true",
    "false",
    "0",
    "-1",
    "18446744073709551615",
    "-9223372036854775808",
    "1.5",
    "-0.0",
    "1e100",
    "120.0",
    "0.30000000000000004",
    "\"\"",
    "\"a\\\"b\\\\c/\\b\\f\\n\\r\\t\\u0001\\u001f\\u007f\\u00e9\\ud83d\\ude00\"",
    "[]",
    "{}",
    "[[], {}, [1, [2, [3]]]]",
    "{\"b\": 1, \"a\": 2, \"c\": {\"z\": [], \"y\": {}}}",
    "{\"a\": 1, \"a\": 2}",
    "  [1 , 2 ,\n3 ]  ",
    "{\"\": null, \"é\": true, \"\\n\": false}",
    "[null, true, 1, -1, 1.25, \"x\", [], {}]",
];

const BROKEN: [&str; 8] = ["", "nul", "[1,]", "{\"a\"}", "01", "\"", "[1] 2", "{a: 1}"];

#[test]
fn documents_are_written_as_serde_json_writes_them() {
    for text in DOCUMENTS {
        let ours = parse_json(text).expect(text);
        let theirs: serde_json::Value = serde_json::from_str(text).expect(text);
        assert_eq!(ours.to_compact(), serde_json::to_string(&theirs).unwrap(), "{text}");
        assert_eq!(ours.to_pretty(), serde_json::to_string_pretty(&theirs).unwrap(), "{text}");
    }
}

#[test]
fn broken_documents_are_refused_in_serde_jsons_words() {
    for text in BROKEN {
        let theirs = serde_json::from_str::<serde_json::Value>(text).unwrap_err();
        assert_eq!(parse_json(text).unwrap_err(), theirs.to_string(), "{text:?}");
    }
}

#[test]
fn members_are_read_by_kind() {
    let doc = parse_json(
        "{\"text\": \"hi\", \"flag\": true, \"low\": -3, \"high\": 18446744073709551615, \
         \"float\": 0.25, \"whole\": 120.0}",
    )
    .unwrap();
    assert_eq!(doc.text_at("text"), "hi");
    assert_eq!(doc.text_at("flag"), "");
    assert_eq!(doc.text_at("none"), "");
    assert!(doc.bool_at("flag", false));
    assert!(doc.bool_at("none", true));
    assert!(!doc.bool_at("text", false));
    assert_eq!(doc.signed_at("low", 0), -3);
    assert_eq!(doc.signed_at("high", 7), 7);
    assert_eq!(doc.unsigned_at("high", 0), u64::MAX);
    assert_eq!(doc.unsigned_at("low", 7), 7);
    assert_eq!(doc.float_at("float", "x"), "0.25");
    assert_eq!(doc.float_at("whole", "x"), "120.0");
    assert_eq!(doc.float_at("text", "x"), "x");
    assert!(doc.get("none").is_none());
    assert_eq!(doc.copy().to_compact(), doc.to_compact());
}

#[test]
fn only_objects_have_members() {
    for doc in [Json::Null, Json::Bool(true), Json::Text("a".to_string()), Json::Array(vec![])] {
        assert!(doc.get("a").is_none());
    }
}

#[test]
fn plain_documents_are_read_back() {
    for text in DOCUMENTS {
        if text.contains('.') || text.contains("e1") {
            continue;
        }
        let doc = parse_json(text).unwrap();
        assert_eq!(parse_json(&doc.to_compact()).unwrap(), doc, "{text}");
        assert_eq!(parse_json(&doc.to_pretty()).unwrap(), doc, "{text}");
    }
    let deep = format!("{}{}", "[".repeat(100), "]".repeat(100));
    assert_eq!(parse_json(&deep).unwrap().to_compact(), deep);
    let too_deep = format!("{}{}", "[".repeat(128), "]".repeat(128));
    assert!(parse_json(&too_deep).is_err());
}
