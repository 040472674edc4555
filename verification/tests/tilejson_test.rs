use kmlcli::tiles::tilejson::{json_get, parse_json, tile_url_from_body, tile_url_template, JsonValue};

fn text(s: &str) -> JsonValue {
    JsonValue::Text(s.to_string())
}

fn object(members: Vec<(&str, JsonValue)>) -> JsonValue {
    JsonValue::Object(members.into_iter().map(|(k, v)| (k.to_string(), v)).collect())
}

#[test]
fn tile_template_is_first_string_entry() {
    let doc = object(vec![
        ("tilejson", text("3.0.0")),
        ("tiles", JsonValue::Array(vec![text("https://a/{z}/{x}/{y}"), text("https://b")])),
        ("maxzoom", JsonValue::Number("14".to_string())),
    ]);
    assert_eq!(tile_url_template(&doc).as_deref(), Some("https://a/{z}/{x}/{y}"));
}

#[test]
fn no_template_without_a_string_first_tile() {
    assert_eq!(tile_url_template(&object(vec![])), None);
    assert_eq!(tile_url_template(&object(vec![("tiles", text("x"))])), None);
    assert_eq!(tile_url_template(&object(vec![("tiles", JsonValue::Array(vec![]))])), None);
    let first_not_text = JsonValue::Array(vec![JsonValue::Number("3".to_string()), text("https://b")]);
    assert_eq!(tile_url_template(&object(vec![("tiles", first_not_text)])), None);
    assert_eq!(tile_url_template(&JsonValue::Array(vec![text("https://a")])), None);
    assert_eq!(tile_url_template(&JsonValue::Null), None);
}

#[test]
fn get_reads_object_members_only() {
    let doc = object(vec![("a", JsonValue::Bool(true)), ("b", JsonValue::Null)]);
    assert!(matches!(json_get(&doc, "a"), Some(JsonValue::Bool(true))));
    assert!(matches!(json_get(&doc, "b"), Some(JsonValue::Null)));
    assert!(json_get(&doc, "c").is_none());
    assert!(json_get(&text("a"), "a").is_none());
}

#[test]
fn template_from_response_body() {
    let body = r#"{"tilejson":"3.0.0","tiles":["https://t/planet/{z}/{x}/{y}.pbf"],"maxzoom":14}"#;
    assert_eq!(tile_url_from_body(body).as_deref(), Some("https://t/planet/{z}/{x}/{y}.pbf"));
    assert_eq!(tile_url_from_body("not json"), None);
    assert_eq!(tile_url_from_body(r#"{"tiles":[]}"#), None);
    assert_eq!(tile_url_from_body(r#"{"tiles":[7]}"#), None);
    assert_eq!(tile_url_from_body(r#"["https://a"]"#), None);
}

#[test]
fn parse_keeps_each_variant() {
    let doc = parse_json(r#"{"a":null,"b":true,"c":1.5,"d":"x","e":[1,"y"]}"#).expect("valid JSON");
    assert!(matches!(json_get(&doc, "a"), Some(JsonValue::Null)));
    assert!(matches!(json_get(&doc, "b"), Some(JsonValue::Bool(true))));
    assert!(matches!(json_get(&doc, "c"), Some(JsonValue::Number(n)) if n == "1.5"));
    assert!(matches!(json_get(&doc, "d"), Some(JsonValue::Text(s)) if s == "x"));
    match json_get(&doc, "e") {
        Some(JsonValue::Array(items)) => {
            assert_eq!(items.len(), 2);
            assert!(matches!(&items[0], JsonValue::Number(n) if n == "1"));
            assert!(matches!(&items[1], JsonValue::Text(s) if s == "y"));
        }
        _ => panic!("e is an array"),
    }
    assert!(parse_json("{").is_none());
}
