use sonora::json::{collect_renderers, renderers, Json, JsonNumber};

fn text(value: &str) -> Json {
    Json::Str(value.to_string())
}

fn obj(pairs: Vec<(&str, Json)>) -> Json {
    let mut entries: Vec<(String, Json)> = pairs.into_iter().map(|(k, v)| (k.to_string(), v)).collect();
    entries.sort_by(|a, b| a.0.cmp(&b.0));
    Json::Object(entries)
}

#[test]
fn renderers_are_found_in_member_order() {
    let payload = obj(vec![
        ("b", obj(vec![("key", text("second"))])),
        ("a", Json::Array(vec![obj(vec![("key", text("first"))])])),
    ]);
    let found = renderers(&payload, "key");
    assert_eq!(found.len(), 2);
    assert_eq!(found[0].as_str(), Some("first"));
    assert_eq!(found[1].as_str(), Some("second"));
    let mut out = Vec::new();
    collect_renderers(&payload, "missing", &mut out);
    assert!(out.is_empty());
}

#[test]
fn json_accessors_read_members_and_paths() {
    let value = obj(vec![
        ("n", Json::Number(JsonNumber { as_u64: Some(7), as_i64: Some(7), thousandths: Some(7000) })),
        ("flag", Json::Bool(true)),
        ("deep", obj(vec![("inner", text("x"))])),
        ("nothing", Json::Null),
    ]);
    assert_eq!(value.get("n").and_then(|v| v.as_u64()), Some(7));
    assert_eq!(value.get("flag").and_then(|v| v.as_bool()), Some(true));
    assert_eq!(value.str_at_path(&["deep", "inner"]), Some("x"));
    assert!(value.at_path(&["deep", "missing"]).is_none());
    assert!(value.get("nothing").unwrap().is_null());
    assert!(text("x").get("n").is_none());
}
