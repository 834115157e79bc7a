use json_pretty::{pretty_name, render_json, Json, Member, CLI};

fn num(text: &str) -> Json {
    Json::Number(text.to_string())
}

fn txt(text: &str) -> Json {
    Json::Str(text.to_string())
}

fn member(key: &str, value: Json) -> Member {
    Member { key: key.to_string(), value }
}

fn flat(paths: &[&str]) -> Vec<String> {
    paths.iter().map(|p| p.to_string()).collect()
}

fn reparse(rendered: &str) -> serde_json::Value {
    serde_json::from_str(rendered).expect("output must stay valid JSON")
}

#[test]
fn scalar_null_round_trips() {
    let out = render_json(&Json::Null, &flat(&[]));
    assert_eq!(out, "null");
    assert_eq!(reparse(&out), serde_json::Value::Null);
}

#[test]
fn scalar_bools_round_trip() {
    let out_t = render_json(&Json::Bool(true), &flat(&[]));
    let out_f = render_json(&Json::Bool(false), &flat(&[]));
    assert_eq!(out_t, "true");
    assert_eq!(out_f, "false");
    assert_eq!(reparse(&out_t), serde_json::Value::Bool(true));
    assert_eq!(reparse(&out_f), serde_json::Value::Bool(false));
}

#[test]
fn scalar_numbers_round_trip() {
    for text in ["0", "-7", "3.25", "1.5e3", "12345678901234"] {
        let out = render_json(&num(text), &flat(&[]));
        assert_eq!(out, text);
        let expected: serde_json::Value = serde_json::from_str(text).unwrap();
        assert_eq!(reparse(&out), expected);
    }
}

#[test]
fn scalar_strings_round_trip() {
    for text in ["", "plain", "h\u{e9}llo", "tab\there", "a \"quote\" and \\ back", "ctl\u{1}end"] {
        let out = render_json(&txt(text), &flat(&[]));
        let expected = serde_json::Value::String(text.to_string());
        assert_eq!(reparse(&out), expected);
    }
}

#[test]
fn string_escaping_is_exact() {
    let out = render_json(&txt("a\"b\\c\nd\te\u{8}f\u{c}g\r\u{1f}\u{0}"), &flat(&[]));
    assert_eq!(out, "\"a\\\"b\\\\c\\nd\\te\\bf\\fg\\r\\u001f\\u0000\"");
}

#[test]
fn short_scalar_array_is_one_line() {
    let v = Json::Array(vec![num("1"), num("2"), num("3")]);
    let out = render_json(&v, &flat(&[]));
    assert_eq!(out, "[1, 2, 3]");
    assert!(!out.contains('\n'));
}

#[test]
fn ten_scalars_still_inline() {
    let v = Json::Array((1..=10).map(|n| num(&n.to_string())).collect());
    let out = render_json(&v, &flat(&[]));
    assert_eq!(out, "[1, 2, 3, 4, 5, 6, 7, 8, 9, 10]");
    assert!(!out.contains('\n'));
}

#[test]
fn eleven_numbers_chunk_in_tens() {
    let v = Json::Array((1..=11).map(|n| num(&n.to_string())).collect());
    let out = render_json(&v, &flat(&[]));
    assert_eq!(out, "[\n    1, 2, 3, 4, 5, 6, 7, 8, 9, 10, \n    11\n]");
    assert_eq!(
        reparse(&out),
        serde_json::from_str::<serde_json::Value>("[1,2,3,4,5,6,7,8,9,10,11]").unwrap()
    );
}

#[test]
fn complex_element_forces_one_per_row() {
    let v = Json::Array(vec![
        Json::Array(vec![num("1"), num("2"), num("3"), num("4")]),
        num("1"),
        num("2"),
    ]);
    let out = render_json(&v, &flat(&[]));
    assert_eq!(out, "[\n    [1, 2, 3, 4], \n    1, \n    2\n]");
}

#[test]
fn array_elements_chunk_in_fives() {
    let v = Json::Array(vec![
        Json::Array(vec![num("1")]),
        num("1"),
        num("2"),
        num("3"),
        num("4"),
        num("5"),
        num("6"),
    ]);
    let out = render_json(&v, &flat(&[]));
    assert_eq!(out, "[\n    [1], 1, 2, 3, 4, \n    5, 6\n]");
}

#[test]
fn twenty_three_numbers_make_three_rows() {
    let v = Json::Array((1..=23).map(|n| num(&n.to_string())).collect());
    let out = render_json(&v, &flat(&[]));
    assert_eq!(
        out,
        "[\n    1, 2, 3, 4, 5, 6, 7, 8, 9, 10, \n    11, 12, 13, 14, 15, 16, 17, 18, 19, 20, \n    21, 22, 23\n]"
    );
}

#[test]
fn every_control_character_round_trips() {
    let text: String = (0..32u32).map(|code| char::from_u32(code).unwrap()).collect();
    let out = render_json(&txt(&text), &flat(&[]));
    assert_eq!(reparse(&out), serde_json::Value::String(text));
}

#[test]
fn long_mixed_array_still_chunks_in_fives() {
    let mut elements = vec![Json::Array(vec![num("1")])];
    elements.extend((1..=11).map(|n| num(&n.to_string())));
    let out = render_json(&Json::Array(elements), &flat(&[]));
    assert_eq!(out, "[\n    [1], 1, 2, 3, 4, \n    5, 6, 7, 8, 9, \n    10, 11\n]");
}

#[test]
fn object_layout_is_indented() {
    let v = Json::Object(vec![member("a", num("1")), member("b", num("2"))]);
    let out = render_json(&v, &flat(&[]));
    assert_eq!(out, "{\n    \"a\": 1, \n    \"b\": 2\n}");
}

#[test]
fn flattened_object_is_one_line() {
    let inner = Json::Object(vec![member("b", num("1")), member("c", num("2"))]);
    let v = Json::Object(vec![member("a", inner)]);
    let out = render_json(&v, &flat(&["a"]));
    assert_eq!(out, "{\n    \"a\": { \"b\": 1, \"c\": 2 }\n}");
}

#[test]
fn flatten_reaches_objects_inside_arrays() {
    let element = Json::Object(vec![member("x", num("1"))]);
    let v = Json::Object(vec![member("items", Json::Array(vec![element]))]);
    let out = render_json(&v, &flat(&["items"]));
    assert_eq!(out, "{\n    \"items\": [\n        { \"x\": 1 }\n    ]\n}");
}

#[test]
fn flatten_matches_deep_dotted_path() {
    let deep = Json::Object(vec![member("c", num("3"))]);
    let mid = Json::Object(vec![member("b", deep)]);
    let v = Json::Object(vec![member("a", mid)]);
    let out = render_json(&v, &flat(&["a.b"]));
    assert_eq!(out, "{\n    \"a\": {\n        \"b\": { \"c\": 3 }\n    }\n}");
}

#[test]
fn empty_array_renders_bare() {
    let out = render_json(&Json::Array(vec![]), &flat(&[]));
    assert_eq!(out, "[]");
    assert_eq!(reparse(&out), serde_json::from_str::<serde_json::Value>("[]").unwrap());
}

#[test]
fn empty_object_renders_bare() {
    let out = render_json(&Json::Object(vec![]), &flat(&[]));
    assert_eq!(out, "{\n}");
    assert_eq!(reparse(&out), serde_json::from_str::<serde_json::Value>("{}").unwrap());
}

#[test]
fn empty_flattened_object_renders_bare() {
    let out = render_json(&Json::Object(vec![]), &flat(&[""]));
    assert_eq!(out, "{  }");
    assert_eq!(reparse(&out), serde_json::from_str::<serde_json::Value>("{}").unwrap());
}

#[test]
fn nested_document_round_trips() {
    let doc = Json::Object(vec![
        member("name", txt("pretty \"printer\"\n")),
        member("counts", Json::Array((1..=12).map(|n| num(&n.to_string())).collect())),
        member(
            "rows",
            Json::Array(vec![
                Json::Object(vec![member("x", num("1")), member("y", num("2"))]),
                Json::Object(vec![member("x", num("3")), member("y", num("4"))]),
            ]),
        ),
        member("flag", Json::Bool(false)),
        member("nothing", Json::Null),
    ]);
    let source = "{\"name\": \"pretty \\\"printer\\\"\\n\", \
        \"counts\": [1,2,3,4,5,6,7,8,9,10,11,12], \
        \"rows\": [{\"x\":1,\"y\":2},{\"x\":3,\"y\":4}], \
        \"flag\": false, \"nothing\": null}";
    let expected: serde_json::Value = serde_json::from_str(source).unwrap();
    let plain = render_json(&doc, &flat(&[]));
    assert_eq!(reparse(&plain), expected);
    let flattened = render_json(&doc, &flat(&["rows", "name"]));
    assert_eq!(reparse(&flattened), expected);
}

#[test]
fn default_name_keeps_inner_dots() {
    let cli = CLI { source: "foo.bar.json".to_string(), output: None, flat: None };
    assert_eq!(pretty_name(&cli), "foo.bar-pretty.json");
}

#[test]
fn default_name_without_extension() {
    let cli = CLI { source: "foo".to_string(), output: None, flat: None };
    assert_eq!(pretty_name(&cli), "foo-pretty");
}

#[test]
fn default_name_keeps_directory() {
    let cli = CLI { source: "some/dir/data.json".to_string(), output: None, flat: None };
    assert_eq!(pretty_name(&cli), "some/dir/data-pretty.json");
}

#[test]
fn default_name_hidden_file_has_no_extension() {
    let cli = CLI { source: ".config".to_string(), output: None, flat: None };
    assert_eq!(pretty_name(&cli), ".config-pretty");
}

#[test]
fn default_name_trailing_dot() {
    let cli = CLI { source: "foo.".to_string(), output: None, flat: None };
    assert_eq!(pretty_name(&cli), "foo-pretty");
}

#[test]
fn explicit_output_wins() {
    let cli = CLI {
        source: "foo.json".to_string(),
        output: Some("elsewhere.json".to_string()),
        flat: None,
    };
    assert_eq!(pretty_name(&cli), "elsewhere.json");
}
