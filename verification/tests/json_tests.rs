//! JSON in and out.

use forma::format::{IrError, SlotType};
use forma::json::{put_pair, JsonNumber, JsonValue};
use forma::parser::test_helpers::{build_minimal_ir, encode_close_tag, encode_open_tag, encode_text};
use forma::parser::IrModule;
use forma::slot::{default_from_text, SlotData, SlotValue};
use forma::walker::{push_island_attrs, push_json_script, walk_to_html};
use forma::{render, render_island, IslandTrigger, SlotNumber};

fn module(strings: &[&str], slots: &[(u16, u32, u8, u8, &[u8])]) -> IrModule {
    IrModule::parse(&build_minimal_ir(strings, slots, &encode_text(0), &[])).unwrap()
}

#[test]
fn invalid_json_is_reported_in_the_reader_words() {
    let m = module(&["x"], &[(0, 0, 0x01, 0x00, &[])]);
    let err = SlotData::from_json("not valid json", &m).unwrap_err();
    assert_eq!(
        err,
        IrError::JsonParseError("expected ident at line 1 column 2".to_string())
    );
    assert_eq!(err.message(), "JSON parse error: expected ident at line 1 column 2");
}

#[test]
fn json_must_be_an_object() {
    let m = module(&["x"], &[(0, 0, 0x01, 0x00, &[])]);
    for text in ["[]", "null", "1", "\"x\"", "true"] {
        assert_eq!(
            SlotData::from_json(text, &m).unwrap_err(),
            IrError::JsonParseError("expected JSON object".to_string())
        );
    }
    assert_eq!(
        SlotData::from_json_value(&JsonValue::Null, &m).unwrap_err(),
        IrError::JsonParseError("expected JSON object".to_string())
    );
}

#[test]
fn json_value_fills_slots_by_name() {
    let m = module(
        &["a", "b", "a"],
        &[
            (0, 0, 0x01, 0x00, b"first"),
            (1, 1, 0x01, 0x00, b"second"),
            (2, 2, 0x01, 0x00, b"third"),
        ],
    );
    // Of two slots with one name the later one gets the value.
    let value = JsonValue::Object(vec![
        ("a".to_string(), JsonValue::Text("new".to_string())),
        ("c".to_string(), JsonValue::Bool(true)),
    ]);
    let data = SlotData::from_json_value(&value, &m).unwrap();
    assert_eq!(data.get_text(0), Some("first"));
    assert_eq!(data.get_text(1), Some("second"));
    assert_eq!(data.get_text(2), Some("new"));
}

#[test]
fn json_numbers_are_read_as_doubles() {
    let m = module(
        &["a", "b", "c", "d"],
        &[
            (0, 0, 0x03, 0x00, &[]),
            (1, 1, 0x03, 0x00, &[]),
            (2, 2, 0x03, 0x00, &[]),
            (3, 3, 0x03, 0x00, &[]),
        ],
    );
    let data = SlotData::from_json(
        r#"{"a": 2.50, "b": -3, "c": 18446744073709551615, "d": 1e2}"#,
        &m,
    )
    .unwrap();
    assert_eq!(data.get(0).to_text(), "2.5");
    assert_eq!(data.get(1).to_text(), "-3");
    assert_eq!(data.get(2).to_text(), "9223372036854775807");
    assert_eq!(data.get(3).to_text(), "100");
}

#[test]
fn later_binding_of_a_key_counts() {
    let value = SlotValue::Object(vec![
        ("k".to_string(), SlotValue::Bool(false)),
        ("l".to_string(), SlotValue::Null),
        ("k".to_string(), SlotValue::Bool(true)),
    ]);
    assert_eq!(
        value.to_json(),
        JsonValue::Object(vec![
            ("k".to_string(), JsonValue::Bool(true)),
            ("l".to_string(), JsonValue::Null),
        ])
    );
    // Reading a property takes the first binding.
    assert!(!value.get_property("k").as_bool());
    let mut pairs = vec![];
    put_pair(&mut pairs, "x".to_string(), JsonValue::Number(JsonNumber::Int(1)));
    put_pair(&mut pairs, "x".to_string(), JsonValue::Number(JsonNumber::Int(2)));
    assert_eq!(pairs, vec![("x".to_string(), JsonValue::Number(JsonNumber::Int(2)))]);
}

#[test]
fn defaults_follow_their_type() {
    let number = SlotNumber {
        bits: 4.0f64.to_bits(),
        text: "4".to_string(),
    };
    let text = default_from_text(SlotType::Text, "true".to_string(), None);
    assert!(matches!(text, SlotValue::Text(s) if s == "true"));
    let flag = default_from_text(SlotType::Bool, "true".to_string(), None);
    assert!(matches!(flag, SlotValue::Bool(true)));
    let neither = default_from_text(SlotType::Bool, "yes".to_string(), None);
    assert!(matches!(neither, SlotValue::Null));
    let some = default_from_text(SlotType::Number, "4".to_string(), Some(number));
    assert_eq!(some.to_text(), "4");
    let array = default_from_text(SlotType::Array, "[]".to_string(), None);
    assert!(matches!(array, SlotValue::Array(items) if items.is_empty()));
    let filled = default_from_text(SlotType::Array, "[1]".to_string(), None);
    assert!(matches!(filled, SlotValue::Null));
    let object = default_from_text(SlotType::Object, "{}".to_string(), None);
    assert!(matches!(object, SlotValue::Null));
}

fn island_module(props_mode: u8, ids: &[u16]) -> IrModule {
    let mut opcodes: Vec<u8> = vec![];
    for id in ids {
        opcodes.push(0x0B);
        opcodes.extend_from_slice(&id.to_le_bytes());
        opcodes.extend_from_slice(&encode_open_tag(0, &[]));
        opcodes.extend_from_slice(&encode_close_tag(0));
        opcodes.push(0x0C);
        opcodes.extend_from_slice(&id.to_le_bytes());
    }
    let islands: Vec<(u16, u8, u8, u32, u32, &[u16])> = ids
        .iter()
        .map(|id| (*id, 0x02, props_mode, 1, 0, &[0u16, 1][..]))
        .collect();
    let data = build_minimal_ir(
        &["div", "Comp", "zeta", "alpha"],
        &[(0, 2, 0x01, 0x00, &[]), (1, 3, 0x05, 0x00, &[])],
        &opcodes,
        &islands,
    );
    IrModule::parse(&data).unwrap()
}

fn island_slots() -> SlotData {
    let mut slots = SlotData::new(2);
    slots.set(0, SlotValue::Text("a\"b".to_string()));
    slots.set(
        1,
        SlotValue::Object(vec![
            ("y".to_string(), SlotValue::Array(vec![SlotValue::Null])),
            (
                "x".to_string(),
                SlotValue::Number(SlotNumber {
                    bits: 1.5f64.to_bits(),
                    text: "1.5".to_string(),
                }),
            ),
        ]),
    );
    slots
}

#[test]
fn inline_props_are_written_as_json() {
    let html = walk_to_html(&island_module(0x01, &[0]), &island_slots()).unwrap();
    assert_eq!(
        html,
        "<!--f:i0--><div data-forma-island=\"0\" data-forma-component=\"Comp\" \
         data-forma-status=\"pending\" data-forma-hydrate=\"visible\" \
         data-forma-props=\"{&quot;alpha&quot;:{&quot;x&quot;:1.5,&quot;y&quot;:[null]},\
         &quot;zeta&quot;:&quot;a\\&quot;b&quot;}\"></div><!--/f:i0-->"
    );
}

#[test]
fn script_props_are_written_by_id() {
    let html = walk_to_html(&island_module(0x02, &[10, 2]), &island_slots()).unwrap();
    let props = r#"{"alpha":{"x":1.5,"y":[null]},"zeta":"a\"b"}"#;
    let script = format!(
        "<script id=\"__forma_islands\" type=\"application/json\">{{\"2\":{props},\"10\":{props}}}</script>"
    );
    assert!(html.ends_with(&script), "got: {html}");
}

#[test]
fn island_attributes_and_script_take_written_json() {
    let mut out = String::new();
    push_island_attrs(&mut out, 7, "A&B", IslandTrigger::Idle, Some("{\"a\":\"<\"}"));
    assert_eq!(
        out,
        " data-forma-island=\"7\" data-forma-component=\"A&amp;B\" data-forma-status=\"pending\" \
         data-forma-hydrate=\"idle\" data-forma-props=\"{&quot;a&quot;:&quot;&lt;&quot;}\""
    );
    let mut out = String::new();
    push_json_script(&mut out, "{\"a\":\"</script>\"}");
    assert_eq!(
        out,
        "<script id=\"__forma_islands\" type=\"application/json\">{\"a\":\"<\\/script>\"}</script>"
    );
}

#[test]
fn render_reports_the_stage_that_failed() {
    let mut opcodes = vec![0x05];
    opcodes.extend_from_slice(&[0, 0, 3, 0]);
    let data = build_minimal_ir(&["name"], &[(0, 0, 0x01, 0x00, &[])], &opcodes, &[]);
    assert_eq!(
        render(&data, r#"{"name": "<Ada>"}"#).unwrap(),
        "<!--f:t3-->&lt;Ada&gt;<!--/f:t3-->"
    );
    assert_eq!(
        render(b"FMIR", "{}").unwrap_err(),
        "IR parse: buffer too short: expected at least 16 bytes, got 4"
    );
    assert_eq!(
        render(&data, "[]").unwrap_err(),
        "slots: JSON parse error: expected JSON object"
    );
    let broken = build_minimal_ir(&["name"], &[], &[0x7f], &[]);
    assert_eq!(render(&broken, "{}").unwrap_err(), "walk: invalid opcode: 0x7f");
    assert_eq!(
        render_island(&data, "{}", 4).unwrap_err(),
        "walk island: island with id 4 not found in island table"
    );
}

#[test]
fn render_island_gives_its_content() {
    let mut opcodes = encode_text(2);
    let offset = opcodes.len() as u32;
    opcodes.extend_from_slice(&[0x0B, 5, 0]);
    opcodes.extend_from_slice(&encode_open_tag(0, &[]));
    opcodes.extend_from_slice(&[0x05, 0, 0, 1, 0]);
    opcodes.extend_from_slice(&encode_close_tag(0));
    opcodes.extend_from_slice(&[0x0C, 5, 0]);
    let data = build_minimal_ir(
        &["b", "who", "outside"],
        &[(0, 1, 0x01, 0x00, b"me")],
        &opcodes,
        &[(5, 0x01, 0x01, 1, offset, &[])],
    );
    assert_eq!(
        render_island(&data, "{}", 5).unwrap(),
        "<b><!--f:t1-->me<!--/f:t1--></b>"
    );
}
