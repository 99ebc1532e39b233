//! Slot values and slot data.

use forma::format::IrError;
use forma::parser::test_helpers::{build_minimal_ir, encode_text};
use forma::parser::{IrModule, SlotTable};
use forma::slot::{SlotData, SlotValue};
use forma::SlotNumber;

/// A slot value that holds a number.
fn number(x: f64) -> SlotValue {
    SlotValue::Number(SlotNumber {
        bits: x.to_bits(),
        text: x.to_string(),
    })
}

/// Build valid v2 slot table binary data from a slice of
/// (slot_id, name_str_idx, type_hint_byte, source_byte, default_bytes).
fn build_slot_table_bytes(entries: &[(u16, u32, u8, u8, &[u8])]) -> Vec<u8> {
    let mut buf = Vec::new();
    buf.extend_from_slice(&(entries.len() as u16).to_le_bytes());
    for &(slot_id, name_str_idx, type_hint, source, default_bytes) in entries {
        buf.extend_from_slice(&slot_id.to_le_bytes());
        buf.extend_from_slice(&name_str_idx.to_le_bytes());
        buf.push(type_hint);
        buf.push(source);
        buf.extend_from_slice(&(default_bytes.len() as u16).to_le_bytes());
        buf.extend_from_slice(default_bytes);
    }
    buf
}

#[test]
fn slot_value_text_to_text() {
    assert_eq!(SlotValue::Text("hello".to_string()).to_text(), "hello");
}

#[test]
fn slot_value_bool_to_text() {
    assert_eq!(SlotValue::Bool(true).to_text(), "true");
    assert_eq!(SlotValue::Bool(false).to_text(), "false");
}

#[test]
fn slot_value_number_integer() {
    assert_eq!(number(42.0).to_text(), "42");
}

#[test]
fn slot_value_number_float() {
    assert_eq!(number(3.15).to_text(), "3.15");
}

#[test]
fn slot_value_null_to_text() {
    assert_eq!(SlotValue::Null.to_text(), "");
}

#[test]
fn slot_value_as_bool_truthy() {
    assert!(SlotValue::Text("x".to_string()).as_bool());
    assert!(number(1.0).as_bool());
    assert!(SlotValue::Bool(true).as_bool());
    assert!(SlotValue::Array(vec![SlotValue::Null]).as_bool());
    assert!(SlotValue::Object(vec![]).as_bool());
}

#[test]
fn slot_value_as_bool_falsy() {
    assert!(!SlotValue::Null.as_bool());
    assert!(!SlotValue::Text("".to_string()).as_bool());
    assert!(!number(0.0).as_bool());
    assert!(!SlotValue::Bool(false).as_bool());
    assert!(!SlotValue::Array(vec![]).as_bool());
}

#[test]
fn slot_value_as_array() {
    let arr = SlotValue::Array(vec![SlotValue::Text("a".to_string())]);
    assert!(arr.as_array().is_some());
    assert_eq!(arr.as_array().unwrap().len(), 1);

    assert!(SlotValue::Null.as_array().is_none());
    assert!(SlotValue::Text("x".to_string()).as_array().is_none());
    assert!(number(1.0).as_array().is_none());
    assert!(SlotValue::Bool(true).as_array().is_none());
    assert!(SlotValue::Object(vec![]).as_array().is_none());
}

#[test]
fn slot_data_set_and_get() {
    let mut data = SlotData::new(4);
    data.set(0, SlotValue::Text("title".to_string()));
    data.set(2, number(99.0));

    assert_eq!(data.get(0).to_text(), "title");
    assert_eq!(data.get(2).to_text(), "99");
    // Unset slots remain Null
    assert_eq!(data.get(1).to_text(), "");
}

#[test]
fn slot_data_out_of_bounds() {
    let data = SlotData::new(2);
    // Beyond capacity returns Null
    assert_eq!(data.get(5).to_text(), "");
    assert!(!data.get(100).as_bool());
}

#[test]
fn slot_data_get_text() {
    let mut data = SlotData::new(3);
    data.set(0, SlotValue::Text("hello".to_string()));
    data.set(1, number(42.0));

    assert_eq!(data.get_text(0), Some("hello"));
    assert_eq!(data.get_text(1), None); // Number, not Text
    assert_eq!(data.get_text(2), None); // Null, not Text
}

#[test]
fn slot_data_new_from_defaults_basic() {
    // Build a v2 slot table with 3 slots:
    // Slot 0: Array, Server, default "[]"
    // Slot 1: Bool, Client, default "false"
    // Slot 2: Text, Client, default "hello"
    let bytes = build_slot_table_bytes(&[
        (0, 0, 0x04, 0x00, b"[]"),    // Array, Server, default "[]"
        (1, 1, 0x02, 0x01, b"false"), // Bool, Client, default "false"
        (2, 2, 0x01, 0x01, b"hello"), // Text, Client, default "hello"
    ]);
    let table = SlotTable::parse(&bytes).unwrap();
    let data = SlotData::new_from_defaults(&table);

    // Slot 0: Array with default "[]" -> empty array
    assert!(matches!(data.get(0), SlotValue::Array(v) if v.is_empty()));
    // Slot 1: Bool with default "false" -> Bool(false)
    assert!(matches!(data.get(1), SlotValue::Bool(false)));
    // Slot 2: Text with default "hello" -> Text("hello")
    assert_eq!(data.get_text(2), Some("hello"));
}

#[test]
fn slot_data_new_from_defaults_empty_table() {
    // Empty slot table -> empty SlotData
    let bytes = build_slot_table_bytes(&[]);
    let table = SlotTable::parse(&bytes).unwrap();
    let data = SlotData::new_from_defaults(&table);

    // Out of bounds returns Null
    assert!(matches!(data.get(0), SlotValue::Null));
}

#[test]
fn slot_data_new_from_defaults_no_default_bytes() {
    // Slot with empty default_bytes -> Null
    let bytes = build_slot_table_bytes(&[
        (0, 0, 0x01, 0x00, b""), // Text, Server, no default
        (1, 1, 0x03, 0x01, b""), // Number, Client, no default
    ]);
    let table = SlotTable::parse(&bytes).unwrap();
    let data = SlotData::new_from_defaults(&table);

    assert!(matches!(data.get(0), SlotValue::Null));
    assert!(matches!(data.get(1), SlotValue::Null));
}

#[test]
fn slot_data_new_from_defaults_number() {
    // Verify Number parsing
    let bytes = build_slot_table_bytes(&[
        (0, 0, 0x03, 0x00, b"42"),   // Number, Server, default "42"
        (1, 1, 0x03, 0x01, b"3.15"), // Number, Client, default "3.15"
        (2, 2, 0x03, 0x00, b"nope"), // Number, Server, invalid default
    ]);
    let table = SlotTable::parse(&bytes).unwrap();
    let data = SlotData::new_from_defaults(&table);

    assert!(matches!(data.get(0), SlotValue::Number(n) if (f64::from_bits(n.bits) - 42.0).abs() < f64::EPSILON));
    assert!(matches!(data.get(1), SlotValue::Number(n) if (f64::from_bits(n.bits) - 3.15).abs() < f64::EPSILON));
    // Invalid number -> Null
    assert!(matches!(data.get(2), SlotValue::Null));
}

#[test]
fn slot_data_new_from_defaults_bool_true() {
    let bytes = build_slot_table_bytes(&[
        (0, 0, 0x02, 0x00, b"true"), // Bool, Server, default "true"
    ]);
    let table = SlotTable::parse(&bytes).unwrap();
    let data = SlotData::new_from_defaults(&table);

    assert!(matches!(data.get(0), SlotValue::Bool(true)));
}

#[test]
fn slot_data_new_from_defaults_object_ignored() {
    // Object type always yields Null even with default bytes
    let bytes = build_slot_table_bytes(&[
        (0, 0, 0x05, 0x00, b"{}"), // Object, Server, default "{}"
    ]);
    let table = SlotTable::parse(&bytes).unwrap();
    let data = SlotData::new_from_defaults(&table);

    assert!(matches!(data.get(0), SlotValue::Null));
}


/// Helper to build an IrModule with slots whose names are in the string table.
fn build_module_for_json(
    strings: &[&str],
    slot_decls: &[(u16, u32, u8, u8, &[u8])],
) -> IrModule {
    // Minimal opcodes: just a TEXT referencing string 0
    let opcodes = encode_text(0);
    let data = build_minimal_ir(strings, slot_decls, &opcodes, &[]);
    IrModule::parse(&data).unwrap()
}

#[test]
fn from_json_basic() {
    // strings: 0="title", 1="count"
    // slot 0: name_str_idx=0 (title), type=Text
    // slot 1: name_str_idx=1 (count), type=Number
    let module = build_module_for_json(
        &["title", "count"],
        &[
            (0, 0, 0x01, 0x00, &[]), // slot_id=0, name="title", Text, Server
            (1, 1, 0x03, 0x00, &[]), // slot_id=1, name="count", Number, Server
        ],
    );

    let data = SlotData::from_json(r#"{"title": "Hello", "count": 42}"#, &module).unwrap();
    assert_eq!(data.get(0).to_text(), "Hello");
    assert_eq!(data.get(1).to_text(), "42");
}

#[test]
fn from_json_missing_key_uses_default() {
    // slot 0: name="greeting", Text, default "hi"
    let module = build_module_for_json(
        &["greeting"],
        &[
            (0, 0, 0x01, 0x00, b"hi"), // slot_id=0, name="greeting", Text, Server, default "hi"
        ],
    );

    // JSON does not contain "greeting" key
    let data = SlotData::from_json(r#"{}"#, &module).unwrap();
    assert_eq!(data.get(0).to_text(), "hi");
}

#[test]
fn from_json_null_value() {
    let module = build_module_for_json(
        &["name"],
        &[(0, 0, 0x01, 0x00, &[])],
    );

    let data = SlotData::from_json(r#"{"name": null}"#, &module).unwrap();
    assert!(matches!(data.get(0), SlotValue::Null));
}

#[test]
fn from_json_bool_values() {
    let module = build_module_for_json(
        &["active", "hidden"],
        &[
            (0, 0, 0x02, 0x00, &[]), // Bool
            (1, 1, 0x02, 0x00, &[]), // Bool
        ],
    );

    let data = SlotData::from_json(r#"{"active": true, "hidden": false}"#, &module).unwrap();
    assert!(matches!(data.get(0), SlotValue::Bool(true)));
    assert!(matches!(data.get(1), SlotValue::Bool(false)));
}

#[test]
fn from_json_array() {
    let module = build_module_for_json(
        &["items"],
        &[(0, 0, 0x04, 0x00, &[])], // Array
    );

    let data = SlotData::from_json(r#"{"items": ["a", "b", 3]}"#, &module).unwrap();
    if let SlotValue::Array(arr) = data.get(0) {
        assert_eq!(arr.len(), 3);
        assert_eq!(arr[0].to_text(), "a");
        assert_eq!(arr[1].to_text(), "b");
        assert_eq!(arr[2].to_text(), "3");
    } else {
        panic!("expected Array, got {:?}", data.get(0));
    }
}

#[test]
fn from_json_nested_object() {
    let module = build_module_for_json(
        &["config"],
        &[(0, 0, 0x05, 0x00, &[])], // Object
    );

    let data = SlotData::from_json(r#"{"config": {"key": "value", "n": 7}}"#, &module).unwrap();
    if let SlotValue::Object(pairs) = data.get(0) {
        assert_eq!(pairs.len(), 2);
        assert_eq!(pairs[0].0, "key");
        assert_eq!(pairs[0].1.to_text(), "value");
        assert_eq!(pairs[1].0, "n");
        assert_eq!(pairs[1].1.to_text(), "7");
    } else {
        panic!("expected Object, got {:?}", data.get(0));
    }
}

#[test]
fn from_json_unknown_key_ignored() {
    let module = build_module_for_json(
        &["title"],
        &[(0, 0, 0x01, 0x00, &[])],
    );

    // "extra_key" is not in the slot table — should be silently ignored
    let data = SlotData::from_json(r#"{"title": "Hi", "extra_key": "ignored"}"#, &module).unwrap();
    assert_eq!(data.get(0).to_text(), "Hi");
}

#[test]
fn from_json_invalid_json() {
    let module = build_module_for_json(
        &["x"],
        &[(0, 0, 0x01, 0x00, &[])],
    );

    let result = SlotData::from_json(r#"not valid json"#, &module);
    assert!(result.is_err());
    match result.unwrap_err() {
        IrError::JsonParseError(_) => {} // expected
        other => panic!("expected JsonParseError, got {other:?}"),
    }
}
