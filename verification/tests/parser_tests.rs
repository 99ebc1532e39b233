//! The tables and the whole-file parser.

use forma::format::{IrError, IslandTrigger, PropsMode, SlotSource, SlotType};
use forma::parser::test_helpers::{
    build_island_table, build_minimal_ir, build_slot_table, build_string_table, encode_close_tag,
    encode_open_tag, encode_text,
};
use forma::parser::{IrModule, IslandTableParsed, SlotTable, StringTable};

#[test]
fn parse_string_table() {
    let data = build_string_table(&["div", "class", "container"]);
    let table = StringTable::parse(&data).unwrap();

    assert_eq!(table.len(), 3);
    assert_eq!(table.get(0).unwrap(), "div");
    assert_eq!(table.get(1).unwrap(), "class");
    assert_eq!(table.get(2).unwrap(), "container");

    // Out of bounds
    let err = table.get(3).unwrap_err();
    assert_eq!(err, IrError::StringIndexOutOfBounds { index: 3, len: 3 });
}

#[test]
fn parse_string_table_empty() {
    let data = build_string_table(&[]);
    let table = StringTable::parse(&data).unwrap();
    assert_eq!(table.len(), 0);
}

#[test]
fn parse_string_table_unicode() {
    let data = build_string_table(&["héllo"]);
    let table = StringTable::parse(&data).unwrap();

    assert_eq!(table.len(), 1);
    assert_eq!(table.get(0).unwrap(), "héllo");
}

#[test]
fn parse_string_table_truncated() {
    // Count says 2 strings but data is truncated after the first string's length prefix.
    let mut data = Vec::new();
    data.extend_from_slice(&2u32.to_le_bytes()); // count = 2
    data.extend_from_slice(&3u16.to_le_bytes()); // first string len = 3
    data.extend_from_slice(b"div"); // first string bytes
                                    // Second string is missing entirely

    let err = StringTable::parse(&data).unwrap_err();
    match err {
        IrError::BufferTooShort { .. } => {} // expected
        other => panic!("expected BufferTooShort, got {other:?}"),
    }
}

#[test]
fn parse_slot_table() {
    let data = build_slot_table(&[
        (1, 0, 0x01, 0x00, &[]), // slot_id=1, name_str_idx=0, type=Text, source=Server, no default
        (2, 1, 0x03, 0x01, &[0x42]), // slot_id=2, name_str_idx=1, type=Number, source=Client, 1-byte default
    ]);
    let table = SlotTable::parse(&data).unwrap();

    assert_eq!(table.len(), 2);

    let entries = table.entries();
    assert_eq!(entries[0].slot_id, 1);
    assert_eq!(entries[0].name_str_idx, 0);
    assert_eq!(entries[0].type_hint, SlotType::Text);
    assert_eq!(entries[0].source, SlotSource::Server);
    assert_eq!(entries[0].default_bytes, Vec::<u8>::new());

    assert_eq!(entries[1].slot_id, 2);
    assert_eq!(entries[1].name_str_idx, 1);
    assert_eq!(entries[1].type_hint, SlotType::Number);
    assert_eq!(entries[1].source, SlotSource::Client);
    assert_eq!(entries[1].default_bytes, vec![0x42]);
}

#[test]
fn parse_slot_table_empty() {
    let data = build_slot_table(&[]);
    let table = SlotTable::parse(&data).unwrap();
    assert_eq!(table.len(), 0);
}

#[test]
fn parse_island_table() {
    let data = build_island_table(&[
        (1, 0x02, 0x01, 5, 0, &[]), // id=1, trigger=Visible, props=Inline, name_str_idx=5, byte_offset=0, no slots
    ]);
    let table = IslandTableParsed::parse(&data).unwrap();

    assert_eq!(table.len(), 1);

    let entry = &table.entries()[0];
    assert_eq!(entry.id, 1);
    assert_eq!(entry.trigger, IslandTrigger::Visible);
    assert_eq!(entry.props_mode, PropsMode::Inline);
    assert_eq!(entry.name_str_idx, 5);
    assert_eq!(entry.slot_ids, Vec::<u16>::new());
}

#[test]
fn parse_island_table_with_slot_ids() {
    let data = build_island_table(&[
        (0, 0x01, 0x01, 0, 0, &[0, 1]), // id=0, Load, Inline, name=0, byte_offset=0, slots=[0, 1]
    ]);
    let table = IslandTableParsed::parse(&data).unwrap();
    assert_eq!(table.len(), 1);
    let entry = &table.entries()[0];
    assert_eq!(entry.id, 0);
    assert_eq!(entry.trigger, IslandTrigger::Load);
    assert_eq!(entry.props_mode, PropsMode::Inline);
    assert_eq!(entry.slot_ids, vec![0, 1]);
}

#[test]
fn parse_island_table_empty() {
    let data = build_island_table(&[]);
    let table = IslandTableParsed::parse(&data).unwrap();
    assert_eq!(table.len(), 0);
}

#[test]
fn parse_minimal_ir_file() {
    // 1 string ("div"), empty slots/islands, opcodes = [OPEN_TAG "div", CLOSE_TAG "div"]
    let mut opcodes = Vec::new();
    opcodes.extend_from_slice(&encode_open_tag(0, &[]));
    opcodes.extend_from_slice(&encode_close_tag(0));

    let data = build_minimal_ir(&["div"], &[], &opcodes, &[]);
    let module = IrModule::parse(&data).unwrap();

    assert_eq!(module.header.version, 2);
    assert_eq!(module.strings.get(0).unwrap(), "div");
    assert_eq!(module.strings.len(), 1);
    assert_eq!(module.slots.len(), 0);
    assert_eq!(module.islands.len(), 0);
    assert_eq!(module.opcodes.len(), opcodes.len());
}

#[test]
fn parse_ir_with_slots() {
    let opcodes = encode_text(0);
    let data = build_minimal_ir(
        &["greeting", "count", "Hello"],
        &[
            (1, 0, 0x01, 0x00, &[]), // slot_id=1, name="greeting", type=Text, source=Server
            (2, 1, 0x03, 0x00, &[]), // slot_id=2, name="count", type=Number, source=Server
        ],
        &opcodes,
        &[],
    );
    let module = IrModule::parse(&data).unwrap();

    assert_eq!(module.slots.len(), 2);
    let entries = module.slots.entries();
    assert_eq!(entries[0].slot_id, 1);
    assert_eq!(entries[0].name_str_idx, 0);
    assert_eq!(entries[0].type_hint, SlotType::Text);
    assert_eq!(entries[1].slot_id, 2);
    assert_eq!(entries[1].name_str_idx, 1);
    assert_eq!(entries[1].type_hint, SlotType::Number);
}

#[test]
fn parse_ir_with_islands() {
    let opcodes = encode_text(0);
    let data = build_minimal_ir(
        &["Counter", "Hello"],
        &[],
        &opcodes,
        &[
            (1, 0x01, 0x01, 0, 0, &[]), // id=1, trigger=Load, props=Inline, name="Counter", byte_offset=0, no slots
        ],
    );
    let module = IrModule::parse(&data).unwrap();

    assert_eq!(module.islands.len(), 1);
    let entry = &module.islands.entries()[0];
    assert_eq!(entry.id, 1);
    assert_eq!(entry.trigger, IslandTrigger::Load);
    assert_eq!(entry.props_mode, PropsMode::Inline);
    assert_eq!(entry.name_str_idx, 0);
    assert_eq!(module.strings.get(entry.name_str_idx).unwrap(), "Counter");
}

#[test]
fn parse_ir_rejects_truncated() {
    // File shorter than HEADER_SIZE (16 bytes)
    let data = b"FMIR\x02\x00";
    let err = IrModule::parse(data).unwrap_err();
    match err {
        IrError::BufferTooShort {
            expected: 16,
            actual: 6,
        } => {}
        other => panic!("expected BufferTooShort(16, 6), got {other:?}"),
    }
}

#[test]
fn parse_ir_rejects_bad_section_bounds() {
    // Build a valid file, then corrupt a section descriptor so it extends past EOF.
    let opcodes = encode_text(0);
    let mut data = build_minimal_ir(&["x"], &[], &opcodes, &[]);

    // Corrupt section 3 (island table) size to be huge.
    // Section table starts at offset 16. Section 3 is at 16 + 3*8 = 40.
    // Size field is at offset 44 (40 + 4).
    let big_size: u32 = 99999;
    data[44..48].copy_from_slice(&big_size.to_le_bytes());

    let err = IrModule::parse(&data).unwrap_err();
    match err {
        IrError::SectionOutOfBounds { section: 3, .. } => {}
        other => panic!("expected SectionOutOfBounds for section 3, got {other:?}"),
    }
}

#[test]
fn validate_catches_bad_slot_str_idx() {
    // Slot references string index 99, but only 3 strings exist.
    let opcodes = encode_text(0);
    let data = build_minimal_ir(
        &["a", "b", "c"],
        &[(1, 99, 0x01, 0x00, &[])], // name_str_idx=99, out of bounds
        &opcodes,
        &[],
    );
    let err = IrModule::parse(&data).unwrap_err();
    assert_eq!(err, IrError::StringIndexOutOfBounds { index: 99, len: 3 });
}

#[test]
fn validate_catches_bad_island_str_idx() {
    // Island references string index 99, but only 3 strings exist.
    let opcodes = encode_text(0);
    let data = build_minimal_ir(
        &["a", "b", "c"],
        &[],
        &opcodes,
        &[(1, 0x01, 0x01, 99, 0, &[])],
    );
    let err = IrModule::parse(&data).unwrap_err();
    assert_eq!(err, IrError::StringIndexOutOfBounds { index: 99, len: 3 });
}
