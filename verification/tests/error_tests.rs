//! Every error, on an input that gives it, and its message.

use forma::format::{
    IrError, IrHeader, IslandTrigger, Opcode, PropsMode, SectionTable, SlotSource, SlotType,
};
use forma::parser::test_helpers::{
    build_island_table, build_minimal_ir, build_slot_table, build_string_table, encode_list,
    encode_open_tag, encode_show_if, encode_text,
};
use forma::parser::{IrModule, IslandTableParsed, SlotTable, StringTable};
use forma::slot::{SlotData, SlotValue};
use forma::walker::{walk_island, walk_to_html};

fn parse(strings: &[&str], opcodes: &[u8], islands: &[(u16, u8, u8, u32, u32, &[u16])]) -> IrModule {
    IrModule::parse(&build_minimal_ir(strings, &[], opcodes, islands)).unwrap()
}

#[test]
fn messages_of_every_error() {
    let cases = vec![
        (
            IrError::BufferTooShort { expected: 16, actual: 3 },
            "buffer too short: expected at least 16 bytes, got 3",
        ),
        (IrError::BadMagic(*b"NOPE"), "bad magic: expected FMIR, got [78, 79, 80, 69]"),
        (IrError::UnsupportedVersion(99), "unsupported IR version: 99 (expected 2)"),
        (IrError::ReservedFlags(0x1a), "reserved header flags are set: 0x001a"),
        (
            IrError::SectionOutOfBounds { section: 1, offset: 10, size: 20, file_len: 25 },
            "section 1 out of bounds: offset=10, size=20, file_len=25",
        ),
        (IrError::InvalidOpcode(0), "invalid opcode: 0x00"),
        (IrError::InvalidSlotType(0xab), "invalid slot type: 0xab"),
        (IrError::InvalidIslandTrigger(5), "invalid island trigger: 0x05"),
        (IrError::InvalidPropsMode(0x10), "invalid props mode: 0x10"),
        (IrError::InvalidSlotSource(0xff), "invalid slot source: 0xff"),
        (
            IrError::StringIndexOutOfBounds { index: 7, len: 2 },
            "string index 7 out of bounds (table has 2 entries)",
        ),
        (IrError::InvalidUtf8("bad".to_string()), "invalid UTF-8: bad"),
        (IrError::ListDepthExceeded { max: 4 }, "nested LIST depth exceeded maximum of 4"),
        (IrError::RecursionLimitExceeded, "recursion limit exceeded"),
        (IrError::IslandNotFound(65535), "island with id 65535 not found in island table"),
        (IrError::JsonParseError("no".to_string()), "JSON parse error: no"),
    ];
    for (error, message) in cases {
        assert_eq!(error.message(), message);
    }
}

#[test]
fn reserved_flags_are_rejected() {
    let mut data = build_minimal_ir(&["a"], &[], &[], &[]);
    assert!(IrHeader::parse(&data).is_ok());
    data[7] = 0x80;
    assert_eq!(IrHeader::parse(&data).unwrap_err(), IrError::ReservedFlags(0x8000));
    assert_eq!(IrModule::parse(&data).unwrap_err(), IrError::ReservedFlags(0x8000));
    data[6] = 1;
    data[7] = 0;
    assert_eq!(IrHeader::parse(&data).unwrap_err(), IrError::ReservedFlags(1));
    data[4] = 9;
    assert_eq!(IrHeader::parse(&data).unwrap_err(), IrError::UnsupportedVersion(9));
}

#[test]
fn unknown_bytes_are_rejected() {
    assert_eq!(Opcode::from_byte(0x13).unwrap_err(), IrError::InvalidOpcode(0x13));
    assert_eq!(SlotType::from_byte(0).unwrap_err(), IrError::InvalidSlotType(0));
    assert_eq!(IslandTrigger::from_byte(9).unwrap_err(), IrError::InvalidIslandTrigger(9));
    assert_eq!(PropsMode::from_byte(4).unwrap_err(), IrError::InvalidPropsMode(4));
    assert_eq!(SlotSource::from_byte(2).unwrap_err(), IrError::InvalidSlotSource(2));
}

#[test]
fn short_buffers_are_rejected() {
    assert_eq!(
        IrHeader::parse(b"FMI").unwrap_err(),
        IrError::BufferTooShort { expected: 16, actual: 3 }
    );
    assert_eq!(
        SectionTable::parse(&[0; 31]).unwrap_err(),
        IrError::BufferTooShort { expected: 32, actual: 31 }
    );
    let whole = build_minimal_ir(&["a"], &[], &[], &[]);
    assert_eq!(
        IrModule::parse(&whole[..40]).unwrap_err(),
        IrError::BufferTooShort { expected: 48, actual: 40 }
    );
    assert_eq!(
        IrModule::parse(&whole[..whole.len() - 1]).unwrap_err(),
        IrError::SectionOutOfBounds {
            section: 3,
            offset: whole.len() as u32 - 2,
            size: 2,
            file_len: whole.len() - 1,
        }
    );
}

#[test]
fn short_tables_are_rejected() {
    assert_eq!(
        StringTable::parse(&[1, 0]).unwrap_err(),
        IrError::BufferTooShort { expected: 4, actual: 2 }
    );
    assert_eq!(
        StringTable::parse(&[200, 0, 0, 0]).unwrap_err(),
        IrError::BufferTooShort { expected: 200, actual: 4 }
    );
    assert_eq!(
        StringTable::parse(&[1, 0, 0, 0, 5]).unwrap_err(),
        IrError::BufferTooShort { expected: 6, actual: 5 }
    );
    assert_eq!(
        StringTable::parse(&[1, 0, 0, 0, 5, 0, 65]).unwrap_err(),
        IrError::BufferTooShort { expected: 11, actual: 7 }
    );
    assert_eq!(
        SlotTable::parse(&[]).unwrap_err(),
        IrError::BufferTooShort { expected: 2, actual: 0 }
    );
    let slots = build_slot_table(&[(0, 0, 1, 0, b"xyz")]);
    assert_eq!(
        SlotTable::parse(&slots[..11]).unwrap_err(),
        IrError::BufferTooShort { expected: 12, actual: 11 }
    );
    assert_eq!(
        SlotTable::parse(&slots[..14]).unwrap_err(),
        IrError::BufferTooShort { expected: 15, actual: 14 }
    );
    let islands = build_island_table(&[(0, 1, 1, 0, 0, &[1, 2])]);
    assert_eq!(
        IslandTableParsed::parse(&islands[..15]).unwrap_err(),
        IrError::BufferTooShort { expected: 16, actual: 15 }
    );
    assert_eq!(
        IslandTableParsed::parse(&islands[..19]).unwrap_err(),
        IrError::BufferTooShort { expected: 20, actual: 19 }
    );
}

#[test]
fn text_that_is_not_utf8_is_rejected() {
    let err = StringTable::parse(&[1, 0, 0, 0, 2, 0, 0xff, 0xfe]).unwrap_err();
    assert_eq!(
        err,
        IrError::InvalidUtf8("invalid utf-8 sequence of 1 bytes from index 0".to_string())
    );
}

#[test]
fn the_first_bad_byte_of_an_entry_is_reported() {
    assert_eq!(
        SlotTable::parse(&build_slot_table(&[(0, 0, 9, 9, &[])])).unwrap_err(),
        IrError::InvalidSlotType(9)
    );
    assert_eq!(
        IslandTableParsed::parse(&build_island_table(&[(0, 9, 8, 0, 0, &[])])).unwrap_err(),
        IrError::InvalidIslandTrigger(9)
    );
    assert_eq!(
        IslandTableParsed::parse(&build_island_table(&[(0, 1, 8, 0, 0, &[])])).unwrap_err(),
        IrError::InvalidPropsMode(8)
    );
}

#[test]
fn names_outside_the_string_table_are_rejected() {
    let slot = build_minimal_ir(&["a"], &[(0, 3, 1, 0, &[])], &[], &[]);
    assert_eq!(
        IrModule::parse(&slot).unwrap_err(),
        IrError::StringIndexOutOfBounds { index: 3, len: 1 }
    );
    let island = build_minimal_ir(&["a"], &[], &[], &[(0, 1, 1, 2, 0, &[])]);
    assert_eq!(
        IrModule::parse(&island).unwrap_err(),
        IrError::StringIndexOutOfBounds { index: 2, len: 1 }
    );
}

fn nested_show_ifs(levels: usize) -> Vec<u8> {
    let mut ops = encode_text(0);
    for _ in 0..levels {
        ops = encode_show_if(0, &ops, &[]);
    }
    ops
}

#[test]
fn recursion_is_limited_to_its_depth() {
    let mut slots = SlotData::new(1);
    slots.set(0, SlotValue::Bool(true));
    let deepest = walk_to_html(&parse(&["deep"], &nested_show_ifs(64), &[]), &slots).unwrap();
    assert!(deepest.contains("deep"));
    assert_eq!(
        walk_to_html(&parse(&["deep"], &nested_show_ifs(65), &[]), &slots).unwrap_err(),
        IrError::RecursionLimitExceeded
    );
}

fn nested_lists(levels: usize) -> Vec<u8> {
    let mut ops = encode_text(0);
    for _ in 0..levels {
        ops = encode_list(0, 1, &ops);
    }
    ops
}

#[test]
fn list_nesting_is_limited_to_its_depth() {
    let mut slots = SlotData::new(2);
    slots.set(0, SlotValue::Array(vec![SlotValue::Null, SlotValue::Null]));
    let four = walk_to_html(&parse(&["x"], &nested_lists(4), &[]), &slots).unwrap();
    assert_eq!(four.matches('x').count(), 16);
    assert_eq!(
        walk_to_html(&parse(&["x"], &nested_lists(5), &[]), &slots).unwrap_err(),
        IrError::ListDepthExceeded { max: 4 }
    );
    // Empty lists do not count.
    slots.set(0, SlotValue::Array(vec![]));
    assert_eq!(
        walk_to_html(&parse(&["x"], &nested_lists(5), &[]), &slots).unwrap(),
        "<!--f:l0--><!--/f:l0-->"
    );
}

#[test]
fn walks_stop_at_malformed_opcodes() {
    let slots = SlotData::new(0);
    assert_eq!(
        walk_to_html(&parse(&["x"], &[0x04, 0, 0], &[]), &slots).unwrap_err(),
        IrError::BufferTooShort { expected: 5, actual: 3 }
    );
    assert_eq!(
        walk_to_html(&parse(&["x"], &encode_text(9), &[]), &slots).unwrap_err(),
        IrError::StringIndexOutOfBounds { index: 9, len: 1 }
    );
    assert_eq!(
        walk_to_html(&parse(&["x"], &encode_open_tag(0, &[(0, 3)]), &[]), &slots).unwrap_err(),
        IrError::StringIndexOutOfBounds { index: 3, len: 1 }
    );
    assert_eq!(
        walk_to_html(&parse(&["x"], &[0x0F], &[]), &slots).unwrap_err(),
        IrError::BufferTooShort { expected: 2, actual: 1 }
    );
    // A branch that reaches past the stream.
    assert_eq!(
        walk_to_html(&parse(&["x"], &[0x07, 0, 0, 0, 0, 0, 0, 9, 0, 0, 0, 0x08], &[]), &slots)
            .unwrap_err(),
        IrError::BufferTooShort { expected: 13, actual: 12 }
    );
}

#[test]
fn islands_that_cannot_be_walked_are_reported() {
    let slots = SlotData::new(0);
    let text = encode_text(0);
    let module = parse(&["x"], &text, &[(0, 1, 1, 0, 0, &[]), (1, 1, 1, 0, 99, &[])]);
    assert_eq!(walk_island(&module, &slots, 7).unwrap_err(), IrError::IslandNotFound(7));
    assert_eq!(walk_island(&module, &slots, 0).unwrap_err(), IrError::InvalidOpcode(0x04));
    assert_eq!(
        walk_island(&module, &slots, 1).unwrap_err(),
        IrError::BufferTooShort { expected: 100, actual: 5 }
    );
    let cut = parse(&["x"], &[0x0B, 0], &[(0, 1, 1, 0, 0, &[])]);
    assert_eq!(
        walk_island(&cut, &slots, 0).unwrap_err(),
        IrError::BufferTooShort { expected: 3, actual: 2 }
    );
    let open = parse(&["x"], &[0x0B, 0, 0], &[(0, 1, 1, 0, 0, &[])]);
    assert_eq!(walk_island(&open, &slots, 0).unwrap_err(), IrError::IslandNotFound(0));
    let unknown = parse(&["x"], &[0x55], &[(0, 1, 1, 0, 0, &[])]);
    assert_eq!(walk_island(&unknown, &slots, 0).unwrap_err(), IrError::InvalidOpcode(0x55));
}

#[test]
fn string_tables_round_trip() {
    let strings = ["", "div", "\u{200B}\u{1F600}", "a\"b<c>"];
    let table = StringTable::parse(&build_string_table(&strings)).unwrap();
    assert_eq!(table.len(), 4);
    assert!(!table.is_empty());
    for (i, s) in strings.iter().enumerate() {
        assert_eq!(table.get(i as u32).unwrap(), *s);
    }
}
