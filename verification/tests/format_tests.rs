//! The fixed-size structures of the format.

use forma::format::{
    IrError, IrHeader, IslandTrigger, Opcode, PropsMode, SectionDescriptor, SectionTable, SlotSource,
    SlotType, HEADER_SIZE, MAGIC, SECTION_TABLE_SIZE,
};

/// Build a valid 16-byte FMIR header.
fn make_header(version: u16, flags: u16, source_hash: u64) -> Vec<u8> {
    let mut buf = Vec::with_capacity(HEADER_SIZE);
    buf.extend_from_slice(&MAGIC);
    buf.extend_from_slice(&version.to_le_bytes());
    buf.extend_from_slice(&flags.to_le_bytes());
    buf.extend_from_slice(&source_hash.to_le_bytes());
    buf
}

#[test]
fn parse_valid_header() {
    let data = make_header(2, 0, 0xDEAD_BEEF_CAFE_BABE);
    let hdr = IrHeader::parse(&data).unwrap();
    assert_eq!(hdr.version, 2);
    assert_eq!(hdr.flags, 0);
    assert_eq!(hdr.source_hash, 0xDEAD_BEEF_CAFE_BABE);
}

#[test]
fn reject_bad_magic() {
    let mut data = make_header(2, 0, 0);
    data[0..4].copy_from_slice(b"NOPE");
    let err = IrHeader::parse(&data).unwrap_err();
    assert_eq!(err, IrError::BadMagic(*b"NOPE"));
}

#[test]
fn reject_unsupported_version() {
    let data = make_header(99, 0, 0);
    let err = IrHeader::parse(&data).unwrap_err();
    assert_eq!(err, IrError::UnsupportedVersion(99));
}

/// Build a 32-byte section table from four (offset, size) pairs.
fn make_section_table(sections: [(u32, u32); 4]) -> Vec<u8> {
    let mut buf = Vec::with_capacity(SECTION_TABLE_SIZE);
    for (offset, size) in &sections {
        buf.extend_from_slice(&offset.to_le_bytes());
        buf.extend_from_slice(&size.to_le_bytes());
    }
    buf
}

#[test]
fn parse_section_table() {
    let data = make_section_table([
        (48, 100),  // bytecode
        (148, 200), // string table
        (348, 50),  // slot table
        (398, 30),  // island table
    ]);
    let st = SectionTable::parse(&data).unwrap();
    assert_eq!(st.sections[0], SectionDescriptor { offset: 48, size: 100 });
    assert_eq!(st.sections[1], SectionDescriptor { offset: 148, size: 200 });
    assert_eq!(st.sections[2], SectionDescriptor { offset: 348, size: 50 });
    assert_eq!(st.sections[3], SectionDescriptor { offset: 398, size: 30 });
}

#[test]
fn validate_section_bounds() {
    let data = make_section_table([
        (48, 100),
        (148, 200),
        (348, 50),
        (398, 9999), // way past end
    ]);
    let st = SectionTable::parse(&data).unwrap();
    let err = st.validate(500).unwrap_err();
    assert_eq!(
        err,
        IrError::SectionOutOfBounds {
            section: 3,
            offset: 398,
            size: 9999,
            file_len: 500,
        }
    );
}

#[test]
fn opcode_from_byte_all_valid() {
    let expected = [
        (0x01, Opcode::OpenTag),
        (0x02, Opcode::CloseTag),
        (0x03, Opcode::VoidTag),
        (0x04, Opcode::Text),
        (0x05, Opcode::DynText),
        (0x06, Opcode::DynAttr),
        (0x07, Opcode::ShowIf),
        (0x08, Opcode::ShowElse),
        (0x09, Opcode::Switch),
        (0x0A, Opcode::List),
        (0x0B, Opcode::IslandStart),
        (0x0C, Opcode::IslandEnd),
        (0x0D, Opcode::TryStart),
        (0x0E, Opcode::Fallback),
        (0x0F, Opcode::Preload),
        (0x10, Opcode::Comment),
        (0x11, Opcode::ListItemKey),
        (0x12, Opcode::Prop),
    ];
    for (byte, op) in &expected {
        assert_eq!(Opcode::from_byte(*byte).unwrap(), *op, "byte 0x{byte:02x}");
    }
}

#[test]
fn opcode_from_byte_invalid() {
    assert_eq!(Opcode::from_byte(0x00).unwrap_err(), IrError::InvalidOpcode(0x00));
    assert_eq!(Opcode::from_byte(0x13).unwrap_err(), IrError::InvalidOpcode(0x13));
    assert_eq!(Opcode::from_byte(0xFF).unwrap_err(), IrError::InvalidOpcode(0xFF));
}

#[test]
fn slot_type_from_byte() {
    let expected = [
        (0x01, SlotType::Text),
        (0x02, SlotType::Bool),
        (0x03, SlotType::Number),
        (0x04, SlotType::Array),
        (0x05, SlotType::Object),
    ];
    for (byte, st) in &expected {
        assert_eq!(SlotType::from_byte(*byte).unwrap(), *st, "byte 0x{byte:02x}");
    }
    assert_eq!(
        SlotType::from_byte(0x00).unwrap_err(),
        IrError::InvalidSlotType(0x00)
    );
    assert_eq!(
        SlotType::from_byte(0x06).unwrap_err(),
        IrError::InvalidSlotType(0x06)
    );
}

#[test]
fn island_trigger_from_byte() {
    let expected = [
        (0x01, IslandTrigger::Load),
        (0x02, IslandTrigger::Visible),
        (0x03, IslandTrigger::Interaction),
        (0x04, IslandTrigger::Idle),
    ];
    for (byte, trigger) in &expected {
        assert_eq!(
            IslandTrigger::from_byte(*byte).unwrap(),
            *trigger,
            "byte 0x{byte:02x}"
        );
    }
    assert_eq!(
        IslandTrigger::from_byte(0x00).unwrap_err(),
        IrError::InvalidIslandTrigger(0x00)
    );
    assert_eq!(
        IslandTrigger::from_byte(0x05).unwrap_err(),
        IrError::InvalidIslandTrigger(0x05)
    );
}

#[test]
fn props_mode_from_byte() {
    let expected = [
        (0x01, PropsMode::Inline),
        (0x02, PropsMode::ScriptTag),
        (0x03, PropsMode::Deferred),
    ];
    for (byte, mode) in &expected {
        assert_eq!(
            PropsMode::from_byte(*byte).unwrap(),
            *mode,
            "byte 0x{byte:02x}"
        );
    }
    assert_eq!(
        PropsMode::from_byte(0x00).unwrap_err(),
        IrError::InvalidPropsMode(0x00)
    );
    assert_eq!(
        PropsMode::from_byte(0x04).unwrap_err(),
        IrError::InvalidPropsMode(0x04)
    );
}

#[test]
fn slot_source_from_byte() {
    assert_eq!(SlotSource::from_byte(0x00).unwrap(), SlotSource::Server);
    assert_eq!(SlotSource::from_byte(0x01).unwrap(), SlotSource::Client);
    assert_eq!(
        SlotSource::from_byte(0x02).unwrap_err(),
        IrError::InvalidSlotSource(0x02)
    );
    assert_eq!(
        SlotSource::from_byte(0xFF).unwrap_err(),
        IrError::InvalidSlotSource(0xFF)
    );
}
