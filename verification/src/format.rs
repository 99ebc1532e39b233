//! FMIR binary format definitions and fixed-size parsers.
//!
//! Defines the on-disk layout for Forma Module IR files:
//! - 16-byte header (magic, version, flags, source hash)
//! - 32-byte section table (4 sections x 8 bytes each)
//! - Opcode, SlotType, IslandTrigger, PropsMode enums
//! - SlotEntry and IslandEntry structs
//!
//! All multi-byte integers are little-endian.

use vstd::prelude::*;

use crate::bytes;
use crate::text;

verus! {

// ---------------------------------------------------------------------------
// Constants
// ---------------------------------------------------------------------------

/// Magic bytes identifying an FMIR file: `FMIR`.
pub const MAGIC: [u8; 4] = [0x46, 0x4D, 0x49, 0x52];

/// Size of the file header in bytes.
pub const HEADER_SIZE: usize = 16;

/// Size of the section table in bytes (4 sections x 8 bytes).
pub const SECTION_TABLE_SIZE: usize = 32;

/// Current IR format version.
pub const IR_VERSION: u16 = 2;

// ---------------------------------------------------------------------------
// Error type
// ---------------------------------------------------------------------------

/// Errors that can occur when parsing or walking FMIR binary data.
#[derive(Debug, Clone, PartialEq, Eq)]
pub enum IrError {
    /// Input buffer is too short to contain the expected structure.
    BufferTooShort { expected: usize, actual: usize },
    /// Magic bytes do not match "FMIR".
    BadMagic([u8; 4]),
    /// IR version is not supported.
    UnsupportedVersion(u16),
    /// Reserved header flags are set.
    ReservedFlags(u16),
    /// A section extends beyond the file boundary.
    SectionOutOfBounds { section: usize, offset: u32, size: u32, file_len: usize },
    /// An opcode byte does not map to a known opcode.
    InvalidOpcode(u8),
    /// A slot-type byte does not map to a known slot type.
    InvalidSlotType(u8),
    /// An island-trigger byte does not map to a known trigger.
    InvalidIslandTrigger(u8),
    /// A props-mode byte does not map to a known mode.
    InvalidPropsMode(u8),
    /// A slot-source byte does not map to a known source.
    InvalidSlotSource(u8),
    /// A string index is out of bounds.
    StringIndexOutOfBounds { index: u32, len: usize },
    /// A byte sequence is not valid UTF-8.
    InvalidUtf8(String),
    /// Nested LIST depth exceeded the maximum allowed.
    ListDepthExceeded { max: u8 },
    /// Nested control flow exceeded the maximum recursion depth.
    RecursionLimitExceeded,
    /// An island with the given id was not found in the island table.
    IslandNotFound(u16),
    /// Failed to parse JSON input.
    JsonParseError(String),
}

/// What an [`IrError`] says, with texts as character sequences.
pub enum ErrorView {
    BufferTooShort { expected: int, actual: int },
    BadMagic(Seq<u8>),
    UnsupportedVersion(u16),
    ReservedFlags(u16),
    SectionOutOfBounds { section: int, offset: u32, size: u32, file_len: int },
    InvalidOpcode(u8),
    InvalidSlotType(u8),
    InvalidIslandTrigger(u8),
    InvalidPropsMode(u8),
    InvalidSlotSource(u8),
    StringIndexOutOfBounds { index: u32, len: int },
    InvalidUtf8(Seq<char>),
    ListDepthExceeded { max: u8 },
    RecursionLimitExceeded,
    IslandNotFound(u16),
    JsonParseError(Seq<char>),
}

impl View for IrError {
    type V = ErrorView;

    open spec fn view(&self) -> ErrorView {
        match *self {
            IrError::BufferTooShort { expected, actual } => ErrorView::BufferTooShort {
                expected: expected as int,
                actual: actual as int,
            },
            IrError::BadMagic(got) => ErrorView::BadMagic(got@),
            IrError::UnsupportedVersion(v) => ErrorView::UnsupportedVersion(v),
            IrError::ReservedFlags(flags) => ErrorView::ReservedFlags(flags),
            IrError::SectionOutOfBounds { section, offset, size, file_len } =>
                ErrorView::SectionOutOfBounds {
                section: section as int,
                offset,
                size,
                file_len: file_len as int,
            },
            IrError::InvalidOpcode(b) => ErrorView::InvalidOpcode(b),
            IrError::InvalidSlotType(b) => ErrorView::InvalidSlotType(b),
            IrError::InvalidIslandTrigger(b) => ErrorView::InvalidIslandTrigger(b),
            IrError::InvalidPropsMode(b) => ErrorView::InvalidPropsMode(b),
            IrError::InvalidSlotSource(b) => ErrorView::InvalidSlotSource(b),
            IrError::StringIndexOutOfBounds { index, len } => ErrorView::StringIndexOutOfBounds {
                index,
                len: len as int,
            },
            IrError::InvalidUtf8(words) => ErrorView::InvalidUtf8(words@),
            IrError::ListDepthExceeded { max } => ErrorView::ListDepthExceeded { max },
            IrError::RecursionLimitExceeded => ErrorView::RecursionLimitExceeded,
            IrError::IslandNotFound(id) => ErrorView::IslandNotFound(id),
            IrError::JsonParseError(words) => ErrorView::JsonParseError(words@),
        }
    }
}

/// The message of an error, as shown to people.
pub open spec fn error_text(e: ErrorView) -> Seq<char> {
    match e {
        ErrorView::BufferTooShort { expected, actual } =>
            "buffer too short: expected at least "@ + text::decimal(expected as nat)
            + " bytes, got "@ + text::decimal(actual as nat),
        ErrorView::BadMagic(got) => "bad magic: expected FMIR, got ["@ + text::decimal(
            got[0] as nat,
        ) + ", "@ + text::decimal(got[1] as nat) + ", "@ + text::decimal(got[2] as nat) + ", "@
            + text::decimal(got[3] as nat) + "]"@,
        ErrorView::UnsupportedVersion(v) => "unsupported IR version: "@ + text::decimal(v as nat)
            + " (expected "@ + text::decimal(IR_VERSION as nat) + ")"@,
        ErrorView::ReservedFlags(flags) => "reserved header flags are set: 0x"@ + text::hex(
            flags as nat,
            4,
        ),
        ErrorView::SectionOutOfBounds { section, offset, size, file_len } => "section "@
            + text::decimal(section as nat) + " out of bounds: offset="@ + text::decimal(
            offset as nat,
        ) + ", size="@ + text::decimal(size as nat) + ", file_len="@ + text::decimal(
            file_len as nat,
        ),
        ErrorView::InvalidOpcode(b) => "invalid opcode: 0x"@ + text::hex(b as nat, 2),
        ErrorView::InvalidSlotType(b) => "invalid slot type: 0x"@ + text::hex(b as nat, 2),
        ErrorView::InvalidIslandTrigger(b) => "invalid island trigger: 0x"@ + text::hex(
            b as nat,
            2,
        ),
        ErrorView::InvalidPropsMode(b) => "invalid props mode: 0x"@ + text::hex(b as nat, 2),
        ErrorView::InvalidSlotSource(b) => "invalid slot source: 0x"@ + text::hex(b as nat, 2),
        ErrorView::StringIndexOutOfBounds { index, len } => "string index "@ + text::decimal(
            index as nat,
        ) + " out of bounds (table has "@ + text::decimal(len as nat) + " entries)"@,
        ErrorView::InvalidUtf8(words) => "invalid UTF-8: "@ + words,
        ErrorView::ListDepthExceeded { max } => "nested LIST depth exceeded maximum of "@
            + text::decimal(max as nat),
        ErrorView::RecursionLimitExceeded => "recursion limit exceeded"@,
        ErrorView::IslandNotFound(id) => "island with id "@ + text::decimal(id as nat)
            + " not found in island table"@,
        ErrorView::JsonParseError(words) => "JSON parse error: "@ + words,
    }
}

impl IrError {
    /// The message of this error, as shown to people.
    pub fn message(&self) -> (res: String)
        ensures
            res@ == error_text(self@),
    {
        let mut out = String::new();
        match self {
            IrError::BufferTooShort { expected, actual } => {
                out.push_str("buffer too short: expected at least ");
                text::push_decimal(&mut out, *expected as u64);
                out.push_str(" bytes, got ");
                text::push_decimal(&mut out, *actual as u64);
            },
            IrError::BadMagic(got) => {
                out.push_str("bad magic: expected FMIR, got [");
                text::push_decimal(&mut out, got[0] as u64);
                out.push_str(", ");
                text::push_decimal(&mut out, got[1] as u64);
                out.push_str(", ");
                text::push_decimal(&mut out, got[2] as u64);
                out.push_str(", ");
                text::push_decimal(&mut out, got[3] as u64);
                out.push_str("]");
            },
            IrError::UnsupportedVersion(v) => {
                out.push_str("unsupported IR version: ");
                text::push_decimal(&mut out, *v as u64);
                out.push_str(" (expected ");
                text::push_decimal(&mut out, IR_VERSION as u64);
                out.push_str(")");
            },
            IrError::ReservedFlags(flags) => {
                out.push_str("reserved header flags are set: 0x");
                text::push_hex(&mut out, *flags as u64, 4);
            },
            IrError::SectionOutOfBounds { section, offset, size, file_len } => {
                out.push_str("section ");
                text::push_decimal(&mut out, *section as u64);
                out.push_str(" out of bounds: offset=");
                text::push_decimal(&mut out, *offset as u64);
                out.push_str(", size=");
                text::push_decimal(&mut out, *size as u64);
                out.push_str(", file_len=");
                text::push_decimal(&mut out, *file_len as u64);
            },
            IrError::InvalidOpcode(b) => {
                out.push_str("invalid opcode: 0x");
                text::push_hex(&mut out, *b as u64, 2);
            },
            IrError::InvalidSlotType(b) => {
                out.push_str("invalid slot type: 0x");
                text::push_hex(&mut out, *b as u64, 2);
            },
            IrError::InvalidIslandTrigger(b) => {
                out.push_str("invalid island trigger: 0x");
                text::push_hex(&mut out, *b as u64, 2);
            },
            IrError::InvalidPropsMode(b) => {
                out.push_str("invalid props mode: 0x");
                text::push_hex(&mut out, *b as u64, 2);
            },
            IrError::InvalidSlotSource(b) => {
                out.push_str("invalid slot source: 0x");
                text::push_hex(&mut out, *b as u64, 2);
            },
            IrError::StringIndexOutOfBounds { index, len } => {
                out.push_str("string index ");
                text::push_decimal(&mut out, *index as u64);
                out.push_str(" out of bounds (table has ");
                text::push_decimal(&mut out, *len as u64);
                out.push_str(" entries)");
            },
            IrError::InvalidUtf8(words) => {
                out.push_str("invalid UTF-8: ");
                out.push_str(words.as_str());
            },
            IrError::ListDepthExceeded { max } => {
                out.push_str("nested LIST depth exceeded maximum of ");
                text::push_decimal(&mut out, *max as u64);
            },
            IrError::RecursionLimitExceeded => {
                out.push_str("recursion limit exceeded");
            },
            IrError::IslandNotFound(id) => {
                out.push_str("island with id ");
                text::push_decimal(&mut out, *id as u64);
                out.push_str(" not found in island table");
            },
            IrError::JsonParseError(words) => {
                out.push_str("JSON parse error: ");
                out.push_str(words.as_str());
            },
        }
        proof {
            assert(out@ =~= error_text(self@));
        }
        out
    }
}

// ---------------------------------------------------------------------------
// Header (16 bytes)
// ---------------------------------------------------------------------------

/// FMIR file header: the first 16 bytes of every `.ir` file.
///
/// Layout (little-endian):
/// ```text
/// [0..4)   magic        - "FMIR"
/// [4..6)   version      - u16
/// [6..8)   flags        - u16 (reserved, must be 0)
/// [8..16)  source_hash  - u64 (hash of the component source)
/// ```
#[derive(Debug, Clone, Copy, PartialEq, Eq, Structural)]
pub struct IrHeader {
    pub version: u16,
    pub flags: u16,
    pub source_hash: u64,
}

/// The header that `data` starts with.
pub open spec fn header_of(data: Seq<u8>) -> Result<IrHeader, ErrorView> {
    if data.len() < HEADER_SIZE {
        Err(ErrorView::BufferTooShort { expected: HEADER_SIZE as int, actual: data.len() as int })
    } else if data.take(4) != MAGIC@ {
        Err(ErrorView::BadMagic(data.take(4)))
    } else if bytes::u16_at(data, 4) != IR_VERSION {
        Err(ErrorView::UnsupportedVersion(bytes::u16_at(data, 4)))
    } else if bytes::u16_at(data, 6) != 0 {
        Err(ErrorView::ReservedFlags(bytes::u16_at(data, 6)))
    } else {
        Ok(IrHeader { version: IR_VERSION, flags: 0, source_hash: bytes::u64_at(data, 8) })
    }
}

impl IrHeader {
    /// Parse an `IrHeader` from the first 16 bytes of `data`.
    pub fn parse(data: &[u8]) -> (res: Result<Self, IrError>)
        ensures
            match res {
                Ok(header) => header_of(data@) == Ok::<IrHeader, ErrorView>(header),
                Err(e) => header_of(data@) == Err::<IrHeader, ErrorView>(e@),
            },
    {
        if data.len() < HEADER_SIZE {
            return Err(IrError::BufferTooShort { expected: HEADER_SIZE, actual: data.len() });
        }
        let magic: [u8; 4] = [data[0], data[1], data[2], data[3]];
        proof {
            assert(magic@ =~= data@.take(4));
        }
        if magic[0] != MAGIC[0] || magic[1] != MAGIC[1] || magic[2] != MAGIC[2] || magic[3]
            != MAGIC[3] {
            return Err(IrError::BadMagic(magic));
        }
        proof {
            assert(magic@ =~= MAGIC@);
        }
        let version = bytes::get_u16(data, 4);
        if version != IR_VERSION {
            return Err(IrError::UnsupportedVersion(version));
        }
        let flags = bytes::get_u16(data, 6);
        if flags != 0 {
            return Err(IrError::ReservedFlags(flags));
        }
        let source_hash = bytes::get_u64(data, 8);
        Ok(IrHeader { version, flags, source_hash })
    }
}

// ---------------------------------------------------------------------------
// Section table (32 bytes)
// ---------------------------------------------------------------------------

/// A single section descriptor: offset + size (both u32, little-endian).
#[derive(Debug, Clone, Copy, PartialEq, Eq, Structural)]
pub struct SectionDescriptor {
    pub offset: u32,
    pub size: u32,
}

/// Section table: four section descriptors immediately following the header.
///
/// Sections (in order):
/// 0. Bytecode
/// 1. String table
/// 2. Slot table
/// 3. Island table
///
/// Layout: 4 x (offset u32 + size u32) = 32 bytes.
#[derive(Debug, Clone, Copy, PartialEq, Eq)]
pub struct SectionTable {
    pub sections: [SectionDescriptor; 4],
}

impl View for SectionTable {
    type V = Seq<SectionDescriptor>;

    open spec fn view(&self) -> Seq<SectionDescriptor> {
        self.sections@
    }
}

/// The descriptor stored at `pos`.
pub open spec fn section_at(data: Seq<u8>, pos: int) -> SectionDescriptor {
    SectionDescriptor { offset: bytes::u32_at(data, pos), size: bytes::u32_at(data, pos + 4) }
}

/// The section table that `data` starts with.
pub open spec fn sections_of(data: Seq<u8>) -> Result<Seq<SectionDescriptor>, ErrorView> {
    if data.len() < SECTION_TABLE_SIZE {
        Err(
            ErrorView::BufferTooShort {
                expected: SECTION_TABLE_SIZE as int,
                actual: data.len() as int,
            },
        )
    } else {
        Ok(
            seq![
                section_at(data, 0),
                section_at(data, 8),
                section_at(data, 16),
                section_at(data, 24),
            ],
        )
    }
}

/// A section lies within a file of `file_len` bytes.
pub open spec fn section_fits(s: SectionDescriptor, file_len: int) -> bool {
    s.offset + s.size <= file_len
}

/// The error for a section that does not lie within the file.
pub open spec fn section_error(
    table: Seq<SectionDescriptor>,
    section: int,
    file_len: int,
) -> ErrorView {
    ErrorView::SectionOutOfBounds {
        section,
        offset: table[section].offset,
        size: table[section].size,
        file_len,
    }
}

/// The outcome of checking the sections from number `from` on: the first one
/// that reaches past `file_len` is reported.
pub open spec fn sections_checked(
    table: Seq<SectionDescriptor>,
    file_len: int,
    from: int,
) -> Result<(), ErrorView>
    decreases table.len() - from,
{
    if from >= table.len() {
        Ok(())
    } else if !section_fits(table[from], file_len) {
        Err(section_error(table, from, file_len))
    } else {
        sections_checked(table, file_len, from + 1)
    }
}

impl SectionTable {
    fn descriptor(data: &[u8], pos: usize) -> (res: SectionDescriptor)
        requires
            pos + 8 <= data@.len(),
        ensures
            res == section_at(data@, pos as int),
    {
        assert(data.len() == data@.len());
        SectionDescriptor { offset: bytes::get_u32(data, pos), size: bytes::get_u32(data, pos + 4) }
    }

    /// Parse a `SectionTable` from `data` (must be at least 32 bytes).
    pub fn parse(data: &[u8]) -> (res: Result<Self, IrError>)
        ensures
            match res {
                Ok(table) => sections_of(data@) == Ok::<Seq<SectionDescriptor>, ErrorView>(table@),
                Err(e) => sections_of(data@) == Err::<Seq<SectionDescriptor>, ErrorView>(e@),
            },
    {
        if data.len() < SECTION_TABLE_SIZE {
            return Err(
                IrError::BufferTooShort { expected: SECTION_TABLE_SIZE, actual: data.len() },
            );
        }
        let table = SectionTable {
            sections: [
                SectionTable::descriptor(data, 0),
                SectionTable::descriptor(data, 8),
                SectionTable::descriptor(data, 16),
                SectionTable::descriptor(data, 24),
            ],
        };
        proof {
            assert(table@ =~= sections_of(data@)->Ok_0);
        }
        Ok(table)
    }

    /// Validate that every section falls within `file_len` bytes.
    pub fn validate(&self, file_len: usize) -> (res: Result<(), IrError>)
        ensures
            match res {
                Ok(()) => sections_checked(self@, file_len as int, 0) is Ok,
                Err(e) => sections_checked(self@, file_len as int, 0) == Err::<(), ErrorView>(e@),
            },
            res is Ok <==> forall|k: int|
                0 <= k < 4 ==> section_fits(#[trigger] self@[k], file_len as int),
    {
        let mut i: usize = 0;
        while i < 4
            invariant
                i <= 4,
                sections_checked(self@, file_len as int, 0) == sections_checked(
                    self@,
                    file_len as int,
                    i as int,
                ),
                forall|k: int| 0 <= k < i ==> section_fits(#[trigger] self@[k], file_len as int),
            decreases 4 - i,
        {
            let sec = self.sections[i];
            if sec.offset as u64 + sec.size as u64 > file_len as u64 {
                proof {
                    assert(!section_fits(self@[i as int], file_len as int));
                }
                return Err(
                    IrError::SectionOutOfBounds {
                        section: i,
                        offset: sec.offset,
                        size: sec.size,
                        file_len,
                    },
                );
            }
            i += 1;
        }
        Ok(())
    }
}

// ---------------------------------------------------------------------------
// Opcode enum
// ---------------------------------------------------------------------------

/// Bytecode opcodes for the FMIR instruction stream.
#[derive(Debug, Clone, Copy, PartialEq, Eq, Structural)]
pub enum Opcode {
    /// 0x01
    OpenTag,
    /// 0x02
    CloseTag,
    /// 0x03
    VoidTag,
    /// 0x04
    Text,
    /// 0x05
    DynText,
    /// 0x06
    DynAttr,
    /// 0x07
    ShowIf,
    /// 0x08
    ShowElse,
    /// 0x09
    Switch,
    /// 0x0A
    List,
    /// 0x0B
    IslandStart,
    /// 0x0C
    IslandEnd,
    /// 0x0D
    TryStart,
    /// 0x0E
    Fallback,
    /// 0x0F
    Preload,
    /// 0x10
    Comment,
    /// 0x11
    ListItemKey,
    /// 0x12: extract a named property from an Object slot into a target slot.
    /// Format: src_slot_id(u16) + prop_str_idx(u32) + target_slot_id(u16)
    Prop,
}

/// The byte that stands for an opcode in the stream.
pub open spec fn opcode_byte(op: Opcode) -> u8 {
    match op {
        Opcode::OpenTag => 0x01,
        Opcode::CloseTag => 0x02,
        Opcode::VoidTag => 0x03,
        Opcode::Text => 0x04,
        Opcode::DynText => 0x05,
        Opcode::DynAttr => 0x06,
        Opcode::ShowIf => 0x07,
        Opcode::ShowElse => 0x08,
        Opcode::Switch => 0x09,
        Opcode::List => 0x0A,
        Opcode::IslandStart => 0x0B,
        Opcode::IslandEnd => 0x0C,
        Opcode::TryStart => 0x0D,
        Opcode::Fallback => 0x0E,
        Opcode::Preload => 0x0F,
        Opcode::Comment => 0x10,
        Opcode::ListItemKey => 0x11,
        Opcode::Prop => 0x12,
    }
}

/// The opcode that a byte stands for.
pub open spec fn opcode_of(b: u8) -> Option<Opcode> {
    if b == 0x01 {
        Some(Opcode::OpenTag)
    } else if b == 0x02 {
        Some(Opcode::CloseTag)
    } else if b == 0x03 {
        Some(Opcode::VoidTag)
    } else if b == 0x04 {
        Some(Opcode::Text)
    } else if b == 0x05 {
        Some(Opcode::DynText)
    } else if b == 0x06 {
        Some(Opcode::DynAttr)
    } else if b == 0x07 {
        Some(Opcode::ShowIf)
    } else if b == 0x08 {
        Some(Opcode::ShowElse)
    } else if b == 0x09 {
        Some(Opcode::Switch)
    } else if b == 0x0A {
        Some(Opcode::List)
    } else if b == 0x0B {
        Some(Opcode::IslandStart)
    } else if b == 0x0C {
        Some(Opcode::IslandEnd)
    } else if b == 0x0D {
        Some(Opcode::TryStart)
    } else if b == 0x0E {
        Some(Opcode::Fallback)
    } else if b == 0x0F {
        Some(Opcode::Preload)
    } else if b == 0x10 {
        Some(Opcode::Comment)
    } else if b == 0x11 {
        Some(Opcode::ListItemKey)
    } else if b == 0x12 {
        Some(Opcode::Prop)
    } else {
        None
    }
}

/// Every opcode is read back from its own byte, and a byte that is read as an
/// opcode is that opcode's byte.
pub proof fn opcode_bytes_round_trip(op: Opcode, b: u8)
    ensures
        opcode_of(opcode_byte(op)) == Some(op),
        opcode_of(b) matches Some(read) ==> opcode_byte(read) == b,
{
}

impl Opcode {
    /// Convert a raw byte to an `Opcode`.
    pub fn from_byte(b: u8) -> (res: Result<Self, IrError>)
        ensures
            match res {
                Ok(op) => opcode_of(b) == Some(op),
                Err(e) => opcode_of(b) is None && e@ == ErrorView::InvalidOpcode(b),
            },
    {
        match b {
            0x01 => Ok(Opcode::OpenTag),
            0x02 => Ok(Opcode::CloseTag),
            0x03 => Ok(Opcode::VoidTag),
            0x04 => Ok(Opcode::Text),
            0x05 => Ok(Opcode::DynText),
            0x06 => Ok(Opcode::DynAttr),
            0x07 => Ok(Opcode::ShowIf),
            0x08 => Ok(Opcode::ShowElse),
            0x09 => Ok(Opcode::Switch),
            0x0A => Ok(Opcode::List),
            0x0B => Ok(Opcode::IslandStart),
            0x0C => Ok(Opcode::IslandEnd),
            0x0D => Ok(Opcode::TryStart),
            0x0E => Ok(Opcode::Fallback),
            0x0F => Ok(Opcode::Preload),
            0x10 => Ok(Opcode::Comment),
            0x11 => Ok(Opcode::ListItemKey),
            0x12 => Ok(Opcode::Prop),
            _ => Err(IrError::InvalidOpcode(b)),
        }
    }
}

// ---------------------------------------------------------------------------
// SlotType enum (5 types)
// ---------------------------------------------------------------------------

/// Data type hint for a slot entry.
#[derive(Debug, Clone, Copy, PartialEq, Eq, Structural)]
pub enum SlotType {
    /// 0x01
    Text,
    /// 0x02
    Bool,
    /// 0x03
    Number,
    /// 0x04
    Array,
    /// 0x05
    Object,
}

/// The slot type that a byte stands for.
pub open spec fn slot_type_of(b: u8) -> Option<SlotType> {
    if b == 0x01 {
        Some(SlotType::Text)
    } else if b == 0x02 {
        Some(SlotType::Bool)
    } else if b == 0x03 {
        Some(SlotType::Number)
    } else if b == 0x04 {
        Some(SlotType::Array)
    } else if b == 0x05 {
        Some(SlotType::Object)
    } else {
        None
    }
}

impl SlotType {
    /// Convert a raw byte to a `SlotType`.
    pub fn from_byte(b: u8) -> (res: Result<Self, IrError>)
        ensures
            match res {
                Ok(t) => slot_type_of(b) == Some(t),
                Err(e) => slot_type_of(b) is None && e@ == ErrorView::InvalidSlotType(b),
            },
    {
        match b {
            0x01 => Ok(SlotType::Text),
            0x02 => Ok(SlotType::Bool),
            0x03 => Ok(SlotType::Number),
            0x04 => Ok(SlotType::Array),
            0x05 => Ok(SlotType::Object),
            _ => Err(IrError::InvalidSlotType(b)),
        }
    }
}

// ---------------------------------------------------------------------------
// IslandTrigger enum (4 triggers)
// ---------------------------------------------------------------------------

/// When an island should be hydrated.
#[derive(Debug, Clone, Copy, PartialEq, Eq, Structural)]
pub enum IslandTrigger {
    /// 0x01
    Load,
    /// 0x02
    Visible,
    /// 0x03
    Interaction,
    /// 0x04
    Idle,
}

/// The trigger that a byte stands for.
pub open spec fn trigger_of(b: u8) -> Option<IslandTrigger> {
    if b == 0x01 {
        Some(IslandTrigger::Load)
    } else if b == 0x02 {
        Some(IslandTrigger::Visible)
    } else if b == 0x03 {
        Some(IslandTrigger::Interaction)
    } else if b == 0x04 {
        Some(IslandTrigger::Idle)
    } else {
        None
    }
}

impl IslandTrigger {
    /// Convert a raw byte to an `IslandTrigger`.
    pub fn from_byte(b: u8) -> (res: Result<Self, IrError>)
        ensures
            match res {
                Ok(t) => trigger_of(b) == Some(t),
                Err(e) => trigger_of(b) is None && e@ == ErrorView::InvalidIslandTrigger(b),
            },
    {
        match b {
            0x01 => Ok(IslandTrigger::Load),
            0x02 => Ok(IslandTrigger::Visible),
            0x03 => Ok(IslandTrigger::Interaction),
            0x04 => Ok(IslandTrigger::Idle),
            _ => Err(IrError::InvalidIslandTrigger(b)),
        }
    }
}

// ---------------------------------------------------------------------------
// PropsMode enum (3 modes)
// ---------------------------------------------------------------------------

/// How island props are delivered.
#[derive(Debug, Clone, Copy, PartialEq, Eq, Structural)]
pub enum PropsMode {
    /// 0x01
    Inline,
    /// 0x02
    ScriptTag,
    /// 0x03
    Deferred,
}

/// The props mode that a byte stands for.
pub open spec fn props_mode_of(b: u8) -> Option<PropsMode> {
    if b == 0x01 {
        Some(PropsMode::Inline)
    } else if b == 0x02 {
        Some(PropsMode::ScriptTag)
    } else if b == 0x03 {
        Some(PropsMode::Deferred)
    } else {
        None
    }
}

impl PropsMode {
    /// Convert a raw byte to a `PropsMode`.
    pub fn from_byte(b: u8) -> (res: Result<Self, IrError>)
        ensures
            match res {
                Ok(m) => props_mode_of(b) == Some(m),
                Err(e) => props_mode_of(b) is None && e@ == ErrorView::InvalidPropsMode(b),
            },
    {
        match b {
            0x01 => Ok(PropsMode::Inline),
            0x02 => Ok(PropsMode::ScriptTag),
            0x03 => Ok(PropsMode::Deferred),
            _ => Err(IrError::InvalidPropsMode(b)),
        }
    }
}

// ---------------------------------------------------------------------------
// SlotSource enum (2 sources)
// ---------------------------------------------------------------------------

/// Where the slot value originates at runtime.
#[derive(Debug, Clone, Copy, PartialEq, Eq, Structural)]
pub enum SlotSource {
    /// 0x00
    Server,
    /// 0x01
    Client,
}

/// The source that a byte stands for.
pub open spec fn source_of(b: u8) -> Option<SlotSource> {
    if b == 0x00 {
        Some(SlotSource::Server)
    } else if b == 0x01 {
        Some(SlotSource::Client)
    } else {
        None
    }
}

impl SlotSource {
    /// Convert a raw byte to a `SlotSource`.
    pub fn from_byte(b: u8) -> (res: Result<Self, IrError>)
        ensures
            match res {
                Ok(s) => source_of(b) == Some(s),
                Err(e) => source_of(b) is None && e@ == ErrorView::InvalidSlotSource(b),
            },
    {
        match b {
            0x00 => Ok(SlotSource::Server),
            0x01 => Ok(SlotSource::Client),
            _ => Err(IrError::InvalidSlotSource(b)),
        }
    }
}

// ---------------------------------------------------------------------------
// SlotEntry
// ---------------------------------------------------------------------------

/// A slot declaration in the slot table.
#[derive(Debug, Clone, PartialEq, Eq)]
pub struct SlotEntry {
    /// Unique slot identifier within the module.
    pub slot_id: u16,
    /// Index into the string table for the slot name.
    pub name_str_idx: u32,
    /// Expected data type for this slot.
    pub type_hint: SlotType,
    /// Where the slot value originates at runtime.
    pub source: SlotSource,
    /// Default value bytes (empty if no default).
    pub default_bytes: Vec<u8>,
}

/// What a [`SlotEntry`] holds.
pub struct SlotEntryView {
    pub slot_id: u16,
    pub name_str_idx: u32,
    pub type_hint: SlotType,
    pub source: SlotSource,
    pub default_bytes: Seq<u8>,
}

impl View for SlotEntry {
    type V = SlotEntryView;

    open spec fn view(&self) -> SlotEntryView {
        SlotEntryView {
            slot_id: self.slot_id,
            name_str_idx: self.name_str_idx,
            type_hint: self.type_hint,
            source: self.source,
            default_bytes: self.default_bytes@,
        }
    }
}

// ---------------------------------------------------------------------------
// IslandEntry
// ---------------------------------------------------------------------------

/// An island declaration in the island table.
#[derive(Debug, Clone, PartialEq, Eq)]
pub struct IslandEntry {
    /// Unique island identifier within the module.
    pub id: u16,
    /// When this island should hydrate.
    pub trigger: IslandTrigger,
    /// How props are delivered to the island.
    pub props_mode: PropsMode,
    /// Index into the string table for the island name.
    pub name_str_idx: u32,
    /// Byte offset of the ISLAND_START opcode in the bytecode stream.
    pub byte_offset: u32,
    /// Which slots belong to this island.
    pub slot_ids: Vec<u16>,
}

/// What an [`IslandEntry`] holds.
pub struct IslandEntryView {
    pub id: u16,
    pub trigger: IslandTrigger,
    pub props_mode: PropsMode,
    pub name_str_idx: u32,
    pub byte_offset: u32,
    pub slot_ids: Seq<u16>,
}

impl View for IslandEntry {
    type V = IslandEntryView;

    open spec fn view(&self) -> IslandEntryView {
        IslandEntryView {
            id: self.id,
            trigger: self.trigger,
            props_mode: self.props_mode,
            name_str_idx: self.name_str_idx,
            byte_offset: self.byte_offset,
            slot_ids: self.slot_ids@,
        }
    }
}

/// Every error has a message that names what was met and where it matters, what was
/// expected.
pub proof fn errors_have_messages(
    expected: int,
    actual: int,
    got: Seq<u8>,
    b: u8,
    n: u16,
    idx: u32,
    section: int,
    offset: u32,
    words: Seq<char>,
)
    requires
        got.len() == 4,
    ensures
        error_text(ErrorView::BufferTooShort { expected, actual })
            == "buffer too short: expected at least "@ + text::decimal(expected as nat)
            + " bytes, got "@ + text::decimal(actual as nat),
        error_text(ErrorView::BadMagic(got)) == "bad magic: expected FMIR, got ["@ + text::decimal(
            got[0] as nat,
        ) + ", "@ + text::decimal(got[1] as nat) + ", "@ + text::decimal(got[2] as nat) + ", "@
            + text::decimal(got[3] as nat) + "]"@,
        error_text(ErrorView::UnsupportedVersion(n)) == "unsupported IR version: "@ + text::decimal(
            n as nat,
        ) + " (expected "@ + seq!['2'] + ")"@,
        error_text(ErrorView::SectionOutOfBounds { section, offset, size: idx, file_len: actual })
            == "section "@ + text::decimal(section as nat) + " out of bounds: offset="@
            + text::decimal(offset as nat) + ", size="@ + text::decimal(idx as nat)
            + ", file_len="@ + text::decimal(actual as nat),
        error_text(ErrorView::ReservedFlags(n)) == "reserved header flags are set: 0x"@ + text::hex(
            n as nat,
            4,
        ),
        error_text(ErrorView::InvalidOpcode(b)) == "invalid opcode: 0x"@ + text::hex(b as nat, 2),
        error_text(ErrorView::InvalidSlotType(b)) == "invalid slot type: 0x"@ + text::hex(
            b as nat,
            2,
        ),
        error_text(ErrorView::InvalidIslandTrigger(b)) == "invalid island trigger: 0x"@ + text::hex(
            b as nat,
            2,
        ),
        error_text(ErrorView::InvalidPropsMode(b)) == "invalid props mode: 0x"@ + text::hex(
            b as nat,
            2,
        ),
        error_text(ErrorView::InvalidSlotSource(b)) == "invalid slot source: 0x"@ + text::hex(
            b as nat,
            2,
        ),
        error_text(ErrorView::StringIndexOutOfBounds { index: idx, len: actual })
            == "string index "@ + text::decimal(idx as nat) + " out of bounds (table has "@
            + text::decimal(actual as nat) + " entries)"@,
        error_text(ErrorView::InvalidUtf8(words)) == "invalid UTF-8: "@ + words,
        error_text(ErrorView::ListDepthExceeded { max: b })
            == "nested LIST depth exceeded maximum of "@ + text::decimal(b as nat),
        error_text(ErrorView::RecursionLimitExceeded) == "recursion limit exceeded"@,
        error_text(ErrorView::IslandNotFound(n)) == "island with id "@ + text::decimal(n as nat)
            + " not found in island table"@,
        error_text(ErrorView::JsonParseError(words)) == "JSON parse error: "@ + words,
{
    reveal_with_fuel(text::decimal, 2);
    assert(text::decimal(2) =~= seq!['2']);
}

/// What entries and errors are seen to hold is all that they hold.
pub proof fn entries_and_errors_are_seen_whole(slot: SlotEntry, island: IslandEntry, e: IrError)
    ensures
        slot@.slot_id == slot.slot_id,
        slot@.name_str_idx == slot.name_str_idx,
        slot@.type_hint == slot.type_hint,
        slot@.source == slot.source,
        slot@.default_bytes == slot.default_bytes@,
        island@.id == island.id,
        island@.trigger == island.trigger,
        island@.props_mode == island.props_mode,
        island@.name_str_idx == island.name_str_idx,
        island@.byte_offset == island.byte_offset,
        island@.slot_ids == island.slot_ids@,
        match e {
            IrError::BufferTooShort { expected, actual } => e@ matches ErrorView::BufferTooShort {
                expected: x,
                actual: a,
            } && x == expected && a == actual,
            IrError::BadMagic(got) => e@ == ErrorView::BadMagic(got@),
            IrError::UnsupportedVersion(v) => e@ == ErrorView::UnsupportedVersion(v),
            IrError::ReservedFlags(flags) => e@ == ErrorView::ReservedFlags(flags),
            IrError::SectionOutOfBounds { section, offset, size, file_len } =>
                e@ matches ErrorView::SectionOutOfBounds {
                section: s,
                offset: o,
                size: z,
                file_len: n,
            } && s == section && o == offset && z == size && n == file_len,
            IrError::InvalidOpcode(b) => e@ == ErrorView::InvalidOpcode(b),
            IrError::InvalidSlotType(b) => e@ == ErrorView::InvalidSlotType(b),
            IrError::InvalidIslandTrigger(b) => e@ == ErrorView::InvalidIslandTrigger(b),
            IrError::InvalidPropsMode(b) => e@ == ErrorView::InvalidPropsMode(b),
            IrError::InvalidSlotSource(b) => e@ == ErrorView::InvalidSlotSource(b),
            IrError::StringIndexOutOfBounds { index, len } =>
                e@ matches ErrorView::StringIndexOutOfBounds { index: i, len: n } && i == index && n
                == len,
            IrError::InvalidUtf8(words) => e@ == ErrorView::InvalidUtf8(words@),
            IrError::ListDepthExceeded { max } => e@ == (ErrorView::ListDepthExceeded { max }),
            IrError::RecursionLimitExceeded => e@ == ErrorView::RecursionLimitExceeded,
            IrError::IslandNotFound(id) => e@ == ErrorView::IslandNotFound(id),
            IrError::JsonParseError(words) => e@ == ErrorView::JsonParseError(words@),
        },
{
}

} // verus!
