//! Parsers for FMIR data tables: string table, slot table, and island table.
//!
//! Each parser consumes a byte slice containing exactly one section's data
//! and returns a typed, indexed collection.

use vstd::prelude::*;

use crate::bytes;
use crate::format::{
    ErrorView, IrError, IrHeader, IslandEntry, IslandEntryView, IslandTrigger, PropsMode,
    SectionDescriptor, SectionTable, SlotEntry, SlotEntryView, SlotSource, SlotType, HEADER_SIZE,
    SECTION_TABLE_SIZE,
};
use crate::text;

pub mod laws;
pub mod test_helpers;

verus! {

/// `first` followed by what the rest of a parse gives.
pub open spec fn prepended<T>(first: Seq<T>, rest: Result<Seq<T>, ErrorView>) -> Result<
    Seq<T>,
    ErrorView,
> {
    match rest {
        Ok(items) => Ok(first + items),
        Err(e) => Err(e),
    }
}

pub(crate) proof fn prepend_nothing<T>(rest: Result<Seq<T>, ErrorView>)
    ensures
        prepended(Seq::empty(), rest) == rest,
{
    if let Ok(items) = rest {
        assert(Seq::<T>::empty() + items =~= items);
    }
}

pub(crate) proof fn prepend_one_more<T>(first: Seq<T>, item: T, rest: Result<Seq<T>, ErrorView>)
    ensures
        prepended(first, prepended(seq![item], rest)) == prepended(first.push(item), rest),
{
    if let Ok(items) = rest {
        assert(first + (seq![item] + items) =~= first.push(item) + items);
    }
}

// ---------------------------------------------------------------------------
// StringTable
// ---------------------------------------------------------------------------

/// Parsed string table: an indexed collection of UTF-8 strings.
///
/// Binary format: `count(u32)`, then `count` entries of `[len(u16), bytes([u8; len])]`.
#[derive(Debug, Clone, PartialEq, Eq)]
pub struct StringTable {
    strings: Vec<String>,
}

impl View for StringTable {
    type V = Seq<Seq<char>>;

    closed spec fn view(&self) -> Seq<Seq<char>> {
        Seq::new(self.strings@.len(), |i: int| self.strings@[i]@)
    }
}

/// The `count` strings stored from `offset` on.
pub open spec fn strings_from(data: Seq<u8>, offset: int, count: nat) -> Result<
    Seq<Seq<char>>,
    ErrorView,
>
    decreases count,
{
    if count == 0 {
        Ok(Seq::empty())
    } else if offset + 2 > data.len() {
        Err(bytes::too_short(offset + 2, data.len()))
    } else {
        let start = offset + 2;
        let end = start + bytes::u16_at(data, offset);
        if end > data.len() {
            Err(bytes::too_short(end, data.len()))
        } else if !vstd::utf8::valid_utf8(data.subrange(start, end)) {
            Err(ErrorView::InvalidUtf8(text::utf8_error_text(data.subrange(start, end))))
        } else {
            prepended(
                seq![vstd::utf8::decode_utf8(data.subrange(start, end))],
                strings_from(data, end, (count - 1) as nat),
            )
        }
    }
}

/// The string table that `data` holds.
pub open spec fn string_table_of(data: Seq<u8>) -> Result<Seq<Seq<char>>, ErrorView> {
    if data.len() < 4 {
        Err(bytes::too_short(4, data.len()))
    } else if bytes::u32_at(data, 0) > data.len() {
        Err(bytes::too_short(bytes::u32_at(data, 0) as int, data.len()))
    } else {
        strings_from(data, 4, bytes::u32_at(data, 0) as nat)
    }
}

/// The outcome of looking up a string by its index.
pub open spec fn string_at(strings: Seq<Seq<char>>, idx: u32) -> Result<Seq<char>, ErrorView> {
    if idx < strings.len() {
        Ok(strings[idx as int])
    } else {
        Err(ErrorView::StringIndexOutOfBounds { index: idx, len: strings.len() as int })
    }
}

impl StringTable {
    /// Parse a string table from its section data.
    pub fn parse(data: &[u8]) -> (res: Result<Self, IrError>)
        ensures
            match res {
                Ok(table) => string_table_of(data@) == Ok::<Seq<Seq<char>>, ErrorView>(table@),
                Err(e) => string_table_of(data@) == Err::<Seq<Seq<char>>, ErrorView>(e@),
            },
    {
        if data.len() < 4 {
            return Err(IrError::BufferTooShort { expected: 4, actual: data.len() });
        }
        let count = bytes::get_u32(data, 0) as usize;
        if count > data.len() {
            return Err(IrError::BufferTooShort { expected: count, actual: data.len() });
        }
        let mut offset: usize = 4;
        let mut strings: Vec<String> = Vec::with_capacity(count);
        let ghost mut read: Seq<Seq<char>> = Seq::empty();
        let mut i: usize = 0;
        proof {
            prepend_nothing(strings_from(data@, 4, count as nat));
        }
        while i < count
            invariant
                i <= count,
                offset <= data@.len(),
                read.len() == strings@.len(),
                forall|k: int| 0 <= k < read.len() ==> read[k] == (#[trigger] strings@[k])@,
                string_table_of(data@) == prepended(
                    read,
                    strings_from(data@, offset as int, (count - i) as nat),
                ),
            decreases count - i,
        {
            let total = data.len();
            if total - offset < 2 {
                return Err(
                    IrError::BufferTooShort { expected: offset.saturating_add(2), actual: total },
                );
            }
            let str_len = bytes::get_u16(data, offset) as usize;
            let start = offset + 2;
            if total - start < str_len {
                return Err(
                    IrError::BufferTooShort {
                        expected: start.saturating_add(str_len),
                        actual: total,
                    },
                );
            }
            let end = start + str_len;
            match text::decode_text(&data[start..end]) {
                Ok(s) => {
                    proof {
                        prepend_one_more(
                            read,
                            s@,
                            strings_from(data@, end as int, (count - i - 1) as nat),
                        );
                        read = read.push(s@);
                    }
                    strings.push(s);
                },
                Err(words) => {
                    return Err(IrError::InvalidUtf8(words));
                },
            }
            offset = end;
            i += 1;
        }
        let table = StringTable { strings };
        proof {
            assert(read + Seq::<Seq<char>>::empty() =~= read);
            assert(table@ =~= read);
        }
        Ok(table)
    }

    /// Indexed lookup into the string table.
    pub fn get(&self, idx: u32) -> (res: Result<&str, IrError>)
        ensures
            match res {
                Ok(s) => string_at(self@, idx) == Ok::<Seq<char>, ErrorView>(s@),
                Err(e) => string_at(self@, idx) == Err::<Seq<char>, ErrorView>(e@),
            },
    {
        if (idx as usize) < self.strings.len() {
            Ok(self.strings[idx as usize].as_str())
        } else {
            Err(IrError::StringIndexOutOfBounds { index: idx, len: self.strings.len() })
        }
    }

    /// Number of strings in the table.
    pub fn len(&self) -> (res: usize)
        ensures
            res == self@.len(),
    {
        self.strings.len()
    }

    /// Returns true if the string table is empty.
    pub fn is_empty(&self) -> (res: bool)
        ensures
            res == (self@.len() == 0),
    {
        self.strings.len() == 0
    }
}

// ---------------------------------------------------------------------------
// SlotTable
// ---------------------------------------------------------------------------

/// Parsed slot table: an indexed collection of slot entries.
///
/// Binary format (v2): `count(u16)`, then `count` variable-length entries of
/// `[slot_id(u16), name_str_idx(u32), type_hint(u8), source(u8), default_len(u16), default_bytes([u8; default_len])]`.
/// Minimum entry size: 10 bytes (when default_len = 0).
#[derive(Debug, Clone, PartialEq, Eq)]
pub struct SlotTable {
    slots: Vec<SlotEntry>,
}

/// Minimum size of a single v2 slot entry in bytes (without default data).
/// slot_id(2) + name_str_idx(4) + type_hint(1) + source(1) + default_len(2) = 10
const SLOT_ENTRY_MIN_SIZE: usize = 10;

/// What a run of slot entries holds.
pub open spec fn slot_views(entries: Seq<SlotEntry>) -> Seq<SlotEntryView> {
    Seq::new(entries.len(), |i: int| entries[i]@)
}

impl View for SlotTable {
    type V = Seq<SlotEntryView>;

    closed spec fn view(&self) -> Seq<SlotEntryView> {
        slot_views(self.slots@)
    }
}

/// The `count` slot entries stored from `offset` on.
pub open spec fn slots_from(data: Seq<u8>, offset: int, count: nat) -> Result<
    Seq<SlotEntryView>,
    ErrorView,
>
    decreases count,
{
    if count == 0 {
        Ok(Seq::empty())
    } else if offset + 10 > data.len() {
        Err(bytes::too_short(offset + 10, data.len()))
    } else {
        match (
            crate::format::slot_type_of(data[offset + 6]),
            crate::format::source_of(data[offset + 7]),
        ) {
            (None, _) => Err(ErrorView::InvalidSlotType(data[offset + 6])),
            (Some(_), None) => Err(ErrorView::InvalidSlotSource(data[offset + 7])),
            (Some(type_hint), Some(source)) => {
                let start = offset + 10;
                let end = start + bytes::u16_at(data, offset + 8);
                if end > data.len() {
                    Err(bytes::too_short(end, data.len()))
                } else {
                    let entry = SlotEntryView {
                        slot_id: bytes::u16_at(data, offset),
                        name_str_idx: bytes::u32_at(data, offset + 2),
                        type_hint,
                        source,
                        default_bytes: data.subrange(start, end),
                    };
                    prepended(seq![entry], slots_from(data, end, (count - 1) as nat))
                }
            },
        }
    }
}

/// The slot table that `data` holds.
pub open spec fn slot_table_of(data: Seq<u8>) -> Result<Seq<SlotEntryView>, ErrorView> {
    if data.len() < 2 {
        Err(bytes::too_short(2, data.len()))
    } else {
        slots_from(data, 2, bytes::u16_at(data, 0) as nat)
    }
}

impl SlotTable {
    /// Parse a slot table from its section data.
    pub fn parse(data: &[u8]) -> (res: Result<Self, IrError>)
        ensures
            match res {
                Ok(table) => slot_table_of(data@) == Ok::<Seq<SlotEntryView>, ErrorView>(table@),
                Err(e) => slot_table_of(data@) == Err::<Seq<SlotEntryView>, ErrorView>(e@),
            },
    {
        if data.len() < 2 {
            return Err(IrError::BufferTooShort { expected: 2, actual: data.len() });
        }
        let count = bytes::get_u16(data, 0) as usize;
        let mut slots: Vec<SlotEntry> = Vec::with_capacity(count);
        let mut offset: usize = 2;
        let mut i: usize = 0;
        proof {
            prepend_nothing(slots_from(data@, 2, count as nat));
            assert(slot_views(slots@) =~= Seq::empty());
        }
        while i < count
            invariant
                i <= count,
                offset <= data@.len(),
                slot_table_of(data@) == prepended(
                    slot_views(slots@),
                    slots_from(data@, offset as int, (count - i) as nat),
                ),
            decreases count - i,
        {
            let total = data.len();
            if total - offset < SLOT_ENTRY_MIN_SIZE {
                return Err(
                    IrError::BufferTooShort {
                        expected: offset.saturating_add(SLOT_ENTRY_MIN_SIZE),
                        actual: total,
                    },
                );
            }
            let slot_id = bytes::get_u16(data, offset);
            let name_str_idx = bytes::get_u32(data, offset + 2);
            let type_hint = match SlotType::from_byte(data[offset + 6]) {
                Ok(t) => t,
                Err(e) => {
                    return Err(e);
                },
            };
            let source = match SlotSource::from_byte(data[offset + 7]) {
                Ok(s) => s,
                Err(e) => {
                    return Err(e);
                },
            };
            let default_len = bytes::get_u16(data, offset + 8) as usize;
            let start = offset + SLOT_ENTRY_MIN_SIZE;
            if total - start < default_len {
                return Err(
                    IrError::BufferTooShort {
                        expected: start.saturating_add(default_len),
                        actual: total,
                    },
                );
            }
            let end = start + default_len;
            let default_bytes = bytes::copy_range(data, start, end);
            let entry = SlotEntry { slot_id, name_str_idx, type_hint, source, default_bytes };
            proof {
                prepend_one_more(
                    slot_views(slots@),
                    entry@,
                    slots_from(data@, end as int, (count - i - 1) as nat),
                );
                assert(slot_views(slots@.push(entry)) =~= slot_views(slots@).push(entry@));
            }
            slots.push(entry);
            offset = end;
            i += 1;
        }
        proof {
            assert(slot_views(slots@) + Seq::<SlotEntryView>::empty() =~= slot_views(slots@));
        }
        Ok(SlotTable { slots })
    }

    /// Number of slots in the table.
    pub fn len(&self) -> (res: usize)
        ensures
            res == self@.len(),
    {
        self.slots.len()
    }

    /// Returns true if the slot table is empty.
    pub fn is_empty(&self) -> (res: bool)
        ensures
            res == (self@.len() == 0),
    {
        self.slots.len() == 0
    }

    /// Access the underlying slot entries.
    pub fn entries(&self) -> (res: &[SlotEntry])
        ensures
            slot_views(res@) == self@,
    {
        self.slots.as_slice()
    }
}

// ---------------------------------------------------------------------------
// IslandTableParsed
// ---------------------------------------------------------------------------

/// Parsed island table: an indexed collection of island entries.
///
/// Binary format: `count(u16)`, then `count` variable-length entries of
/// `[id(u16), trigger(u8), props_mode(u8), name_str_idx(u32), byte_offset(u32), slot_count(u16), [slot_id(u16) x slot_count]]`.
#[derive(Debug, Clone, PartialEq, Eq)]
pub struct IslandTableParsed {
    islands: Vec<IslandEntry>,
}

/// Minimum size of a single island entry in bytes (without slot_ids).
/// id(2) + trigger(1) + props_mode(1) + name_str_idx(4) + byte_offset(4) + slot_count(2) = 14
const ISLAND_ENTRY_MIN_SIZE: usize = 14;

/// What a run of island entries holds.
pub open spec fn island_views(entries: Seq<IslandEntry>) -> Seq<IslandEntryView> {
    Seq::new(entries.len(), |i: int| entries[i]@)
}

impl View for IslandTableParsed {
    type V = Seq<IslandEntryView>;

    closed spec fn view(&self) -> Seq<IslandEntryView> {
        island_views(self.islands@)
    }
}

/// The `count` u16 values stored from `offset` on.
pub open spec fn ids_at(data: Seq<u8>, offset: int, count: nat) -> Seq<u16> {
    Seq::new(count, |k: int| bytes::u16_at(data, offset + 2 * k))
}

/// The `count` island entries stored from `offset` on.
pub open spec fn islands_from(data: Seq<u8>, offset: int, count: nat) -> Result<
    Seq<IslandEntryView>,
    ErrorView,
>
    decreases count,
{
    if count == 0 {
        Ok(Seq::empty())
    } else if offset + 14 > data.len() {
        Err(bytes::too_short(offset + 14, data.len()))
    } else {
        match (
            crate::format::trigger_of(data[offset + 2]),
            crate::format::props_mode_of(data[offset + 3]),
        ) {
            (None, _) => Err(ErrorView::InvalidIslandTrigger(data[offset + 2])),
            (Some(_), None) => Err(ErrorView::InvalidPropsMode(data[offset + 3])),
            (Some(trigger), Some(props_mode)) => {
                let slot_count = bytes::u16_at(data, offset + 12) as nat;
                let start = offset + 14;
                let end = start + 2 * slot_count;
                if end > data.len() {
                    Err(bytes::too_short(end, data.len()))
                } else {
                    let entry = IslandEntryView {
                        id: bytes::u16_at(data, offset),
                        trigger,
                        props_mode,
                        name_str_idx: bytes::u32_at(data, offset + 4),
                        byte_offset: bytes::u32_at(data, offset + 8),
                        slot_ids: ids_at(data, start, slot_count),
                    };
                    prepended(seq![entry], islands_from(data, end, (count - 1) as nat))
                }
            },
        }
    }
}

/// The island table that `data` holds.
pub open spec fn island_table_of(data: Seq<u8>) -> Result<Seq<IslandEntryView>, ErrorView> {
    if data.len() < 2 {
        Err(bytes::too_short(2, data.len()))
    } else {
        islands_from(data, 2, bytes::u16_at(data, 0) as nat)
    }
}

fn read_ids(data: &[u8], offset: usize, count: usize) -> (res: Vec<u16>)
    requires
        offset + 2 * count <= data@.len(),
    ensures
        res@ == ids_at(data@, offset as int, count as nat),
{
    let total = data.len();
    let mut res: Vec<u16> = Vec::with_capacity(count);
    let mut k: usize = 0;
    while k < count
        invariant
            k <= count,
            total == data@.len(),
            offset + 2 * count <= total,
            res@ == ids_at(data@, offset as int, k as nat),
        decreases count - k,
    {
        res.push(bytes::get_u16(data, offset + 2 * k));
        k += 1;
        proof {
            assert(res@ =~= ids_at(data@, offset as int, k as nat));
        }
    }
    res
}

impl IslandTableParsed {
    /// Parse an island table from its section data.
    pub fn parse(data: &[u8]) -> (res: Result<Self, IrError>)
        ensures
            match res {
                Ok(table) => island_table_of(data@) == Ok::<Seq<IslandEntryView>, ErrorView>(
                    table@,
                ),
                Err(e) => island_table_of(data@) == Err::<Seq<IslandEntryView>, ErrorView>(e@),
            },
    {
        if data.len() < 2 {
            return Err(IrError::BufferTooShort { expected: 2, actual: data.len() });
        }
        let count = bytes::get_u16(data, 0) as usize;
        let mut islands: Vec<IslandEntry> = Vec::with_capacity(count);
        let mut offset: usize = 2;
        let mut i: usize = 0;
        proof {
            prepend_nothing(islands_from(data@, 2, count as nat));
            assert(island_views(islands@) =~= Seq::empty());
        }
        while i < count
            invariant
                i <= count,
                offset <= data@.len(),
                island_table_of(data@) == prepended(
                    island_views(islands@),
                    islands_from(data@, offset as int, (count - i) as nat),
                ),
            decreases count - i,
        {
            let total = data.len();
            if total - offset < ISLAND_ENTRY_MIN_SIZE {
                return Err(
                    IrError::BufferTooShort {
                        expected: offset.saturating_add(ISLAND_ENTRY_MIN_SIZE),
                        actual: total,
                    },
                );
            }
            let id = bytes::get_u16(data, offset);
            let trigger = match IslandTrigger::from_byte(data[offset + 2]) {
                Ok(t) => t,
                Err(e) => {
                    return Err(e);
                },
            };
            let props_mode = match PropsMode::from_byte(data[offset + 3]) {
                Ok(m) => m,
                Err(e) => {
                    return Err(e);
                },
            };
            let name_str_idx = bytes::get_u32(data, offset + 4);
            let byte_offset = bytes::get_u32(data, offset + 8);
            let slot_count = bytes::get_u16(data, offset + 12) as usize;
            let start = offset + ISLAND_ENTRY_MIN_SIZE;
            let needed = slot_count * 2;
            if total - start < needed {
                return Err(
                    IrError::BufferTooShort {
                        expected: start.saturating_add(needed),
                        actual: total,
                    },
                );
            }
            let end = start + needed;
            let slot_ids = read_ids(data, start, slot_count);
            let entry = IslandEntry {
                id,
                trigger,
                props_mode,
                name_str_idx,
                byte_offset,
                slot_ids,
            };
            proof {
                prepend_one_more(
                    island_views(islands@),
                    entry@,
                    islands_from(data@, end as int, (count - i - 1) as nat),
                );
                assert(island_views(islands@.push(entry)) =~= island_views(islands@).push(entry@));
            }
            islands.push(entry);
            offset = end;
            i += 1;
        }
        proof {
            assert(island_views(islands@) + Seq::<IslandEntryView>::empty() =~= island_views(
                islands@,
            ));
        }
        Ok(IslandTableParsed { islands })
    }

    /// Number of islands in the table.
    pub fn len(&self) -> (res: usize)
        ensures
            res == self@.len(),
    {
        self.islands.len()
    }

    /// Returns true if the island table is empty.
    pub fn is_empty(&self) -> (res: bool)
        ensures
            res == (self@.len() == 0),
    {
        self.islands.len() == 0
    }

    /// Access the underlying island entries.
    pub fn entries(&self) -> (res: &[IslandEntry])
        ensures
            island_views(res@) == self@,
    {
        self.islands.as_slice()
    }
}

// ---------------------------------------------------------------------------
// IrModule: full-file parser
// ---------------------------------------------------------------------------

/// A fully parsed and validated IR module, ready for walking.
#[derive(Debug, Clone)]
pub struct IrModule {
    pub header: IrHeader,
    pub strings: StringTable,
    pub slots: SlotTable,
    /// Raw opcode stream; the walker interprets it on the fly.
    pub opcodes: Vec<u8>,
    pub islands: IslandTableParsed,
}

/// What an [`IrModule`] holds.
pub struct ModuleView {
    pub header: IrHeader,
    pub strings: Seq<Seq<char>>,
    pub slots: Seq<SlotEntryView>,
    pub opcodes: Seq<u8>,
    pub islands: Seq<IslandEntryView>,
}

impl View for IrModule {
    type V = ModuleView;

    open spec fn view(&self) -> ModuleView {
        ModuleView {
            header: self.header,
            strings: self.strings@,
            slots: self.slots@,
            opcodes: self.opcodes@,
            islands: self.islands@,
        }
    }
}

/// The bytes of a section.
pub open spec fn section_bytes(data: Seq<u8>, s: SectionDescriptor) -> Seq<u8> {
    data.subrange(s.offset as int, s.offset + s.size)
}

/// The module stored in `data`, whose sections the table gives, before its
/// cross-table references are checked.
pub open spec fn tables_of(
    data: Seq<u8>,
    header: IrHeader,
    table: Seq<SectionDescriptor>,
) -> Result<ModuleView, ErrorView> {
    match string_table_of(section_bytes(data, table[1])) {
        Err(e) => Err(e),
        Ok(strings) => match slot_table_of(section_bytes(data, table[2])) {
            Err(e) => Err(e),
            Ok(slots) => match island_table_of(section_bytes(data, table[3])) {
                Err(e) => Err(e),
                Ok(islands) => Ok(
                    ModuleView {
                        header,
                        strings,
                        slots,
                        opcodes: section_bytes(data, table[0]),
                        islands,
                    },
                ),
            },
        },
    }
}

/// The outcome of checking the slot names from number `from` on: the first
/// index past the string table is reported.
pub open spec fn slot_names_checked(
    slots: Seq<SlotEntryView>,
    str_count: nat,
    from: int,
) -> Result<(), ErrorView>
    decreases slots.len() - from,
{
    if from >= slots.len() {
        Ok(())
    } else if slots[from].name_str_idx >= str_count {
        Err(
            ErrorView::StringIndexOutOfBounds {
                index: slots[from].name_str_idx,
                len: str_count as int,
            },
        )
    } else {
        slot_names_checked(slots, str_count, from + 1)
    }
}

/// The outcome of checking the island names from number `from` on: the first
/// index past the string table is reported.
pub open spec fn island_names_checked(
    islands: Seq<IslandEntryView>,
    str_count: nat,
    from: int,
) -> Result<(), ErrorView>
    decreases islands.len() - from,
{
    if from >= islands.len() {
        Ok(())
    } else if islands[from].name_str_idx >= str_count {
        Err(
            ErrorView::StringIndexOutOfBounds {
                index: islands[from].name_str_idx,
                len: str_count as int,
            },
        )
    } else {
        island_names_checked(islands, str_count, from + 1)
    }
}

/// The outcome of checking a module's cross-table references.
pub open spec fn names_checked(m: ModuleView) -> Result<(), ErrorView> {
    match slot_names_checked(m.slots, m.strings.len(), 0) {
        Err(e) => Err(e),
        Ok(()) => island_names_checked(m.islands, m.strings.len(), 0),
    }
}

/// Every name that a module's slots and islands refer to is in its string table.
pub open spec fn names_in_table(m: ModuleView) -> bool {
    &&& forall|i: int|
        0 <= i < m.slots.len() ==> (#[trigger] m.slots[i]).name_str_idx < m.strings.len()
    &&& forall|i: int|
        0 <= i < m.islands.len() ==> (#[trigger] m.islands[i]).name_str_idx < m.strings.len()
}

/// The module that an FMIR file holds.
pub open spec fn module_of(data: Seq<u8>) -> Result<ModuleView, ErrorView> {
    match crate::format::header_of(data) {
        Err(e) => Err(e),
        Ok(header) => if data.len() < HEADER_SIZE + SECTION_TABLE_SIZE {
            Err(bytes::too_short(HEADER_SIZE + SECTION_TABLE_SIZE, data.len()))
        } else {
            match crate::format::sections_of(data.skip(HEADER_SIZE as int)) {
                Err(e) => Err(e),
                Ok(table) => match crate::format::sections_checked(table, data.len() as int, 0) {
                    Err(e) => Err(e),
                    Ok(()) => match tables_of(data, header, table) {
                        Err(e) => Err(e),
                        Ok(m) => match names_checked(m) {
                            Err(e) => Err(e),
                            Ok(()) => Ok(m),
                        },
                    },
                },
            }
        },
    }
}

/// `slot` is the first slot whose name is `name`.
pub open spec fn first_named(m: ModuleView, name: Seq<char>, slot: int) -> bool {
    &&& 0 <= slot < m.slots.len()
    &&& string_at(m.strings, m.slots[slot].name_str_idx) == Ok::<Seq<char>, ErrorView>(name)
    &&& forall|k: int|
        0 <= k < slot ==> string_at(m.strings, (#[trigger] m.slots[k]).name_str_idx) != Ok::<
            Seq<char>,
            ErrorView,
        >(name)
}

/// Some slot has the name `name`.
pub open spec fn has_named(m: ModuleView, name: Seq<char>) -> bool {
    exists|k: int|
        0 <= k < m.slots.len() && string_at(m.strings, (#[trigger] m.slots[k]).name_str_idx)
            == Ok::<Seq<char>, ErrorView>(name)
}

impl IrModule {
    /// Parse a complete FMIR binary into a validated `IrModule`.
    pub fn parse(data: &[u8]) -> (res: Result<Self, IrError>)
        ensures
            match res {
                Ok(module) => module_of(data@) == Ok::<ModuleView, ErrorView>(module@)
                    && names_in_table(module@),
                Err(e) => module_of(data@) == Err::<ModuleView, ErrorView>(e@),
            },
    {
        // 1. Parse header (first 16 bytes).
        let header = match IrHeader::parse(data) {
            Ok(header) => header,
            Err(e) => {
                return Err(e);
            },
        };
        // 2. Parse section table (next 32 bytes, starting at HEADER_SIZE).
        let total = data.len();
        if total < HEADER_SIZE + SECTION_TABLE_SIZE {
            return Err(
                IrError::BufferTooShort {
                    expected: HEADER_SIZE + SECTION_TABLE_SIZE,
                    actual: total,
                },
            );
        }
        proof {
            assert(data@.subrange(HEADER_SIZE as int, total as int) =~= data@.skip(
                HEADER_SIZE as int,
            ));
        }
        let section_table = match SectionTable::parse(&data[HEADER_SIZE..total]) {
            Ok(table) => table,
            Err(e) => {
                return Err(e);
            },
        };
        // 3. Validate all section bounds against the file length.
        match section_table.validate(total) {
            Ok(()) => {},
            Err(e) => {
                return Err(e);
            },
        }
        proof {
            assert(crate::format::section_fits(section_table@[0], total as int));
            assert(crate::format::section_fits(section_table@[1], total as int));
            assert(crate::format::section_fits(section_table@[2], total as int));
            assert(crate::format::section_fits(section_table@[3], total as int));
        }
        // Section indices: 0=Bytecode, 1=Strings, 2=Slots, 3=Islands
        let sec_bytecode = section_table.sections[0];
        let sec_strings = section_table.sections[1];
        let sec_slots = section_table.sections[2];
        let sec_islands = section_table.sections[3];
        // 4. Parse string table.
        let start = sec_strings.offset as usize;
        let strings = match StringTable::parse(&data[start..start + sec_strings.size as usize]) {
            Ok(strings) => strings,
            Err(e) => {
                return Err(e);
            },
        };
        // 5. Parse slot table.
        let start = sec_slots.offset as usize;
        let slots = match SlotTable::parse(&data[start..start + sec_slots.size as usize]) {
            Ok(slots) => slots,
            Err(e) => {
                return Err(e);
            },
        };
        // 6. Extract opcode stream.
        let start = sec_bytecode.offset as usize;
        let opcodes = bytes::copy_range(data, start, start + sec_bytecode.size as usize);
        // 7. Parse island table.
        let start = sec_islands.offset as usize;
        let islands = match IslandTableParsed::parse(
            &data[start..start + sec_islands.size as usize],
        ) {
            Ok(islands) => islands,
            Err(e) => {
                return Err(e);
            },
        };
        let module = IrModule { header, strings, slots, opcodes, islands };
        // 8. Run cross-table validation.
        match module.validate() {
            Ok(()) => Ok(module),
            Err(e) => Err(e),
        }
    }

    /// Validate cross-table references within the module.
    pub fn validate(&self) -> (res: Result<(), IrError>)
        ensures
            match res {
                Ok(()) => names_checked(self@) is Ok,
                Err(e) => names_checked(self@) == Err::<(), ErrorView>(e@),
            },
            res is Ok <==> names_in_table(self@),
    {
        let str_count = self.strings.len();
        let slots = self.slots.entries();
        let mut i: usize = 0;
        while i < slots.len()
            invariant
                i <= slots@.len(),
                slot_views(slots@) == self@.slots,
                str_count == self@.strings.len(),
                slot_names_checked(self@.slots, str_count as nat, 0) == slot_names_checked(
                    self@.slots,
                    str_count as nat,
                    i as int,
                ),
                forall|k: int|
                    0 <= k < i ==> (#[trigger] self@.slots[k]).name_str_idx < str_count,
            decreases slots.len() - i,
        {
            let index = slots[i].name_str_idx;
            proof {
                assert(self@.slots[i as int] == slots@[i as int]@);
            }
            if index as usize >= str_count {
                return Err(IrError::StringIndexOutOfBounds { index, len: str_count });
            }
            i += 1;
        }
        let islands = self.islands.entries();
        let mut j: usize = 0;
        while j < islands.len()
            invariant
                j <= islands@.len(),
                island_views(islands@) == self@.islands,
                str_count == self@.strings.len(),
                slot_names_checked(self@.slots, str_count as nat, 0) is Ok,
                island_names_checked(self@.islands, str_count as nat, 0) == island_names_checked(
                    self@.islands,
                    str_count as nat,
                    j as int,
                ),
                forall|k: int|
                    0 <= k < j ==> (#[trigger] self@.islands[k]).name_str_idx < str_count,
            decreases islands.len() - j,
        {
            let index = islands[j].name_str_idx;
            proof {
                assert(self@.islands[j as int] == islands@[j as int]@);
            }
            if index as usize >= str_count {
                return Err(IrError::StringIndexOutOfBounds { index, len: str_count });
            }
            j += 1;
        }
        Ok(())
    }

    /// Look up a slot ID by its name. Returns `None` if no slot with that name exists.
    pub fn slot_id_by_name(&self, name: &str) -> (res: Option<u16>)
        ensures
            match res {
                Some(id) => exists|slot: int| #[trigger]
                    first_named(self@, name@, slot) && self@.slots[slot].slot_id == id,
                None => !has_named(self@, name@),
            },
    {
        let slots = self.slots.entries();
        let mut i: usize = 0;
        while i < slots.len()
            invariant
                i <= slots@.len(),
                slot_views(slots@) == self@.slots,
                forall|k: int|
                    0 <= k < i ==> string_at(
                        self@.strings,
                        (#[trigger] self@.slots[k]).name_str_idx,
                    ) != Ok::<Seq<char>, ErrorView>(name@),
            decreases slots.len() - i,
        {
            proof {
                assert(self@.slots[i as int] == slots@[i as int]@);
            }
            if let Ok(slot_name) = self.strings.get(slots[i].name_str_idx) {
                if text::same_text(slot_name, name) {
                    proof {
                        assert(first_named(self@, name@, i as int));
                    }
                    return Some(slots[i].slot_id);
                }
            }
            i += 1;
        }
        None
    }
}

} // verus!
