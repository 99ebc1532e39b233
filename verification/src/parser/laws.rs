//! What parsing is for: every well-formed file is accepted, whatever its source
//! hash and wherever its sections stand, and what is found in it is what its
//! bytes say.

use vstd::prelude::*;

use crate::bytes;
use crate::format::{
    ErrorView, IrHeader, IslandEntryView, IslandTrigger, PropsMode, SectionDescriptor,
    SlotEntryView, SlotSource, SlotType, MAGIC,
};
use crate::parser;
use crate::parser::test_helpers;
use crate::parser::test_helpers::{IslandParts, SlotParts};
use crate::parser::ModuleView;

verus! {

// ---------------------------------------------------------------------------
// Integers
// ---------------------------------------------------------------------------

/// The number that `n` bytes from `at` on stand for, the lowest byte first.
pub open spec fn little_endian(data: Seq<u8>, at: int, n: nat) -> int
    decreases n,
{
    if n == 0 {
        0
    } else {
        data[at] + 0x100 * little_endian(data, at + 1, (n - 1) as nat)
    }
}

/// Integers are stored with their lowest byte first.
pub proof fn integers_are_little_endian(data: Seq<u8>, at: int)
    ensures
        bytes::u16_at(data, at) == little_endian(data, at, 2),
        bytes::u32_at(data, at) == little_endian(data, at, 4),
        bytes::u64_at(data, at) == little_endian(data, at, 8),
{
    reveal_with_fuel(little_endian, 9);
    let lo = bytes::u32_at(data, at);
    let hi = bytes::u32_at(data, at + 4);
    assert(hi == data[at + 4] + 0x100 * data[at + 5] + 0x1_0000 * data[at + 6] + 0x100_0000
        * data[at + 7]);
    assert(lo + 0x1_0000_0000 * hi <= u64::MAX);
}

/// The bytes of an integer are those that it is read from.
pub proof fn integers_are_written_as_read(v: u16, w: u32)
    ensures
        bytes::u16_bytes(v).len() == 2,
        little_endian(bytes::u16_bytes(v), 0, 2) == v,
        bytes::u32_bytes(w).len() == 4,
        little_endian(bytes::u32_bytes(w), 0, 4) == w,
{
    let (a, b) = (bytes::u16_bytes(v), bytes::u32_bytes(w));
    integers_are_little_endian(a, 0);
    integers_are_little_endian(b, 0);
    assert(a.subrange(0, 2) =~= a);
    assert(b.subrange(0, 4) =~= b);
    bytes::u16_round_trip(a, 0, v);
    bytes::u32_round_trip(b, 0, w);
}

// ---------------------------------------------------------------------------
// Files
// ---------------------------------------------------------------------------

/// The file starts with the letters FMIR.
pub open spec fn has_magic(data: Seq<u8>) -> bool {
    data[0] == 0x46 && data[1] == 0x4D && data[2] == 0x49 && data[3] == 0x52
}

/// A header of version 2 without flags, with the given source hash.
pub open spec fn has_header(data: Seq<u8>, source_hash: u64) -> bool {
    &&& data.len() >= 16
    &&& has_magic(data)
    &&& little_endian(data, 4, 2) == 2
    &&& little_endian(data, 6, 2) == 0
    &&& little_endian(data, 8, 8) == source_hash
}

/// Section number `i` of the table stands at `at` and holds `part`.
pub open spec fn has_section(data: Seq<u8>, i: int, at: int, part: Seq<u8>) -> bool {
    &&& data.len() >= 48
    &&& little_endian(data, 16 + 8 * i, 4) == at
    &&& little_endian(data, 20 + 8 * i, 4) == part.len()
    &&& at + part.len() <= data.len()
    &&& data.subrange(at, at + part.len()) == part
}

proof fn magic_letters(data: Seq<u8>)
    requires
        data.len() >= 4,
    ensures
        data.take(4) == MAGIC@ <==> has_magic(data),
{
    let m = MAGIC@;
    assert(m.len() == 4);
    assert(m[0] == 0x46 && m[1] == 0x4D && m[2] == 0x49 && m[3] == 0x52);
    let t = data.take(4);
    assert(t[0] == data[0] && t[1] == data[1] && t[2] == data[2] && t[3] == data[3]);
    if has_magic(data) {
        assert(t =~= m);
    }
}

/// A header is read exactly where the file starts with the magic letters, version 2
/// and no flags; it holds the source hash that stands in it, whatever that is.
pub proof fn headers_are_read(data: Seq<u8>)
    requires
        data.len() >= 16,
    ensures
        crate::format::header_of(data) is Ok <==> has_magic(data) && little_endian(data, 4, 2) == 2
            && little_endian(data, 6, 2) == 0,
        crate::format::header_of(data) matches Ok(h) ==> h.version == 2 && h.flags == 0
            && h.source_hash == little_endian(data, 8, 8),
        !has_magic(data) ==> crate::format::header_of(data) == Err::<IrHeader, ErrorView>(
            ErrorView::BadMagic(data.take(4)),
        ),
        has_magic(data) && little_endian(data, 4, 2) != 2 ==> (crate::format::header_of(data)
            matches Err(ErrorView::UnsupportedVersion(v)) && v == little_endian(data, 4, 2)),
        has_magic(data) && little_endian(data, 4, 2) == 2 && little_endian(data, 6, 2) != 0 ==> (
        crate::format::header_of(data) matches Err(ErrorView::ReservedFlags(f)) && f
            == little_endian(data, 6, 2)),
{
    magic_letters(data);
    integers_are_little_endian(data, 4);
    integers_are_little_endian(data, 6);
    integers_are_little_endian(data, 8);
}

proof fn descriptor_is_read(data: Seq<u8>, i: int)
    requires
        data.len() >= 48,
        0 <= i < 4,
    ensures
        crate::format::sections_of(data.skip(16)) matches Ok(table) && table.len() == 4
            && table[i].offset == little_endian(data, 16 + 8 * i, 4) && table[i].size
            == little_endian(data, 20 + 8 * i, 4),
{
    let rest = data.skip(16);
    let k = 8 * i;
    assert(rest.len() >= 32);
    assert(rest[k] == data[16 + k] && rest[k + 1] == data[17 + k] && rest[k + 2] == data[18 + k]
        && rest[k + 3] == data[19 + k]);
    assert(rest[k + 4] == data[20 + k] && rest[k + 5] == data[21 + k] && rest[k + 6] == data[22
        + k] && rest[k + 7] == data[23 + k]);
    integers_are_little_endian(data, 16 + k);
    integers_are_little_endian(data, 20 + k);
    assert(bytes::u32_at(rest, k) == bytes::u32_at(data, 16 + k));
    assert(bytes::u32_at(rest, k + 4) == bytes::u32_at(data, 20 + k));
    let table = crate::format::sections_of(rest)->Ok_0;
    assert(table[0] == crate::format::section_at(rest, 0));
    assert(table[1] == crate::format::section_at(rest, 8));
    assert(table[2] == crate::format::section_at(rest, 16));
    assert(table[3] == crate::format::section_at(rest, 24));
}

proof fn section_is_read(data: Seq<u8>, i: int, at: int, part: Seq<u8>)
    requires
        0 <= i < 4,
        has_section(data, i, at, part),
    ensures
        crate::format::sections_of(data.skip(16)) matches Ok(table) && table.len() == 4
            && parser::section_bytes(data, table[i]) == part && crate::format::section_fits(
            table[i],
            data.len() as int,
        ),
{
    descriptor_is_read(data, i);
}

/// Parsing is complete: a file with the magic letters, version 2, no flags, any
/// source hash, and four sections anywhere in it that hold opcodes, strings, slots
/// and islands is read as exactly the module with that hash and those parts, as long
/// as the tables fit their fields and every name is in the string table. Bytes behind
/// a table in its section, and bytes outside all sections, do not matter.
pub proof fn well_formed_files_are_read(
    data: Seq<u8>,
    source_hash: u64,
    at: (int, int, int, int),
    opcodes: Seq<u8>,
    strings: Seq<Seq<char>>,
    slots: Seq<SlotParts>,
    islands: Seq<IslandParts>,
    behind: (Seq<u8>, Seq<u8>, Seq<u8>),
)
    requires
        has_header(data, source_hash),
        has_section(data, 0, at.0, opcodes),
        has_section(data, 1, at.1, test_helpers::string_table_bytes(strings) + behind.0),
        has_section(data, 2, at.2, test_helpers::slot_table_bytes(slots) + behind.1),
        has_section(data, 3, at.3, test_helpers::island_table_bytes(islands) + behind.2),
        test_helpers::strings_fit(strings),
        strings.len() < 0x1_0000_0000,
        slots.len() < 0x1_0000,
        forall|i: int| 0 <= i < slots.len() ==> test_helpers::slot_fits(#[trigger] slots[i]),
        forall|i: int| 0 <= i < slots.len() ==> (#[trigger] slots[i]).1 < strings.len(),
        islands.len() < 0x1_0000,
        forall|i: int| 0 <= i < islands.len() ==> test_helpers::island_fits(#[trigger] islands[i]),
        forall|i: int| 0 <= i < islands.len() ==> (#[trigger] islands[i]).3 < strings.len(),
    ensures
        parser::module_of(data) matches Ok(m) && m.header.version == 2 && m.header.flags == 0
            && m.header.source_hash == source_hash && m.strings == strings && m.opcodes == opcodes
            && m.slots == test_helpers::slots_read(slots) && m.islands
            == test_helpers::islands_read(islands),
{
    headers_are_read(data);
    section_is_read(data, 0, at.0, opcodes);
    section_is_read(data, 1, at.1, test_helpers::string_table_bytes(strings) + behind.0);
    section_is_read(data, 2, at.2, test_helpers::slot_table_bytes(slots) + behind.1);
    section_is_read(data, 3, at.3, test_helpers::island_table_bytes(islands) + behind.2);
    let table = crate::format::sections_of(data.skip(16))->Ok_0;
    assert forall|k: int| 0 <= k < table.len() implies crate::format::section_fits(
        #[trigger] table[k],
        data.len() as int,
    ) by {
        assert(k == 0 || k == 1 || k == 2 || k == 3);
    }
    test_helpers::sections_all_fit(table, data.len() as int, 0);
    test_helpers::string_table_round_trip(strings, behind.0);
    test_helpers::slot_table_round_trip(slots, behind.1);
    test_helpers::island_table_round_trip(islands, behind.2);
    let header = crate::format::header_of(data)->Ok_0;
    let m = parser::tables_of(data, header, table)->Ok_0;
    assert forall|i: int| 0 <= i < m.slots.len() implies (#[trigger] m.slots[i]).name_str_idx
        < m.strings.len() by {
        assert(slots[i].1 < strings.len());
    }
    assert forall|i: int| 0 <= i < m.islands.len() implies (#[trigger] m.islands[i]).name_str_idx
        < m.strings.len() by {
        assert(islands[i].3 < strings.len());
    }
    test_helpers::names_all_fit(m, 0);
}

/// Parsing is sound: what is accepted has a valid header, sections within the file,
/// an opcode stream that is its first section byte for byte, and no name outside the
/// string table.
pub proof fn accepted_files_are_well_formed(data: Seq<u8>)
    requires
        parser::module_of(data) is Ok,
    ensures
        ({
            let m = parser::module_of(data)->Ok_0;
            let at = little_endian(data, 16, 4);
            let len = little_endian(data, 20, 4);
            &&& data.len() >= 48
            &&& has_header(data, m.header.source_hash)
            &&& m.header.version == 2
            &&& m.header.flags == 0
            &&& m.opcodes == data.subrange(at, at + len)
            &&& forall|i: int|
                0 <= i < 4 ==> #[trigger] little_endian(data, 16 + 8 * i, 4) + little_endian(
                    data,
                    20 + 8 * i,
                    4,
                ) <= data.len()
            &&& forall|i: int|
                0 <= i < m.slots.len() ==> (#[trigger] m.slots[i]).name_str_idx < m.strings.len()
            &&& forall|i: int|
                0 <= i < m.islands.len() ==> (#[trigger] m.islands[i]).name_str_idx
                    < m.strings.len()
        }),
{
    let m = parser::module_of(data)->Ok_0;
    headers_are_read(data);
    let table = crate::format::sections_of(data.skip(16))->Ok_0;
    checked_sections_fit(table, data.len() as int, 0);
    assert forall|i: int| 0 <= i < 4 implies #[trigger] little_endian(data, 16 + 8 * i, 4)
        + little_endian(data, 20 + 8 * i, 4) <= data.len() by {
        descriptor_is_read(data, i);
        assert(crate::format::section_fits(table[i], data.len() as int));
    }
    descriptor_is_read(data, 0);
    checked_names_fit(m, 0);
}

proof fn checked_sections_fit(table: Seq<SectionDescriptor>, file_len: int, from: int)
    requires
        0 <= from,
        crate::format::sections_checked(table, file_len, from) is Ok,
    ensures
        forall|k: int|
            from <= k < table.len() ==> crate::format::section_fits(#[trigger] table[k], file_len),
    decreases table.len() - from,
{
    if from < table.len() {
        checked_sections_fit(table, file_len, from + 1);
    }
}

proof fn checked_names_fit(m: ModuleView, from: int)
    requires
        0 <= from,
        parser::slot_names_checked(m.slots, m.strings.len(), from) is Ok,
        parser::island_names_checked(m.islands, m.strings.len(), from) is Ok,
    ensures
        forall|i: int|
            from <= i < m.slots.len() ==> (#[trigger] m.slots[i]).name_str_idx < m.strings.len(),
        forall|i: int|
            from <= i < m.islands.len() ==> (#[trigger] m.islands[i]).name_str_idx
                < m.strings.len(),
    decreases m.slots.len() + m.islands.len() - from,
{
    if from < m.slots.len() || from < m.islands.len() {
        checked_names_fit(m, from + 1);
    }
}

// ---------------------------------------------------------------------------
// Tables
// ---------------------------------------------------------------------------

/// A run of strings that is read starts with the string whose length in bytes stands
/// first, low byte first, with its UTF-8 bytes behind; the others follow behind that.
pub proof fn string_layout(data: Seq<u8>, at: int, count: nat)
    requires
        0 <= at,
        count > 0,
        parser::strings_from(data, at, count) is Ok,
    ensures
        ({
            let strings = parser::strings_from(data, at, count)->Ok_0;
            let end = at + 2 + little_endian(data, at, 2);
            &&& end <= data.len()
            &&& strings.len() > 0
            &&& vstd::utf8::valid_utf8(data.subrange(at + 2, end))
            &&& strings[0] == vstd::utf8::decode_utf8(data.subrange(at + 2, end))
            &&& parser::strings_from(data, end, (count - 1) as nat) == Ok::<
                Seq<Seq<char>>,
                ErrorView,
            >(strings.skip(1))
        }),
{
    integers_are_little_endian(data, at);
    let end = at + 2 + little_endian(data, at, 2);
    let rest = parser::strings_from(data, end, (count - 1) as nat)->Ok_0;
    let strings = parser::strings_from(data, at, count)->Ok_0;
    assert(strings.skip(1) =~= rest);
}

/// A run of slots that is read starts with the slot whose id, name, type, source and
/// default stand first; the others follow behind its default.
pub proof fn slot_layout(data: Seq<u8>, at: int, count: nat)
    requires
        0 <= at,
        count > 0,
        parser::slots_from(data, at, count) is Ok,
    ensures
        ({
            let slots = parser::slots_from(data, at, count)->Ok_0;
            let end = at + 10 + little_endian(data, at + 8, 2);
            &&& end <= data.len()
            &&& slots.len() > 0
            &&& slots[0].slot_id == little_endian(data, at, 2)
            &&& slots[0].name_str_idx == little_endian(data, at + 2, 4)
            &&& is_type_code(data[at + 6], slots[0].type_hint)
            &&& is_source_code(data[at + 7], slots[0].source)
            &&& slots[0].default_bytes == data.subrange(at + 10, end)
            &&& parser::slots_from(data, end, (count - 1) as nat) == Ok::<
                Seq<SlotEntryView>,
                ErrorView,
            >(slots.skip(1))
        }),
{
    integers_are_little_endian(data, at);
    integers_are_little_endian(data, at + 2);
    integers_are_little_endian(data, at + 8);
    let end = at + 10 + little_endian(data, at + 8, 2);
    let rest = parser::slots_from(data, end, (count - 1) as nat)->Ok_0;
    let slots = parser::slots_from(data, at, count)->Ok_0;
    assert(slots.skip(1) =~= rest);
}

/// A run of islands that is read starts with the island whose id, trigger, props
/// mode, name, offset and slots stand first; the others follow behind its slots.
pub proof fn island_layout(data: Seq<u8>, at: int, count: nat)
    requires
        0 <= at,
        count > 0,
        parser::islands_from(data, at, count) is Ok,
    ensures
        ({
            let islands = parser::islands_from(data, at, count)->Ok_0;
            let n = little_endian(data, at + 12, 2);
            let end = at + 14 + 2 * n;
            &&& end <= data.len()
            &&& islands.len() > 0
            &&& islands[0].id == little_endian(data, at, 2)
            &&& is_trigger_code(data[at + 2], islands[0].trigger)
            &&& is_mode_code(data[at + 3], islands[0].props_mode)
            &&& islands[0].name_str_idx == little_endian(data, at + 4, 4)
            &&& islands[0].byte_offset == little_endian(data, at + 8, 4)
            &&& islands[0].slot_ids.len() == n
            &&& forall|k: int|
                0 <= k < n ==> (#[trigger] islands[0].slot_ids[k]) == little_endian(
                    data,
                    at + 14 + 2 * k,
                    2,
                )
            &&& parser::islands_from(data, end, (count - 1) as nat) == Ok::<
                Seq<IslandEntryView>,
                ErrorView,
            >(islands.skip(1))
        }),
{
    integers_are_little_endian(data, at);
    integers_are_little_endian(data, at + 4);
    integers_are_little_endian(data, at + 8);
    integers_are_little_endian(data, at + 12);
    let n = little_endian(data, at + 12, 2);
    let rest = parser::islands_from(data, at + 14 + 2 * n, (count - 1) as nat)->Ok_0;
    let islands = parser::islands_from(data, at, count)->Ok_0;
    assert(islands.skip(1) =~= rest);
    assert forall|k: int| 0 <= k < n implies (#[trigger] islands[0].slot_ids[k]) == little_endian(
        data,
        at + 14 + 2 * k,
        2,
    ) by {
        integers_are_little_endian(data, at + 14 + 2 * k);
    }
}

/// A table that is read has as many entries as its count says, which stands first.
pub proof fn tables_are_counted(data: Seq<u8>)
    ensures
        parser::string_table_of(data) matches Ok(strings) ==> strings.len() == little_endian(
            data,
            0,
            4,
        ) && parser::strings_from(data, 4, strings.len()) == Ok::<Seq<Seq<char>>, ErrorView>(
            strings,
        ),
        parser::slot_table_of(data) matches Ok(slots) ==> slots.len() == little_endian(data, 0, 2)
            && parser::slots_from(data, 2, slots.len()) == Ok::<Seq<SlotEntryView>, ErrorView>(
            slots,
        ),
        parser::island_table_of(data) matches Ok(islands) ==> islands.len() == little_endian(
            data,
            0,
            2,
        ) && parser::islands_from(data, 2, islands.len()) == Ok::<
            Seq<IslandEntryView>,
            ErrorView,
        >(islands),
{
    integers_are_little_endian(data, 0);
    runs_are_counted(data, 4, bytes::u32_at(data, 0) as nat);
    runs_are_counted(data, 2, bytes::u16_at(data, 0) as nat);
}

proof fn runs_are_counted(data: Seq<u8>, at: int, count: nat)
    ensures
        parser::strings_from(data, at, count) matches Ok(strings) ==> strings.len() == count,
        parser::slots_from(data, at, count) matches Ok(slots) ==> slots.len() == count,
        parser::islands_from(data, at, count) matches Ok(islands) ==> islands.len() == count,
    decreases count,
{
    if count > 0 {
        let n = (count - 1) as nat;
        runs_are_counted(data, at + 2 + bytes::u16_at(data, at), n);
        runs_are_counted(data, at + 10 + bytes::u16_at(data, at + 8), n);
        runs_are_counted(data, at + 14 + 2 * bytes::u16_at(data, at + 12), n);
    }
}

// ---------------------------------------------------------------------------
// Codes
// ---------------------------------------------------------------------------

/// The byte of a slot type.
pub open spec fn is_type_code(b: u8, t: SlotType) -> bool {
    b == match t {
        SlotType::Text => 1u8,
        SlotType::Bool => 2,
        SlotType::Number => 3,
        SlotType::Array => 4,
        SlotType::Object => 5,
    }
}

/// The byte of a slot source.
pub open spec fn is_source_code(b: u8, s: SlotSource) -> bool {
    b == match s {
        SlotSource::Server => 0u8,
        SlotSource::Client => 1,
    }
}

/// The byte of a trigger.
pub open spec fn is_trigger_code(b: u8, t: IslandTrigger) -> bool {
    b == match t {
        IslandTrigger::Load => 1u8,
        IslandTrigger::Visible => 2,
        IslandTrigger::Interaction => 3,
        IslandTrigger::Idle => 4,
    }
}

/// The byte of a props mode.
pub open spec fn is_mode_code(b: u8, m: PropsMode) -> bool {
    b == match m {
        PropsMode::Inline => 1u8,
        PropsMode::ScriptTag => 2,
        PropsMode::Deferred => 3,
    }
}

/// Every code is read as what it stands for, and nothing else is read.
pub proof fn codes_are_read(b: u8)
    ensures
        forall|t: SlotType|
            (crate::format::slot_type_of(b) == Some(t)) == #[trigger] is_type_code(b, t),
        forall|s: SlotSource|
            (crate::format::source_of(b) == Some(s)) == #[trigger] is_source_code(b, s),
        forall|t: IslandTrigger|
            (crate::format::trigger_of(b) == Some(t)) == #[trigger] is_trigger_code(b, t),
        forall|m: PropsMode|
            (crate::format::props_mode_of(b) == Some(m)) == #[trigger] is_mode_code(b, m),
        crate::format::opcode_of(b) is Some <==> 1 <= b <= 0x12,
{
}

// ---------------------------------------------------------------------------
// Refusals
// ---------------------------------------------------------------------------

/// An integer is read where all of its bytes are there, and only there; what is missing
/// is reported by where the read would have ended.
pub proof fn reads_end_in_the_buffer(data: Seq<u8>, at: int)
    requires
        0 <= at,
        at + 4 <= usize::MAX,
    ensures
        at + 2 <= data.len() ==> (bytes::u16_read(data, at) matches Ok(v) && v == little_endian(
            data,
            at,
            2,
        )),
        at + 2 > data.len() ==> bytes::u16_read(data, at) == Err::<u16, ErrorView>(
            ErrorView::BufferTooShort { expected: at + 2, actual: data.len() as int },
        ),
        at + 4 <= data.len() ==> (bytes::u32_read(data, at) matches Ok(v) && v == little_endian(
            data,
            at,
            4,
        )),
        at + 4 > data.len() ==> bytes::u32_read(data, at) == Err::<u32, ErrorView>(
            ErrorView::BufferTooShort { expected: at + 4, actual: data.len() as int },
        ),
{
    integers_are_little_endian(data, at);
}

/// A file that is too short for its header, or for its section table behind a valid
/// header, is refused; so is one whose header is, with the header's error.
pub proof fn short_files_are_refused(data: Seq<u8>)
    ensures
        data.len() < 16 ==> parser::module_of(data) == Err::<ModuleView, ErrorView>(
            ErrorView::BufferTooShort { expected: 16, actual: data.len() as int },
        ),
        data.len() >= 16 && !has_magic(data) ==> parser::module_of(data) == Err::<
            ModuleView,
            ErrorView,
        >(ErrorView::BadMagic(data.take(4))),
        data.len() >= 16 && has_magic(data) && little_endian(data, 4, 2) != 2 ==> (
        parser::module_of(data) matches Err(ErrorView::UnsupportedVersion(v)) && v
            == little_endian(data, 4, 2)),
        data.len() >= 16 && has_magic(data) && little_endian(data, 4, 2) == 2 && little_endian(
            data,
            6,
            2,
        ) != 0 ==> (parser::module_of(data) matches Err(ErrorView::ReservedFlags(f)) && f
            == little_endian(data, 6, 2)),
        16 <= data.len() < 48 && has_header(data, little_endian(data, 8, 8) as u64)
            ==> parser::module_of(data) == Err::<ModuleView, ErrorView>(
            ErrorView::BufferTooShort { expected: 48, actual: data.len() as int },
        ),
{
    if data.len() >= 16 {
        headers_are_read(data);
    }
}

/// Sections are checked from the first to the last: the first one that reaches past the
/// end is reported, and where all lie within the file the check succeeds.
pub proof fn sections_are_checked(table: Seq<SectionDescriptor>, file_len: int, i: int)
    ensures
        0 <= i < table.len() && table[i].offset + table[i].size > file_len && (forall|k: int|
            0 <= k < i ==> (#[trigger] table[k]).offset + table[k].size <= file_len)
            ==> crate::format::sections_checked(table, file_len, 0) == Err::<(), ErrorView>(
            ErrorView::SectionOutOfBounds {
                section: i,
                offset: table[i].offset,
                size: table[i].size,
                file_len,
            },
        ),
        (forall|k: int|
            0 <= k < table.len() ==> (#[trigger] table[k]).offset + table[k].size <= file_len)
            ==> crate::format::sections_checked(table, file_len, 0) is Ok,
{
    if 0 <= i < table.len() && table[i].offset + table[i].size > file_len && forall|k: int|
        0 <= k < i ==> (#[trigger] table[k]).offset + table[k].size <= file_len {
        first_bad_section(table, file_len, i, 0);
    }
    if forall|k: int|
        0 <= k < table.len() ==> (#[trigger] table[k]).offset + table[k].size <= file_len {
        test_helpers::sections_all_fit(table, file_len, 0);
    }
}

/// A section table is four pairs of an offset and a size, in the order of the sections;
/// one that is too short is refused, as is a header that is.
pub proof fn section_tables_are_read(data: Seq<u8>, i: int)
    ensures
        data.len() < 32 ==> crate::format::sections_of(data) == Err::<
            Seq<SectionDescriptor>,
            ErrorView,
        >(ErrorView::BufferTooShort { expected: 32, actual: data.len() as int }),
        data.len() >= 32 ==> (crate::format::sections_of(data) matches Ok(table) && table.len() == 4
            && (0 <= i < 4 ==> table[i].offset == little_endian(data, 8 * i, 4) && table[i].size
            == little_endian(data, 8 * i + 4, 4))),
        data.len() < 16 ==> crate::format::header_of(data) == Err::<IrHeader, ErrorView>(
            ErrorView::BufferTooShort { expected: 16, actual: data.len() as int },
        ),
{
    if data.len() >= 32 && 0 <= i < 4 {
        integers_are_little_endian(data, 8 * i);
        integers_are_little_endian(data, 8 * i + 4);
        let table = crate::format::sections_of(data)->Ok_0;
        assert(table[0] == crate::format::section_at(data, 0));
        assert(table[1] == crate::format::section_at(data, 8));
        assert(table[2] == crate::format::section_at(data, 16));
        assert(table[3] == crate::format::section_at(data, 24));
    }
}

/// A table that is too short for its count is refused, as is a string table whose count
/// is larger than its section.
pub proof fn short_tables_are_refused(data: Seq<u8>)
    requires
        data.len() <= usize::MAX,
    ensures
        data.len() < 4 ==> parser::string_table_of(data) == Err::<Seq<Seq<char>>, ErrorView>(
            ErrorView::BufferTooShort { expected: 4, actual: data.len() as int },
        ),
        data.len() >= 4 && little_endian(data, 0, 4) > data.len() ==> (parser::string_table_of(data)
            matches Err(ErrorView::BufferTooShort { expected, actual }) && actual == data.len() && (
        little_endian(data, 0, 4) <= usize::MAX ==> expected == little_endian(data, 0, 4))),
        data.len() < 2 ==> parser::slot_table_of(data) == Err::<Seq<SlotEntryView>, ErrorView>(
            ErrorView::BufferTooShort { expected: 2, actual: data.len() as int },
        ),
        data.len() < 2 ==> parser::island_table_of(data) == Err::<Seq<IslandEntryView>, ErrorView>(
            ErrorView::BufferTooShort { expected: 2, actual: data.len() as int },
        ),
{
    integers_are_little_endian(data, 0);
}

proof fn first_bad_section(table: Seq<SectionDescriptor>, file_len: int, i: int, from: int)
    requires
        0 <= from <= i < table.len(),
        !crate::format::section_fits(table[i], file_len),
        forall|k: int|
            from <= k < i ==> crate::format::section_fits(#[trigger] table[k], file_len),
    ensures
        crate::format::sections_checked(table, file_len, from) == Err::<(), ErrorView>(
            ErrorView::SectionOutOfBounds {
                section: i,
                offset: table[i].offset,
                size: table[i].size,
                file_len,
            },
        ),
    decreases i - from,
{
    if from < i {
        assert(crate::format::section_fits(table[from], file_len));
        first_bad_section(table, file_len, i, from + 1);
    }
}

/// The first section that reaches past the end of the file is reported, with where it
/// should stand.
pub proof fn sections_outside_the_file_are_refused(data: Seq<u8>, source_hash: u64, i: int)
    requires
        has_header(data, source_hash),
        data.len() >= 48,
        0 <= i < 4,
        little_endian(data, 16 + 8 * i, 4) + little_endian(data, 20 + 8 * i, 4) > data.len(),
        forall|k: int|
            0 <= k < i ==> #[trigger] little_endian(data, 16 + 8 * k, 4) + little_endian(
                data,
                20 + 8 * k,
                4,
            ) <= data.len(),
    ensures
        parser::module_of(data) matches Err(
            ErrorView::SectionOutOfBounds { section, offset, size, file_len },
        ) && section == i && offset == little_endian(data, 16 + 8 * i, 4) && size == little_endian(
            data,
            20 + 8 * i,
            4,
        ) && file_len == data.len(),
{
    headers_are_read(data);
    descriptor_is_read(data, i);
    let table = crate::format::sections_of(data.skip(16))->Ok_0;
    assert forall|k: int| 0 <= k < i implies crate::format::section_fits(
        #[trigger] table[k],
        data.len() as int,
    ) by {
        descriptor_is_read(data, k);
        assert(little_endian(data, 16 + 8 * k, 4) + little_endian(data, 20 + 8 * k, 4)
            <= data.len());
    }
    first_bad_section(table, data.len() as int, i, 0);
}

/// An entry that does not fit its section, or whose codes mean nothing, is refused with
/// the bytes at fault.
pub proof fn bad_entries_are_refused(data: Seq<u8>, at: int, count: nat)
    requires
        0 <= at,
        count > 0,
        data.len() + 0x4_0000 <= usize::MAX,
        at <= data.len(),
    ensures
        at + 2 > data.len() ==> parser::strings_from(data, at, count) == Err::<
            Seq<Seq<char>>,
            ErrorView,
        >(ErrorView::BufferTooShort { expected: at + 2, actual: data.len() as int }),
        at + 2 <= data.len() && at + 2 + little_endian(data, at, 2) > data.len()
            ==> parser::strings_from(data, at, count) == Err::<Seq<Seq<char>>, ErrorView>(
            ErrorView::BufferTooShort {
                expected: at + 2 + little_endian(data, at, 2),
                actual: data.len() as int,
            },
        ),
        at + 10 > data.len() ==> parser::slots_from(data, at, count) == Err::<
            Seq<SlotEntryView>,
            ErrorView,
        >(ErrorView::BufferTooShort { expected: at + 10, actual: data.len() as int }),
        at + 10 <= data.len() && !(1 <= data[at + 6] <= 5) ==> parser::slots_from(data, at, count)
            == Err::<Seq<SlotEntryView>, ErrorView>(ErrorView::InvalidSlotType(data[at + 6])),
        at + 10 <= data.len() && 1 <= data[at + 6] <= 5 && data[at + 7] > 1 ==> parser::slots_from(
            data,
            at,
            count,
        ) == Err::<Seq<SlotEntryView>, ErrorView>(ErrorView::InvalidSlotSource(data[at + 7])),
        at + 14 > data.len() ==> parser::islands_from(data, at, count) == Err::<
            Seq<IslandEntryView>,
            ErrorView,
        >(ErrorView::BufferTooShort { expected: at + 14, actual: data.len() as int }),
        at + 14 <= data.len() && !(1 <= data[at + 2] <= 4) ==> parser::islands_from(data, at, count)
            == Err::<Seq<IslandEntryView>, ErrorView>(
            ErrorView::InvalidIslandTrigger(data[at + 2]),
        ),
        at + 14 <= data.len() && 1 <= data[at + 2] <= 4 && !(1 <= data[at + 3] <= 3)
            ==> parser::islands_from(data, at, count) == Err::<Seq<IslandEntryView>, ErrorView>(
            ErrorView::InvalidPropsMode(data[at + 3]),
        ),
{
    integers_are_little_endian(data, at);
}

/// A module whose slots or islands refer to a string that is not there is refused: the
/// first such slot is reported, or else the first such island.
pub proof fn names_outside_the_table_are_refused(m: ModuleView, i: int)
    ensures
        0 <= i < m.slots.len() && m.slots[i].name_str_idx >= m.strings.len() && (forall|k: int|
            0 <= k < i ==> (#[trigger] m.slots[k]).name_str_idx < m.strings.len())
            ==> parser::names_checked(m) == Err::<(), ErrorView>(
            ErrorView::StringIndexOutOfBounds {
                index: m.slots[i].name_str_idx,
                len: m.strings.len() as int,
            },
        ),
        (forall|k: int|
            0 <= k < m.slots.len() ==> (#[trigger] m.slots[k]).name_str_idx < m.strings.len()) && 0
            <= i < m.islands.len() && m.islands[i].name_str_idx >= m.strings.len() && (forall|
            k: int,
        |
            0 <= k < i ==> (#[trigger] m.islands[k]).name_str_idx < m.strings.len())
            ==> parser::names_checked(m) == Err::<(), ErrorView>(
            ErrorView::StringIndexOutOfBounds {
                index: m.islands[i].name_str_idx,
                len: m.strings.len() as int,
            },
        ),
{
    if 0 <= i < m.slots.len() && m.slots[i].name_str_idx >= m.strings.len() && forall|k: int|
        0 <= k < i ==> (#[trigger] m.slots[k]).name_str_idx < m.strings.len() {
        first_bad_slot(m, i, 0);
    }
    if (forall|k: int|
        0 <= k < m.slots.len() ==> (#[trigger] m.slots[k]).name_str_idx < m.strings.len()) && 0
        <= i < m.islands.len() && m.islands[i].name_str_idx >= m.strings.len() && (forall|k: int|
        0 <= k < i ==> (#[trigger] m.islands[k]).name_str_idx < m.strings.len()) {
        good_slots(m, 0);
        first_bad_island(m, i, 0);
    }
}

proof fn first_bad_slot(m: ModuleView, i: int, from: int)
    requires
        0 <= from <= i < m.slots.len(),
        m.slots[i].name_str_idx >= m.strings.len(),
        forall|k: int| 0 <= k < i ==> (#[trigger] m.slots[k]).name_str_idx < m.strings.len(),
    ensures
        parser::slot_names_checked(m.slots, m.strings.len(), from) == Err::<(), ErrorView>(
            ErrorView::StringIndexOutOfBounds {
                index: m.slots[i].name_str_idx,
                len: m.strings.len() as int,
            },
        ),
    decreases i - from,
{
    if from < i {
        assert(m.slots[from].name_str_idx < m.strings.len());
        first_bad_slot(m, i, from + 1);
    }
}

proof fn good_slots(m: ModuleView, from: int)
    requires
        0 <= from,
        forall|k: int|
            0 <= k < m.slots.len() ==> (#[trigger] m.slots[k]).name_str_idx < m.strings.len(),
    ensures
        parser::slot_names_checked(m.slots, m.strings.len(), from) is Ok,
    decreases m.slots.len() - from,
{
    if from < m.slots.len() {
        assert(m.slots[from].name_str_idx < m.strings.len());
        good_slots(m, from + 1);
    }
}

proof fn first_bad_island(m: ModuleView, i: int, from: int)
    requires
        0 <= from <= i < m.islands.len(),
        m.islands[i].name_str_idx >= m.strings.len(),
        forall|k: int| 0 <= k < i ==> (#[trigger] m.islands[k]).name_str_idx < m.strings.len(),
    ensures
        parser::island_names_checked(m.islands, m.strings.len(), from) == Err::<(), ErrorView>(
            ErrorView::StringIndexOutOfBounds {
                index: m.islands[i].name_str_idx,
                len: m.strings.len() as int,
            },
        ),
    decreases i - from,
{
    if from < i {
        assert(m.islands[from].name_str_idx < m.strings.len());
        first_bad_island(m, i, from + 1);
    }
}

// ---------------------------------------------------------------------------
// Encodings
// ---------------------------------------------------------------------------

/// What is written of slots and islands stands in them field by field, and what can be
/// written is limited by the widths of the fields and the known codes alone.
pub proof fn entries_are_read_field_by_field(s: SlotParts, e: IslandParts)
    ensures
        test_helpers::slot_fits(s) <==> 1 <= s.2 <= 5 && s.3 <= 1 && s.4.len() < 0x1_0000,
        test_helpers::island_fits(e) <==> 1 <= e.1 <= 4 && 1 <= e.2 <= 3 && e.5.len() < 0x1_0000,
        test_helpers::slot_fits(s) ==> ({
            let read = test_helpers::slots_read(seq![s])[0];
            &&& read.slot_id == s.0
            &&& read.name_str_idx == s.1
            &&& is_type_code(s.2, read.type_hint)
            &&& is_source_code(s.3, read.source)
            &&& read.default_bytes == s.4
        }),
        test_helpers::island_fits(e) ==> ({
            let read = test_helpers::islands_read(seq![e])[0];
            &&& read.id == e.0
            &&& is_trigger_code(e.1, read.trigger)
            &&& is_mode_code(e.2, read.props_mode)
            &&& read.name_str_idx == e.3
            &&& read.byte_offset == e.4
            &&& read.slot_ids == e.5
        }),
{
}

/// The attributes of a tag are encoded one behind the other, each as the index of its
/// name and the index of its value.
pub proof fn attributes_are_encoded_in_turn(attrs: Seq<(u32, u32)>, key: u32, val: u32)
    ensures
        test_helpers::attrs_bytes(Seq::empty()).len() == 0,
        test_helpers::attrs_bytes(attrs.push((key, val))) == test_helpers::attrs_bytes(attrs)
            + bytes::u32_bytes(key) + bytes::u32_bytes(val),
{
    assert(attrs.push((key, val)).drop_last() =~= attrs);
}

/// Lengths are cut to the widths of their fields, and sizes are as the format has them.
pub proof fn fields_have_their_widths(n: nat)
    ensures
        test_helpers::low16(n) == n % 0x1_0000,
        test_helpers::low32(n) == n % 0x1_0000_0000,
        crate::format::HEADER_SIZE == 16,
        crate::format::SECTION_TABLE_SIZE == 32,
        crate::format::IR_VERSION == 2,
        MAGIC@ == seq![0x46u8, 0x4D, 0x49, 0x52],
{
    assert(MAGIC@ =~= seq![0x46u8, 0x4D, 0x49, 0x52]);
}

/// A file that is built has no source hash, and holds what it is built from: nothing of
/// it is lost and nothing is added.
pub proof fn built_files_hold_what_was_given(
    strings: Seq<Seq<char>>,
    slots: Seq<SlotParts>,
    opcodes: Seq<u8>,
    islands: Seq<IslandParts>,
)
    requires
        test_helpers::strings_fit(strings),
        slots.len() < 0x1_0000,
        forall|i: int| 0 <= i < slots.len() ==> test_helpers::slot_fits(#[trigger] slots[i]),
        islands.len() < 0x1_0000,
        forall|i: int| 0 <= i < islands.len() ==> test_helpers::island_fits(#[trigger] islands[i]),
        forall|i: int| 0 <= i < slots.len() ==> (#[trigger] slots[i]).1 < strings.len(),
        forall|i: int| 0 <= i < islands.len() ==> (#[trigger] islands[i]).3 < strings.len(),
        test_helpers::module_bytes(strings, slots, opcodes, islands).len() < 0x1_0000_0000,
    ensures
        parser::module_of(test_helpers::module_bytes(strings, slots, opcodes, islands)) matches Ok(
            m,
        ) && m.header.version == 2 && m.header.flags == 0 && m.header.source_hash == 0 && m.strings
            == strings && m.opcodes == opcodes && m.slots == test_helpers::slots_read(slots)
            && m.islands == test_helpers::islands_read(islands),
{
    let m = test_helpers::module_read(strings, slots, opcodes, islands);
    assert forall|i: int| 0 <= i < m.slots.len() implies (#[trigger] m.slots[i]).name_str_idx
        < m.strings.len() by {
        assert(slots[i].1 < strings.len());
    }
    assert forall|i: int| 0 <= i < m.islands.len() implies (#[trigger] m.islands[i]).name_str_idx
        < m.strings.len() by {
        assert(islands[i].3 < strings.len());
    }
    test_helpers::module_round_trip(strings, slots, opcodes, islands);
}

} // verus!
