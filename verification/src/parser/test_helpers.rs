//! Binary encoding helpers for building FMIR data.
//!
//! Each helper writes one structure of the format; the laws at the end say
//! that the parsers read back what the helpers wrote.

use vstd::prelude::*;

use crate::bytes;
use crate::format::{
    ErrorView, IrHeader, IslandEntryView, SectionDescriptor, SlotEntryView, HEADER_SIZE, IR_VERSION,
    MAGIC, SECTION_TABLE_SIZE,
};
use crate::parser;
use crate::parser::ModuleView;

verus! {

/// The low 16 bits of a length.
pub open spec fn low16(n: nat) -> u16 {
    (n % 0x1_0000) as u16
}

/// The low 32 bits of a length.
pub open spec fn low32(n: nat) -> u32 {
    (n % 0x1_0000_0000) as u32
}

fn push_len16(buf: &mut Vec<u8>, n: usize)
    ensures
        final(buf)@ == old(buf)@ + bytes::u16_bytes(low16(n as nat)),
{
    bytes::push_u16(buf, (n as u64 % 0x1_0000) as u16);
}

fn push_len32(buf: &mut Vec<u8>, n: u128)
    ensures
        final(buf)@ == old(buf)@ + bytes::u32_bytes(low32(n as nat)),
{
    bytes::push_u32(buf, (n % 0x1_0000_0000) as u32);
}

// -- Tables -----------------------------------------------------------------

/// The texts of a run of string slices.
pub open spec fn texts(strings: Seq<&str>) -> Seq<Seq<char>> {
    Seq::new(strings.len(), |i: int| strings[i]@)
}

/// One string: its length in bytes, then its bytes.
pub open spec fn string_bytes(s: Seq<char>) -> Seq<u8> {
    bytes::u16_bytes(low16(vstd::utf8::encode_utf8(s).len())) + vstd::utf8::encode_utf8(s)
}

/// A run of strings, one after the other.
pub open spec fn strings_bytes(strings: Seq<Seq<char>>) -> Seq<u8>
    decreases strings.len(),
{
    if strings.len() == 0 {
        Seq::empty()
    } else {
        string_bytes(strings[0]) + strings_bytes(strings.skip(1))
    }
}

/// A string table.
pub open spec fn string_table_bytes(strings: Seq<Seq<char>>) -> Seq<u8> {
    bytes::u32_bytes(low32(strings.len())) + strings_bytes(strings)
}

/// Build valid string table binary data from a slice of strings.
pub fn build_string_table(strings: &[&str]) -> (res: Vec<u8>)
    ensures
        res@ == string_table_bytes(texts(strings@)),
{
    let mut buf: Vec<u8> = Vec::new();
    push_len32(&mut buf, strings.len() as u128);
    let ghost all = texts(strings@);
    let mut i: usize = 0;
    proof {
        assert(all.skip(0) =~= all);
        assert(buf@ =~= bytes::u32_bytes(low32(all.len())));
    }
    while i < strings.len()
        invariant
            i <= strings@.len(),
            all == texts(strings@),
            buf@ + strings_bytes(all.skip(i as int)) == string_table_bytes(all),
        decreases strings.len() - i,
    {
        let ghost before = buf@;
        let s: &str = strings[i];
        let encoded = s.as_bytes();
        push_len16(&mut buf, encoded.len());
        bytes::push_bytes(&mut buf, encoded);
        proof {
            assert(all.skip(i as int)[0] == s@);
            assert(all.skip(i as int).skip(1) =~= all.skip(i + 1));
            assert(buf@ =~= before + string_bytes(s@));
            assert((before + string_bytes(s@)) + strings_bytes(all.skip(i + 1)) =~= before + (
            string_bytes(s@) + strings_bytes(all.skip(i + 1))));
        }
        i += 1;
    }
    proof {
        assert(buf@ + strings_bytes(all.skip(i as int)) =~= buf@);
    }
    buf
}

/// What is written of a slot: its id, the index of its name, the byte of its
/// type, the byte of its source, and its default.
pub type SlotParts = (u16, u32, u8, u8, Seq<u8>);

/// The parts of a run of slots.
pub open spec fn slot_parts(entries: Seq<(u16, u32, u8, u8, &[u8])>) -> Seq<SlotParts> {
    Seq::new(
        entries.len(),
        |i: int| (entries[i].0, entries[i].1, entries[i].2, entries[i].3, entries[i].4@),
    )
}

/// One slot entry.
pub open spec fn slot_bytes(s: SlotParts) -> Seq<u8> {
    bytes::u16_bytes(s.0) + bytes::u32_bytes(s.1) + seq![s.2, s.3] + bytes::u16_bytes(
        low16(s.4.len()),
    ) + s.4
}

/// A run of slot entries, one after the other.
pub open spec fn slots_bytes(slots: Seq<SlotParts>) -> Seq<u8>
    decreases slots.len(),
{
    if slots.len() == 0 {
        Seq::empty()
    } else {
        slot_bytes(slots[0]) + slots_bytes(slots.skip(1))
    }
}

/// A slot table.
pub open spec fn slot_table_bytes(slots: Seq<SlotParts>) -> Seq<u8> {
    bytes::u16_bytes(low16(slots.len())) + slots_bytes(slots)
}

/// Build valid v2 slot table binary data from a slice of
/// (slot_id, name_str_idx, type_hint_byte, source_byte, default_bytes).
pub fn build_slot_table(entries: &[(u16, u32, u8, u8, &[u8])]) -> (res: Vec<u8>)
    ensures
        res@ == slot_table_bytes(slot_parts(entries@)),
{
    let mut buf: Vec<u8> = Vec::new();
    push_len16(&mut buf, entries.len());
    let ghost all = slot_parts(entries@);
    let mut i: usize = 0;
    proof {
        assert(all.skip(0) =~= all);
        assert(buf@ =~= bytes::u16_bytes(low16(all.len())));
    }
    while i < entries.len()
        invariant
            i <= entries@.len(),
            all == slot_parts(entries@),
            buf@ + slots_bytes(all.skip(i as int)) == slot_table_bytes(all),
        decreases entries.len() - i,
    {
        let ghost before = buf@;
        let entry = &entries[i];
        bytes::push_u16(&mut buf, entry.0);
        bytes::push_u32(&mut buf, entry.1);
        buf.push(entry.2);
        buf.push(entry.3);
        push_len16(&mut buf, entry.4.len());
        bytes::push_bytes(&mut buf, entry.4);
        proof {
            let parts = all[i as int];
            assert(all.skip(i as int)[0] == parts);
            assert(all.skip(i as int).skip(1) =~= all.skip(i + 1));
            assert(buf@ =~= before + slot_bytes(parts));
            assert((before + slot_bytes(parts)) + slots_bytes(all.skip(i + 1)) =~= before + (
            slot_bytes(parts) + slots_bytes(all.skip(i + 1))));
        }
        i += 1;
    }
    proof {
        assert(buf@ + slots_bytes(all.skip(i as int)) =~= buf@);
    }
    buf
}

/// What is written of an island: its id, the byte of its trigger, the byte of
/// its props mode, the index of its name, its offset in the opcode stream, and
/// the ids of its slots.
pub type IslandParts = (u16, u8, u8, u32, u32, Seq<u16>);

/// The parts of a run of islands.
pub open spec fn island_parts(entries: Seq<(u16, u8, u8, u32, u32, &[u16])>) -> Seq<IslandParts> {
    Seq::new(
        entries.len(),
        |i: int|
            (
                entries[i].0,
                entries[i].1,
                entries[i].2,
                entries[i].3,
                entries[i].4,
                entries[i].5@,
            ),
    )
}

/// A run of slot ids, one after the other.
pub open spec fn ids_bytes(ids: Seq<u16>) -> Seq<u8> {
    Seq::new(2 * ids.len(), |k: int| bytes::u16_bytes(ids[k / 2])[k % 2])
}

/// One island entry.
pub open spec fn island_bytes(e: IslandParts) -> Seq<u8> {
    bytes::u16_bytes(e.0) + seq![e.1, e.2] + bytes::u32_bytes(e.3) + bytes::u32_bytes(e.4)
        + bytes::u16_bytes(low16(e.5.len())) + ids_bytes(e.5)
}

/// A run of island entries, one after the other.
pub open spec fn islands_bytes(islands: Seq<IslandParts>) -> Seq<u8>
    decreases islands.len(),
{
    if islands.len() == 0 {
        Seq::empty()
    } else {
        island_bytes(islands[0]) + islands_bytes(islands.skip(1))
    }
}

/// An island table.
pub open spec fn island_table_bytes(islands: Seq<IslandParts>) -> Seq<u8> {
    bytes::u16_bytes(low16(islands.len())) + islands_bytes(islands)
}

fn push_ids(buf: &mut Vec<u8>, ids: &[u16])
    ensures
        final(buf)@ == old(buf)@ + ids_bytes(ids@),
{
    let ghost start = buf@;
    let mut i: usize = 0;
    while i < ids.len()
        invariant
            i <= ids@.len(),
            buf@ == start + ids_bytes(ids@.take(i as int)),
        decreases ids.len() - i,
    {
        bytes::push_u16(buf, ids[i]);
        i += 1;
        proof {
            let grown = ids_bytes(ids@.take(i as int));
            assert(grown =~= ids_bytes(ids@.take(i - 1)) + bytes::u16_bytes(ids@[i - 1]));
        }
    }
    proof {
        assert(ids@.take(i as int) =~= ids@);
    }
}

/// Build valid island table binary data with slot_ids support.
///
/// Tuple: `(id, trigger, props_mode, name_str_idx, byte_offset, slot_ids)`
pub fn build_island_table(entries: &[(u16, u8, u8, u32, u32, &[u16])]) -> (res: Vec<u8>)
    ensures
        res@ == island_table_bytes(island_parts(entries@)),
{
    let mut buf: Vec<u8> = Vec::new();
    push_len16(&mut buf, entries.len());
    let ghost all = island_parts(entries@);
    let mut i: usize = 0;
    proof {
        assert(all.skip(0) =~= all);
        assert(buf@ =~= bytes::u16_bytes(low16(all.len())));
    }
    while i < entries.len()
        invariant
            i <= entries@.len(),
            all == island_parts(entries@),
            buf@ + islands_bytes(all.skip(i as int)) == island_table_bytes(all),
        decreases entries.len() - i,
    {
        let ghost before = buf@;
        let entry = &entries[i];
        bytes::push_u16(&mut buf, entry.0);
        buf.push(entry.1);
        buf.push(entry.2);
        bytes::push_u32(&mut buf, entry.3);
        bytes::push_u32(&mut buf, entry.4);
        push_len16(&mut buf, entry.5.len());
        push_ids(&mut buf, entry.5);
        proof {
            let parts = all[i as int];
            assert(all.skip(i as int)[0] == parts);
            assert(all.skip(i as int).skip(1) =~= all.skip(i + 1));
            assert(buf@ =~= before + island_bytes(parts));
            assert((before + island_bytes(parts)) + islands_bytes(all.skip(i + 1)) =~= before + (
            island_bytes(parts) + islands_bytes(all.skip(i + 1))));
        }
        i += 1;
    }
    proof {
        assert(buf@ + islands_bytes(all.skip(i as int)) =~= buf@);
    }
    buf
}

// -- Opcode encoding helpers ------------------------------------------------

/// A run of attributes: the indices of each key and value.
pub open spec fn attrs_bytes(attrs: Seq<(u32, u32)>) -> Seq<u8>
    decreases attrs.len(),
{
    if attrs.len() == 0 {
        Seq::empty()
    } else {
        attrs_bytes(attrs.drop_last()) + bytes::u32_bytes(attrs.last().0) + bytes::u32_bytes(
            attrs.last().1,
        )
    }
}

/// A tag with its attributes, behind the byte of its opcode.
pub open spec fn tag_bytes(opcode: u8, str_idx: u32, attrs: Seq<(u32, u32)>) -> Seq<u8> {
    seq![opcode] + bytes::u32_bytes(str_idx) + bytes::u16_bytes(low16(attrs.len())) + attrs_bytes(
        attrs,
    )
}

fn encode_tag(opcode: u8, str_idx: u32, attrs: &[(u32, u32)]) -> (res: Vec<u8>)
    ensures
        res@ == tag_bytes(opcode, str_idx, attrs@),
{
    let mut buf: Vec<u8> = Vec::new();
    buf.push(opcode);
    bytes::push_u32(&mut buf, str_idx);
    push_len16(&mut buf, attrs.len());
    let ghost head = buf@;
    let mut i: usize = 0;
    while i < attrs.len()
        invariant
            i <= attrs@.len(),
            buf@ == head + attrs_bytes(attrs@.take(i as int)),
        decreases attrs.len() - i,
    {
        bytes::push_u32(&mut buf, attrs[i].0);
        bytes::push_u32(&mut buf, attrs[i].1);
        i += 1;
        proof {
            assert(attrs@.take(i as int).drop_last() =~= attrs@.take(i - 1));
        }
    }
    proof {
        assert(attrs@.take(i as int) =~= attrs@);
        assert(head =~= seq![opcode] + bytes::u32_bytes(str_idx) + bytes::u16_bytes(
            low16(attrs@.len()),
        ));
    }
    buf
}

/// Encode an OPEN_TAG opcode: opcode(1) + str_idx(4) + attr_count(2) + [(key(4), val(4))]
pub fn encode_open_tag(str_idx: u32, attrs: &[(u32, u32)]) -> (res: Vec<u8>)
    ensures
        res@ == tag_bytes(0x01, str_idx, attrs@),
{
    encode_tag(0x01, str_idx, attrs)  // Opcode::OpenTag
}

/// Encode a CLOSE_TAG opcode: opcode(1) + str_idx(4)
pub fn encode_close_tag(str_idx: u32) -> (res: Vec<u8>)
    ensures
        res@ == seq![0x02u8] + bytes::u32_bytes(str_idx),
{
    let mut buf: Vec<u8> = Vec::new();
    buf.push(0x02);  // Opcode::CloseTag
    bytes::push_u32(&mut buf, str_idx);
    buf
}

/// Encode a VOID_TAG opcode: opcode(1) + str_idx(4) + attr_count(2) + [(key(4), val(4))]
pub fn encode_void_tag(str_idx: u32, attrs: &[(u32, u32)]) -> (res: Vec<u8>)
    ensures
        res@ == tag_bytes(0x03, str_idx, attrs@),
{
    encode_tag(0x03, str_idx, attrs)  // Opcode::VoidTag
}

/// Encode a TEXT opcode: opcode(1) + str_idx(4)
pub fn encode_text(str_idx: u32) -> (res: Vec<u8>)
    ensures
        res@ == seq![0x04u8] + bytes::u32_bytes(str_idx),
{
    let mut buf: Vec<u8> = Vec::new();
    buf.push(0x04);  // Opcode::Text
    bytes::push_u32(&mut buf, str_idx);
    buf
}

/// A SHOW_IF opcode with its two branches.
pub open spec fn show_if_bytes(slot_id: u16, then_ops: Seq<u8>, else_ops: Seq<u8>) -> Seq<u8> {
    seq![0x07u8] + bytes::u16_bytes(slot_id) + bytes::u32_bytes(low32(then_ops.len()))
        + bytes::u32_bytes(low32(else_ops.len())) + then_ops + seq![0x08u8] + else_ops
}

/// Encode a SHOW_IF opcode with then/else branches.
///
/// Binary layout:
/// ```text
/// [SHOW_IF(0x07)] [slot_id(u16)] [then_len(u32)] [else_len(u32)]
/// [then_ops bytes...] [SHOW_ELSE(0x08)] [else_ops bytes...]
/// ```
pub fn encode_show_if(slot_id: u16, then_ops: &[u8], else_ops: &[u8]) -> (res: Vec<u8>)
    ensures
        res@ == show_if_bytes(slot_id, then_ops@, else_ops@),
{
    let mut buf: Vec<u8> = Vec::new();
    buf.push(0x07);  // Opcode::ShowIf
    bytes::push_u16(&mut buf, slot_id);
    push_len32(&mut buf, then_ops.len() as u128);
    push_len32(&mut buf, else_ops.len() as u128);
    bytes::push_bytes(&mut buf, then_ops);  // then branch body
    buf.push(0x08);  // SHOW_ELSE marker
    bytes::push_bytes(&mut buf, else_ops);  // else branch body
    proof {
        assert(buf@ =~= show_if_bytes(slot_id, then_ops@, else_ops@));
    }
    buf
}

/// A LIST opcode with its body.
pub open spec fn list_bytes(slot_id: u16, item_slot_id: u16, body_ops: Seq<u8>) -> Seq<u8> {
    seq![0x0Au8] + bytes::u16_bytes(slot_id) + bytes::u16_bytes(item_slot_id) + bytes::u32_bytes(
        low32(body_ops.len()),
    ) + body_ops
}

/// Encode a LIST opcode: opcode(1) + slot_id(2) + item_slot_id(2) + body_len(4) + body
pub fn encode_list(slot_id: u16, item_slot_id: u16, body_ops: &[u8]) -> (res: Vec<u8>)
    ensures
        res@ == list_bytes(slot_id, item_slot_id, body_ops@),
{
    let mut buf: Vec<u8> = Vec::new();
    buf.push(0x0A);  // Opcode::List
    bytes::push_u16(&mut buf, slot_id);
    bytes::push_u16(&mut buf, item_slot_id);
    push_len32(&mut buf, body_ops.len() as u128);
    bytes::push_bytes(&mut buf, body_ops);
    proof {
        assert(buf@ =~= list_bytes(slot_id, item_slot_id, body_ops@));
    }
    buf
}

/// The value index and the body of each case of a SWITCH.
pub open spec fn case_parts(cases: Seq<(u32, &[u8])>) -> Seq<(u32, Seq<u8>)> {
    Seq::new(cases.len(), |i: int| (cases[i].0, cases[i].1@))
}

/// The headers of a run of cases.
pub open spec fn case_headers(cases: Seq<(u32, Seq<u8>)>) -> Seq<u8>
    decreases cases.len(),
{
    if cases.len() == 0 {
        Seq::empty()
    } else {
        case_headers(cases.drop_last()) + bytes::u32_bytes(cases.last().0) + bytes::u32_bytes(
            low32(cases.last().1.len()),
        )
    }
}

/// The bodies of a run of cases.
pub open spec fn case_bodies(cases: Seq<(u32, Seq<u8>)>) -> Seq<u8>
    decreases cases.len(),
{
    if cases.len() == 0 {
        Seq::empty()
    } else {
        case_bodies(cases.drop_last()) + cases.last().1
    }
}

/// A SWITCH opcode with its case headers and bodies.
pub open spec fn switch_bytes(slot_id: u16, cases: Seq<(u32, Seq<u8>)>) -> Seq<u8> {
    seq![0x09u8] + bytes::u16_bytes(slot_id) + bytes::u16_bytes(low16(cases.len())) + case_headers(
        cases,
    ) + case_bodies(cases)
}

/// Encode a SWITCH opcode with case headers and bodies.
///
/// Binary layout:
/// ```text
/// [SWITCH(0x09)] [slot_id(u16)] [case_count(u16)]
/// [val_str_idx(u32) body_len(u32)] x case_count   -- case headers
/// [...body opcodes for case 0...]
/// [...body opcodes for case 1...]
/// ...
/// ```
pub fn encode_switch(slot_id: u16, cases: &[(u32, &[u8])]) -> (res: Vec<u8>)
    ensures
        res@ == switch_bytes(slot_id, case_parts(cases@)),
{
    let mut buf: Vec<u8> = Vec::new();
    buf.push(0x09);  // Opcode::Switch
    bytes::push_u16(&mut buf, slot_id);
    push_len16(&mut buf, cases.len());
    let ghost all = case_parts(cases@);
    let ghost head = buf@;
    // Case headers
    let mut i: usize = 0;
    while i < cases.len()
        invariant
            i <= cases@.len(),
            all == case_parts(cases@),
            buf@ == head + case_headers(all.take(i as int)),
        decreases cases.len() - i,
    {
        let case = &cases[i];
        bytes::push_u32(&mut buf, case.0);
        push_len32(&mut buf, case.1.len() as u128);
        i += 1;
        proof {
            assert(all.take(i as int).drop_last() =~= all.take(i - 1));
        }
    }
    proof {
        assert(all.take(i as int) =~= all);
    }
    let ghost headed = buf@;
    // Case bodies
    let mut j: usize = 0;
    while j < cases.len()
        invariant
            j <= cases@.len(),
            all == case_parts(cases@),
            buf@ == headed + case_bodies(all.take(j as int)),
        decreases cases.len() - j,
    {
        bytes::push_bytes(&mut buf, cases[j].1);
        j += 1;
        proof {
            assert(all.take(j as int).drop_last() =~= all.take(j - 1));
        }
    }
    proof {
        assert(all.take(j as int) =~= all);
        assert(buf@ =~= switch_bytes(slot_id, all));
    }
    buf
}

/// A TRY_START/FALLBACK block.
pub open spec fn try_bytes(main_ops: Seq<u8>, fallback_ops: Seq<u8>) -> Seq<u8> {
    seq![0x0Du8] + bytes::u32_bytes(low32(fallback_ops.len())) + main_ops + seq![0x0Eu8]
        + fallback_ops
}

/// Encode a TRY_START/FALLBACK block.
///
/// Binary layout:
/// ```text
/// [TRY_START(0x0D)] [fallback_len(u32)]
/// [...main_ops...]
/// [FALLBACK(0x0E)]
/// [...fallback_ops...]
/// ```
pub fn encode_try(main_ops: &[u8], fallback_ops: &[u8]) -> (res: Vec<u8>)
    ensures
        res@ == try_bytes(main_ops@, fallback_ops@),
{
    let mut buf: Vec<u8> = Vec::new();
    buf.push(0x0D);  // Opcode::TryStart
    push_len32(&mut buf, fallback_ops.len() as u128);
    bytes::push_bytes(&mut buf, main_ops);
    buf.push(0x0E);  // Opcode::Fallback
    bytes::push_bytes(&mut buf, fallback_ops);
    proof {
        assert(buf@ =~= try_bytes(main_ops@, fallback_ops@));
    }
    buf
}

/// Encode a PRELOAD opcode: opcode(1) + resource_type(1) + url_str_idx(4)
pub fn encode_preload(resource_type: u8, url_str_idx: u32) -> (res: Vec<u8>)
    ensures
        res@ == seq![0x0Fu8, resource_type] + bytes::u32_bytes(url_str_idx),
{
    let mut buf: Vec<u8> = Vec::new();
    buf.push(0x0F);  // Opcode::Preload
    buf.push(resource_type);
    bytes::push_u32(&mut buf, url_str_idx);
    buf
}

// -- Full-file builder ------------------------------------------------------

/// A section descriptor.
#[verifier::opaque]
pub open spec fn descriptor_bytes(offset: nat, size: nat) -> Seq<u8> {
    bytes::u32_bytes(low32(offset)) + bytes::u32_bytes(low32(size))
}

/// The header of a file: magic, version, no flags, no source hash.
#[verifier::opaque]
pub open spec fn header_bytes() -> Seq<u8> {
    MAGIC@ + bytes::u16_bytes(IR_VERSION) + bytes::u16_bytes(0) + bytes::u32_bytes(0)
        + bytes::u32_bytes(0)
}

/// Four sections of the given sizes, one after the other behind the section
/// table.
#[verifier::opaque]
pub open spec fn section_table_bytes(a: nat, b: nat, c: nat, d: nat) -> Seq<u8> {
    descriptor_bytes(48, a) + descriptor_bytes(48 + a, b) + descriptor_bytes(48 + a + b, c)
        + descriptor_bytes(48 + a + b + c, d)
}

/// A whole file.
pub open spec fn module_bytes(
    strings: Seq<Seq<char>>,
    slots: Seq<SlotParts>,
    opcodes: Seq<u8>,
    islands: Seq<IslandParts>,
) -> Seq<u8> {
    let string_section = string_table_bytes(strings);
    let slot_section = slot_table_bytes(slots);
    let island_section = island_table_bytes(islands);
    header_bytes() + section_table_bytes(
        opcodes.len(),
        string_section.len(),
        slot_section.len(),
        island_section.len(),
    ) + opcodes + string_section + slot_section + island_section
}

fn push_descriptor(buf: &mut Vec<u8>, offset: u128, size: usize)
    ensures
        final(buf)@ == old(buf)@ + descriptor_bytes(offset as nat, size as nat),
{
    push_len32(buf, offset);
    push_len32(buf, size as u128);
    proof {
        reveal(descriptor_bytes);
        assert(buf@ =~= old(buf)@ + descriptor_bytes(offset as nat, size as nat));
    }
}

fn push_header(buf: &mut Vec<u8>)
    ensures
        final(buf)@ == old(buf)@ + header_bytes(),
{
    buf.push(MAGIC[0]);
    buf.push(MAGIC[1]);
    buf.push(MAGIC[2]);
    buf.push(MAGIC[3]);
    bytes::push_u16(buf, IR_VERSION);  // version
    bytes::push_u16(buf, 0);  // flags
    bytes::push_u32(buf, 0);  // source_hash
    bytes::push_u32(buf, 0);
    proof {
        reveal(header_bytes);
        assert(buf@ =~= old(buf)@ + header_bytes());
    }
}

/// Build a minimal valid FMIR v2 binary file.
///
/// * `strings` -- list of string table entries
/// * `slots` -- list of `(slot_id, name_str_idx, type_hint_byte, source_byte, default_bytes)` tuples
/// * `opcodes` -- raw opcode bytes (already assembled)
/// * `islands` -- list of `(id, trigger_byte, props_mode_byte, name_str_idx, byte_offset, slot_ids)` tuples
pub fn build_minimal_ir(
    strings: &[&str],
    slots: &[(u16, u32, u8, u8, &[u8])],
    opcodes: &[u8],
    islands: &[(u16, u8, u8, u32, u32, &[u16])],
) -> (res: Vec<u8>)
    ensures
        res@ == module_bytes(
            texts(strings@),
            slot_parts(slots@),
            opcodes@,
            island_parts(islands@),
        ),
{
    let string_section = build_string_table(strings);
    let slot_section = build_slot_table(slots);
    let island_section = build_island_table(islands);
    // Section layout: header(16) + section_table(32) = 48 bytes before first section.
    // Order of sections in the file: bytecode, strings, slots, islands
    let bytecode_offset: u128 = HEADER_SIZE as u128 + SECTION_TABLE_SIZE as u128;
    let string_offset: u128 = bytecode_offset + opcodes.len() as u128;
    let slot_offset: u128 = string_offset + string_section.len() as u128;
    let island_offset: u128 = slot_offset + slot_section.len() as u128;
    let mut buf: Vec<u8> = Vec::new();
    push_header(&mut buf);
    push_descriptor(&mut buf, bytecode_offset, opcodes.len());
    push_descriptor(&mut buf, string_offset, string_section.len());
    push_descriptor(&mut buf, slot_offset, slot_section.len());
    push_descriptor(&mut buf, island_offset, island_section.len());
    proof {
        reveal(section_table_bytes);
        assert(buf@ =~= header_bytes() + section_table_bytes(
            opcodes@.len(),
            string_section@.len(),
            slot_section@.len(),
            island_section@.len(),
        ));
    }
    bytes::push_bytes(&mut buf, opcodes);
    bytes::push_bytes(&mut buf, string_section.as_slice());
    bytes::push_bytes(&mut buf, slot_section.as_slice());
    bytes::push_bytes(&mut buf, island_section.as_slice());
    buf
}

// -- Laws -------------------------------------------------------------------

/// Every string can be written with a u16 length.
pub open spec fn strings_fit(strings: Seq<Seq<char>>) -> bool {
    forall|i: int|
        0 <= i < strings.len() ==> vstd::utf8::encode_utf8(#[trigger] strings[i]).len() < 0x1_0000
}

/// `part` stands in `data` at `at`.
#[verifier::opaque]
pub open spec fn stands_at(data: Seq<u8>, part: Seq<u8>, at: int) -> bool {
    &&& 0 <= at
    &&& at + part.len() <= data.len()
    &&& data.subrange(at, at + part.len()) == part
}

pub(crate) proof fn stands_bounds(data: Seq<u8>, part: Seq<u8>, at: int)
    requires
        stands_at(data, part, at),
    ensures
        0 <= at,
        at + part.len() <= data.len(),
        data.subrange(at, at + part.len()) == part,
{
    reveal(stands_at);
}

pub(crate) proof fn stands_whole(data: Seq<u8>)
    ensures
        stands_at(data, data, 0),
{
    reveal(stands_at);
    assert(data.subrange(0, data.len() as int) =~= data);
}

pub(crate) proof fn stands_in_parts(data: Seq<u8>, a: Seq<u8>, b: Seq<u8>, at: int)
    requires
        stands_at(data, a + b, at),
    ensures
        stands_at(data, a, at),
        stands_at(data, b, at + a.len()),
{
    reveal(stands_at);
    let whole = data.subrange(at, at + (a + b).len());
    assert(data.subrange(at, at + a.len()) =~= whole.subrange(0, a.len() as int));
    assert(whole.subrange(0, a.len() as int) =~= a);
    assert(data.subrange(at + a.len(), at + a.len() + b.len()) =~= whole.subrange(
        a.len() as int,
        (a + b).len() as int,
    ));
    assert(whole.subrange(a.len() as int, (a + b).len() as int) =~= b);
}

/// Where the `count` strings stored from `offset` on end.
spec fn strings_end(data: Seq<u8>, offset: int, count: nat) -> int
    decreases count,
{
    if count == 0 {
        offset
    } else {
        strings_end(data, offset + 2 + bytes::u16_at(data, offset), (count - 1) as nat)
    }
}

/// A parse of `n` bytes ran out of bytes.
pub open spec fn ran_out<T>(res: Result<T, ErrorView>, n: int) -> bool {
    res matches Err(ErrorView::BufferTooShort { actual, .. }) && actual == n
}

proof fn u16_kept(data: Seq<u8>, n: int, pos: int)
    requires
        0 <= pos,
        pos + 2 <= n <= data.len(),
    ensures
        bytes::u16_at(data.take(n), pos) == bytes::u16_at(data, pos),
{
}

proof fn strings_cut(data: Seq<u8>, n: int, offset: int, count: nat)
    requires
        0 <= offset <= n <= data.len(),
        n < strings_end(data, offset, count),
        parser::strings_from(data, offset, count) is Ok,
    ensures
        ran_out(parser::strings_from(data.take(n), offset, count), n),
    decreases count,
{
    if count > 0 && offset + 2 <= n {
        u16_kept(data, n, offset);
        let start = offset + 2;
        let end = start + bytes::u16_at(data, offset);
        if end <= n {
            assert(data.take(n).subrange(start, end) =~= data.subrange(start, end));
            strings_cut(data, n, end, (count - 1) as nat);
        }
    }
}

proof fn strings_read_back(data: Seq<u8>, offset: int, strings: Seq<Seq<char>>)
    requires
        strings_fit(strings),
        stands_at(data, strings_bytes(strings), offset),
    ensures
        parser::strings_from(data, offset, strings.len()) == Ok::<Seq<Seq<char>>, ErrorView>(
            strings,
        ),
        strings_end(data, offset, strings.len()) == offset + strings_bytes(strings).len(),
    decreases strings.len(),
{
    if strings.len() > 0 {
        let encoded = vstd::utf8::encode_utf8(strings[0]);
        let rest = strings.skip(1);
        stands_in_parts(data, string_bytes(strings[0]), strings_bytes(rest), offset);
        stands_in_parts(data, bytes::u16_bytes(low16(encoded.len())), encoded, offset);
        stands_bounds(data, bytes::u16_bytes(low16(encoded.len())), offset);
        stands_bounds(data, encoded, offset + 2);
        bytes::u16_round_trip(data, offset, low16(encoded.len()));
        vstd::utf8::encode_utf8_decode_utf8(strings[0]);
        vstd::utf8::encode_utf8_valid_utf8(strings[0]);
        assert forall|i: int| 0 <= i < rest.len() implies vstd::utf8::encode_utf8(
            #[trigger] rest[i],
        ).len() < 0x1_0000 by {
            assert(rest[i] == strings[i + 1]);
        }
        strings_read_back(data, offset + 2 + encoded.len(), rest);
        assert(seq![strings[0]] + rest =~= strings);
    } else {
        assert(strings =~= Seq::empty());
    }
}

proof fn strings_bytes_len(strings: Seq<Seq<char>>)
    ensures
        strings_bytes(strings).len() >= 2 * strings.len(),
    decreases strings.len(),
{
    if strings.len() > 0 {
        strings_bytes_len(strings.skip(1));
    }
}

proof fn string_table_reads_back(strings: Seq<Seq<char>>, behind: Seq<u8>)
    requires
        strings_fit(strings),
        strings.len() < 0x1_0000_0000,
    ensures
        parser::string_table_of(string_table_bytes(strings) + behind) == Ok::<
            Seq<Seq<char>>,
            ErrorView,
        >(strings),
        bytes::u32_at(string_table_bytes(strings) + behind, 0) == strings.len(),
        parser::strings_from(string_table_bytes(strings) + behind, 4, strings.len()) is Ok,
        strings_end(string_table_bytes(strings) + behind, 4, strings.len())
            == string_table_bytes(strings).len(),
{
    let table = string_table_bytes(strings);
    let data = table + behind;
    let count = low32(strings.len());
    let head = bytes::u32_bytes(count);
    assert(data.len() >= strings.len()) by {
        strings_bytes_len(strings);
    }
    stands_whole(data);
    stands_in_parts(data, table, behind, 0);
    stands_in_parts(data, head, strings_bytes(strings), 0);
    stands_bounds(data, head, 0);
    assert(bytes::u32_at(data, 0) == count) by {
        bytes::u32_round_trip(data, 0, count);
    }
    strings_read_back(data, 4, strings);
}

/// A string table is read back as it was written, whatever bytes stand behind it,
/// as long as each string is shorter than 64 KiB and the strings can be counted in
/// 32 bits.
pub proof fn string_table_round_trip(strings: Seq<Seq<char>>, behind: Seq<u8>)
    requires
        strings_fit(strings),
        strings.len() < 0x1_0000_0000,
    ensures
        parser::string_table_of(string_table_bytes(strings) + behind) == Ok::<
            Seq<Seq<char>>,
            ErrorView,
        >(strings),
{
    string_table_reads_back(strings, behind);
}

/// A string table that is cut off anywhere is too short.
pub proof fn string_table_cut_short(strings: Seq<Seq<char>>, n: int)
    requires
        strings_fit(strings),
        strings.len() < 0x1_0000_0000,
        0 <= n < string_table_bytes(strings).len(),
    ensures
        ran_out(parser::string_table_of(string_table_bytes(strings).take(n)), n),
{
    let table = string_table_bytes(strings);
    string_table_reads_back(strings, Seq::empty());
    assert(table + Seq::<u8>::empty() =~= table);
    if n >= 4 {
        assert(bytes::u32_at(table.take(n), 0) == bytes::u32_at(table, 0));
        strings_cut(table, n, 4, strings.len());
    }
}

/// A slot's type and source bytes are known, and its default can be written
/// with a u16 length.
pub open spec fn slot_fits(s: SlotParts) -> bool {
    &&& crate::format::slot_type_of(s.2) is Some
    &&& crate::format::source_of(s.3) is Some
    &&& s.4.len() < 0x1_0000
}

/// The slot that is read from what was written.
pub open spec fn slot_read(s: SlotParts) -> SlotEntryView {
    SlotEntryView {
        slot_id: s.0,
        name_str_idx: s.1,
        type_hint: crate::format::slot_type_of(s.2)->0,
        source: crate::format::source_of(s.3)->0,
        default_bytes: s.4,
    }
}

/// The slots that are read from what was written.
pub open spec fn slots_read(slots: Seq<SlotParts>) -> Seq<SlotEntryView> {
    Seq::new(slots.len(), |i: int| slot_read(slots[i]))
}

/// Where the `count` slots stored from `offset` on end.
spec fn slots_end(data: Seq<u8>, offset: int, count: nat) -> int
    decreases count,
{
    if count == 0 {
        offset
    } else {
        slots_end(data, offset + 10 + bytes::u16_at(data, offset + 8), (count - 1) as nat)
    }
}

proof fn slots_cut(data: Seq<u8>, n: int, offset: int, count: nat)
    requires
        0 <= offset <= n <= data.len(),
        n < slots_end(data, offset, count),
        parser::slots_from(data, offset, count) is Ok,
    ensures
        ran_out(parser::slots_from(data.take(n), offset, count), n),
    decreases count,
{
    if count > 0 && offset + 10 <= n {
        u16_kept(data, n, offset + 8);
        let end = offset + 10 + bytes::u16_at(data, offset + 8);
        if end <= n {
            slots_cut(data, n, end, (count - 1) as nat);
        }
    }
}

proof fn slots_read_back(data: Seq<u8>, offset: int, slots: Seq<SlotParts>)
    requires
        forall|i: int| 0 <= i < slots.len() ==> slot_fits(#[trigger] slots[i]),
        stands_at(data, slots_bytes(slots), offset),
    ensures
        parser::slots_from(data, offset, slots.len()) == Ok::<Seq<SlotEntryView>, ErrorView>(
            slots_read(slots),
        ),
        slots_end(data, offset, slots.len()) == offset + slots_bytes(slots).len(),
    decreases slots.len(),
{
    if slots.len() > 0 {
        let s = slots[0];
        let rest = slots.skip(1);
        assert(slot_fits(s));
        stands_in_parts(data, slot_bytes(s), slots_bytes(rest), offset);
        let a = bytes::u16_bytes(s.0);
        let b = bytes::u32_bytes(s.1);
        let c = seq![s.2, s.3];
        let d = bytes::u16_bytes(low16(s.4.len()));
        stands_in_parts(data, a + b + c + d, s.4, offset);
        stands_in_parts(data, a + b + c, d, offset);
        stands_in_parts(data, a + b, c, offset);
        stands_in_parts(data, a, b, offset);
        stands_bounds(data, a, offset);
        stands_bounds(data, b, offset + 2);
        stands_bounds(data, c, offset + 6);
        stands_bounds(data, d, offset + 8);
        stands_bounds(data, s.4, offset + 10);
        bytes::u16_round_trip(data, offset, s.0);
        bytes::u32_round_trip(data, offset + 2, s.1);
        assert(data.subrange(offset + 6, offset + 8)[0] == data[offset + 6]);
        assert(data.subrange(offset + 6, offset + 8)[1] == data[offset + 7]);
        bytes::u16_round_trip(data, offset + 8, low16(s.4.len()));
        assert forall|i: int| 0 <= i < rest.len() implies slot_fits(#[trigger] rest[i]) by {
            assert(rest[i] == slots[i + 1]);
        }
        slots_read_back(data, offset + 10 + s.4.len(), rest);
        assert(seq![slot_read(s)] + slots_read(rest) =~= slots_read(slots));
    } else {
        assert(slots_read(slots) =~= Seq::empty());
    }
}

proof fn slot_table_reads_back(slots: Seq<SlotParts>, behind: Seq<u8>)
    requires
        forall|i: int| 0 <= i < slots.len() ==> slot_fits(#[trigger] slots[i]),
        slots.len() < 0x1_0000,
    ensures
        parser::slot_table_of(slot_table_bytes(slots) + behind) == Ok::<
            Seq<SlotEntryView>,
            ErrorView,
        >(slots_read(slots)),
        bytes::u16_at(slot_table_bytes(slots) + behind, 0) == slots.len(),
        slots_end(slot_table_bytes(slots) + behind, 2, slots.len())
            == slot_table_bytes(slots).len(),
{
    let table = slot_table_bytes(slots);
    let data = table + behind;
    let head = bytes::u16_bytes(low16(slots.len()));
    stands_whole(data);
    stands_in_parts(data, table, behind, 0);
    stands_in_parts(data, head, slots_bytes(slots), 0);
    stands_bounds(data, head, 0);
    bytes::u16_round_trip(data, 0, low16(slots.len()));
    slots_read_back(data, 2, slots);
}

/// A slot table is read back as it was written, whatever bytes stand behind it, as
/// long as its bytes name known types and sources and its counts fit their fields.
pub proof fn slot_table_round_trip(slots: Seq<SlotParts>, behind: Seq<u8>)
    requires
        forall|i: int| 0 <= i < slots.len() ==> slot_fits(#[trigger] slots[i]),
        slots.len() < 0x1_0000,
    ensures
        parser::slot_table_of(slot_table_bytes(slots) + behind) == Ok::<
            Seq<SlotEntryView>,
            ErrorView,
        >(slots_read(slots)),
{
    slot_table_reads_back(slots, behind);
}

/// A slot table that is cut off anywhere is too short.
pub proof fn slot_table_cut_short(slots: Seq<SlotParts>, n: int)
    requires
        forall|i: int| 0 <= i < slots.len() ==> slot_fits(#[trigger] slots[i]),
        slots.len() < 0x1_0000,
        0 <= n < slot_table_bytes(slots).len(),
    ensures
        ran_out(parser::slot_table_of(slot_table_bytes(slots).take(n)), n),
{
    let table = slot_table_bytes(slots);
    slot_table_reads_back(slots, Seq::empty());
    assert(table + Seq::<u8>::empty() =~= table);
    if n >= 2 {
        u16_kept(table, n, 0);
        slots_cut(table, n, 2, slots.len());
    }
}

/// An island's trigger and props mode bytes are known, and its slots can be
/// counted in 16 bits.
pub open spec fn island_fits(e: IslandParts) -> bool {
    &&& crate::format::trigger_of(e.1) is Some
    &&& crate::format::props_mode_of(e.2) is Some
    &&& e.5.len() < 0x1_0000
}

/// The island that is read from what was written.
pub open spec fn island_read(e: IslandParts) -> IslandEntryView {
    IslandEntryView {
        id: e.0,
        trigger: crate::format::trigger_of(e.1)->0,
        props_mode: crate::format::props_mode_of(e.2)->0,
        name_str_idx: e.3,
        byte_offset: e.4,
        slot_ids: e.5,
    }
}

/// The islands that are read from what was written.
pub open spec fn islands_read(islands: Seq<IslandParts>) -> Seq<IslandEntryView> {
    Seq::new(islands.len(), |i: int| island_read(islands[i]))
}

proof fn ids_read_back(data: Seq<u8>, offset: int, ids: Seq<u16>)
    requires
        stands_at(data, ids_bytes(ids), offset),
    ensures
        parser::ids_at(data, offset, ids.len()) == ids,
{
    stands_bounds(data, ids_bytes(ids), offset);
    let part = data.subrange(offset, offset + ids_bytes(ids).len());
    assert forall|k: int| 0 <= k < ids.len() implies bytes::u16_at(data, offset + 2 * k)
        == ids[k] by {
        assert(data.subrange(offset + 2 * k, offset + 2 * k + 2) =~= bytes::u16_bytes(ids[k])) by {
            assert(part[2 * k] == data[offset + 2 * k]);
            assert(part[2 * k + 1] == data[offset + 2 * k + 1]);
            assert((2 * k) / 2 == k && (2 * k + 1) / 2 == k);
            assert((2 * k) % 2 == 0 && (2 * k + 1) % 2 == 1);
        }
        bytes::u16_round_trip(data, offset + 2 * k, ids[k]);
    }
    assert(parser::ids_at(data, offset, ids.len()) =~= ids);
}

/// Where the `count` islands stored from `offset` on end.
spec fn islands_end(data: Seq<u8>, offset: int, count: nat) -> int
    decreases count,
{
    if count == 0 {
        offset
    } else {
        islands_end(data, offset + 14 + 2 * bytes::u16_at(data, offset + 12), (count - 1) as nat)
    }
}

proof fn islands_cut(data: Seq<u8>, n: int, offset: int, count: nat)
    requires
        0 <= offset <= n <= data.len(),
        n < islands_end(data, offset, count),
        parser::islands_from(data, offset, count) is Ok,
    ensures
        ran_out(parser::islands_from(data.take(n), offset, count), n),
    decreases count,
{
    if count > 0 && offset + 14 <= n {
        u16_kept(data, n, offset + 12);
        let end = offset + 14 + 2 * bytes::u16_at(data, offset + 12);
        if end <= n {
            islands_cut(data, n, end, (count - 1) as nat);
        }
    }
}

proof fn islands_read_back(data: Seq<u8>, offset: int, islands: Seq<IslandParts>)
    requires
        forall|i: int| 0 <= i < islands.len() ==> island_fits(#[trigger] islands[i]),
        stands_at(data, islands_bytes(islands), offset),
    ensures
        parser::islands_from(data, offset, islands.len()) == Ok::<Seq<IslandEntryView>, ErrorView>(
            islands_read(islands),
        ),
        islands_end(data, offset, islands.len()) == offset + islands_bytes(islands).len(),
    decreases islands.len(),
{
    if islands.len() > 0 {
        let e = islands[0];
        let rest = islands.skip(1);
        assert(island_fits(e));
        stands_in_parts(data, island_bytes(e), islands_bytes(rest), offset);
        let a = bytes::u16_bytes(e.0);
        let b = seq![e.1, e.2];
        let c = bytes::u32_bytes(e.3);
        let d = bytes::u32_bytes(e.4);
        let f = bytes::u16_bytes(low16(e.5.len()));
        stands_in_parts(data, a + b + c + d + f, ids_bytes(e.5), offset);
        stands_in_parts(data, a + b + c + d, f, offset);
        stands_in_parts(data, a + b + c, d, offset);
        stands_in_parts(data, a + b, c, offset);
        stands_in_parts(data, a, b, offset);
        stands_bounds(data, a, offset);
        stands_bounds(data, b, offset + 2);
        stands_bounds(data, c, offset + 4);
        stands_bounds(data, d, offset + 8);
        stands_bounds(data, f, offset + 12);
        stands_bounds(data, ids_bytes(e.5), offset + 14);
        bytes::u16_round_trip(data, offset, e.0);
        assert(data.subrange(offset + 2, offset + 4)[0] == data[offset + 2]);
        assert(data.subrange(offset + 2, offset + 4)[1] == data[offset + 3]);
        bytes::u32_round_trip(data, offset + 4, e.3);
        bytes::u32_round_trip(data, offset + 8, e.4);
        bytes::u16_round_trip(data, offset + 12, low16(e.5.len()));
        ids_read_back(data, offset + 14, e.5);
        assert forall|i: int| 0 <= i < rest.len() implies island_fits(#[trigger] rest[i]) by {
            assert(rest[i] == islands[i + 1]);
        }
        islands_read_back(data, offset + 14 + 2 * e.5.len(), rest);
        assert(seq![island_read(e)] + islands_read(rest) =~= islands_read(islands));
    } else {
        assert(islands_read(islands) =~= Seq::empty());
    }
}

proof fn island_table_reads_back(islands: Seq<IslandParts>, behind: Seq<u8>)
    requires
        forall|i: int| 0 <= i < islands.len() ==> island_fits(#[trigger] islands[i]),
        islands.len() < 0x1_0000,
    ensures
        parser::island_table_of(island_table_bytes(islands) + behind) == Ok::<
            Seq<IslandEntryView>,
            ErrorView,
        >(islands_read(islands)),
        bytes::u16_at(island_table_bytes(islands) + behind, 0) == islands.len(),
        islands_end(island_table_bytes(islands) + behind, 2, islands.len())
            == island_table_bytes(islands).len(),
{
    let table = island_table_bytes(islands);
    let data = table + behind;
    let head = bytes::u16_bytes(low16(islands.len()));
    stands_whole(data);
    stands_in_parts(data, table, behind, 0);
    stands_in_parts(data, head, islands_bytes(islands), 0);
    stands_bounds(data, head, 0);
    bytes::u16_round_trip(data, 0, low16(islands.len()));
    islands_read_back(data, 2, islands);
}

/// An island table is read back as it was written, whatever bytes stand behind it,
/// as long as its bytes name known triggers and modes and its counts fit their
/// fields.
pub proof fn island_table_round_trip(islands: Seq<IslandParts>, behind: Seq<u8>)
    requires
        forall|i: int| 0 <= i < islands.len() ==> island_fits(#[trigger] islands[i]),
        islands.len() < 0x1_0000,
    ensures
        parser::island_table_of(island_table_bytes(islands) + behind) == Ok::<
            Seq<IslandEntryView>,
            ErrorView,
        >(islands_read(islands)),
{
    island_table_reads_back(islands, behind);
}

/// An island table that is cut off anywhere is too short.
pub proof fn island_table_cut_short(islands: Seq<IslandParts>, n: int)
    requires
        forall|i: int| 0 <= i < islands.len() ==> island_fits(#[trigger] islands[i]),
        islands.len() < 0x1_0000,
        0 <= n < island_table_bytes(islands).len(),
    ensures
        ran_out(parser::island_table_of(island_table_bytes(islands).take(n)), n),
{
    let table = island_table_bytes(islands);
    island_table_reads_back(islands, Seq::empty());
    assert(table + Seq::<u8>::empty() =~= table);
    if n >= 2 {
        u16_kept(table, n, 0);
        islands_cut(table, n, 2, islands.len());
    }
}

/// The module that is read from what was written.
pub open spec fn module_read(
    strings: Seq<Seq<char>>,
    slots: Seq<SlotParts>,
    opcodes: Seq<u8>,
    islands: Seq<IslandParts>,
) -> ModuleView {
    ModuleView {
        header: IrHeader { version: IR_VERSION, flags: 0, source_hash: 0 },
        strings,
        slots: slots_read(slots),
        opcodes,
        islands: islands_read(islands),
    }
}

proof fn header_reads_back(data: Seq<u8>)
    requires
        stands_at(data, header_bytes(), 0),
    ensures
        crate::format::header_of(data) == Ok::<IrHeader, ErrorView>(
            (IrHeader { version: IR_VERSION, flags: 0, source_hash: 0 }),
        ),
{
    reveal(header_bytes);
    let a = MAGIC@;
    let b = bytes::u16_bytes(IR_VERSION);
    let c = bytes::u16_bytes(0);
    let d = bytes::u32_bytes(0);
    stands_in_parts(data, a + b + c + d, d, 0);
    stands_in_parts(data, a + b + c, d, 0);
    stands_in_parts(data, a + b, c, 0);
    stands_in_parts(data, a, b, 0);
    stands_bounds(data, a, 0);
    stands_bounds(data, b, 4);
    stands_bounds(data, c, 6);
    stands_bounds(data, d, 8);
    stands_bounds(data, d, 12);
    assert(data.take(4) =~= data.subrange(0, 4));
    bytes::u16_round_trip(data, 4, IR_VERSION);
    bytes::u16_round_trip(data, 6, 0);
    bytes::u32_round_trip(data, 8, 0);
    bytes::u32_round_trip(data, 12, 0);
}

proof fn descriptor_reads_back(data: Seq<u8>, at: int, offset: nat, size: nat)
    requires
        stands_at(data, descriptor_bytes(offset, size), at),
        offset < 0x1_0000_0000,
        size < 0x1_0000_0000,
    ensures
        crate::format::section_at(data, at) == (SectionDescriptor {
            offset: offset as u32,
            size: size as u32,
        }),
{
    reveal(descriptor_bytes);
    let a = bytes::u32_bytes(low32(offset));
    let b = bytes::u32_bytes(low32(size));
    stands_in_parts(data, a, b, at);
    stands_bounds(data, a, at);
    stands_bounds(data, b, at + 4);
    bytes::u32_round_trip(data, at, low32(offset));
    bytes::u32_round_trip(data, at + 4, low32(size));
}

proof fn section_stands(data: Seq<u8>, part: Seq<u8>, at: int, s: SectionDescriptor)
    requires
        stands_at(data, part, at),
        s.offset == at,
        s.size == part.len(),
    ensures
        parser::section_bytes(data, s) == part,
        crate::format::section_fits(s, data.len() as int),
{
    stands_bounds(data, part, at);
}

pub(crate) proof fn sections_all_fit(table: Seq<SectionDescriptor>, file_len: int, from: int)
    requires
        0 <= from,
        forall|k: int|
            0 <= k < table.len() ==> crate::format::section_fits(#[trigger] table[k], file_len),
    ensures
        crate::format::sections_checked(table, file_len, from) is Ok,
    decreases table.len() - from,
{
    if from < table.len() {
        sections_all_fit(table, file_len, from + 1);
    }
}

pub(crate) proof fn names_all_fit(m: ModuleView, from: int)
    requires
        parser::names_in_table(m),
        0 <= from,
    ensures
        parser::slot_names_checked(m.slots, m.strings.len(), from) is Ok,
        parser::island_names_checked(m.islands, m.strings.len(), from) is Ok,
    decreases m.slots.len() + m.islands.len() - from,
{
    if from < m.slots.len() || from < m.islands.len() {
        names_all_fit(m, from + 1);
        if from < m.slots.len() {
            assert(m.slots[from].name_str_idx < m.strings.len());
        }
        if from < m.islands.len() {
            assert(m.islands[from].name_str_idx < m.strings.len());
        }
    }
}

/// The four parts of a file behind its header and section table.
spec fn file_bytes(ops: Seq<u8>, st: Seq<u8>, sl: Seq<u8>, il: Seq<u8>) -> Seq<u8> {
    header_bytes() + section_table_bytes(ops.len(), st.len(), sl.len(), il.len()) + ops + st + sl
        + il
}

proof fn descriptor_len(offset: nat, size: nat)
    ensures
        descriptor_bytes(offset, size).len() == 8,
{
    reveal(descriptor_bytes);
}

proof fn descriptors_read_back(data: Seq<u8>, a: nat, b: nat, c: nat, d: nat)
    requires
        stands_at(data, section_table_bytes(a, b, c, d), 0),
        48 + a + b + c + d < 0x1_0000_0000,
    ensures
        crate::format::sections_of(data) == Ok::<Seq<SectionDescriptor>, ErrorView>(
            seq![
                SectionDescriptor { offset: 48, size: a as u32 },
                SectionDescriptor { offset: (48 + a) as u32, size: b as u32 },
                SectionDescriptor { offset: (48 + a + b) as u32, size: c as u32 },
                SectionDescriptor { offset: (48 + a + b + c) as u32, size: d as u32 },
            ],
        ),
{
    reveal(section_table_bytes);
    descriptor_len(48, a);
    descriptor_len(48 + a, b);
    descriptor_len(48 + a + b, c);
    descriptor_len(48 + a + b + c, d);
    let (d0, d1, d2, d3) = (
        descriptor_bytes(48, a),
        descriptor_bytes(48 + a, b),
        descriptor_bytes(48 + a + b, c),
        descriptor_bytes(48 + a + b + c, d),
    );
    stands_in_parts(data, d0 + d1 + d2, d3, 0);
    stands_in_parts(data, d0 + d1, d2, 0);
    stands_in_parts(data, d0, d1, 0);
    descriptor_reads_back(data, 0, 48, a);
    descriptor_reads_back(data, 8, 48 + a, b);
    descriptor_reads_back(data, 16, 48 + a + b, c);
    descriptor_reads_back(data, 24, 48 + a + b + c, d);
    stands_bounds(data, section_table_bytes(a, b, c, d), 0);
}

proof fn file_parts_stand(ops: Seq<u8>, st: Seq<u8>, sl: Seq<u8>, il: Seq<u8>)
    ensures
        file_bytes(ops, st, sl, il).len() == 48 + ops.len() + st.len() + sl.len() + il.len(),
        stands_at(file_bytes(ops, st, sl, il), header_bytes(), 0),
        stands_at(
            file_bytes(ops, st, sl, il).skip(16),
            section_table_bytes(ops.len(), st.len(), sl.len(), il.len()),
            0,
        ),
        stands_at(file_bytes(ops, st, sl, il), ops, 48),
        stands_at(file_bytes(ops, st, sl, il), st, 48 + ops.len() as int),
        stands_at(file_bytes(ops, st, sl, il), sl, 48 + ops.len() + st.len() as int),
        stands_at(file_bytes(ops, st, sl, il), il, 48 + ops.len() + st.len() + sl.len() as int),
{
    let data = file_bytes(ops, st, sl, il);
    let head = header_bytes();
    let table_part = section_table_bytes(ops.len(), st.len(), sl.len(), il.len());
    assert(head.len() == 16) by {
        reveal(header_bytes);
    }
    assert(table_part.len() == 32) by {
        reveal(section_table_bytes);
        reveal(descriptor_bytes);
    }
    stands_whole(data);
    stands_in_parts(data, head + table_part + ops + st + sl, il, 0);
    stands_in_parts(data, head + table_part + ops + st, sl, 0);
    stands_in_parts(data, head + table_part + ops, st, 0);
    stands_in_parts(data, head + table_part, ops, 0);
    stands_in_parts(data, head, table_part, 0);
    assert(stands_at(data.skip(16), table_part, 0)) by {
        stands_bounds(data, table_part, 16);
        reveal(stands_at);
        assert(data.skip(16).subrange(0, 32) =~= data.subrange(16, 48));
    }
}

proof fn file_sections_read_back(ops: Seq<u8>, st: Seq<u8>, sl: Seq<u8>, il: Seq<u8>) -> (table: Seq<
    SectionDescriptor,
>)
    requires
        file_bytes(ops, st, sl, il).len() < 0x1_0000_0000,
    ensures
        crate::format::sections_of(file_bytes(ops, st, sl, il).skip(16)) == Ok::<
            Seq<SectionDescriptor>,
            ErrorView,
        >(table),
        crate::format::sections_checked(
            table,
            file_bytes(ops, st, sl, il).len() as int,
            0,
        ) is Ok,
        parser::section_bytes(file_bytes(ops, st, sl, il), table[0]) == ops,
        parser::section_bytes(file_bytes(ops, st, sl, il), table[1]) == st,
        parser::section_bytes(file_bytes(ops, st, sl, il), table[2]) == sl,
        parser::section_bytes(file_bytes(ops, st, sl, il), table[3]) == il,
{
    let data = file_bytes(ops, st, sl, il);
    let (a, b, c, d) = (ops.len(), st.len(), sl.len(), il.len());
    file_parts_stand(ops, st, sl, il);
    descriptors_read_back(data.skip(16), a, b, c, d);
    let table = seq![
        SectionDescriptor { offset: 48, size: a as u32 },
        SectionDescriptor { offset: (48 + a) as u32, size: b as u32 },
        SectionDescriptor { offset: (48 + a + b) as u32, size: c as u32 },
        SectionDescriptor { offset: (48 + a + b + c) as u32, size: d as u32 },
    ];
    section_stands(data, ops, 48, table[0]);
    section_stands(data, st, 48 + a as int, table[1]);
    section_stands(data, sl, 48 + a + b as int, table[2]);
    section_stands(data, il, 48 + a + b + c as int, table[3]);
    sections_all_fit(table, data.len() as int, 0);
    table
}

/// A file is parsed back into what it was built from: as long as every table
/// fits its fields, the file stays under 4 GiB and every name is in the string
/// table, the parser accepts the file and finds the strings, slots, opcodes and
/// islands that were given.
pub proof fn module_round_trip(
    strings: Seq<Seq<char>>,
    slots: Seq<SlotParts>,
    opcodes: Seq<u8>,
    islands: Seq<IslandParts>,
)
    requires
        strings_fit(strings),
        slots.len() < 0x1_0000,
        forall|i: int| 0 <= i < slots.len() ==> slot_fits(#[trigger] slots[i]),
        islands.len() < 0x1_0000,
        forall|i: int| 0 <= i < islands.len() ==> island_fits(#[trigger] islands[i]),
        parser::names_in_table(module_read(strings, slots, opcodes, islands)),
        module_bytes(strings, slots, opcodes, islands).len() < 0x1_0000_0000,
    ensures
        parser::module_of(module_bytes(strings, slots, opcodes, islands)) == Ok::<
            ModuleView,
            ErrorView,
        >(module_read(strings, slots, opcodes, islands)),
{
    let m = module_read(strings, slots, opcodes, islands);
    let st = string_table_bytes(strings);
    let sl = slot_table_bytes(slots);
    let il = island_table_bytes(islands);
    assert(module_bytes(strings, slots, opcodes, islands) == file_bytes(opcodes, st, sl, il));
    file_parts_stand(opcodes, st, sl, il);
    header_reads_back(file_bytes(opcodes, st, sl, il));
    let table = file_sections_read_back(opcodes, st, sl, il);
    assert(strings.len() < 0x1_0000_0000) by {
        strings_bytes_len(strings);
    }
    let none = Seq::<u8>::empty();
    string_table_round_trip(strings, none);
    slot_table_round_trip(slots, none);
    island_table_round_trip(islands, none);
    assert(st + none =~= st && sl + none =~= sl && il + none =~= il);
    names_all_fit(m, 0);
}

} // verus!
