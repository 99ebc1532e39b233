//! What a dump shows: a first line for the whole module, then one line for each
//! opcode, in the order of the stream, each behind its position.

use vstd::prelude::*;

use crate::bytes;
use crate::dump;
use crate::format::{ErrorView, Opcode};
use crate::parser::test_helpers;
use crate::parser::ModuleView;
use crate::text;
use crate::walker::encoded;
use crate::walker::opcodes;

verus! {

/// The first line gives the version, the source hash in 16 hexadecimal digits and the
/// sizes of the tables; behind it stand the lines of the whole stream.
pub proof fn dump_starts_with_the_module(m: ModuleView)
    ensures
        dump::dump_of(m) == "FMIR v"@ + text::decimal(m.header.version as nat) + "  source_hash="@
            + text::hex(m.header.source_hash as nat, 16) + "  strings="@ + text::decimal(
            m.strings.len(),
        ) + "  slots="@ + text::decimal(m.slots.len()) + "  islands="@ + text::decimal(
            m.islands.len(),
        ) + "\n"@ + dump::opcode_lines(m, 0),
{
}

/// Behind the last opcode there is nothing.
pub proof fn dump_ends_with_the_stream(m: ModuleView, pos: int)
    requires
        pos >= m.opcodes.len(),
    ensures
        dump::opcode_lines(m, pos).len() == 0,
{
}

/// A position in front of a line.
pub open spec fn place(at: int) -> Seq<char> {
    text::hex(at as nat, 4) + ": "@
}

/// The stream from `at` on is shown as one line, `words` behind its position, and the
/// lines from `next` on.
pub open spec fn shown_as_line(m: ModuleView, at: int, words: Seq<char>, next: int) -> bool {
    dump::opcode_lines(m, at) == place(at) + words + "\n"@ + dump::opcode_lines(m, next)
}

/// A string of the table, or a question mark, between double quotes.
pub open spec fn in_quotes(m: ModuleView, idx: u32) -> Seq<char> {
    if idx < m.strings.len() {
        "\""@ + m.strings[idx as int] + "\""@
    } else {
        "\""@ + "?"@ + "\""@
    }
}

proof fn line_is_shown(m: ModuleView, op: Opcode, at: int, words: Seq<char>, next: int)
    requires
        0 <= at < m.opcodes.len(),
        crate::format::opcode_of(m.opcodes[at]) == Some(op),
        dump::operands(m, op, at + 1) == Ok::<Seq<char>, ErrorView>(words),
        dump::behind_operands(m, op, at + 1) == next,
    ensures
        shown_as_line(m, at, dump::label(op) + words, next),
{
    let p = place(at);
    assert(p + (dump::label(op) + words) + "\n"@ =~= text::hex(at as nat, 4) + ": "@ + dump::label(
        op,
    ) + words + "\n"@);
}

/// A byte that is no opcode is shown as unknown, and the dump goes on behind it.
pub proof fn unknown_bytes_are_shown(m: ModuleView, at: int)
    requires
        0 <= at < m.opcodes.len(),
        m.opcodes[at] == 0 || m.opcodes[at] > 0x12,
    ensures
        shown_as_line(
            m,
            at,
            "UNKNOWN       0x"@ + text::hex(m.opcodes[at] as nat, 2),
            at + 1,
        ),
{
    let b = text::hex(m.opcodes[at] as nat, 2);
    assert(place(at) + ("UNKNOWN       0x"@ + b) + "\n"@ =~= text::hex(at as nat, 4) + ": "@
        + "UNKNOWN       0x"@ + b + "\n"@);
}

/// TEXT is shown with its string.
pub proof fn text_is_shown(m: ModuleView, idx: u32, at: int)
    requires
        encoded::stands(m, seq![0x04u8] + bytes::u32_bytes(idx), at),
    ensures
        shown_as_line(m, at, "TEXT          "@ + in_quotes(m, idx), at + 5),
{
    let a = bytes::u32_bytes(idx);
    assert(seq![0x04u8] + bytes::u32_bytes(idx) =~= seq![0x04u8] + (a));
    encoded::opcode_stands(m, 0x04, a, at);
    encoded::u32_stands(m.opcodes, idx, at + 1);
    let words = in_quotes(m, idx);
    line_is_shown(m, Opcode::Text, at, words, at + 5);
    assert("TEXT          "@ + in_quotes(m, idx) =~= "TEXT          "@ + words);
}

/// CLOSE_TAG is shown with its tag.
pub proof fn close_tag_is_shown(m: ModuleView, idx: u32, at: int)
    requires
        encoded::stands(m, seq![0x02u8] + bytes::u32_bytes(idx), at),
    ensures
        shown_as_line(m, at, "CLOSE_TAG     "@ + in_quotes(m, idx), at + 5),
{
    let a = bytes::u32_bytes(idx);
    assert(seq![0x02u8] + bytes::u32_bytes(idx) =~= seq![0x02u8] + (a));
    encoded::opcode_stands(m, 0x02, a, at);
    encoded::u32_stands(m.opcodes, idx, at + 1);
    let words = in_quotes(m, idx);
    line_is_shown(m, Opcode::CloseTag, at, words, at + 5);
    assert("CLOSE_TAG     "@ + in_quotes(m, idx) =~= "CLOSE_TAG     "@ + words);
}

/// COMMENT is shown with its string.
pub proof fn comment_is_shown(m: ModuleView, idx: u32, at: int)
    requires
        encoded::stands(m, seq![0x10u8] + bytes::u32_bytes(idx), at),
    ensures
        shown_as_line(m, at, "COMMENT       "@ + in_quotes(m, idx), at + 5),
{
    let a = bytes::u32_bytes(idx);
    assert(seq![0x10u8] + bytes::u32_bytes(idx) =~= seq![0x10u8] + (a));
    encoded::opcode_stands(m, 0x10, a, at);
    encoded::u32_stands(m.opcodes, idx, at + 1);
    let words = in_quotes(m, idx);
    line_is_shown(m, Opcode::Comment, at, words, at + 5);
    assert("COMMENT       "@ + in_quotes(m, idx) =~= "COMMENT       "@ + words);
}

/// LIST_ITEM_KEY is shown with its key.
pub proof fn list_item_key_is_shown(m: ModuleView, idx: u32, at: int)
    requires
        encoded::stands(m, seq![0x11u8] + bytes::u32_bytes(idx), at),
    ensures
        shown_as_line(m, at, "LIST_ITEM_KEY "@ + in_quotes(m, idx), at + 5),
{
    let a = bytes::u32_bytes(idx);
    assert(seq![0x11u8] + bytes::u32_bytes(idx) =~= seq![0x11u8] + (a));
    encoded::opcode_stands(m, 0x11, a, at);
    encoded::u32_stands(m.opcodes, idx, at + 1);
    let words = in_quotes(m, idx);
    line_is_shown(m, Opcode::ListItemKey, at, words, at + 5);
    assert("LIST_ITEM_KEY "@ + in_quotes(m, idx) =~= "LIST_ITEM_KEY "@ + words);
}

/// DYN_TEXT is shown with its slot and its marker.
pub proof fn dyn_text_is_shown(m: ModuleView, slot_id: u16, marker_id: u16, at: int)
    requires
        encoded::stands(m, seq![0x05u8] + bytes::u16_bytes(slot_id)
            + bytes::u16_bytes(marker_id), at),
    ensures
        shown_as_line(m, at, "DYN_TEXT      "@ + "slot="@ + text::decimal(slot_id as nat)
            + " marker=t"@ + text::decimal(marker_id as nat), at + 5),
{
    let a = bytes::u16_bytes(slot_id);
    let b = bytes::u16_bytes(marker_id);
    assert(seq![0x05u8] + bytes::u16_bytes(slot_id) + bytes::u16_bytes(marker_id) =~= seq![0x05u8]
        + (a + b));
    encoded::opcode_stands(m, 0x05, a + b, at);
    test_helpers::stands_in_parts(m.opcodes, a, b, at + 1);
    encoded::u16_stands(m.opcodes, slot_id, at + 1);
    encoded::u16_stands(m.opcodes, marker_id, at + 3);
    let words = "slot="@ + text::decimal(slot_id as nat) + (" marker=t"@
        + text::decimal(marker_id as nat));
    line_is_shown(m, Opcode::DynText, at, words, at + 5);
    assert("DYN_TEXT      "@ + "slot="@ + text::decimal(slot_id as nat) + " marker=t"@
        + text::decimal(marker_id as nat) =~= "DYN_TEXT      "@ + words);
}

/// DYN_ATTR is shown with its name and its slot.
pub proof fn dyn_attr_is_shown(m: ModuleView, idx: u32, slot_id: u16, at: int)
    requires
        encoded::stands(m, seq![0x06u8] + bytes::u32_bytes(idx) + bytes::u16_bytes(slot_id), at),
    ensures
        shown_as_line(m, at, "DYN_ATTR      "@ + in_quotes(m, idx) + " slot="@
            + text::decimal(slot_id as nat), at + 7),
{
    let a = bytes::u32_bytes(idx);
    let b = bytes::u16_bytes(slot_id);
    assert(seq![0x06u8] + bytes::u32_bytes(idx) + bytes::u16_bytes(slot_id) =~= seq![0x06u8] + (a
        + b));
    encoded::opcode_stands(m, 0x06, a + b, at);
    test_helpers::stands_in_parts(m.opcodes, a, b, at + 1);
    encoded::u32_stands(m.opcodes, idx, at + 1);
    encoded::u16_stands(m.opcodes, slot_id, at + 5);
    let words = in_quotes(m, idx) + (" slot="@ + text::decimal(slot_id as nat));
    line_is_shown(m, Opcode::DynAttr, at, words, at + 7);
    assert("DYN_ATTR      "@ + in_quotes(m, idx) + " slot="@ + text::decimal(slot_id as nat)
        =~= "DYN_ATTR      "@ + words);
}

/// SHOW_IF is shown with its slot and the lengths of its branches; the lines of the
/// branches follow.
pub proof fn show_if_is_shown(m: ModuleView, slot_id: u16, first: u32, second: u32, at: int)
    requires
        encoded::stands(m, seq![0x07u8] + bytes::u16_bytes(slot_id) + bytes::u32_bytes(first)
            + bytes::u32_bytes(second), at),
    ensures
        shown_as_line(m, at, "SHOW_IF       "@ + "slot="@ + text::decimal(slot_id as nat)
            + " then_len="@ + text::decimal(first as nat) + " else_len="@
            + text::decimal(second as nat), at + 11),
{
    let a = bytes::u16_bytes(slot_id);
    let b = bytes::u32_bytes(first);
    let c = bytes::u32_bytes(second);
    assert(seq![0x07u8] + bytes::u16_bytes(slot_id) + bytes::u32_bytes(first)
        + bytes::u32_bytes(second) =~= seq![0x07u8] + (a + b + c));
    encoded::opcode_stands(m, 0x07, a + b + c, at);
    test_helpers::stands_in_parts(m.opcodes, a + b, c, at + 1);
    test_helpers::stands_in_parts(m.opcodes, a, b, at + 1);
    encoded::u16_stands(m.opcodes, slot_id, at + 1);
    encoded::u32_stands(m.opcodes, first, at + 3);
    encoded::u32_stands(m.opcodes, second, at + 7);
    let words = "slot="@ + text::decimal(slot_id as nat) + (" then_len="@
        + text::decimal(first as nat)) + (" else_len="@ + text::decimal(second as nat));
    line_is_shown(m, Opcode::ShowIf, at, words, at + 11);
    assert("SHOW_IF       "@ + "slot="@ + text::decimal(slot_id as nat) + " then_len="@
        + text::decimal(first as nat) + " else_len="@ + text::decimal(second as nat)
        =~= "SHOW_IF       "@ + words);
}

/// LIST is shown with its slots and the length of its body; the lines of the body
/// follow.
pub proof fn list_is_shown(m: ModuleView, slot_id: u16, item_slot_id: u16, len: u32, at: int)
    requires
        encoded::stands(m, seq![0x0Au8] + bytes::u16_bytes(slot_id)
            + bytes::u16_bytes(item_slot_id) + bytes::u32_bytes(len), at),
    ensures
        shown_as_line(m, at, "LIST          "@ + "slot="@ + text::decimal(slot_id as nat)
            + " item_slot="@ + text::decimal(item_slot_id as nat) + " body_len="@
            + text::decimal(len as nat), at + 9),
{
    let a = bytes::u16_bytes(slot_id);
    let b = bytes::u16_bytes(item_slot_id);
    let c = bytes::u32_bytes(len);
    assert(seq![0x0Au8] + bytes::u16_bytes(slot_id) + bytes::u16_bytes(item_slot_id)
        + bytes::u32_bytes(len) =~= seq![0x0Au8] + (a + b + c));
    encoded::opcode_stands(m, 0x0A, a + b + c, at);
    test_helpers::stands_in_parts(m.opcodes, a + b, c, at + 1);
    test_helpers::stands_in_parts(m.opcodes, a, b, at + 1);
    encoded::u16_stands(m.opcodes, slot_id, at + 1);
    encoded::u16_stands(m.opcodes, item_slot_id, at + 3);
    encoded::u32_stands(m.opcodes, len, at + 5);
    let words = "slot="@ + text::decimal(slot_id as nat) + (" item_slot="@
        + text::decimal(item_slot_id as nat)) + (" body_len="@ + text::decimal(len as nat));
    line_is_shown(m, Opcode::List, at, words, at + 9);
    assert("LIST          "@ + "slot="@ + text::decimal(slot_id as nat) + " item_slot="@
        + text::decimal(item_slot_id as nat) + " body_len="@ + text::decimal(len as nat)
        =~= "LIST          "@ + words);
}

/// ISLAND_START is shown with the id of the island.
pub proof fn island_start_is_shown(m: ModuleView, id: u16, at: int)
    requires
        encoded::stands(m, seq![0x0Bu8] + bytes::u16_bytes(id), at),
    ensures
        shown_as_line(m, at, "ISLAND_START  "@ + "id="@ + text::decimal(id as nat), at + 3),
{
    let a = bytes::u16_bytes(id);
    assert(seq![0x0Bu8] + bytes::u16_bytes(id) =~= seq![0x0Bu8] + (a));
    encoded::opcode_stands(m, 0x0B, a, at);
    encoded::u16_stands(m.opcodes, id, at + 1);
    let words = "id="@ + text::decimal(id as nat);
    line_is_shown(m, Opcode::IslandStart, at, words, at + 3);
    assert("ISLAND_START  "@ + "id="@ + text::decimal(id as nat) =~= "ISLAND_START  "@ + words);
}

/// ISLAND_END is shown with the id of the island.
pub proof fn island_end_is_shown(m: ModuleView, id: u16, at: int)
    requires
        encoded::stands(m, seq![0x0Cu8] + bytes::u16_bytes(id), at),
    ensures
        shown_as_line(m, at, "ISLAND_END    "@ + "id="@ + text::decimal(id as nat), at + 3),
{
    let a = bytes::u16_bytes(id);
    assert(seq![0x0Cu8] + bytes::u16_bytes(id) =~= seq![0x0Cu8] + (a));
    encoded::opcode_stands(m, 0x0C, a, at);
    encoded::u16_stands(m.opcodes, id, at + 1);
    let words = "id="@ + text::decimal(id as nat);
    line_is_shown(m, Opcode::IslandEnd, at, words, at + 3);
    assert("ISLAND_END    "@ + "id="@ + text::decimal(id as nat) =~= "ISLAND_END    "@ + words);
}

/// TRY_START is shown with the length of its fallback.
pub proof fn try_start_is_shown(m: ModuleView, len: u32, at: int)
    requires
        encoded::stands(m, seq![0x0Du8] + bytes::u32_bytes(len), at),
    ensures
        shown_as_line(m, at, "TRY_START     "@ + "fallback_len="@ + text::decimal(len as nat), at
            + 5),
{
    let a = bytes::u32_bytes(len);
    assert(seq![0x0Du8] + bytes::u32_bytes(len) =~= seq![0x0Du8] + (a));
    encoded::opcode_stands(m, 0x0D, a, at);
    encoded::u32_stands(m.opcodes, len, at + 1);
    let words = "fallback_len="@ + text::decimal(len as nat);
    line_is_shown(m, Opcode::TryStart, at, words, at + 5);
    assert("TRY_START     "@ + "fallback_len="@ + text::decimal(len as nat) =~= "TRY_START     "@
        + words);
}

/// PRELOAD is shown with its type and its URL.
pub proof fn preload_is_shown(m: ModuleView, kind: u8, idx: u32, at: int)
    requires
        encoded::stands(m, seq![0x0Fu8] + seq![kind] + bytes::u32_bytes(idx), at),
    ensures
        shown_as_line(m, at, "PRELOAD       "@ + "type="@ + text::decimal(kind as nat) + " url="@
            + in_quotes(m, idx), at + 6),
{
    let a = seq![kind];
    let b = bytes::u32_bytes(idx);
    assert(seq![0x0Fu8] + seq![kind] + bytes::u32_bytes(idx) =~= seq![0x0Fu8] + (a + b));
    encoded::opcode_stands(m, 0x0F, a + b, at);
    test_helpers::stands_in_parts(m.opcodes, a, b, at + 1);
    test_helpers::stands_bounds(m.opcodes, a, at + 1);
    assert(m.opcodes.subrange(at + 1, at + 2)[0] == m.opcodes[at + 1]);
    encoded::u32_stands(m.opcodes, idx, at + 2);
    let words = "type="@ + text::decimal(kind as nat) + " url="@ + in_quotes(m, idx);
    line_is_shown(m, Opcode::Preload, at, words, at + 6);
    assert("PRELOAD       "@ + "type="@ + text::decimal(kind as nat) + " url="@
        + in_quotes(m, idx) =~= "PRELOAD       "@ + words);
}

/// PROP is shown with both slots and the name of the property.
pub proof fn prop_is_shown(m: ModuleView, from: u16, idx: u32, to: u16, at: int)
    requires
        encoded::stands(m, seq![0x12u8] + bytes::u16_bytes(from) + bytes::u32_bytes(idx)
            + bytes::u16_bytes(to), at),
    ensures
        shown_as_line(m, at, "PROP "@ + "slot["@ + text::decimal(from as nat) + "]."@
            + in_quotes(m, idx) + " -> slot["@ + text::decimal(to as nat) + "]"@, at + 9),
{
    let a = bytes::u16_bytes(from);
    let b = bytes::u32_bytes(idx);
    let c = bytes::u16_bytes(to);
    assert(seq![0x12u8] + bytes::u16_bytes(from) + bytes::u32_bytes(idx)
        + bytes::u16_bytes(to) =~= seq![0x12u8] + (a + b + c));
    encoded::opcode_stands(m, 0x12, a + b + c, at);
    test_helpers::stands_in_parts(m.opcodes, a + b, c, at + 1);
    test_helpers::stands_in_parts(m.opcodes, a, b, at + 1);
    encoded::u16_stands(m.opcodes, from, at + 1);
    encoded::u32_stands(m.opcodes, idx, at + 3);
    encoded::u16_stands(m.opcodes, to, at + 7);
    let words = "slot["@ + text::decimal(from as nat) + "]."@ + in_quotes(m, idx) + (" -> slot["@
        + text::decimal(to as nat)) + "]"@;
    line_is_shown(m, Opcode::Prop, at, words, at + 9);
    assert("PROP "@ + "slot["@ + text::decimal(from as nat) + "]."@ + in_quotes(m, idx)
        + " -> slot["@ + text::decimal(to as nat) + "]"@ =~= "PROP "@ + words);
}

/// SHOW_ELSE and FALLBACK have no operands.
pub proof fn bare_opcodes_are_shown(m: ModuleView, at: int)
    requires
        0 <= at < m.opcodes.len(),
    ensures
        m.opcodes[at] == 0x08 ==> shown_as_line(m, at, "SHOW_ELSE"@, at + 1),
        m.opcodes[at] == 0x0E ==> shown_as_line(m, at, "FALLBACK"@, at + 1),
{
    if m.opcodes[at] == 0x08 {
        line_is_shown(m, Opcode::ShowElse, at, Seq::empty(), at + 1);
        assert("SHOW_ELSE"@ + Seq::<char>::empty() =~= "SHOW_ELSE"@);
    }
    if m.opcodes[at] == 0x0E {
        line_is_shown(m, Opcode::Fallback, at, Seq::empty(), at + 1);
        assert("FALLBACK"@ + Seq::<char>::empty() =~= "FALLBACK"@);
    }
}

/// SWITCH is shown with its slot and the number of its cases; the lines of the bodies
/// of all cases follow.
pub proof fn switch_is_shown(m: ModuleView, slot_id: u16, count: u16, at: int)
    requires
        encoded::stands(m, seq![0x09u8] + bytes::u16_bytes(slot_id) + bytes::u16_bytes(count), at),
    ensures
        shown_as_line(
            m,
            at,
            "SWITCH        "@ + "slot="@ + text::decimal(slot_id as nat) + " cases="@
                + text::decimal(
                count as nat,
            ),
            at + 5 + 8 * count,
        ),
{
    let (a, b) = (bytes::u16_bytes(slot_id), bytes::u16_bytes(count));
    assert(seq![0x09u8] + a + b =~= seq![0x09u8] + (a + b));
    encoded::opcode_stands(m, 0x09, a + b, at);
    test_helpers::stands_in_parts(m.opcodes, a, b, at + 1);
    encoded::u16_stands(m.opcodes, slot_id, at + 1);
    encoded::u16_stands(m.opcodes, count, at + 3);
    let (s, c) = (text::decimal(slot_id as nat), text::decimal(count as nat));
    let words = "slot="@ + s + (" cases="@ + c);
    line_is_shown(m, Opcode::Switch, at, words, at + 5 + 8 * count);
    assert("SWITCH        "@ + "slot="@ + s + " cases="@ + c =~= "SWITCH        "@ + words);
}

/// Attributes are listed in their order, separated by commas, each as its name and its
/// value.
pub proof fn attributes_are_listed(
    a: Seq<(Seq<char>, Seq<char>)>,
    key: Seq<char>,
    val: Seq<char>,
)
    ensures
        dump::attr_list(seq![(key, val)]) == "(\""@ + key + "\",\""@ + val + "\")"@,
        a.len() > 0 ==> dump::attr_list(a.push((key, val))) == dump::attr_list(a) + ", (\""@ + key
            + "\",\""@ + val + "\")"@,
{
    reveal_strlit("(\"");
    reveal_strlit("\",\"");
    reveal_strlit("\")");
    reveal_strlit(", (\"");
    reveal_strlit("(");
    reveal_strlit(")");
    reveal_strlit("\"");
    reveal_strlit(",");
    reveal_strlit(", ");
    let one = seq![(key, val)];
    let own = "("@ + dump::quoted(key) + ","@ + dump::quoted(val) + ")"@;
    assert(one.last() == (key, val));
    assert(own =~= "(\""@ + key + "\",\""@ + val + "\")"@);
    assert(a.push((key, val)).drop_last() =~= a);
    assert(a.push((key, val)).last() == (key, val));
    assert(", "@ + own =~= ", (\""@ + key + "\",\""@ + val + "\")"@);
    if a.len() > 0 {
        assert(dump::attr_list(a.push((key, val))) =~= dump::attr_list(a) + ", (\""@ + key
            + "\",\""@ + val + "\")"@);
    }
}

/// OPEN_TAG and VOID_TAG are shown with their tag, the number of their attributes and
/// the attributes, where there are any.
#[verifier::spinoff_prover]
#[verifier::rlimit(40)]
pub proof fn tags_are_shown(
    m: ModuleView,
    opcode: u8,
    tag_idx: u32,
    attrs: Seq<(u32, u32)>,
    at: int,
)
    requires
        opcode == 0x01 || opcode == 0x03,
        encoded::stands(
            m,
            seq![opcode] + bytes::u32_bytes(tag_idx) + bytes::u16_bytes(attrs.len() as u16)
                + test_helpers::attrs_bytes(attrs),
            at,
        ),
        attrs.len() < 0x1_0000,
        encoded::attrs_in_table(m.strings, attrs),
    ensures
        ({
            let name = if opcode == 0x01 {
                "OPEN_TAG      "@
            } else {
                "VOID_TAG      "@
            };
            let list = dump::attr_list(
                Seq::new(
                    attrs.len(),
                    |i: int| (m.strings[attrs[i].0 as int], m.strings[attrs[i].1 as int]),
                ),
            );
            let words = name + in_quotes(m, tag_idx) + " attrs="@ + text::decimal(attrs.len());
            shown_as_line(
                m,
                at,
                if attrs.len() == 0 {
                    words
                } else {
                    words + " ["@ + list + "]"@
                },
                at + 7 + 8 * attrs.len(),
            )
        }),
{
    let shown = Seq::new(
        attrs.len(),
        |i: int| (m.strings[attrs[i].0 as int], m.strings[attrs[i].1 as int]),
    );
    assert(shown =~= encoded::resolved(m.strings, attrs));
    opcodes::tag_reads_back(m, opcode, tag_idx, attrs, at);
    let op = crate::format::opcode_of(opcode)->0;
    let tail = dump::tag_words(dump::shown(m.strings, tag_idx), shown);
    assert(dump::operands(m, op, at + 1) == Ok::<Seq<char>, ErrorView>(tail));
    line_is_shown(m, op, at, tail, at + 7 + 8 * attrs.len());
    let name = dump::label(op);
    let (q, n, l) = (in_quotes(m, tag_idx), text::decimal(attrs.len()), dump::attr_list(shown));
    if attrs.len() == 0 {
        assert(name + tail =~= name + q + " attrs="@ + n);
    } else {
        assert(name + tail =~= name + q + " attrs="@ + n + " ["@ + l + "]"@);
    }
}

/// Operands that are not all there are shown as an error that says how far the stream
/// should reach, behind the name of the opcode; the dump ends with that line.
#[verifier::spinoff_prover]
#[verifier::rlimit(60)]
pub proof fn cut_off_operands_are_shown(m: ModuleView, at: int)
    requires
        m.opcodes.len() + 16 <= usize::MAX,
        0 <= at < m.opcodes.len(),
        opcodes::wanted(m.opcodes[at], m.opcodes.len() - at - 1) is Some,
    ensures
        ({
            let wanted = opcodes::wanted(m.opcodes[at], m.opcodes.len() - at - 1)->0;
            let name = dump::label(crate::format::opcode_of(m.opcodes[at])->0);
            dump::opcode_lines(m, at) == place(at) + name + "<error: "@ + (
            "buffer too short: expected at least "@ + text::decimal((at + 1 + wanted) as nat)
                + " bytes, got "@ + text::decimal(m.opcodes.len())) + ">\n"@
        }),
{
    let wanted = opcodes::wanted(m.opcodes[at], m.opcodes.len() - at - 1)->0;
    let op = crate::format::opcode_of(m.opcodes[at])->0;
    let e = ErrorView::BufferTooShort { expected: at + 1 + wanted, actual: m.opcodes.len() as int };
    assert(dump::operands(m, op, at + 1) == Err::<Seq<char>, ErrorView>(e));
}

} // verus!
