//! Human-readable text dump of an IR module for debugging and diffing.
//!
//! Produces a deterministic, line-oriented representation of the opcode
//! stream that can be compared across builds or used to diagnose hydration
//! mismatches.

use vstd::prelude::*;

use crate::bytes;
use crate::format::{ErrorView, IrError, Opcode};
use crate::parser;
use crate::parser::{IrModule, ModuleView, StringTable};
use crate::text;
use crate::walker;
use crate::walker::model;

pub mod laws;

verus! {

// ---------------------------------------------------------------------------
// What a dump says
// ---------------------------------------------------------------------------

/// The first line: version, source hash and the sizes of the tables.
pub open spec fn header_line(m: ModuleView) -> Seq<char> {
    "FMIR v"@ + text::decimal(m.header.version as nat) + "  source_hash="@ + text::hex(
        m.header.source_hash as nat,
        16,
    ) + "  strings="@ + text::decimal(m.strings.len()) + "  slots="@ + text::decimal(m.slots.len())
        + "  islands="@ + text::decimal(m.islands.len()) + "\n"@
}

/// The name of an opcode, with the space behind it.
pub open spec fn label(op: Opcode) -> Seq<char> {
    match op {
        Opcode::OpenTag => "OPEN_TAG      "@,
        Opcode::CloseTag => "CLOSE_TAG     "@,
        Opcode::VoidTag => "VOID_TAG      "@,
        Opcode::Text => "TEXT          "@,
        Opcode::DynText => "DYN_TEXT      "@,
        Opcode::DynAttr => "DYN_ATTR      "@,
        Opcode::ShowIf => "SHOW_IF       "@,
        Opcode::ShowElse => "SHOW_ELSE"@,
        Opcode::Switch => "SWITCH        "@,
        Opcode::List => "LIST          "@,
        Opcode::IslandStart => "ISLAND_START  "@,
        Opcode::IslandEnd => "ISLAND_END    "@,
        Opcode::TryStart => "TRY_START     "@,
        Opcode::Fallback => "FALLBACK"@,
        Opcode::Preload => "PRELOAD       "@,
        Opcode::Comment => "COMMENT       "@,
        Opcode::ListItemKey => "LIST_ITEM_KEY "@,
        Opcode::Prop => "PROP "@,
    }
}

/// A string by its index, or a question mark.
pub open spec fn shown(strings: Seq<Seq<char>>, idx: u32) -> Seq<char> {
    match parser::string_at(strings, idx) {
        Ok(s) => s,
        Err(_) => "?"@,
    }
}

/// A number behind its name.
pub open spec fn field(name: Seq<char>, n: nat) -> Seq<char> {
    name + text::decimal(n)
}

/// A text between double quotes.
pub open spec fn quoted(words: Seq<char>) -> Seq<char> {
    "\""@ + words + "\""@
}

/// A run of attributes, separated by commas.
pub open spec fn attr_list(attrs: Seq<(Seq<char>, Seq<char>)>) -> Seq<char>
    decreases attrs.len(),
{
    if attrs.len() == 0 {
        Seq::empty()
    } else {
        let own = "("@ + quoted(attrs.last().0) + ","@ + quoted(attrs.last().1) + ")"@;
        if attrs.len() == 1 {
            own
        } else {
            attr_list(attrs.drop_last()) + ", "@ + own
        }
    }
}

/// A tag with its attributes.
pub open spec fn tag_words(tag: Seq<char>, attrs: Seq<(Seq<char>, Seq<char>)>) -> Seq<char> {
    if attrs.len() == 0 {
        quoted(tag) + field(" attrs="@, 0)
    } else {
        quoted(tag) + field(" attrs="@, attrs.len()) + " ["@ + attr_list(attrs) + "]"@
    }
}

/// What is shown of a tag's operands.
pub open spec fn tag_operands(m: ModuleView, p: int) -> Result<Seq<char>, ErrorView> {
    match model::tag_at(m.opcodes, m.strings, p) {
        Err(e) => Err(e),
        Ok((tag_str_idx, attrs)) => Ok(tag_words(shown(m.strings, tag_str_idx), attrs)),
    }
}

/// What is shown of a string operand.
pub open spec fn string_operands(m: ModuleView, p: int) -> Result<Seq<char>, ErrorView> {
    match bytes::u32_read(m.opcodes, p) {
        Err(e) => Err(e),
        Ok(idx) => Ok(quoted(shown(m.strings, idx))),
    }
}

/// What is shown of DYN_TEXT's operands.
pub open spec fn dyn_text_operands(m: ModuleView, p: int) -> Result<Seq<char>, ErrorView> {
    match bytes::u16_read(m.opcodes, p) {
        Err(e) => Err(e),
        Ok(slot_id) => match bytes::u16_read(m.opcodes, p + 2) {
            Err(e) => Err(e),
            Ok(marker_id) => Ok(field("slot="@, slot_id as nat) + field(" marker=t"@, marker_id as nat)),
        },
    }
}

/// What is shown of DYN_ATTR's operands.
pub open spec fn dyn_attr_operands(m: ModuleView, p: int) -> Result<Seq<char>, ErrorView> {
    match bytes::u32_read(m.opcodes, p) {
        Err(e) => Err(e),
        Ok(idx) => match bytes::u16_read(m.opcodes, p + 4) {
            Err(e) => Err(e),
            Ok(slot_id) => Ok(quoted(shown(m.strings, idx)) + field(" slot="@, slot_id as nat)),
        },
    }
}

/// What is shown of SHOW_IF's operands.
pub open spec fn show_if_operands(m: ModuleView, p: int) -> Result<Seq<char>, ErrorView> {
    match model::show_if_header(m.opcodes, p) {
        Err(e) => Err(e),
        Ok((slot_id, then_len, else_len)) => Ok(
            field("slot="@, slot_id as nat) + field(" then_len="@, then_len as nat) + field(
                " else_len="@,
                else_len as nat,
            ),
        ),
    }
}

/// What is shown of SWITCH's operands.
pub open spec fn switch_operands(m: ModuleView, p: int) -> Result<Seq<char>, ErrorView> {
    match bytes::u16_read(m.opcodes, p) {
        Err(e) => Err(e),
        Ok(slot_id) => match bytes::u16_read(m.opcodes, p + 2) {
            Err(e) => Err(e),
            Ok(count) => Ok(field("slot="@, slot_id as nat) + field(" cases="@, count as nat)),
        },
    }
}

/// What is shown of LIST's operands.
pub open spec fn list_operands(m: ModuleView, p: int) -> Result<Seq<char>, ErrorView> {
    match model::list_header(m.opcodes, p) {
        Err(e) => Err(e),
        Ok((slot_id, item_slot_id, body_len)) => Ok(
            field("slot="@, slot_id as nat) + field(" item_slot="@, item_slot_id as nat) + field(
                " body_len="@,
                body_len as nat,
            ),
        ),
    }
}

/// What is shown of an island marker's operand.
pub open spec fn island_operands(m: ModuleView, p: int) -> Result<Seq<char>, ErrorView> {
    match bytes::u16_read(m.opcodes, p) {
        Err(e) => Err(e),
        Ok(id) => Ok(field("id="@, id as nat)),
    }
}

/// What is shown of TRY_START's operand.
pub open spec fn try_start_operands(m: ModuleView, p: int) -> Result<Seq<char>, ErrorView> {
    match bytes::u32_read(m.opcodes, p) {
        Err(e) => Err(e),
        Ok(len) => Ok(field("fallback_len="@, len as nat)),
    }
}

/// What is shown of PRELOAD's operands.
pub open spec fn preload_operands(m: ModuleView, p: int) -> Result<Seq<char>, ErrorView> {
    if p >= m.opcodes.len() {
        Err(bytes::too_short(p + 1, m.opcodes.len()))
    } else {
        match bytes::u32_read(m.opcodes, p + 1) {
            Err(e) => Err(e),
            Ok(idx) => Ok(
                field("type="@, m.opcodes[p] as nat) + " url="@ + quoted(shown(m.strings, idx)),
            ),
        }
    }
}

/// What is shown of PROP's operands.
pub open spec fn prop_operands(m: ModuleView, p: int) -> Result<Seq<char>, ErrorView> {
    match bytes::u16_read(m.opcodes, p) {
        Err(e) => Err(e),
        Ok(src) => match bytes::u32_read(m.opcodes, p + 2) {
            Err(e) => Err(e),
            Ok(idx) => match bytes::u16_read(m.opcodes, p + 6) {
                Err(e) => Err(e),
                Ok(target) => Ok(
                    field("slot["@, src as nat) + "]."@ + quoted(shown(m.strings, idx)) + field(
                        " -> slot["@,
                        target as nat,
                    ) + "]"@,
                ),
            },
        },
    }
}

/// What is shown of the operands that start at `p`.
pub open spec fn operands(m: ModuleView, op: Opcode, p: int) -> Result<Seq<char>, ErrorView> {
    match op {
        Opcode::OpenTag => tag_operands(m, p),
        Opcode::CloseTag => string_operands(m, p),
        Opcode::VoidTag => tag_operands(m, p),
        Opcode::Text => string_operands(m, p),
        Opcode::DynText => dyn_text_operands(m, p),
        Opcode::DynAttr => dyn_attr_operands(m, p),
        Opcode::ShowIf => show_if_operands(m, p),
        Opcode::ShowElse => Ok(Seq::empty()),
        Opcode::Switch => switch_operands(m, p),
        Opcode::List => list_operands(m, p),
        Opcode::IslandStart => island_operands(m, p),
        Opcode::IslandEnd => island_operands(m, p),
        Opcode::TryStart => try_start_operands(m, p),
        Opcode::Fallback => Ok(Seq::empty()),
        Opcode::Preload => preload_operands(m, p),
        Opcode::Comment => string_operands(m, p),
        Opcode::ListItemKey => string_operands(m, p),
        Opcode::Prop => prop_operands(m, p),
    }
}

/// Where the next opcode is looked for. Bodies are not skipped: their opcodes
/// are dumped in turn.
pub open spec fn behind_operands(m: ModuleView, op: Opcode, p: int) -> int {
    match op {
        Opcode::OpenTag => p + 6 + 8 * bytes::u16_at(m.opcodes, p + 4),
        Opcode::CloseTag => p + 4,
        Opcode::VoidTag => p + 6 + 8 * bytes::u16_at(m.opcodes, p + 4),
        Opcode::Text => p + 4,
        Opcode::DynText => p + 4,
        Opcode::DynAttr => p + 6,
        Opcode::ShowIf => p + 10,
        Opcode::ShowElse => p,
        Opcode::Switch => p + 4 + 8 * bytes::u16_at(m.opcodes, p + 2),
        Opcode::List => p + 8,
        Opcode::IslandStart => p + 2,
        Opcode::IslandEnd => p + 2,
        Opcode::TryStart => p + 4,
        Opcode::Fallback => p,
        Opcode::Preload => p + 5,
        Opcode::Comment => p + 4,
        Opcode::ListItemKey => p + 4,
        Opcode::Prop => p + 8,
    }
}

/// The line of the opcode at `pos`.
pub open spec fn line_at(m: ModuleView, pos: int) -> Seq<char> {
    match crate::format::opcode_of(m.opcodes[pos]) {
        None => text::hex(pos as nat, 4) + ": "@ + "UNKNOWN       0x"@ + text::hex(
            m.opcodes[pos] as nat,
            2,
        ) + "\n"@,
        Some(op) => match operands(m, op, pos + 1) {
            Err(e) => text::hex(pos as nat, 4) + ": "@ + label(op) + "<error: "@
                + crate::format::error_text(e) + ">\n"@,
            Ok(words) => text::hex(pos as nat, 4) + ": "@ + label(op) + words + "\n"@,
        },
    }
}

/// Where the dump goes on behind the opcode at `pos`. Operands that cannot be
/// read end it.
pub open spec fn next_line(m: ModuleView, pos: int) -> Option<int> {
    match crate::format::opcode_of(m.opcodes[pos]) {
        None => Some(pos + 1),
        Some(op) => match operands(m, op, pos + 1) {
            Err(_) => None,
            Ok(_) => Some(behind_operands(m, op, pos + 1)),
        },
    }
}

/// The lines of the opcodes from `pos` on.
pub open spec fn opcode_lines(m: ModuleView, pos: int) -> Seq<char>
    decreases model::bytes_left(m.opcodes, pos),
{
    if pos >= m.opcodes.len() {
        Seq::empty()
    } else {
        match next_line(m, pos) {
            Some(next) => line_at(m, pos) + opcode_lines(m, next),
            None => line_at(m, pos),
        }
    }
}

/// The dump of a module.
pub open spec fn dump_of(m: ModuleView) -> Seq<char> {
    header_line(m) + opcode_lines(m, 0)
}

// ---------------------------------------------------------------------------
// Writing a dump
// ---------------------------------------------------------------------------

fn label_str(op: Opcode) -> (res: &'static str)
    ensures
        res@ == label(op),
{
    match op {
        Opcode::OpenTag => "OPEN_TAG      ",
        Opcode::CloseTag => "CLOSE_TAG     ",
        Opcode::VoidTag => "VOID_TAG      ",
        Opcode::Text => "TEXT          ",
        Opcode::DynText => "DYN_TEXT      ",
        Opcode::DynAttr => "DYN_ATTR      ",
        Opcode::ShowIf => "SHOW_IF       ",
        Opcode::ShowElse => "SHOW_ELSE",
        Opcode::Switch => "SWITCH        ",
        Opcode::List => "LIST          ",
        Opcode::IslandStart => "ISLAND_START  ",
        Opcode::IslandEnd => "ISLAND_END    ",
        Opcode::TryStart => "TRY_START     ",
        Opcode::Fallback => "FALLBACK",
        Opcode::Preload => "PRELOAD       ",
        Opcode::Comment => "COMMENT       ",
        Opcode::ListItemKey => "LIST_ITEM_KEY ",
        Opcode::Prop => "PROP ",
    }
}

fn shown_str(strings: &StringTable, idx: u32) -> (res: &str)
    ensures
        res@ == shown(strings@, idx),
{
    match strings.get(idx) {
        Ok(s) => s,
        Err(_) => "?",
    }
}

fn push_field(out: &mut String, name: &str, n: u64)
    ensures
        final(out)@ == old(out)@ + field(name@, n as nat),
{
    out.push_str(name);
    text::push_decimal(out, n);
    proof {
        assert(out@ =~= old(out)@ + field(name@, n as nat));
    }
}

fn push_quoted(out: &mut String, words: &str)
    ensures
        final(out)@ == old(out)@ + quoted(words@),
{
    out.push_str("\"");
    out.push_str(words);
    out.push_str("\"");
    proof {
        assert(out@ =~= old(out)@ + quoted(words@));
    }
}

fn push_attr_list(out: &mut String, attrs: &Vec<(&str, &str)>)
    ensures
        final(out)@ == old(out)@ + attr_list(walker::attr_views(attrs@)),
{
    let ghost start = out@;
    let ghost all = walker::attr_views(attrs@);
    let mut i: usize = 0;
    while i < attrs.len()
        invariant
            i <= attrs@.len(),
            all == walker::attr_views(attrs@),
            out@ == start + attr_list(all.take(i as int)),
        decreases attrs.len() - i,
    {
        let ghost before = out@;
        if i > 0 {
            out.push_str(", ");
        }
        out.push_str("(");
        push_quoted(out, attrs[i].0);
        out.push_str(",");
        push_quoted(out, attrs[i].1);
        out.push_str(")");
        i += 1;
        proof {
            assert(all.take(i as int).drop_last() =~= all.take(i - 1));
            let own = "("@ + quoted(all[i - 1].0) + ","@ + quoted(all[i - 1].1) + ")"@;
            if i > 1 {
                assert(out@ =~= before + ", "@ + own);
                assert(start + attr_list(all.take(i - 1)) + ", "@ + own =~= start + (attr_list(
                    all.take(i - 1),
                ) + ", "@ + own));
            } else {
                assert(before =~= start);
                assert(out@ =~= start + own);
            }
        }
    }
    proof {
        assert(all.take(i as int) =~= all);
    }
}

/// Operands were shown as they should be: their text is appended and the
/// position behind them returned, or the error is returned and nothing written.
spec fn shown_as(
    res: Result<usize, IrError>,
    owed: Result<Seq<char>, ErrorView>,
    before: Seq<char>,
    out: Seq<char>,
    next: int,
) -> bool {
    match res {
        Ok(pos) => owed is Ok && out == before + owed->Ok_0 && pos == bytes::clamped(next),
        Err(e) => owed == Err::<Seq<char>, ErrorView>(e@) && out == before,
    }
}

fn push_tag(out: &mut String, module: &IrModule, p: usize) -> (res: Result<usize, IrError>)
    requires
        p <= module@.opcodes.len(),
    ensures
        shown_as(
            res,
            tag_operands(module@, p as int),
            old(out)@,
            final(out)@,
            behind_operands(module@, Opcode::OpenTag, p as int),
        ),
{
    let ops = module.opcodes.as_slice();
    let (tag_str_idx, attrs, next) = match walker::read_tag_with_attrs(ops, p, &module.strings) {
        Ok(parts) => parts,
        Err(e) => {
            return Err(e);
        },
    };
    push_quoted(out, shown_str(&module.strings, tag_str_idx));
    push_field(out, " attrs=", attrs.len() as u64);
    if attrs.len() > 0 {
        out.push_str(" [");
        push_attr_list(out, &attrs);
        out.push_str("]");
    }
    proof {
        assert(out@ =~= old(out)@ + tag_operands(module@, p as int)->Ok_0);
    }
    Ok(next)
}

fn push_string(out: &mut String, module: &IrModule, p: usize) -> (res: Result<usize, IrError>)
    requires
        p <= module@.opcodes.len(),
    ensures
        shown_as(
            res,
            string_operands(module@, p as int),
            old(out)@,
            final(out)@,
            behind_operands(module@, Opcode::Text, p as int),
        ),
{
    let ops = module.opcodes.as_slice();
    let idx = match bytes::read_u32(ops, p) {
        Ok(v) => v,
        Err(e) => {
            return Err(e);
        },
    };
    push_quoted(out, shown_str(&module.strings, idx));
    proof {
        assert(out@ =~= old(out)@ + string_operands(module@, p as int)->Ok_0);
    }
    Ok(p + 4)
}

fn push_dyn_text(out: &mut String, module: &IrModule, p: usize) -> (res: Result<usize, IrError>)
    requires
        p <= module@.opcodes.len(),
    ensures
        shown_as(
            res,
            dyn_text_operands(module@, p as int),
            old(out)@,
            final(out)@,
            behind_operands(module@, Opcode::DynText, p as int),
        ),
{
    let ops = module.opcodes.as_slice();
    let slot_id = match bytes::read_u16(ops, p) {
        Ok(v) => v,
        Err(e) => {
            return Err(e);
        },
    };
    let marker_id = match bytes::read_u16(ops, p + 2) {
        Ok(v) => v,
        Err(e) => {
            return Err(e);
        },
    };
    push_field(out, "slot=", slot_id as u64);
    push_field(out, " marker=t", marker_id as u64);
    proof {
        assert(out@ =~= old(out)@ + dyn_text_operands(module@, p as int)->Ok_0);
    }
    Ok(p + 4)
}

fn push_dyn_attr(out: &mut String, module: &IrModule, p: usize) -> (res: Result<usize, IrError>)
    requires
        p <= module@.opcodes.len(),
    ensures
        shown_as(
            res,
            dyn_attr_operands(module@, p as int),
            old(out)@,
            final(out)@,
            behind_operands(module@, Opcode::DynAttr, p as int),
        ),
{
    let ops = module.opcodes.as_slice();
    let idx = match bytes::read_u32(ops, p) {
        Ok(v) => v,
        Err(e) => {
            return Err(e);
        },
    };
    let slot_id = match bytes::read_u16(ops, p + 4) {
        Ok(v) => v,
        Err(e) => {
            return Err(e);
        },
    };
    push_quoted(out, shown_str(&module.strings, idx));
    push_field(out, " slot=", slot_id as u64);
    proof {
        assert(out@ =~= old(out)@ + dyn_attr_operands(module@, p as int)->Ok_0);
    }
    Ok(p + 6)
}

fn push_show_if(out: &mut String, module: &IrModule, p: usize) -> (res: Result<usize, IrError>)
    requires
        p <= module@.opcodes.len(),
    ensures
        shown_as(
            res,
            show_if_operands(module@, p as int),
            old(out)@,
            final(out)@,
            behind_operands(module@, Opcode::ShowIf, p as int),
        ),
{
    let ops = module.opcodes.as_slice();
    let slot_id = match bytes::read_u16(ops, p) {
        Ok(v) => v,
        Err(e) => {
            return Err(e);
        },
    };
    let then_len = match bytes::read_u32(ops, p + 2) {
        Ok(v) => v,
        Err(e) => {
            return Err(e);
        },
    };
    let else_len = match bytes::read_u32(ops, p + 6) {
        Ok(v) => v,
        Err(e) => {
            return Err(e);
        },
    };
    push_field(out, "slot=", slot_id as u64);
    push_field(out, " then_len=", then_len as u64);
    push_field(out, " else_len=", else_len as u64);
    proof {
        assert(out@ =~= old(out)@ + show_if_operands(module@, p as int)->Ok_0);
    }
    Ok(p + 10)
}

fn push_switch(out: &mut String, module: &IrModule, p: usize) -> (res: Result<usize, IrError>)
    requires
        p <= module@.opcodes.len(),
    ensures
        shown_as(
            res,
            switch_operands(module@, p as int),
            old(out)@,
            final(out)@,
            behind_operands(module@, Opcode::Switch, p as int),
        ),
{
    let ops = module.opcodes.as_slice();
    let slot_id = match bytes::read_u16(ops, p) {
        Ok(v) => v,
        Err(e) => {
            return Err(e);
        },
    };
    let case_count = match bytes::read_u16(ops, p + 2) {
        Ok(v) => v,
        Err(e) => {
            return Err(e);
        },
    };
    push_field(out, "slot=", slot_id as u64);
    push_field(out, " cases=", case_count as u64);
    proof {
        assert(out@ =~= old(out)@ + switch_operands(module@, p as int)->Ok_0);
    }
    // Skip case headers: case_count x (val_str_idx(4) + body_len(4)) = 8 bytes each
    Ok((p + 4).saturating_add(8 * case_count as usize))
}

fn push_list(out: &mut String, module: &IrModule, p: usize) -> (res: Result<usize, IrError>)
    requires
        p <= module@.opcodes.len(),
    ensures
        shown_as(
            res,
            list_operands(module@, p as int),
            old(out)@,
            final(out)@,
            behind_operands(module@, Opcode::List, p as int),
        ),
{
    let ops = module.opcodes.as_slice();
    let slot_id = match bytes::read_u16(ops, p) {
        Ok(v) => v,
        Err(e) => {
            return Err(e);
        },
    };
    let item_slot_id = match bytes::read_u16(ops, p + 2) {
        Ok(v) => v,
        Err(e) => {
            return Err(e);
        },
    };
    let body_len = match bytes::read_u32(ops, p + 4) {
        Ok(v) => v,
        Err(e) => {
            return Err(e);
        },
    };
    push_field(out, "slot=", slot_id as u64);
    push_field(out, " item_slot=", item_slot_id as u64);
    push_field(out, " body_len=", body_len as u64);
    proof {
        assert(out@ =~= old(out)@ + list_operands(module@, p as int)->Ok_0);
    }
    Ok(p + 8)
}

fn push_island(out: &mut String, module: &IrModule, p: usize) -> (res: Result<usize, IrError>)
    requires
        p <= module@.opcodes.len(),
    ensures
        shown_as(
            res,
            island_operands(module@, p as int),
            old(out)@,
            final(out)@,
            behind_operands(module@, Opcode::IslandStart, p as int),
        ),
{
    let ops = module.opcodes.as_slice();
    let island_id = match bytes::read_u16(ops, p) {
        Ok(v) => v,
        Err(e) => {
            return Err(e);
        },
    };
    push_field(out, "id=", island_id as u64);
    proof {
        assert(out@ =~= old(out)@ + island_operands(module@, p as int)->Ok_0);
    }
    Ok(p + 2)
}

fn push_try_start(out: &mut String, module: &IrModule, p: usize) -> (res: Result<usize, IrError>)
    requires
        p <= module@.opcodes.len(),
    ensures
        shown_as(
            res,
            try_start_operands(module@, p as int),
            old(out)@,
            final(out)@,
            behind_operands(module@, Opcode::TryStart, p as int),
        ),
{
    let ops = module.opcodes.as_slice();
    let fallback_len = match bytes::read_u32(ops, p) {
        Ok(v) => v,
        Err(e) => {
            return Err(e);
        },
    };
    push_field(out, "fallback_len=", fallback_len as u64);
    proof {
        assert(out@ =~= old(out)@ + try_start_operands(module@, p as int)->Ok_0);
    }
    Ok(p + 4)
}

fn push_preload(out: &mut String, module: &IrModule, p: usize) -> (res: Result<usize, IrError>)
    requires
        p <= module@.opcodes.len(),
    ensures
        shown_as(
            res,
            preload_operands(module@, p as int),
            old(out)@,
            final(out)@,
            behind_operands(module@, Opcode::Preload, p as int),
        ),
{
    let ops = module.opcodes.as_slice();
    if p >= ops.len() {
        return Err(IrError::BufferTooShort { expected: p.saturating_add(1), actual: ops.len() });
    }
    let resource_type = ops[p];
    let idx = match bytes::read_u32(ops, p + 1) {
        Ok(v) => v,
        Err(e) => {
            return Err(e);
        },
    };
    push_field(out, "type=", resource_type as u64);
    out.push_str(" url=");
    push_quoted(out, shown_str(&module.strings, idx));
    proof {
        assert(out@ =~= old(out)@ + preload_operands(module@, p as int)->Ok_0);
    }
    Ok(p + 5)
}

fn push_prop(out: &mut String, module: &IrModule, p: usize) -> (res: Result<usize, IrError>)
    requires
        p <= module@.opcodes.len(),
    ensures
        shown_as(
            res,
            prop_operands(module@, p as int),
            old(out)@,
            final(out)@,
            behind_operands(module@, Opcode::Prop, p as int),
        ),
{
    let ops = module.opcodes.as_slice();
    let src = match bytes::read_u16(ops, p) {
        Ok(v) => v,
        Err(e) => {
            return Err(e);
        },
    };
    let idx = match bytes::read_u32(ops, p + 2) {
        Ok(v) => v,
        Err(e) => {
            return Err(e);
        },
    };
    let target = match bytes::read_u16(ops, p + 6) {
        Ok(v) => v,
        Err(e) => {
            return Err(e);
        },
    };
    push_field(out, "slot[", src as u64);
    out.push_str("].");
    push_quoted(out, shown_str(&module.strings, idx));
    push_field(out, " -> slot[", target as u64);
    out.push_str("]");
    proof {
        assert(out@ =~= old(out)@ + prop_operands(module@, p as int)->Ok_0);
    }
    Ok(p + 8)
}

fn push_operands(out: &mut String, module: &IrModule, op: Opcode, p: usize) -> (res: Result<
    usize,
    IrError,
>)
    requires
        p <= module@.opcodes.len(),
    ensures
        shown_as(
            res,
            operands(module@, op, p as int),
            old(out)@,
            final(out)@,
            behind_operands(module@, op, p as int),
        ),
{
    proof {
        assert(out@ + Seq::<char>::empty() =~= out@);
    }
    match op {
        Opcode::OpenTag => push_tag(out, module, p),
        Opcode::VoidTag => push_tag(out, module, p),
        Opcode::CloseTag => push_string(out, module, p),
        Opcode::Text => push_string(out, module, p),
        Opcode::Comment => push_string(out, module, p),
        Opcode::ListItemKey => push_string(out, module, p),
        Opcode::DynText => push_dyn_text(out, module, p),
        Opcode::DynAttr => push_dyn_attr(out, module, p),
        Opcode::ShowIf => push_show_if(out, module, p),
        Opcode::Switch => push_switch(out, module, p),
        Opcode::List => push_list(out, module, p),
        Opcode::IslandStart => push_island(out, module, p),
        Opcode::IslandEnd => push_island(out, module, p),
        Opcode::TryStart => push_try_start(out, module, p),
        Opcode::Preload => push_preload(out, module, p),
        Opcode::Prop => push_prop(out, module, p),
        // No operands
        Opcode::ShowElse => Ok(p),
        Opcode::Fallback => Ok(p),
    }
}

fn push_header_line(out: &mut String, module: &IrModule)
    ensures
        final(out)@ == old(out)@ + header_line(module@),
{
    out.push_str("FMIR v");
    text::push_decimal(out, module.header.version as u64);
    out.push_str("  source_hash=");
    text::push_hex(out, module.header.source_hash, 16);
    out.push_str("  strings=");
    text::push_decimal(out, module.strings.len() as u64);
    out.push_str("  slots=");
    text::push_decimal(out, module.slots.len() as u64);
    out.push_str("  islands=");
    text::push_decimal(out, module.islands.len() as u64);
    out.push_str("\n");
    proof {
        assert(out@ =~= old(out)@ + header_line(module@));
    }
}

/// Write the line of the opcode at `pos`. Returns where the dump goes on.
fn push_line(out: &mut String, module: &IrModule, pos: usize) -> (res: Option<usize>)
    requires
        pos < module@.opcodes.len(),
    ensures
        final(out)@ == old(out)@ + line_at(module@, pos as int),
        match res {
            Some(next) => next_line(module@, pos as int) is Some && next == bytes::clamped(
                next_line(module@, pos as int)->0,
            ),
            None => next_line(module@, pos as int) is None,
        },
{
    let ops = module.opcodes.as_slice();
    let len = ops.len();
    text::push_hex(out, pos as u64, 4);
    out.push_str(": ");
    let res: Option<usize> = match Opcode::from_byte(ops[pos]) {
        Err(_) => {
            out.push_str("UNKNOWN       0x");
            text::push_hex(out, ops[pos] as u64, 2);
            out.push_str("\n");
            Some(pos + 1)
        },
        Ok(opcode) => {
            out.push_str(label_str(opcode));
            match push_operands(out, module, opcode, pos + 1) {
                Ok(next) => {
                    out.push_str("\n");
                    Some(next)
                },
                Err(e) => {
                    out.push_str("<error: ");
                    out.push_str(e.message().as_str());
                    out.push_str(">\n");
                    None
                },
            }
        },
    };
    proof {
        assert(out@ =~= old(out)@ + line_at(module@, pos as int));
    }
    res
}

/// Produce a deterministic text dump of an IR module for debugging and diffing.
///
/// A PRELOAD at the very end of the stream, without its operands, is an error
/// line like any other opcode that is cut short.
pub fn dump_ir(module: &IrModule) -> (res: String)
    ensures
        res@ == dump_of(module@),
{
    let mut out = String::new();
    push_header_line(&mut out, module);
    proof {
        assert(out@ =~= header_line(module@));
    }
    let ops = module.opcodes.as_slice();
    let len = ops.len();
    let mut pos: usize = 0;
    while pos < len
        invariant
            ops@ == module@.opcodes,
            len == ops@.len(),
            dump_of(module@) == out@ + opcode_lines(module@, pos as int),
        decreases model::bytes_left(ops@, pos as int),
    {
        let ghost before = out@;
        match push_line(&mut out, module, pos) {
            Some(next) => {
                proof {
                    let behind = next_line(module@, pos as int)->0;
                    let line = line_at(module@, pos as int);
                    assert(before + (line + opcode_lines(module@, behind)) =~= (before + line)
                        + opcode_lines(module@, behind));
                    assert(opcode_lines(module@, next as int) == opcode_lines(module@, behind));
                }
                pos = next;
            },
            None => {
                return out;
            },
        }
    }
    proof {
        assert(out@ + opcode_lines(module@, pos as int) =~= out@);
    }
    out
}

// ---------------------------------------------------------------------------
// Laws
// ---------------------------------------------------------------------------

/// The dump advances as the walker does over every opcode that has no body: the
/// next line is for the opcode that the walker comes to next.
pub proof fn dump_advances_with_walker(
    m: ModuleView,
    s: crate::walker::model::WalkView,
    op: Opcode,
    p: int,
)
    requires
        op != Opcode::ShowIf,
        op != Opcode::Switch,
        op != Opcode::List,
        op == Opcode::Fallback ==> s.fallback.len() == 0,
    ensures
        behind_operands(m, op, p) == model::after(m, s, op, p),
{
}

/// Over an opcode with a body the dump advances to the body, which starts where
/// the walker would walk it.
pub proof fn dump_goes_into_bodies(m: ModuleView, p: int)
    ensures
        behind_operands(m, Opcode::ShowIf, p) == p + 10,
        behind_operands(m, Opcode::List, p) == p + 8,
        model::switch_header(m.opcodes, p) matches Ok((_, cases)) ==> behind_operands(
            m,
            Opcode::Switch,
            p,
        ) == p + 4 + 8 * cases.len(),
{
    if let Ok((_, cases)) = model::switch_header(m.opcodes, p) {
        cases_counted(m.opcodes, p + 4, bytes::u16_at(m.opcodes, p + 2) as nat);
    }
}

proof fn cases_counted(ops: Seq<u8>, at: int, count: nat)
    ensures
        model::cases_from(ops, at, count) matches Ok(cases) ==> cases.len() == count,
    decreases count,
{
    if count > 0 {
        cases_counted(ops, at + 8, (count - 1) as nat);
    }
}

} // verus!
