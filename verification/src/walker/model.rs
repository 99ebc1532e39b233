//! What walking an opcode stream means.
//!
//! A walk is a run over positions of the stream. Each opcode has an effect on
//! the state of the walk ([`effect`]) and a position where the walk goes on
//! ([`after`]); [`run`] strings them together.

use vstd::prelude::*;

use crate::bytes;
use crate::format::{ErrorView, IslandEntryView, IslandTrigger, Opcode, PropsMode, SlotEntryView};
use crate::json;
use crate::json::JsonTree;
use crate::parser;
use crate::parser::ModuleView;
use crate::slot;
use crate::slot::SlotTree;
use crate::text;

verus! {

/// Maximum nesting depth for LIST opcodes. Prevents stack overflow from
/// deeply nested or malicious input.
pub const MAX_LIST_DEPTH: u8 = 4;

/// Maximum recursion depth for control-flow opcodes (SHOW_IF, SWITCH, LIST).
/// Prevents stack overflow from deeply nested or malicious IR.
pub const MAX_RECURSION_DEPTH: usize = 64;

// ---------------------------------------------------------------------------
// State
// ---------------------------------------------------------------------------

/// Island info to be injected on the next tag.
pub struct PendingView {
    pub id: u16,
    pub component_name: Seq<char>,
    pub inline_props: Option<Seq<char>>,
    pub trigger: IslandTrigger,
}

/// The state of a walk.
pub struct WalkView {
    /// The HTML written so far.
    pub out: Seq<char>,
    /// The current slot values.
    pub slots: Seq<SlotTree>,
    /// How many LIST bodies the walk is in.
    pub list_depth: int,
    /// Fallback lengths pushed by TRY_START, popped by FALLBACK.
    pub fallback: Seq<usize>,
    /// How many FALLBACKs came without a TRY_START before them.
    pub stray: nat,
    /// Island info to inject on the next tag.
    pub island: Option<PendingView>,
    /// List-item key to inject on the next tag.
    pub key: Option<Seq<char>>,
    /// Props of the ScriptTag islands, by island id.
    pub script: Seq<(u16, JsonTree)>,
    /// A tag has been opened and its `>` has not been written yet.
    pub tag_open: bool,
}

/// The state that a walk starts in.
pub open spec fn start(slots: Seq<SlotTree>) -> WalkView {
    WalkView {
        out: Seq::empty(),
        slots,
        list_depth: 0,
        fallback: Seq::empty(),
        stray: 0,
        island: None,
        key: None,
        script: Seq::empty(),
        tag_open: false,
    }
}

/// The state with `more` written.
pub open spec fn emit(s: WalkView, more: Seq<char>) -> WalkView {
    WalkView { out: s.out + more, ..s }
}

/// The state with the open tag, if there is one, closed.
pub open spec fn flushed(s: WalkView) -> WalkView {
    if s.tag_open {
        WalkView { out: s.out + ">"@, tag_open: false, ..s }
    } else {
        s
    }
}

/// A position moved on by a length out of the stream.
pub open spec fn plus(pos: int, n: int) -> int {
    bytes::clamped(pos + n)
}

/// A marker comment: its kind, then an id.
pub open spec fn marker(kind: Seq<char>, id: u16) -> Seq<char> {
    kind + text::decimal(id as nat) + "-->"@
}

// ---------------------------------------------------------------------------
// Tables
// ---------------------------------------------------------------------------

/// The position of the first slot from `from` on with the given id, or the
/// number of slots.
pub open spec fn slot_position(slots: Seq<SlotEntryView>, slot_id: u16, from: int) -> int
    decreases slots.len() - from,
{
    if from >= slots.len() {
        slots.len() as int
    } else if slots[from].slot_id == slot_id {
        from
    } else {
        slot_position(slots, slot_id, from + 1)
    }
}

/// The position of the first island from `from` on with the given id, or the
/// number of islands.
pub open spec fn island_position(islands: Seq<IslandEntryView>, id: u16, from: int) -> int
    decreases islands.len() - from,
{
    if from >= islands.len() {
        islands.len() as int
    } else if islands[from].id == id {
        from
    } else {
        island_position(islands, id, from + 1)
    }
}

/// The name of a slot.
pub open spec fn slot_name(m: ModuleView, slot_id: u16) -> Option<Seq<char>> {
    let at = slot_position(m.slots, slot_id, 0);
    if at < m.slots.len() {
        match parser::string_at(m.strings, m.slots[at].name_str_idx) {
            Ok(name) => Some(name),
            Err(_) => None,
        }
    } else {
        None
    }
}

/// The props of an island: the values of its slots by name.
pub open spec fn island_props(m: ModuleView, slots: Seq<SlotTree>, ids: Seq<u16>) -> Seq<
    (Seq<char>, JsonTree),
>
    decreases ids.len(),
{
    if ids.len() == 0 {
        Seq::empty()
    } else {
        let before = island_props(m, slots, ids.drop_last());
        match slot_name(m, ids.last()) {
            Some(name) => json::with_pair(
                before,
                name,
                slot::json_of(slot::slot_at(slots, ids.last())),
            ),
            None => before,
        }
    }
}

/// A JSON text, or the empty object where it could not be written.
pub open spec fn or_braces(words: Option<Seq<char>>) -> Seq<char> {
    match words {
        Some(words) => words,
        None => "{}"@,
    }
}

/// The position of the first entry from `from` on with the given id, or the
/// number of entries.
pub open spec fn entry_position(entries: Seq<(u16, JsonTree)>, id: u16, from: int) -> int
    decreases entries.len() - from,
{
    if from >= entries.len() {
        entries.len() as int
    } else if entries[from].0 == id {
        from
    } else {
        entry_position(entries, id, from + 1)
    }
}

/// The entries with `id` bound to `value`.
pub open spec fn with_entry(entries: Seq<(u16, JsonTree)>, id: u16, value: JsonTree) -> Seq<
    (u16, JsonTree),
> {
    let at = entry_position(entries, id, 0);
    if at < entries.len() {
        entries.update(at, (id, value))
    } else {
        entries.push((id, value))
    }
}

// ---------------------------------------------------------------------------
// Tags
// ---------------------------------------------------------------------------

/// The `count` attributes stored from `cursor` on, keys and values resolved.
pub open spec fn attrs_from(
    ops: Seq<u8>,
    strings: Seq<Seq<char>>,
    cursor: int,
    count: nat,
) -> Result<Seq<(Seq<char>, Seq<char>)>, ErrorView>
    decreases count,
{
    if count == 0 {
        Ok(Seq::empty())
    } else {
        match bytes::u32_read(ops, cursor) {
            Err(e) => Err(e),
            Ok(key_idx) => match bytes::u32_read(ops, cursor + 4) {
                Err(e) => Err(e),
                Ok(val_idx) => match parser::string_at(strings, key_idx) {
                    Err(e) => Err(e),
                    Ok(key) => match parser::string_at(strings, val_idx) {
                        Err(e) => Err(e),
                        Ok(val) => parser::prepended(
                            seq![(key, val)],
                            attrs_from(ops, strings, cursor + 8, (count - 1) as nat),
                        ),
                    },
                },
            },
        }
    }
}

/// The operands of a tag: the index of its name, and its attributes.
pub open spec fn tag_at(ops: Seq<u8>, strings: Seq<Seq<char>>, p: int) -> Result<
    (u32, Seq<(Seq<char>, Seq<char>)>),
    ErrorView,
> {
    match bytes::u32_read(ops, p) {
        Err(e) => Err(e),
        Ok(tag_str_idx) => match bytes::u16_read(ops, p + 4) {
            Err(e) => Err(e),
            Ok(attr_count) => match attrs_from(ops, strings, p + 6, attr_count as nat) {
                Err(e) => Err(e),
                Ok(attrs) => Ok((tag_str_idx, attrs)),
            },
        },
    }
}

/// An attribute as it is written; one without a value is a boolean attribute.
pub open spec fn attr_html(key: Seq<char>, val: Seq<char>) -> Seq<char> {
    if val.len() == 0 {
        " "@ + key
    } else {
        " "@ + key + "=\""@ + text::escaped_attr(val) + "\""@
    }
}

/// A run of attributes as they are written.
pub open spec fn attrs_html(attrs: Seq<(Seq<char>, Seq<char>)>) -> Seq<char>
    decreases attrs.len(),
{
    if attrs.len() == 0 {
        Seq::empty()
    } else {
        attrs_html(attrs.drop_last()) + attr_html(attrs.last().0, attrs.last().1)
    }
}

/// A hydration trigger as it is written.
pub open spec fn trigger_text(trigger: IslandTrigger) -> Seq<char> {
    match trigger {
        IslandTrigger::Load => "load"@,
        IslandTrigger::Visible => "visible"@,
        IslandTrigger::Interaction => "interaction"@,
        IslandTrigger::Idle => "idle"@,
    }
}

/// The attributes that mark an island's root element.
pub open spec fn island_html(island: Option<PendingView>) -> Seq<char> {
    match island {
        None => Seq::empty(),
        Some(island) => island_attrs_html(island),
    }
}

/// The attributes of one island.
pub open spec fn island_attrs_html(island: PendingView) -> Seq<char> {
    let marks = " data-forma-island=\""@ + text::decimal(island.id as nat)
        + "\" data-forma-component=\""@ + text::escaped_attr(island.component_name)
        + "\" data-forma-status=\"pending\""@ + " data-forma-hydrate=\""@ + trigger_text(
        island.trigger,
    ) + "\""@;
    match island.inline_props {
        None => marks,
        Some(props) => marks + " data-forma-props=\""@ + text::escaped_attr(props) + "\""@,
    }
}

/// The attribute that holds a list item's key.
pub open spec fn key_html(key: Option<Seq<char>>) -> Seq<char> {
    match key {
        None => Seq::empty(),
        Some(key) => " data-forma-key=\""@ + text::escaped_attr(key) + "\""@,
    }
}

// ---------------------------------------------------------------------------
// Effects of the opcodes without a body
// ---------------------------------------------------------------------------

/// OPEN_TAG and VOID_TAG: the tag, with the pending island and key injected.
/// It stays open for DYN_ATTR.
pub open spec fn tag_effect(m: ModuleView, s: WalkView, p: int) -> Result<WalkView, ErrorView> {
    match tag_at(m.opcodes, m.strings, p) {
        Err(e) => Err(e),
        Ok((tag_str_idx, attrs)) => match parser::string_at(m.strings, tag_str_idx) {
            Err(e) => Err(e),
            Ok(tag) => Ok(
                WalkView {
                    out: s.out + "<"@ + tag + attrs_html(attrs) + island_html(s.island) + key_html(
                        s.key,
                    ),
                    island: None,
                    key: None,
                    tag_open: true,
                    ..s
                },
            ),
        },
    }
}

/// The string whose index stands at `p`.
pub open spec fn string_operand(m: ModuleView, p: int) -> Result<Seq<char>, ErrorView> {
    match bytes::u32_read(m.opcodes, p) {
        Err(e) => Err(e),
        Ok(idx) => parser::string_at(m.strings, idx),
    }
}

/// CLOSE_TAG.
pub open spec fn close_tag_effect(m: ModuleView, s: WalkView, p: int) -> Result<
    WalkView,
    ErrorView,
> {
    match string_operand(m, p) {
        Err(e) => Err(e),
        Ok(tag) => Ok(emit(s, "</"@ + tag + ">"@)),
    }
}

/// TEXT.
pub open spec fn text_effect(m: ModuleView, s: WalkView, p: int) -> Result<WalkView, ErrorView> {
    match string_operand(m, p) {
        Err(e) => Err(e),
        Ok(words) => Ok(emit(s, text::escaped_html(words))),
    }
}

/// A slot's text between markers. An empty text is written as a zero-width
/// space, so that there is always a text node between the markers.
pub open spec fn dyn_text_html(value: SlotTree, marker_id: u16) -> Seq<char> {
    let words = slot::slot_text(value);
    marker("<!--f:t"@, marker_id) + (if words.len() == 0 {
        seq!['\u{200B}']
    } else {
        text::escaped_html(words)
    }) + marker("<!--/f:t"@, marker_id)
}

/// DYN_TEXT.
pub open spec fn dyn_text_effect(m: ModuleView, s: WalkView, p: int) -> Result<
    WalkView,
    ErrorView,
> {
    match bytes::u16_read(m.opcodes, p) {
        Err(e) => Err(e),
        Ok(slot_id) => match bytes::u16_read(m.opcodes, p + 2) {
            Err(e) => Err(e),
            Ok(marker_id) => Ok(
                emit(s, dyn_text_html(slot::slot_at(s.slots, slot_id), marker_id)),
            ),
        },
    }
}

/// DYN_ATTR: an attribute whose value is a slot's text. It is left out where
/// the text is empty or no tag is open.
pub open spec fn dyn_attr_effect(m: ModuleView, s: WalkView, p: int) -> Result<
    WalkView,
    ErrorView,
> {
    match bytes::u32_read(m.opcodes, p) {
        Err(e) => Err(e),
        Ok(attr_str_idx) => match bytes::u16_read(m.opcodes, p + 4) {
            Err(e) => Err(e),
            Ok(slot_id) => if !s.tag_open {
                Ok(s)
            } else {
                match parser::string_at(m.strings, attr_str_idx) {
                    Err(e) => Err(e),
                    Ok(name) => {
                        let words = slot::slot_text(slot::slot_at(s.slots, slot_id));
                        if words.len() == 0 {
                            Ok(s)
                        } else {
                            Ok(
                                emit(
                                    s,
                                    " "@ + name + "=\""@ + text::escaped_attr(words) + "\""@,
                                ),
                            )
                        }
                    },
                }
            },
        },
    }
}

/// What an island's props mode and props leave pending or for the script tag.
pub open spec fn island_pending(m: ModuleView, s: WalkView, entry: IslandEntryView, name: Seq<
    char,
>) -> WalkView {
    let props = JsonTree::Object(island_props(m, s.slots, entry.slot_ids));
    let inline = if entry.props_mode == PropsMode::Inline && entry.slot_ids.len() > 0 {
        Some(or_braces(json::json_text(props)))
    } else {
        None
    };
    let script = if entry.props_mode == PropsMode::ScriptTag && entry.slot_ids.len() > 0 {
        with_entry(s.script, entry.id, props)
    } else {
        s.script
    };
    WalkView {
        island: Some(
            PendingView {
                id: entry.id,
                component_name: name,
                inline_props: inline,
                trigger: entry.trigger,
            },
        ),
        script,
        ..s
    }
}

/// ISLAND_START: a marker, and the island of that id pending where there is one.
pub open spec fn island_start_effect(m: ModuleView, s: WalkView, p: int) -> Result<
    WalkView,
    ErrorView,
> {
    match bytes::u16_read(m.opcodes, p) {
        Err(e) => Err(e),
        Ok(id) => {
            let marked = emit(s, marker("<!--f:i"@, id));
            let at = island_position(m.islands, id, 0);
            if at < m.islands.len() {
                match parser::string_at(m.strings, m.islands[at].name_str_idx) {
                    Err(e) => Err(e),
                    Ok(name) => Ok(island_pending(m, marked, m.islands[at], name)),
                }
            } else {
                Ok(marked)
            }
        },
    }
}

/// ISLAND_END.
pub open spec fn island_end_effect(m: ModuleView, s: WalkView, p: int) -> Result<
    WalkView,
    ErrorView,
> {
    match bytes::u16_read(m.opcodes, p) {
        Err(e) => Err(e),
        Ok(id) => Ok(emit(s, marker("<!--/f:i"@, id))),
    }
}

/// COMMENT: no pair of hyphens survives in it.
pub open spec fn comment_effect(m: ModuleView, s: WalkView, p: int) -> Result<
    WalkView,
    ErrorView,
> {
    match string_operand(m, p) {
        Err(e) => Err(e),
        Ok(words) => Ok(
            emit(s, "<!--"@ + text::pair_replaced(words, '-', '-', "&#45;&#45;"@) + "-->"@),
        ),
    }
}

/// TRY_START: the length of the fallback is remembered for FALLBACK.
pub open spec fn try_start_effect(m: ModuleView, s: WalkView, p: int) -> Result<
    WalkView,
    ErrorView,
> {
    match bytes::u32_read(m.opcodes, p) {
        Err(e) => Err(e),
        Ok(len) => Ok(WalkView { fallback: s.fallback.push(len as usize), ..s }),
    }
}

/// FALLBACK: the fallback is skipped, so its length is no longer needed. One
/// without a TRY_START skips nothing.
pub open spec fn fallback_effect(s: WalkView) -> WalkView {
    if s.fallback.len() > 0 {
        WalkView { fallback: s.fallback.drop_last(), ..s }
    } else {
        WalkView { stray: s.stray + 1, ..s }
    }
}

/// What a preload's resource type is written as: the `as` value, and further
/// attributes.
pub open spec fn preload_kind(resource_type: u8) -> (Seq<char>, Seq<char>) {
    if resource_type == 1 {
        ("font"@, " type=\"font/woff2\" crossorigin"@)
    } else if resource_type == 2 {
        ("style"@, ""@)
    } else if resource_type == 3 {
        ("script"@, ""@)
    } else if resource_type == 4 {
        ("image"@, ""@)
    } else {
        ("fetch"@, ""@)
    }
}

/// PRELOAD.
pub open spec fn preload_effect(m: ModuleView, s: WalkView, p: int) -> Result<
    WalkView,
    ErrorView,
> {
    if p >= m.opcodes.len() {
        Err(bytes::too_short(p + 1, m.opcodes.len()))
    } else {
        match string_operand(m, p + 1) {
            Err(e) => Err(e),
            Ok(url) => {
                let kind = preload_kind(m.opcodes[p]);
                Ok(
                    emit(
                        s,
                        "<link rel=\"preload\" href=\""@ + text::escaped_attr(url) + "\" as=\""@
                            + kind.0 + "\""@ + kind.1 + ">\n"@,
                    ),
                )
            },
        }
    }
}

/// LIST_ITEM_KEY: the key is pending for the next tag.
pub open spec fn list_item_key_effect(m: ModuleView, s: WalkView, p: int) -> Result<
    WalkView,
    ErrorView,
> {
    match string_operand(m, p) {
        Err(e) => Err(e),
        Ok(key) => Ok(WalkView { key: Some(key), ..s }),
    }
}

/// PROP: a property of one slot's object goes to another slot.
pub open spec fn prop_effect(m: ModuleView, s: WalkView, p: int) -> Result<WalkView, ErrorView> {
    match bytes::u16_read(m.opcodes, p) {
        Err(e) => Err(e),
        Ok(src) => match bytes::u32_read(m.opcodes, p + 2) {
            Err(e) => Err(e),
            Ok(prop_str_idx) => match bytes::u16_read(m.opcodes, p + 6) {
                Err(e) => Err(e),
                Ok(target) => match parser::string_at(m.strings, prop_str_idx) {
                    Err(e) => Err(e),
                    Ok(name) => Ok(
                        WalkView {
                            slots: slot::slot_set(
                                s.slots,
                                target,
                                slot::property(slot::slot_at(s.slots, src), name),
                            ),
                            ..s
                        },
                    ),
                },
            },
        },
    }
}

// ---------------------------------------------------------------------------
// Control flow
// ---------------------------------------------------------------------------

/// The header of a SHOW_IF: the slot, and the lengths of the two branches.
pub open spec fn show_if_header(ops: Seq<u8>, p: int) -> Result<(u16, u32, u32), ErrorView> {
    match bytes::u16_read(ops, p) {
        Err(e) => Err(e),
        Ok(slot_id) => match bytes::u32_read(ops, p + 2) {
            Err(e) => Err(e),
            Ok(then_len) => match bytes::u32_read(ops, p + 6) {
                Err(e) => Err(e),
                Ok(else_len) => Ok((slot_id, then_len, else_len)),
            },
        },
    }
}

/// The header of a LIST: the slot, the slot of the item, and the length of the
/// body.
pub open spec fn list_header(ops: Seq<u8>, p: int) -> Result<(u16, u16, u32), ErrorView> {
    match bytes::u16_read(ops, p) {
        Err(e) => Err(e),
        Ok(slot_id) => match bytes::u16_read(ops, p + 2) {
            Err(e) => Err(e),
            Ok(item_slot_id) => match bytes::u32_read(ops, p + 4) {
                Err(e) => Err(e),
                Ok(body_len) => Ok((slot_id, item_slot_id, body_len)),
            },
        },
    }
}

/// The `count` case headers stored from `at` on: the index of the value, and
/// the length of the body.
pub open spec fn cases_from(ops: Seq<u8>, at: int, count: nat) -> Result<
    Seq<(u32, u32)>,
    ErrorView,
>
    decreases count,
{
    if count == 0 {
        Ok(Seq::empty())
    } else {
        match bytes::u32_read(ops, at) {
            Err(e) => Err(e),
            Ok(val_str_idx) => match bytes::u32_read(ops, at + 4) {
                Err(e) => Err(e),
                Ok(body_len) => parser::prepended(
                    seq![(val_str_idx, body_len)],
                    cases_from(ops, at + 8, (count - 1) as nat),
                ),
            },
        }
    }
}

/// The header of a SWITCH: the slot, and the cases.
pub open spec fn switch_header(ops: Seq<u8>, p: int) -> Result<(u16, Seq<(u32, u32)>), ErrorView> {
    match bytes::u16_read(ops, p) {
        Err(e) => Err(e),
        Ok(slot_id) => match bytes::u16_read(ops, p + 2) {
            Err(e) => Err(e),
            Ok(count) => match cases_from(ops, p + 4, count as nat) {
                Err(e) => Err(e),
                Ok(cases) => Ok((slot_id, cases)),
            },
        },
    }
}

/// Where the bodies of the first `k` cases end; they start at `from`.
pub open spec fn bodies_end(cases: Seq<(u32, u32)>, from: int, k: nat) -> int
    decreases k,
{
    if k == 0 {
        from
    } else {
        plus(bodies_end(cases, from, (k - 1) as nat), cases[k - 1].1 as int)
    }
}

/// Where the then branch of a SHOW_IF ends.
pub open spec fn then_end(p: int, then_len: u32) -> int {
    plus(p + 10, then_len as int)
}

/// Where the walk goes on behind an opcode whose operands start at `p`.
pub open spec fn after(m: ModuleView, s: WalkView, op: Opcode, p: int) -> int {
    match op {
        Opcode::OpenTag => p + 6 + 8 * bytes::u16_at(m.opcodes, p + 4),
        Opcode::VoidTag => p + 6 + 8 * bytes::u16_at(m.opcodes, p + 4),
        Opcode::CloseTag => p + 4,
        Opcode::Text => p + 4,
        Opcode::DynText => p + 4,
        Opcode::DynAttr => p + 6,
        Opcode::IslandStart => p + 2,
        Opcode::IslandEnd => p + 2,
        Opcode::Comment => p + 4,
        Opcode::ShowElse => p,
        Opcode::TryStart => p + 4,
        Opcode::Fallback => if s.fallback.len() > 0 {
            plus(p, s.fallback.last() as int)
        } else {
            p
        },
        Opcode::Preload => p + 5,
        Opcode::ListItemKey => p + 4,
        Opcode::Prop => p + 8,
        Opcode::ShowIf => match show_if_header(m.opcodes, p) {
            Ok((_, then_len, else_len)) => plus(plus(then_end(p, then_len), 1), else_len as int),
            Err(_) => p,
        },
        Opcode::Switch => match switch_header(m.opcodes, p) {
            Ok((_, cases)) => bodies_end(cases, p + 4 + 8 * cases.len(), cases.len()),
            Err(_) => p,
        },
        Opcode::List => match list_header(m.opcodes, p) {
            Ok((_, _, body_len)) => plus(p + 8, body_len as int),
            Err(_) => p,
        },
    }
}

proof fn bodies_end_behind(cases: Seq<(u32, u32)>, from: int, k: nat, p: int)
    requires
        p <= from,
        p <= usize::MAX,
    ensures
        p <= bodies_end(cases, from, k),
    decreases k,
{
    if k > 0 {
        bodies_end_behind(cases, from, (k - 1) as nat, p);
    }
}

/// A walk never goes back.
pub proof fn after_is_behind(m: ModuleView, s: WalkView, op: Opcode, p: int)
    requires
        p <= usize::MAX,
    ensures
        p <= after(m, s, op, p),
{
    if op == Opcode::Switch {
        if let Ok((_, cases)) = switch_header(m.opcodes, p) {
            bodies_end_behind(cases, p + 4 + 8 * cases.len(), cases.len(), p);
        }
    }
}

/// Where a run ends: at a position, or at the end of an island.
pub enum Stop {
    At(int),
    IslandEnd(u16),
}

/// How many levels are left below a recursion depth.
pub open spec fn levels_left(depth: int) -> nat {
    if depth > MAX_RECURSION_DEPTH {
        0
    } else {
        (MAX_RECURSION_DEPTH + 1 - depth) as nat
    }
}

/// How many bytes are left behind a position.
pub open spec fn bytes_left(ops: Seq<u8>, pos: int) -> nat {
    if pos >= ops.len() {
        0
    } else {
        (ops.len() - pos) as nat
    }
}

/// The effect of an opcode whose operands start at `p`, at a recursion depth.
pub open spec fn effect(m: ModuleView, s: WalkView, op: Opcode, p: int, depth: int) -> Result<
    WalkView,
    ErrorView,
>
    decreases levels_left(depth), 1int, 0int,
    when m.opcodes.len() <= usize::MAX
{
    if depth > MAX_RECURSION_DEPTH {
        Err(ErrorView::RecursionLimitExceeded)
    } else {
        match op {
            Opcode::OpenTag => tag_effect(m, s, p),
            Opcode::VoidTag => tag_effect(m, s, p),
            Opcode::CloseTag => close_tag_effect(m, s, p),
            Opcode::Text => text_effect(m, s, p),
            Opcode::DynText => dyn_text_effect(m, s, p),
            Opcode::DynAttr => dyn_attr_effect(m, s, p),
            Opcode::IslandStart => island_start_effect(m, s, p),
            Opcode::IslandEnd => island_end_effect(m, s, p),
            Opcode::Comment => comment_effect(m, s, p),
            Opcode::ShowElse => Ok(s),
            Opcode::TryStart => try_start_effect(m, s, p),
            Opcode::Fallback => Ok(fallback_effect(s)),
            Opcode::Preload => preload_effect(m, s, p),
            Opcode::ListItemKey => list_item_key_effect(m, s, p),
            Opcode::Prop => prop_effect(m, s, p),
            Opcode::ShowIf => show_if_effect(m, s, p, depth),
            Opcode::Switch => switch_effect(m, s, p, depth),
            Opcode::List => list_effect(m, s, p, depth),
        }
    }
}

/// SHOW_IF: the branch that the slot's truthiness picks, between markers.
pub open spec fn show_if_effect(m: ModuleView, s: WalkView, p: int, depth: int) -> Result<
    WalkView,
    ErrorView,
>
    decreases levels_left(depth), 0int, 0int,
    when m.opcodes.len() <= usize::MAX && depth <= MAX_RECURSION_DEPTH
{
    match show_if_header(m.opcodes, p) {
        Err(e) => Err(e),
        Ok((slot_id, then_len, else_len)) => {
            let marked = emit(s, marker("<!--f:s"@, slot_id));
            let split = then_end(p, then_len);
            let walked = if slot::truthy(slot::slot_at(s.slots, slot_id)) {
                run(m, Stop::At(split), marked, p + 10, depth + 1)
            } else {
                run(
                    m,
                    Stop::At(plus(plus(split, 1), else_len as int)),
                    marked,
                    plus(split, 1),
                    depth + 1,
                )
            };
            match walked {
                Err(e) => Err(e),
                Ok(s2) => Ok(emit(s2, marker("<!--/f:s"@, slot_id))),
            }
        },
    }
}

/// SWITCH: the bodies of the cases whose value is the slot's text.
pub open spec fn switch_effect(m: ModuleView, s: WalkView, p: int, depth: int) -> Result<
    WalkView,
    ErrorView,
>
    decreases levels_left(depth), 0int, 0int,
    when m.opcodes.len() <= usize::MAX && depth <= MAX_RECURSION_DEPTH
{
    match switch_header(m.opcodes, p) {
        Err(e) => Err(e),
        Ok((slot_id, cases)) => walk_cases(
            m,
            s,
            cases,
            p + 4 + 8 * cases.len(),
            0,
            slot::slot_text(slot::slot_at(s.slots, slot_id)),
            depth + 1,
        ),
    }
}

/// LIST: the body once for each item of the slot's array, between markers. A
/// body works on its own copy of the slots; a list that has items counts
/// towards the depth of lists.
pub open spec fn list_effect(m: ModuleView, s: WalkView, p: int, depth: int) -> Result<
    WalkView,
    ErrorView,
>
    decreases levels_left(depth), 0int, 0int,
    when m.opcodes.len() <= usize::MAX && depth <= MAX_RECURSION_DEPTH
{
    match list_header(m.opcodes, p) {
        Err(e) => Err(e),
        Ok((slot_id, item_slot_id, body_len)) => {
            let marked = emit(s, marker("<!--f:l"@, slot_id));
            let walked = match slot::slot_at(s.slots, slot_id) {
                SlotTree::Array(items) => if items.len() == 0 {
                    Ok(marked)
                } else if s.list_depth + 1 > MAX_LIST_DEPTH {
                    Err(ErrorView::ListDepthExceeded { max: MAX_LIST_DEPTH })
                } else {
                    walk_items(
                        m,
                        WalkView { list_depth: s.list_depth + 1, ..marked },
                        s.slots,
                        item_slot_id,
                        items,
                        0,
                        p + 8,
                        plus(p + 8, body_len as int),
                        depth + 1,
                    )
                },
                _ => Ok(marked),
            };
            match walked {
                Err(e) => Err(e),
                Ok(s2) => Ok(
                    emit(
                        WalkView { list_depth: s.list_depth, slots: s.slots, ..s2 },
                        marker("<!--/f:l"@, slot_id),
                    ),
                ),
            }
        },
    }
}

/// The cases of a SWITCH from number `i` on: the body of each whose value is
/// `words` is walked. The bodies start at `from`.
pub open spec fn walk_cases(
    m: ModuleView,
    s: WalkView,
    cases: Seq<(u32, u32)>,
    from: int,
    i: int,
    words: Seq<char>,
    depth: int,
) -> Result<WalkView, ErrorView>
    decreases levels_left(depth), 3int, cases.len() - i,
    when m.opcodes.len() <= usize::MAX
{
    if i < 0 || i >= cases.len() {
        Ok(s)
    } else {
        match parser::string_at(m.strings, cases[i].0) {
            Err(e) => Err(e),
            Ok(value) => if value == words {
                match run(
                    m,
                    Stop::At(bodies_end(cases, from, (i + 1) as nat)),
                    s,
                    bodies_end(cases, from, i as nat),
                    depth,
                ) {
                    Err(e) => Err(e),
                    Ok(s2) => walk_cases(m, s2, cases, from, i + 1, words, depth),
                }
            } else {
                walk_cases(m, s, cases, from, i + 1, words, depth)
            },
        }
    }
}

/// The items of a LIST from number `i` on: the body is walked for each, over a
/// copy of the slots in which the item's slot holds it.
pub open spec fn walk_items(
    m: ModuleView,
    s: WalkView,
    slots: Seq<SlotTree>,
    item_slot_id: u16,
    items: Seq<SlotTree>,
    i: int,
    body_start: int,
    body_end: int,
    depth: int,
) -> Result<WalkView, ErrorView>
    decreases levels_left(depth), 3int, items.len() - i,
    when m.opcodes.len() <= usize::MAX
{
    if i < 0 || i >= items.len() {
        Ok(s)
    } else {
        let shadow = WalkView { slots: slot::slot_set(slots, item_slot_id, items[i]), ..s };
        match run(m, Stop::At(body_end), shadow, body_start, depth) {
            Err(e) => Err(e),
            Ok(s2) => walk_items(
                m,
                s2,
                slots,
                item_slot_id,
                items,
                i + 1,
                body_start,
                body_end,
                depth,
            ),
        }
    }
}

/// A walk from `pos` on, at a recursion depth. An open tag is closed before
/// any opcode but DYN_ATTR, and at the end of a range.
pub open spec fn run(m: ModuleView, stop: Stop, s: WalkView, pos: int, depth: int) -> Result<
    WalkView,
    ErrorView,
>
    decreases levels_left(depth), 2int, bytes_left(m.opcodes, pos),
    when m.opcodes.len() <= usize::MAX
{
    if depth > MAX_RECURSION_DEPTH {
        Err(ErrorView::RecursionLimitExceeded)
    } else if stop matches Stop::At(end) && pos >= end {
        Ok(flushed(s))
    } else if pos >= m.opcodes.len() {
        match stop {
            Stop::At(_) => Err(bytes::too_short(pos + 1, m.opcodes.len())),
            Stop::IslandEnd(id) => Err(ErrorView::IslandNotFound(id)),
        }
    } else {
        match crate::format::opcode_of(m.opcodes[pos]) {
            None => Err(ErrorView::InvalidOpcode(m.opcodes[pos])),
            Some(op) => {
                let ready = if op == Opcode::DynAttr {
                    s
                } else {
                    flushed(s)
                };
                if op == Opcode::IslandEnd && stop is IslandEnd && bytes::u16_read(
                    m.opcodes,
                    pos + 1,
                ) == Ok::<u16, ErrorView>(stop->IslandEnd_0) {
                    Ok(ready)
                } else {
                    match effect(m, ready, op, pos + 1, depth) {
                        Err(e) => Err(e),
                        Ok(s2) => {
                            proof {
                                after_is_behind(m, ready, op, pos + 1);
                            }
                            run(m, stop, s2, after(m, ready, op, pos + 1), depth)
                        },
                    }
                }
            },
        }
    }
}

// ---------------------------------------------------------------------------
// Whole walks
// ---------------------------------------------------------------------------

/// A script tag that holds JSON, written so that the JSON cannot end it.
pub open spec fn json_script_html(words: Seq<char>) -> Seq<char> {
    "<script id=\"__forma_islands\" type=\"application/json\">"@ + text::pair_replaced(
        words,
        '<',
        '/',
        "<\\/"@,
    ) + "</script>"@
}

/// The script tag that holds the props of the ScriptTag islands.
pub open spec fn script_html(script: Seq<(u16, JsonTree)>) -> Seq<char> {
    if script.len() == 0 {
        Seq::empty()
    } else {
        json_script_html(or_braces(json::json_map_text(script)))
    }
}

/// The HTML of a module.
pub open spec fn html_of(m: ModuleView, slots: Seq<SlotTree>) -> Result<Seq<char>, ErrorView> {
    match run(m, Stop::At(m.opcodes.len() as int), start(slots), 0, 0) {
        Err(e) => Err(e),
        Ok(s) => Ok(s.out + script_html(s.script)),
    }
}

/// The HTML of one island of a module: everything between its ISLAND_START and
/// its ISLAND_END.
pub open spec fn island_html_of(m: ModuleView, slots: Seq<SlotTree>, id: u16) -> Result<
    Seq<char>,
    ErrorView,
> {
    let at = island_position(m.islands, id, 0);
    if at >= m.islands.len() {
        Err(ErrorView::IslandNotFound(id))
    } else {
        let offset = m.islands[at].byte_offset as int;
        if offset >= m.opcodes.len() {
            Err(bytes::too_short(offset + 1, m.opcodes.len()))
        } else if crate::format::opcode_of(m.opcodes[offset]) != Some(Opcode::IslandStart) {
            Err(ErrorView::InvalidOpcode(m.opcodes[offset]))
        } else if offset + 3 > m.opcodes.len() {
            Err(bytes::too_short(offset + 3, m.opcodes.len()))
        } else {
            match run(m, Stop::IslandEnd(id), start(slots), offset + 3, 0) {
                Err(e) => Err(e),
                Ok(s) => Ok(s.out),
            }
        }
    }
}

} // verus!
