//! Static HTML walker: walks the IR opcode stream to produce HTML output.
//!
//! This is the core SSR rendering engine. It takes a parsed `IrModule` plus
//! populated `SlotData`, walks the opcode stream linearly, and produces an
//! HTML string suitable for embedding in the page.

use vstd::prelude::*;

use crate::bytes;
use crate::format::{ErrorView, IrError, IslandEntry, IslandTrigger, Opcode, PropsMode, SlotSource};
use crate::json;
use crate::json::JsonValue;
use crate::parser;
use crate::parser::{IrModule, StringTable};
use crate::slot;
use crate::slot::{SlotData, SlotTree, SlotValue};
use crate::text;
use crate::types;
use crate::walker::model::{PendingView, Stop, WalkView, MAX_LIST_DEPTH, MAX_RECURSION_DEPTH};

pub mod encoded;
pub mod html;
pub mod laws;
pub mod model;
pub mod opcodes;
pub mod relocation;

verus! {

// ---------------------------------------------------------------------------
// Walk state
// ---------------------------------------------------------------------------

/// Pending island info to be injected on the next OPEN_TAG or VOID_TAG.
struct IslandPending {
    id: u16,
    component_name: String,
    inline_props: Option<String>,
    trigger: IslandTrigger,
}

spec fn text_view(words: Option<String>) -> Option<Seq<char>> {
    match words {
        Some(words) => Some(words@),
        None => None,
    }
}

spec fn pending_view(island: Option<IslandPending>) -> Option<PendingView> {
    match island {
        Some(island) => Some(
            PendingView {
                id: island.id,
                component_name: island.component_name@,
                inline_props: text_view(island.inline_props),
                trigger: island.trigger,
            },
        ),
        None => None,
    }
}

/// Mutable state threaded through recursive `walk_range` calls.
///
/// This avoids adding extra parameters every time we need new walker state
/// (e.g., list depth, fallback tracking).
struct WalkState {
    /// The HTML written so far.
    out: String,
    /// The current slot values; a LIST body works on its own copy.
    slots: SlotData,
    /// Current nesting depth for LIST opcodes.
    list_depth: u8,
    /// Stack of fallback body lengths pushed by TRY_START, popped by FALLBACK.
    fallback_stack: Vec<usize>,
    /// How many FALLBACKs came without a TRY_START before them.
    stray: Ghost<nat>,
    /// Pending island info to inject on the next OPEN_TAG/VOID_TAG.
    pending_island: Option<IslandPending>,
    /// Pending list-item key to inject on the next OPEN_TAG/VOID_TAG.
    pending_list_key: Option<String>,
    /// Accumulated props for ScriptTag mode, keyed by island id.
    script_tag_props: Vec<(u16, JsonValue)>,
    /// True when an OpenTag or VoidTag has been opened but the `>` has not
    /// been written yet. DYN_ATTR opcodes may still append attributes.
    pending_tag_close: bool,
}

impl View for WalkState {
    type V = WalkView;

    closed spec fn view(&self) -> WalkView {
        WalkView {
            out: self.out@,
            slots: self.slots@,
            list_depth: self.list_depth as int,
            fallback: self.fallback_stack@,
            stray: self.stray@,
            island: pending_view(self.pending_island),
            key: text_view(self.pending_list_key),
            script: json::entry_trees(self.script_tag_props@),
            tag_open: self.pending_tag_close,
        }
    }
}

/// HTML was only appended.
spec fn appended(before: WalkView, reached: WalkView) -> bool {
    &&& before.out.len() <= reached.out.len()
    &&& forall|i: int| 0 <= i < before.out.len() ==> #[trigger] reached.out[i] == before.out[i]
}

/// A step of a walk did what it owed: it reached the state, and the position
/// where the walk goes on, or reported the error. The HTML already written is
/// kept either way.
spec fn told(
    res: Result<usize, IrError>,
    owed: Result<WalkView, ErrorView>,
    before: WalkView,
    reached: WalkView,
    next: int,
) -> bool {
    appended(before, reached) && match res {
        Ok(pos) => owed == Ok::<WalkView, ErrorView>(reached) && pos == next,
        Err(e) => owed == Err::<WalkView, ErrorView>(e@),
    }
}

/// A walk did what it owed: it reached the state, or reported the error. The
/// HTML already written is kept either way.
spec fn walked(
    res: Result<(), IrError>,
    owed: Result<WalkView, ErrorView>,
    before: WalkView,
    reached: WalkView,
) -> bool {
    appended(before, reached) && match res {
        Ok(()) => owed == Ok::<WalkView, ErrorView>(reached),
        Err(e) => owed == Err::<WalkView, ErrorView>(e@),
    }
}

// ---------------------------------------------------------------------------
// Writing
// ---------------------------------------------------------------------------

fn push_marker(out: &mut String, kind: &str, id: u16)
    ensures
        final(out)@ == old(out)@ + model::marker(kind@, id),
{
    out.push_str(kind);
    text::push_decimal(out, id as u64);
    out.push_str("-->");
    proof {
        assert(out@ =~= old(out)@ + model::marker(kind@, id));
    }
}

fn push_attr(out: &mut String, key: &str, val: &str)
    ensures
        final(out)@ == old(out)@ + model::attr_html(key@, val@),
{
    out.push_str(" ");
    out.push_str(key);
    if !val.is_empty() {
        out.push_str("=\"");
        text::push_escaped_attr(out, val);
        out.push_str("\"");
    }
    proof {
        assert(out@ =~= old(out)@ + model::attr_html(key@, val@));
    }
}

/// What a run of attributes holds.
pub(crate) open spec fn attr_views(attrs: Seq<(&str, &str)>) -> Seq<(Seq<char>, Seq<char>)> {
    Seq::new(attrs.len(), |i: int| (attrs[i].0@, attrs[i].1@))
}

fn push_attrs(out: &mut String, attrs: &Vec<(&str, &str)>)
    ensures
        final(out)@ == old(out)@ + model::attrs_html(attr_views(attrs@)),
{
    let ghost start = out@;
    let ghost all = attr_views(attrs@);
    let mut i: usize = 0;
    while i < attrs.len()
        invariant
            i <= attrs@.len(),
            all == attr_views(attrs@),
            out@ == start + model::attrs_html(all.take(i as int)),
        decreases attrs.len() - i,
    {
        push_attr(out, attrs[i].0, attrs[i].1);
        i += 1;
        proof {
            assert(all.take(i as int).drop_last() =~= all.take(i - 1));
        }
    }
    proof {
        assert(all.take(i as int) =~= all);
    }
}

fn trigger_str(trigger: IslandTrigger) -> (res: &'static str)
    ensures
        res@ == model::trigger_text(trigger),
{
    match trigger {
        IslandTrigger::Load => "load",
        IslandTrigger::Visible => "visible",
        IslandTrigger::Interaction => "interaction",
        IslandTrigger::Idle => "idle",
    }
}

/// Append the attributes that mark an island's root element, given the JSON
/// text of its inline props, if it has any.
pub fn push_island_attrs(
    out: &mut String,
    id: u16,
    component_name: &str,
    trigger: IslandTrigger,
    inline_props: Option<&str>,
)
    ensures
        final(out)@ == old(out)@ + model::island_attrs_html(
            (PendingView {
                id,
                component_name: component_name@,
                inline_props: types::optional(inline_props),
                trigger,
            }),
        ),
{
    out.push_str(" data-forma-island=\"");
    text::push_decimal(out, id as u64);
    out.push_str("\" data-forma-component=\"");
    text::push_escaped_attr(out, component_name);
    out.push_str("\" data-forma-status=\"pending\"");
    // Hydration trigger
    out.push_str(" data-forma-hydrate=\"");
    out.push_str(trigger_str(trigger));
    out.push_str("\"");
    if let Some(props_json) = inline_props {
        out.push_str(" data-forma-props=\"");
        text::push_escaped_attr(out, props_json);
        out.push_str("\"");
    }
    proof {
        let island = PendingView {
            id,
            component_name: component_name@,
            inline_props: types::optional(inline_props),
            trigger,
        };
        assert(out@ =~= old(out)@ + model::island_attrs_html(island));
    }
}

fn push_island(out: &mut String, island: &Option<IslandPending>)
    ensures
        final(out)@ == old(out)@ + model::island_html(pending_view(*island)),
{
    if let Some(island) = island {
        let props = match &island.inline_props {
            Some(props) => Some(props.as_str()),
            None => None,
        };
        push_island_attrs(
            out,
            island.id,
            island.component_name.as_str(),
            island.trigger,
            props,
        );
    }
    proof {
        assert(out@ + Seq::<char>::empty() =~= out@);
    }
}

/// Append a script tag that holds JSON, written so that the JSON cannot end it.
pub fn push_json_script(out: &mut String, json: &str)
    ensures
        final(out)@ == old(out)@ + model::json_script_html(json@),
{
    out.push_str("<script id=\"__forma_islands\" type=\"application/json\">");
    text::push_pair_replaced(out, json, '<', '/', "<\\/");
    out.push_str("</script>");
    proof {
        assert(out@ =~= old(out)@ + model::json_script_html(json@));
    }
}

fn push_key(out: &mut String, key: &Option<String>)
    ensures
        final(out)@ == old(out)@ + model::key_html(text_view(*key)),
{
    if let Some(key) = key {
        out.push_str(" data-forma-key=\"");
        text::push_escaped_attr(out, key.as_str());
        out.push_str("\"");
    }
    proof {
        assert(out@ =~= old(out)@ + model::key_html(text_view(*key)));
    }
}

/// Read an OPEN_TAG or VOID_TAG operand block:
/// `str_idx(u32) + attr_count(u16) + [(key_str_idx(u32), val_str_idx(u32))] x attr_count`
///
/// Returns `(tag_str_idx, vec of (key, val) string refs, new position)`.
pub(crate) fn read_tag_with_attrs<'a>(ops: &[u8], pos: usize, strings: &'a StringTable) -> (res:
    Result<(u32, Vec<(&'a str, &'a str)>, usize), IrError>)
    ensures
        match res {
            Ok((idx, attrs, next)) => model::tag_at(ops@, strings@, pos as int) == Ok::<
                (u32, Seq<(Seq<char>, Seq<char>)>),
                ErrorView,
            >((idx, attr_views(attrs@))) && next == pos + 6 + 8 * bytes::u16_at(ops@, pos + 4),
            Err(e) => model::tag_at(ops@, strings@, pos as int) == Err::<
                (u32, Seq<(Seq<char>, Seq<char>)>),
                ErrorView,
            >(e@),
        },
{
    let tag_str_idx = match bytes::read_u32(ops, pos) {
        Ok(v) => v,
        Err(e) => {
            return Err(e);
        },
    };
    let attr_count = match bytes::read_u16(ops, pos + 4) {
        Ok(v) => v,
        Err(e) => {
            return Err(e);
        },
    };
    let mut cursor: usize = pos + 6;  // past str_idx(4) + attr_count(2)
    let mut attrs: Vec<(&'a str, &'a str)> = Vec::with_capacity(attr_count as usize);
    let mut i: u16 = 0;
    proof {
        parser::prepend_nothing(model::attrs_from(ops@, strings@, pos + 6, attr_count as nat));
        assert(attr_views(attrs@) =~= Seq::empty());
    }
    while i < attr_count
        invariant
            i <= attr_count,
            cursor == pos + 6 + 8 * i,
            cursor <= ops@.len(),
            attr_count == bytes::u16_at(ops@, pos + 4),
            model::tag_at(ops@, strings@, pos as int) == match parser::prepended(
                attr_views(attrs@),
                model::attrs_from(ops@, strings@, cursor as int, (attr_count - i) as nat),
            ) {
                Ok(all) => Ok::<(u32, Seq<(Seq<char>, Seq<char>)>), ErrorView>((tag_str_idx, all)),
                Err(e) => Err(e),
            },
        decreases attr_count - i,
    {
        let key_idx = match bytes::read_u32(ops, cursor) {
            Ok(v) => v,
            Err(e) => {
                return Err(e);
            },
        };
        let val_idx = match bytes::read_u32(ops, cursor + 4) {
            Ok(v) => v,
            Err(e) => {
                return Err(e);
            },
        };
        let key = match strings.get(key_idx) {
            Ok(s) => s,
            Err(e) => {
                return Err(e);
            },
        };
        let val = match strings.get(val_idx) {
            Ok(s) => s,
            Err(e) => {
                return Err(e);
            },
        };
        proof {
            parser::prepend_one_more(
                attr_views(attrs@),
                (key@, val@),
                model::attrs_from(ops@, strings@, cursor + 8, (attr_count - i - 1) as nat),
            );
            assert(attr_views(attrs@.push((key, val))) =~= attr_views(attrs@).push((key@, val@)));
        }
        attrs.push((key, val));
        cursor += 8;
        i += 1;
    }
    proof {
        assert(attr_views(attrs@) + Seq::<(Seq<char>, Seq<char>)>::empty() =~= attr_views(attrs@));
    }
    Ok((tag_str_idx, attrs, cursor))
}

// ---------------------------------------------------------------------------
// Island props helpers
// ---------------------------------------------------------------------------

/// Build a JSON object from the island's slot_ids, looking up names from
/// the slot table and values from the current SlotData.
fn build_island_props(module: &IrModule, slots: &SlotData, slot_ids: &[u16]) -> (res: Vec<
    (String, JsonValue),
>)
    ensures
        json::pair_trees(res@) == model::island_props(module@, slots@, slot_ids@),
{
    let mut map: Vec<(String, JsonValue)> = Vec::new();
    let mut i: usize = 0;
    proof {
        assert(json::pair_trees(map@) =~= Seq::empty());
    }
    while i < slot_ids.len()
        invariant
            i <= slot_ids@.len(),
            json::pair_trees(map@) == model::island_props(
                module@,
                slots@,
                slot_ids@.take(i as int),
            ),
        decreases slot_ids.len() - i,
    {
        let slot_id = slot_ids[i];
        proof {
            assert(slot_ids@.take(i + 1).drop_last() =~= slot_ids@.take(i as int));
        }
        if let Some(name) = slot_name(module, slot_id) {
            json::put_pair(&mut map, name.to_owned(), slots.get(slot_id).to_json());
        }
        i += 1;
    }
    proof {
        assert(slot_ids@.take(i as int) =~= slot_ids@);
    }
    map
}

/// The name of a slot, from the slot table.
fn slot_name(module: &IrModule, slot_id: u16) -> (res: Option<&str>)
    ensures
        match res {
            Some(name) => model::slot_name(module@, slot_id) == Some(name@),
            None => model::slot_name(module@, slot_id) is None,
        },
{
    let entries = module.slots.entries();
    let mut i: usize = 0;
    while i < entries.len()
        invariant
            i <= entries@.len(),
            parser::slot_views(entries@) == module@.slots,
            model::slot_position(module@.slots, slot_id, 0) == model::slot_position(
                module@.slots,
                slot_id,
                i as int,
            ),
        decreases entries.len() - i,
    {
        proof {
            assert(module@.slots[i as int] == entries@[i as int]@);
        }
        if entries[i].slot_id == slot_id {
            return match module.strings.get(entries[i].name_str_idx) {
                Ok(name) => Some(name),
                Err(_) => None,
            };
        }
        i += 1;
    }
    None
}

/// The first island with the given id.
fn find_island(module: &IrModule, id: u16) -> (res: Option<&IslandEntry>)
    ensures
        match res {
            Some(entry) => model::island_position(module@.islands, id, 0) < module@.islands.len()
                && entry@ == module@.islands[model::island_position(module@.islands, id, 0)]
                && entry.id == id,
            None => model::island_position(module@.islands, id, 0) >= module@.islands.len(),
        },
{
    let entries = module.islands.entries();
    let mut i: usize = 0;
    while i < entries.len()
        invariant
            i <= entries@.len(),
            parser::island_views(entries@) == module@.islands,
            model::island_position(module@.islands, id, 0) == model::island_position(
                module@.islands,
                id,
                i as int,
            ),
        decreases entries.len() - i,
    {
        proof {
            assert(module@.islands[i as int] == entries@[i as int]@);
        }
        if entries[i].id == id {
            return Some(&entries[i]);
        }
        i += 1;
    }
    None
}

/// Bind an island's props in the script tag's entries.
fn put_entry(entries: &mut Vec<(u16, JsonValue)>, id: u16, value: JsonValue)
    ensures
        json::entry_trees(final(entries)@) == model::with_entry(
            json::entry_trees(old(entries)@),
            id,
            value@,
        ),
{
    let ghost before = json::entry_trees(entries@);
    let ghost tree = value@;
    let mut i: usize = 0;
    while i < entries.len()
        invariant
            i <= entries@.len(),
            tree == value@,
            before == json::entry_trees(old(entries)@),
            json::entry_trees(entries@) == before,
            model::entry_position(before, id, 0) == model::entry_position(before, id, i as int),
        decreases entries.len() - i,
    {
        proof {
            assert(before[i as int].0 == entries@[i as int].0);
        }
        if entries[i].0 == id {
            entries.set(i, (id, value));
            proof {
                assert(json::entry_trees(entries@) =~= before.update(i as int, (id, tree)));
            }
            return;
        }
        i += 1;
    }
    entries.push((id, value));
    proof {
        assert(json::entry_trees(entries@) =~= before.push((id, tree)));
    }
}

/// A JSON text, or the empty object where it could not be written.
fn or_braces(words: Option<String>) -> (res: String)
    ensures
        res@ == model::or_braces(text_view(words)),
{
    match words {
        Some(words) => words,
        None => "{}".to_owned(),
    }
}

// ---------------------------------------------------------------------------
// Opcodes without a body
// ---------------------------------------------------------------------------

impl WalkState {
    fn new(slots: SlotData) -> (res: Self)
        ensures
            res@ == model::start(slots@),
    {
        let res = WalkState {
            out: String::new(),
            slots,
            list_depth: 0,
            fallback_stack: Vec::new(),
            stray: Ghost(0),
            pending_island: None,
            pending_list_key: None,
            script_tag_props: Vec::new(),
            pending_tag_close: false,
        };
        proof {
            assert(res@.out =~= Seq::empty());
            assert(res@.fallback =~= Seq::empty());
            assert(res@.script =~= Seq::empty());
        }
        res
    }

    /// Close the open tag, if there is one.
    fn flush(&mut self)
        ensures
            final(self)@ == model::flushed(old(self)@),
    {
        if self.pending_tag_close {
            self.out.push_str(">");
            self.pending_tag_close = false;
        }
    }

    /// OPEN_TAG and VOID_TAG.
    fn walk_tag(&mut self, module: &IrModule, p: usize) -> (res: Result<usize, IrError>)
        requires
            p <= module@.opcodes.len(),
        ensures
            told(
                res,
                model::tag_effect(module@, old(self)@, p as int),
                old(self)@,
                final(self)@,
                model::after(module@, old(self)@, Opcode::OpenTag, p as int),
            ),
    {
        let ops = module.opcodes.as_slice();
        let (tag_str_idx, attrs, next) = match read_tag_with_attrs(ops, p, &module.strings) {
            Ok(parts) => parts,
            Err(e) => {
                return Err(e);
            },
        };
        let tag = match module.strings.get(tag_str_idx) {
            Ok(s) => s,
            Err(e) => {
                return Err(e);
            },
        };
        self.out.push_str("<");
        self.out.push_str(tag);
        push_attrs(&mut self.out, &attrs);
        // Inject pending island attributes
        push_island(&mut self.out, &self.pending_island);
        // Inject pending list-item key
        push_key(&mut self.out, &self.pending_list_key);
        self.pending_island = None;
        self.pending_list_key = None;
        // Don't close the tag yet: DYN_ATTR opcodes may follow.
        self.pending_tag_close = true;
        Ok(next)
    }

    /// CLOSE_TAG: str_idx(u32).
    fn walk_close_tag(&mut self, module: &IrModule, p: usize) -> (res: Result<usize, IrError>)
        requires
            p <= module@.opcodes.len(),
        ensures
            told(
                res,
                model::close_tag_effect(module@, old(self)@, p as int),
                old(self)@,
                final(self)@,
                model::after(module@, old(self)@, Opcode::CloseTag, p as int),
            ),
    {
        let ops = module.opcodes.as_slice();
        let str_idx = match bytes::read_u32(ops, p) {
            Ok(v) => v,
            Err(e) => {
                return Err(e);
            },
        };
        let tag = match module.strings.get(str_idx) {
            Ok(s) => s,
            Err(e) => {
                return Err(e);
            },
        };
        let ghost before = self.out@;
        self.out.push_str("</");
        self.out.push_str(tag);
        self.out.push_str(">");
        proof {
            assert(self.out@ =~= before + ("</"@ + tag@ + ">"@));
        }
        Ok(p + 4)
    }

    /// TEXT: str_idx(u32).
    fn walk_text(&mut self, module: &IrModule, p: usize) -> (res: Result<usize, IrError>)
        requires
            p <= module@.opcodes.len(),
        ensures
            told(
                res,
                model::text_effect(module@, old(self)@, p as int),
                old(self)@,
                final(self)@,
                model::after(module@, old(self)@, Opcode::Text, p as int),
            ),
    {
        let ops = module.opcodes.as_slice();
        let str_idx = match bytes::read_u32(ops, p) {
            Ok(v) => v,
            Err(e) => {
                return Err(e);
            },
        };
        let words = match module.strings.get(str_idx) {
            Ok(s) => s,
            Err(e) => {
                return Err(e);
            },
        };
        text::push_escaped_html(&mut self.out, words);
        Ok(p + 4)
    }

    /// DYN_TEXT: slot_id(u16) + marker_id(u16).
    fn walk_dyn_text(&mut self, module: &IrModule, p: usize) -> (res: Result<usize, IrError>)
        requires
            p <= module@.opcodes.len(),
        ensures
            told(
                res,
                model::dyn_text_effect(module@, old(self)@, p as int),
                old(self)@,
                final(self)@,
                model::after(module@, old(self)@, Opcode::DynText, p as int),
            ),
    {
        let ops = module.opcodes.as_slice();
        let slot_id = match bytes::read_u16(ops, p) {
            Ok(v) => v,
            Err(e) => {
                return Err(e);
            },
        };
        let marker_id = match bytes::read_u16(ops, p + 2) {
            Ok(v) => v,
            Err(e) => {
                return Err(e);
            },
        };
        let value = self.slots.get(slot_id).to_text();
        let ghost before = self.out@;
        push_marker(&mut self.out, "<!--f:t", marker_id);
        if value.as_str().is_empty() {
            // Always emit at least a zero-width space so the browser creates a
            // Text node between the markers. Without this, <!--f:t0--><!--/f:t0-->
            // produces no Text node in the DOM and the hydration walker has
            // nothing to bind the reactive effect to.
            self.out.push('\u{200B}');
        } else {
            text::push_escaped_html(&mut self.out, value.as_str());
        }
        push_marker(&mut self.out, "<!--/f:t", marker_id);
        proof {
            assert(self.out@ =~= before + model::dyn_text_html(
                slot::slot_at(old(self)@.slots, slot_id),
                marker_id,
            ));
        }
        Ok(p + 4)
    }

    /// DYN_ATTR: attr_str_idx(u32) + slot_id(u16).
    fn walk_dyn_attr(&mut self, module: &IrModule, p: usize) -> (res: Result<usize, IrError>)
        requires
            p <= module@.opcodes.len(),
        ensures
            told(
                res,
                model::dyn_attr_effect(module@, old(self)@, p as int),
                old(self)@,
                final(self)@,
                model::after(module@, old(self)@, Opcode::DynAttr, p as int),
            ),
    {
        let ops = module.opcodes.as_slice();
        let attr_str_idx = match bytes::read_u32(ops, p) {
            Ok(v) => v,
            Err(e) => {
                return Err(e);
            },
        };
        let slot_id = match bytes::read_u16(ops, p + 4) {
            Ok(v) => v,
            Err(e) => {
                return Err(e);
            },
        };
        if self.pending_tag_close {
            let attr_name = match module.strings.get(attr_str_idx) {
                Ok(s) => s,
                Err(e) => {
                    return Err(e);
                },
            };
            let value = self.slots.get(slot_id).to_text();
            if !value.as_str().is_empty() {
                push_attr(&mut self.out, attr_name, value.as_str());
            }
        }
        // If not inside a tag opening (shouldn't happen in well-formed IR), skip silently.
        Ok(p + 6)
    }

    /// ISLAND_START: island_id(u16).
    fn walk_island_start(&mut self, module: &IrModule, p: usize) -> (res: Result<usize, IrError>)
        requires
            p <= module@.opcodes.len(),
        ensures
            told(
                res,
                model::island_start_effect(module@, old(self)@, p as int),
                old(self)@,
                final(self)@,
                model::after(module@, old(self)@, Opcode::IslandStart, p as int),
            ),
    {
        let ops = module.opcodes.as_slice();
        let island_id = match bytes::read_u16(ops, p) {
            Ok(v) => v,
            Err(e) => {
                return Err(e);
            },
        };
        push_marker(&mut self.out, "<!--f:i", island_id);
        // Look up island entry from the island table by matching id
        if let Some(entry) = find_island(module, island_id) {
            let component_name = match module.strings.get(entry.name_str_idx) {
                Ok(s) => s.to_owned(),
                Err(e) => {
                    return Err(e);
                },
            };
            // Build props JSON from the island's slot_ids
            let mut inline_props: Option<String> = None;
            if entry.slot_ids.len() > 0 && entry.props_mode != PropsMode::Deferred {
                let props = build_island_props(module, &self.slots, entry.slot_ids.as_slice());
                proof {
                    json::object_tree(props);
                }
                let props = JsonValue::Object(props);
                if entry.props_mode == PropsMode::Inline {
                    inline_props = Some(or_braces(json::write_json(&props)));
                } else {
                    // Accumulate for script tag emission after walk
                    put_entry(&mut self.script_tag_props, island_id, props);
                }
            }
            self.pending_island = Some(
                IslandPending {
                    id: island_id,
                    component_name,
                    inline_props,
                    trigger: entry.trigger,
                },
            );
        }
        Ok(p + 2)
    }

    /// ISLAND_END: island_id(u16).
    fn walk_island_end(&mut self, module: &IrModule, p: usize) -> (res: Result<usize, IrError>)
        requires
            p <= module@.opcodes.len(),
        ensures
            told(
                res,
                model::island_end_effect(module@, old(self)@, p as int),
                old(self)@,
                final(self)@,
                model::after(module@, old(self)@, Opcode::IslandEnd, p as int),
            ),
    {
        let ops = module.opcodes.as_slice();
        let island_id = match bytes::read_u16(ops, p) {
            Ok(v) => v,
            Err(e) => {
                return Err(e);
            },
        };
        push_marker(&mut self.out, "<!--/f:i", island_id);
        Ok(p + 2)
    }

    /// COMMENT: str_idx(u32).
    fn walk_comment(&mut self, module: &IrModule, p: usize) -> (res: Result<usize, IrError>)
        requires
            p <= module@.opcodes.len(),
        ensures
            told(
                res,
                model::comment_effect(module@, old(self)@, p as int),
                old(self)@,
                final(self)@,
                model::after(module@, old(self)@, Opcode::Comment, p as int),
            ),
    {
        let ops = module.opcodes.as_slice();
        let str_idx = match bytes::read_u32(ops, p) {
            Ok(v) => v,
            Err(e) => {
                return Err(e);
            },
        };
        let words = match module.strings.get(str_idx) {
            Ok(s) => s,
            Err(e) => {
                return Err(e);
            },
        };
        let ghost before = self.out@;
        self.out.push_str("<!--");
        text::push_pair_replaced(&mut self.out, words, '-', '-', "&#45;&#45;");
        self.out.push_str("-->");
        proof {
            assert(self.out@ =~= before + ("<!--"@ + text::pair_replaced(
                words@,
                '-',
                '-',
                "&#45;&#45;"@,
            ) + "-->"@));
        }
        Ok(p + 4)
    }

    /// TRY_START: fallback_len(u32).
    fn walk_try_start(&mut self, module: &IrModule, p: usize) -> (res: Result<usize, IrError>)
        requires
            p <= module@.opcodes.len(),
        ensures
            told(
                res,
                model::try_start_effect(module@, old(self)@, p as int),
                old(self)@,
                final(self)@,
                model::after(module@, old(self)@, Opcode::TryStart, p as int),
            ),
    {
        let ops = module.opcodes.as_slice();
        let fallback_len = match bytes::read_u32(ops, p) {
            Ok(v) => v,
            Err(e) => {
                return Err(e);
            },
        };
        // Push fallback_len so FALLBACK knows how many bytes to skip.
        // Main body follows inline and is walked by the outer loop.
        self.fallback_stack.push(fallback_len as usize);
        Ok(p + 4)
    }

    /// FALLBACK: always render the main body, skip the fallback.
    fn walk_fallback(&mut self, module: &IrModule, p: usize) -> (res: usize)
        ensures
            final(self)@ == model::fallback_effect(old(self)@),
            res == model::after(module@, old(self)@, Opcode::Fallback, p as int),
    {
        // Pop the fallback_len pushed by the preceding TRY_START.
        match self.fallback_stack.pop() {
            Some(skip) => p.saturating_add(skip),
            None => {
                proof {
                    self.stray@ = self.stray@ + 1;
                }
                p
            },
        }
    }

    /// PRELOAD: resource_type(u8) + url_str_idx(u32).
    fn walk_preload(&mut self, module: &IrModule, p: usize) -> (res: Result<usize, IrError>)
        requires
            p <= module@.opcodes.len(),
        ensures
            told(
                res,
                model::preload_effect(module@, old(self)@, p as int),
                old(self)@,
                final(self)@,
                model::after(module@, old(self)@, Opcode::Preload, p as int),
            ),
    {
        let ops = module.opcodes.as_slice();
        if p >= ops.len() {
            return Err(
                IrError::BufferTooShort { expected: p.saturating_add(1), actual: ops.len() },
            );
        }
        let resource_type = ops[p];
        let url_str_idx = match bytes::read_u32(ops, p + 1) {
            Ok(v) => v,
            Err(e) => {
                return Err(e);
            },
        };
        let url = match module.strings.get(url_str_idx) {
            Ok(s) => s,
            Err(e) => {
                return Err(e);
            },
        };
        let (as_val, type_attr) = match resource_type {
            1 => ("font", " type=\"font/woff2\" crossorigin"),
            2 => ("style", ""),
            3 => ("script", ""),
            4 => ("image", ""),
            _ => ("fetch", ""),
        };
        let ghost before = self.out@;
        self.out.push_str("<link rel=\"preload\" href=\"");
        text::push_escaped_attr(&mut self.out, url);
        self.out.push_str("\" as=\"");
        self.out.push_str(as_val);
        self.out.push_str("\"");
        self.out.push_str(type_attr);
        self.out.push_str(">\n");
        proof {
            assert(self.out@ =~= before + ("<link rel=\"preload\" href=\""@ + text::escaped_attr(
                url@,
            ) + "\" as=\""@ + as_val@ + "\""@ + type_attr@ + ">\n"@));
        }
        Ok(p + 5)
    }

    /// LIST_ITEM_KEY: key_str_idx(u32).
    fn walk_list_item_key(&mut self, module: &IrModule, p: usize) -> (res: Result<usize, IrError>)
        requires
            p <= module@.opcodes.len(),
        ensures
            told(
                res,
                model::list_item_key_effect(module@, old(self)@, p as int),
                old(self)@,
                final(self)@,
                model::after(module@, old(self)@, Opcode::ListItemKey, p as int),
            ),
    {
        let ops = module.opcodes.as_slice();
        let key_str_idx = match bytes::read_u32(ops, p) {
            Ok(v) => v,
            Err(e) => {
                return Err(e);
            },
        };
        let key_val = match module.strings.get(key_str_idx) {
            Ok(s) => s,
            Err(e) => {
                return Err(e);
            },
        };
        self.pending_list_key = Some(key_val.to_owned());
        Ok(p + 4)
    }

    /// PROP: src_slot_id(u16) + prop_str_idx(u32) + target_slot_id(u16).
    fn walk_prop(&mut self, module: &IrModule, p: usize) -> (res: Result<usize, IrError>)
        requires
            p <= module@.opcodes.len(),
        ensures
            told(
                res,
                model::prop_effect(module@, old(self)@, p as int),
                old(self)@,
                final(self)@,
                model::after(module@, old(self)@, Opcode::Prop, p as int),
            ),
    {
        let ops = module.opcodes.as_slice();
        let src_slot_id = match bytes::read_u16(ops, p) {
            Ok(v) => v,
            Err(e) => {
                return Err(e);
            },
        };
        let prop_str_idx = match bytes::read_u32(ops, p + 2) {
            Ok(v) => v,
            Err(e) => {
                return Err(e);
            },
        };
        let target_slot_id = match bytes::read_u16(ops, p + 6) {
            Ok(v) => v,
            Err(e) => {
                return Err(e);
            },
        };
        let prop_name = match module.strings.get(prop_str_idx) {
            Ok(s) => s,
            Err(e) => {
                return Err(e);
            },
        };
        let value = self.slots.get(src_slot_id).get_property(prop_name);
        // Set in place: PROP is used inside LIST bodies, where the slots are
        // already a shadow copy (cloned per iteration).
        self.slots.set(target_slot_id, value);
        Ok(p + 8)
    }
}

// ---------------------------------------------------------------------------
// Control flow
// ---------------------------------------------------------------------------

/// Walk one opcode whose operands start at `p`. Returns the position behind it.
fn walk_opcode(
    module: &IrModule,
    state: &mut WalkState,
    opcode: Opcode,
    p: usize,
    depth: usize,
) -> (res: Result<usize, IrError>)
    requires
        p <= module@.opcodes.len() <= usize::MAX,
        depth <= MAX_RECURSION_DEPTH,
    ensures
        told(
            res,
            model::effect(module@, old(state)@, opcode, p as int, depth as int),
            old(state)@,
            final(state)@,
            model::after(module@, old(state)@, opcode, p as int),
        ),
    decreases MAX_RECURSION_DEPTH + 1 - depth, 1int,
{
    match opcode {
        Opcode::OpenTag => state.walk_tag(module, p),
        Opcode::VoidTag => state.walk_tag(module, p),
        Opcode::CloseTag => state.walk_close_tag(module, p),
        Opcode::Text => state.walk_text(module, p),
        Opcode::DynText => state.walk_dyn_text(module, p),
        Opcode::DynAttr => state.walk_dyn_attr(module, p),
        Opcode::IslandStart => state.walk_island_start(module, p),
        Opcode::IslandEnd => state.walk_island_end(module, p),
        Opcode::Comment => state.walk_comment(module, p),
        Opcode::TryStart => state.walk_try_start(module, p),
        Opcode::Preload => state.walk_preload(module, p),
        Opcode::ListItemKey => state.walk_list_item_key(module, p),
        Opcode::Prop => state.walk_prop(module, p),
        Opcode::Fallback => Ok(state.walk_fallback(module, p)),
        // SHOW_ELSE should never be reached during normal walking: it is
        // skipped over by the SHOW_IF handler. If it is reached, the opcode
        // stream is malformed, which is tolerated by doing nothing.
        Opcode::ShowElse => Ok(p),
        Opcode::ShowIf => walk_show_if(module, state, p, depth),
        Opcode::Switch => walk_switch(module, state, p, depth),
        Opcode::List => walk_list(module, state, p, depth),
    }
}

/// SHOW_IF: slot_id(2) + then_len(4) + else_len(4), then branch, SHOW_ELSE
/// marker, else branch.
fn walk_show_if(module: &IrModule, state: &mut WalkState, p: usize, depth: usize) -> (res: Result<
    usize,
    IrError,
>)
    requires
        p <= module@.opcodes.len() <= usize::MAX,
        depth <= MAX_RECURSION_DEPTH,
    ensures
        told(
            res,
            model::show_if_effect(module@, old(state)@, p as int, depth as int),
            old(state)@,
            final(state)@,
            model::after(module@, old(state)@, Opcode::ShowIf, p as int),
        ),
    decreases MAX_RECURSION_DEPTH + 1 - depth, 0int,
{
    let ops = module.opcodes.as_slice();
    let slot_id = match bytes::read_u16(ops, p) {
        Ok(v) => v,
        Err(e) => {
            return Err(e);
        },
    };
    let then_len = match bytes::read_u32(ops, p + 2) {
        Ok(v) => v,
        Err(e) => {
            return Err(e);
        },
    };
    let else_len = match bytes::read_u32(ops, p + 6) {
        Ok(v) => v,
        Err(e) => {
            return Err(e);
        },
    };
    let condition = state.slots.get(slot_id).as_bool();
    let then_start = p + 10;
    let then_end = then_start.saturating_add(then_len as usize);
    // After then body: 1 byte for SHOW_ELSE marker
    let else_start = then_end.saturating_add(1);
    let else_end = else_start.saturating_add(else_len as usize);
    // Emit conditional marker
    push_marker(&mut state.out, "<!--f:s", slot_id);
    let body = if condition {
        walk_range(module, state, then_start, then_end, depth + 1)
    } else {
        walk_range(module, state, else_start, else_end, depth + 1)
    };
    match body {
        Ok(()) => {},
        Err(e) => {
            return Err(e);
        },
    }
    push_marker(&mut state.out, "<!--/f:s", slot_id);
    // Past both branches + SHOW_ELSE marker byte
    Ok(else_end)
}

/// What a run of case headers holds.
spec fn case_views(cases: Seq<(u32, usize)>) -> Seq<(u32, u32)> {
    Seq::new(cases.len(), |i: int| (cases[i].0, cases[i].1 as u32))
}

/// Read case headers: `[val_str_idx(4) + body_len(4)] x count`.
fn read_cases(ops: &[u8], at: usize, count: u16) -> (res: Result<Vec<(u32, usize)>, IrError>)
    requires
        at <= ops@.len(),
    ensures
        match res {
            Ok(cases) => model::cases_from(ops@, at as int, count as nat) == Ok::<
                Seq<(u32, u32)>,
                ErrorView,
            >(case_views(cases@)) && cases@.len() == count && at + 8 * count <= ops@.len() && (
            forall|k: int| 0 <= k < cases@.len() ==> (#[trigger] cases@[k]).1 <= u32::MAX),
            Err(e) => model::cases_from(ops@, at as int, count as nat) == Err::<
                Seq<(u32, u32)>,
                ErrorView,
            >(e@),
        },
{
    let mut cases: Vec<(u32, usize)> = Vec::with_capacity(count as usize);
    let mut pos: usize = at;
    let mut i: u16 = 0;
    proof {
        parser::prepend_nothing(model::cases_from(ops@, at as int, count as nat));
        assert(case_views(cases@) =~= Seq::empty());
    }
    while i < count
        invariant
            i <= count,
            cases@.len() == i,
            pos == at + 8 * i,
            pos <= ops@.len(),
            forall|k: int| 0 <= k < cases@.len() ==> (#[trigger] cases@[k]).1 <= u32::MAX,
            model::cases_from(ops@, at as int, count as nat) == parser::prepended(
                case_views(cases@),
                model::cases_from(ops@, pos as int, (count - i) as nat),
            ),
        decreases count - i,
    {
        let val_str_idx = match bytes::read_u32(ops, pos) {
            Ok(v) => v,
            Err(e) => {
                return Err(e);
            },
        };
        let body_len = match bytes::read_u32(ops, pos + 4) {
            Ok(v) => v,
            Err(e) => {
                return Err(e);
            },
        };
        proof {
            parser::prepend_one_more(
                case_views(cases@),
                (val_str_idx, body_len),
                model::cases_from(ops@, pos + 8, (count - i - 1) as nat),
            );
            assert(case_views(cases@.push((val_str_idx, body_len as usize))) =~= case_views(
                cases@,
            ).push((val_str_idx, body_len)));
        }
        cases.push((val_str_idx, body_len as usize));
        pos += 8;
        i += 1;
    }
    proof {
        assert(case_views(cases@) + Seq::<(u32, u32)>::empty() =~= case_views(cases@));
    }
    Ok(cases)
}

/// SWITCH: slot_id(2) + case_count(2), case headers, case bodies.
fn walk_switch(module: &IrModule, state: &mut WalkState, p: usize, depth: usize) -> (res: Result<
    usize,
    IrError,
>)
    requires
        p <= module@.opcodes.len() <= usize::MAX,
        depth <= MAX_RECURSION_DEPTH,
    ensures
        told(
            res,
            model::switch_effect(module@, old(state)@, p as int, depth as int),
            old(state)@,
            final(state)@,
            model::after(module@, old(state)@, Opcode::Switch, p as int),
        ),
    decreases MAX_RECURSION_DEPTH + 1 - depth, 0int,
{
    let ops = module.opcodes.as_slice();
    let slot_id = match bytes::read_u16(ops, p) {
        Ok(v) => v,
        Err(e) => {
            return Err(e);
        },
    };
    let case_count = match bytes::read_u16(ops, p + 2) {
        Ok(v) => v,
        Err(e) => {
            return Err(e);
        },
    };
    let cases = match read_cases(ops, p + 4, case_count) {
        Ok(cases) => cases,
        Err(e) => {
            return Err(e);
        },
    };
    let ghost heads = case_views(cases@);
    let ghost from = p + 4 + 8 * case_count;
    let slot_text = state.slots.get(slot_id).to_text();
    // The first case body starts behind the case headers.
    let mut body_pos: usize = p + 4 + 8 * case_count as usize;
    let ghost owed = model::switch_effect(module@, state@, p as int, depth as int);
    let mut i: usize = 0;
    while i < cases.len()
        invariant
            i <= cases@.len(),
            heads == case_views(cases@),
            forall|k: int| 0 <= k < cases@.len() ==> (#[trigger] cases@[k]).1 <= u32::MAX,
            module@.opcodes.len() <= usize::MAX,
            depth <= MAX_RECURSION_DEPTH,
            body_pos == model::bodies_end(heads, from, i as nat),
            appended(old(state)@, state@),
            owed == model::switch_effect(module@, old(state)@, p as int, depth as int),
            owed == model::walk_cases(
                module@,
                state@,
                heads,
                from,
                i as int,
                slot_text@,
                depth + 1,
            ),
        decreases cases.len() - i,
    {
        let case = &cases[i];
        let body_end = body_pos.saturating_add(case.1);
        proof {
            assert(heads[i as int] == (case.0, case.1 as u32));
        }
        let case_val = match module.strings.get(case.0) {
            Ok(s) => s,
            Err(e) => {
                return Err(e);
            },
        };
        if text::same_text(case_val, slot_text.as_str()) {
            match walk_range(module, state, body_pos, body_end, depth + 1) {
                Ok(()) => {},
                Err(e) => {
                    return Err(e);
                },
            }
        }
        body_pos = body_end;
        i += 1;
    }
    Ok(body_pos)  // past all case bodies

}

/// LIST: slot_id(2) + item_slot_id(2) + body_len(4), then the body.
fn walk_list(module: &IrModule, state: &mut WalkState, p: usize, depth: usize) -> (res: Result<
    usize,
    IrError,
>)
    requires
        p <= module@.opcodes.len() <= usize::MAX,
        depth <= MAX_RECURSION_DEPTH,
    ensures
        told(
            res,
            model::list_effect(module@, old(state)@, p as int, depth as int),
            old(state)@,
            final(state)@,
            model::after(module@, old(state)@, Opcode::List, p as int),
        ),
    decreases MAX_RECURSION_DEPTH + 1 - depth, 0int,
{
    let ops = module.opcodes.as_slice();
    let slot_id = match bytes::read_u16(ops, p) {
        Ok(v) => v,
        Err(e) => {
            return Err(e);
        },
    };
    let item_slot_id = match bytes::read_u16(ops, p + 2) {
        Ok(v) => v,
        Err(e) => {
            return Err(e);
        },
    };
    let body_len = match bytes::read_u32(ops, p + 4) {
        Ok(v) => v,
        Err(e) => {
            return Err(e);
        },
    };
    let body_start = p + 8;
    let body_end = body_start.saturating_add(body_len as usize);
    // Emit list markers
    push_marker(&mut state.out, "<!--f:l", slot_id);
    let has_items = match state.slots.get(slot_id).as_array() {
        Some(items) => items.len() > 0,
        None => false,
    };
    if has_items {
        let outer_depth = state.list_depth;
        if outer_depth >= MAX_LIST_DEPTH {
            return Err(IrError::ListDepthExceeded { max: MAX_LIST_DEPTH });
        }
        state.list_depth = outer_depth + 1;
        let slots = state.slots.clone();
        match walk_items(
            module,
            state,
            &slots,
            slot_id,
            item_slot_id,
            body_start,
            body_end,
            depth + 1,
        ) {
            Ok(()) => {},
            Err(e) => {
                return Err(e);
            },
        }
        state.slots = slots;
        state.list_depth = outer_depth;
    }
    push_marker(&mut state.out, "<!--/f:l", slot_id);
    Ok(body_end)
}

/// Walk a list's body once for each item of the array in slot `slot_id`, over
/// a copy of `slots` in which slot `item_slot_id` holds the item.
fn walk_items(
    module: &IrModule,
    state: &mut WalkState,
    slots: &SlotData,
    slot_id: u16,
    item_slot_id: u16,
    body_start: usize,
    body_end: usize,
    depth: usize,
) -> (res: Result<(), IrError>)
    requires
        module@.opcodes.len() <= usize::MAX,
        depth <= MAX_RECURSION_DEPTH + 1,
        slot::slot_at(slots@, slot_id) is Array,
    ensures
        walked(
            res,
            model::walk_items(
                module@,
                old(state)@,
                slots@,
                item_slot_id,
                slot::slot_at(slots@, slot_id)->Array_0,
                0,
                body_start as int,
                body_end as int,
                depth as int,
            ),
            old(state)@,
            final(state)@,
        ),
    decreases MAX_RECURSION_DEPTH + 1 - depth, 3int,
{
    let items = match slots.get(slot_id).as_array() {
        Some(items) => items,
        None => {
            return Ok(());
        },
    };
    let ghost trees = slot::slot_at(slots@, slot_id)->Array_0;
    let mut i: usize = 0;
    while i < items.len()
        invariant
            i <= items@.len(),
            trees == slot::slot_at(slots@, slot_id)->Array_0,
            trees == slot::slot_trees(items@),
            module@.opcodes.len() <= usize::MAX,
            depth <= MAX_RECURSION_DEPTH + 1,
            appended(old(state)@, state@),
            model::walk_items(
                module@,
                old(state)@,
                slots@,
                item_slot_id,
                trees,
                0,
                body_start as int,
                body_end as int,
                depth as int,
            ) == model::walk_items(
                module@,
                state@,
                slots@,
                item_slot_id,
                trees,
                i as int,
                body_start as int,
                body_end as int,
                depth as int,
            ),
        decreases items.len() - i,
    {
        let mut shadow_slots = slots.clone();
        shadow_slots.set(item_slot_id, items[i].clone());
        state.slots = shadow_slots;
        match walk_range(module, state, body_start, body_end, depth) {
            Ok(()) => {},
            Err(e) => {
                return Err(e);
            },
        }
        i += 1;
    }
    Ok(())
}

spec fn left_to(pos: usize, end: usize) -> nat {
    if pos < end {
        (end - pos) as nat
    } else {
        0
    }
}

/// Walk a sub-range of the opcode stream `start..end`, appending HTML to the
/// state's output.
///
/// This is structured as a sub-range function so that control-flow opcodes
/// (ShowIf, List, Switch) can recurse into their body ranges.
fn walk_range(
    module: &IrModule,
    state: &mut WalkState,
    start: usize,
    end: usize,
    depth: usize,
) -> (res: Result<(), IrError>)
    requires
        module@.opcodes.len() <= usize::MAX,
        depth <= MAX_RECURSION_DEPTH + 1,
    ensures
        walked(
            res,
            model::run(module@, Stop::At(end as int), old(state)@, start as int, depth as int),
            old(state)@,
            final(state)@,
        ),
    decreases MAX_RECURSION_DEPTH + 1 - depth, 2int,
{
    if depth > MAX_RECURSION_DEPTH {
        return Err(IrError::RecursionLimitExceeded);
    }
    let ops = module.opcodes.as_slice();
    let mut pos: usize = start;
    while pos < end
        invariant
            ops@ == module@.opcodes,
            module@.opcodes.len() <= usize::MAX,
            depth <= MAX_RECURSION_DEPTH,
            appended(old(state)@, state@),
            model::run(module@, Stop::At(end as int), old(state)@, start as int, depth as int)
                == model::run(module@, Stop::At(end as int), state@, pos as int, depth as int),
        decreases left_to(pos, end),
    {
        if pos >= ops.len() {
            return Err(
                IrError::BufferTooShort { expected: pos.saturating_add(1), actual: ops.len() },
            );
        }
        let opcode = match Opcode::from_byte(ops[pos]) {
            Ok(opcode) => opcode,
            Err(e) => {
                return Err(e);
            },
        };
        // Flush pending tag close before any opcode that is NOT DYN_ATTR.
        // DYN_ATTR needs the tag still open so it can append attributes.
        if opcode != Opcode::DynAttr {
            state.flush();
        }
        proof {
            model::after_is_behind(module@, state@, opcode, pos + 1);
        }
        match walk_opcode(module, state, opcode, pos + 1, depth) {
            Ok(next) => {
                pos = next;
            },
            Err(e) => {
                return Err(e);
            },
        }
    }
    // Flush any pending tag close at the end of the opcode range.
    state.flush();
    Ok(())
}

/// The first ISLAND_END with the given id that a walk from `pos` on comes to stands
/// at `q`.
spec fn first_end_at(
    m: parser::ModuleView,
    id: u16,
    s: WalkView,
    pos: int,
    q: int,
    depth: int,
) -> bool {
    laws::island_end_at(m, id, q) && laws::comes_to(m, id, s, pos, q, depth)
}

/// A walk from `pos` on comes to the end of the stream before it comes to an
/// ISLAND_END with the given id.
spec fn end_is_missing(m: parser::ModuleView, id: u16, s: WalkView, pos: int, depth: int) -> bool {
    let len = m.opcodes.len() as int;
    &&& depth <= MAX_RECURSION_DEPTH
    &&& laws::comes_to(m, id, s, pos, len, depth)
    &&& model::run(m, Stop::At(len), s, pos, depth) is Ok
}

/// Walk the opcode stream starting at `start` until we encounter an ISLAND_END
/// with the matching `target_island_id`.
///
/// This is used by `walk_island()` to render just one island's content.
/// It shares the same opcode interpretation as `walk_range` but has a different
/// termination condition: it stops at ISLAND_END instead of a fixed end position.
/// Where the first matching ISLAND_END stands at `q`, it does what `walk_range`
/// up to `q` does; where there is none, the island is not found.
fn walk_range_until_island_end(
    module: &IrModule,
    state: &mut WalkState,
    start: usize,
    target_island_id: u16,
    depth: usize,
) -> (res: Result<(), IrError>)
    requires
        module@.opcodes.len() <= usize::MAX,
    ensures
        walked(
            res,
            model::run(
                module@,
                Stop::IslandEnd(target_island_id),
                old(state)@,
                start as int,
                depth as int,
            ),
            old(state)@,
            final(state)@,
        ),
        forall|q: int| #[trigger]
            first_end_at(module@, target_island_id, old(state)@, start as int, q, depth as int)
                ==> walked(
                res,
                model::run(module@, Stop::At(q), old(state)@, start as int, depth as int),
                old(state)@,
                final(state)@,
            ),
        end_is_missing(module@, target_island_id, old(state)@, start as int, depth as int) ==> (
        res matches Err(e) && e@ == ErrorView::IslandNotFound(target_island_id)),
{
    let ghost before = state@;
    proof {
        assert forall|q: int| #[trigger]
            first_end_at(module@, target_island_id, before, start as int, q, depth as int)
            implies model::run(
            module@,
            Stop::IslandEnd(target_island_id),
            before,
            start as int,
            depth as int,
        ) == model::run(module@, Stop::At(q), before, start as int, depth as int) by {
            laws::walk_stops_at_island_end(
                module@,
                target_island_id,
                before,
                start as int,
                q,
                depth as int,
            );
        }
        if end_is_missing(module@, target_island_id, before, start as int, depth as int) {
            laws::missing_island_end_is_reported(
                module@,
                target_island_id,
                before,
                start as int,
                depth as int,
            );
        }
    }
    if depth > MAX_RECURSION_DEPTH {
        return Err(IrError::RecursionLimitExceeded);
    }
    let ops = module.opcodes.as_slice();
    let ghost stop = Stop::IslandEnd(target_island_id);
    let mut pos: usize = start;
    while pos < ops.len()
        invariant
            ops@ == module@.opcodes,
            module@.opcodes.len() <= usize::MAX,
            depth <= MAX_RECURSION_DEPTH,
            stop == Stop::IslandEnd(target_island_id),
            before == old(state)@,
            forall|q: int| #[trigger]
                first_end_at(module@, target_island_id, before, start as int, q, depth as int)
                    ==> model::run(module@, stop, before, start as int, depth as int)
                    == model::run(module@, Stop::At(q), before, start as int, depth as int),
            end_is_missing(module@, target_island_id, before, start as int, depth as int)
                ==> model::run(module@, stop, before, start as int, depth as int) == Err::<
                WalkView,
                ErrorView,
            >(ErrorView::IslandNotFound(target_island_id)),
            appended(old(state)@, state@),
            model::run(module@, stop, old(state)@, start as int, depth as int) == model::run(
                module@,
                stop,
                state@,
                pos as int,
                depth as int,
            ),
        decreases model::bytes_left(ops@, pos as int),
    {
        let opcode = match Opcode::from_byte(ops[pos]) {
            Ok(opcode) => opcode,
            Err(e) => {
                return Err(e);
            },
        };
        // Flush pending tag close before any opcode that is NOT DYN_ATTR.
        if opcode != Opcode::DynAttr {
            state.flush();
        }
        if opcode == Opcode::IslandEnd {
            let island_id = match bytes::read_u16(ops, pos + 1) {
                Ok(v) => v,
                Err(e) => {
                    proof {
                        assert(model::effect(module@, state@, opcode, pos + 1, depth as int)
                            == Err::<WalkView, ErrorView>(e@));
                    }
                    return Err(e);
                },
            };
            if island_id == target_island_id {
                // We've reached the end of our target island.
                return Ok(());
            }
        }
        proof {
            model::after_is_behind(module@, state@, opcode, pos + 1);
        }
        match walk_opcode(module, state, opcode, pos + 1, depth) {
            Ok(next) => {
                pos = next;
            },
            Err(e) => {
                return Err(e);
            },
        }
    }
    // If we reach the end of the opcode stream without finding ISLAND_END,
    // that means the IR is malformed.
    Err(IrError::IslandNotFound(target_island_id))
}

// ---------------------------------------------------------------------------
// Public API
// ---------------------------------------------------------------------------

/// Walk the IR opcode stream and produce an HTML string.
///
/// This is the main entry point for SSR rendering. It processes every opcode
/// in the module's bytecode section, looking up strings in the string table
/// and slot values in `slots`.
pub fn walk_to_html(module: &IrModule, slots: &SlotData) -> (res: Result<String, IrError>)
    ensures
        match res {
            Ok(html) => model::html_of(module@, slots@) == Ok::<Seq<char>, ErrorView>(html@),
            Err(e) => model::html_of(module@, slots@) == Err::<Seq<char>, ErrorView>(e@),
        },
{
    let len = module.opcodes.len();
    let mut state = WalkState::new(slots.clone());
    match walk_range(module, &mut state, 0, len, 0) {
        Ok(()) => {},
        Err(e) => {
            return Err(e);
        },
    }
    // Emit script tag for ScriptTag props mode islands
    let ghost end = state@;
    let mut out = state.out;
    if state.script_tag_props.len() > 0 {
        let json = or_braces(json::write_json_map(&state.script_tag_props));
        push_json_script(&mut out, json.as_str());
    }
    proof {
        assert(out@ =~= end.out + model::script_html(end.script));
    }
    Ok(out)
}

/// Walk a single island's content and produce an HTML string.
///
/// This is the fragment rendering entry point for WASM re-renders. It finds
/// the island by `island_id` in the module's island table, seeks to its
/// `byte_offset` in the opcode stream, and walks from after the ISLAND_START
/// opcode until the matching ISLAND_END opcode.
///
/// Returns all content between ISLAND_START and ISLAND_END, including the
/// island root element. The client can use `outerHTML` or strip the wrapper
/// as needed.
pub fn walk_island(module: &IrModule, slots: &SlotData, island_id: u16) -> (res: Result<
    String,
    IrError,
>)
    ensures
        match res {
            Ok(html) => model::island_html_of(module@, slots@, island_id) == Ok::<
                Seq<char>,
                ErrorView,
            >(html@),
            Err(e) => model::island_html_of(module@, slots@, island_id) == Err::<
                Seq<char>,
                ErrorView,
            >(e@),
        },
{
    // 1. Find the island entry by id
    let byte_offset = match find_island(module, island_id) {
        Some(entry) => entry.byte_offset as usize,
        None => {
            return Err(IrError::IslandNotFound(island_id));
        },
    };
    let ops = module.opcodes.as_slice();
    // 2. Validate byte_offset is in bounds
    if byte_offset >= ops.len() {
        return Err(
            IrError::BufferTooShort { expected: byte_offset.saturating_add(1), actual: ops.len() },
        );
    }
    // 3. Verify we're at an ISLAND_START opcode

    let opcode = match Opcode::from_byte(ops[byte_offset]) {
        Ok(opcode) => opcode,
        Err(e) => {
            return Err(e);
        },
    };
    if opcode != Opcode::IslandStart {
        return Err(IrError::InvalidOpcode(ops[byte_offset]));
    }
    // 4. Skip ISLAND_START opcode(1) + island_id(2) = 3 bytes

    if ops.len() - byte_offset < 3 {
        return Err(
            IrError::BufferTooShort { expected: byte_offset.saturating_add(3), actual: ops.len() },
        );
    }
    let content_start = byte_offset + 3;
    // 5. Walk until the ISLAND_END for our island_id.
    let mut state = WalkState::new(slots.clone());
    match walk_range_until_island_end(module, &mut state, content_start, island_id, 0) {
        Ok(()) => Ok(state.out),
        Err(e) => Err(e),
    }
}

// ---------------------------------------------------------------------------
// Dev-mode slot source check
// ---------------------------------------------------------------------------

/// A slot is declared as server-sourced.
pub open spec fn server_sourced(m: parser::ModuleView, slot_id: u16) -> bool {
    let at = model::slot_position(m.slots, slot_id, 0);
    at < m.slots.len() && m.slots[at].source == SlotSource::Server
}

/// Whether a warning is due: a server-sourced slot has no value at render time.
///
/// This is a dev-mode diagnostic: if a slot is declared as `SlotSource::Server`
/// but the handler never populated it (still `SlotValue::Null`), the page
/// handler likely has a bug. It does not affect output.
pub fn check_slot_source(module: &IrModule, slot_id: u16, value: &SlotValue) -> (res: bool)
    ensures
        res == (server_sourced(module@, slot_id) && value@ == SlotTree::Null),
{
    let entries = module.slots.entries();
    let mut i: usize = 0;
    while i < entries.len()
        invariant
            i <= entries@.len(),
            parser::slot_views(entries@) == module@.slots,
            model::slot_position(module@.slots, slot_id, 0) == model::slot_position(
                module@.slots,
                slot_id,
                i as int,
            ),
        decreases entries.len() - i,
    {
        proof {
            assert(module@.slots[i as int] == entries@[i as int]@);
        }
        if entries[i].slot_id == slot_id {
            let empty = match value {
                SlotValue::Null => true,
                _ => false,
            };
            return entries[i].source == SlotSource::Server && empty;
        }
        i += 1;
    }
    false
}

} // verus!
