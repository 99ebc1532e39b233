//! What holds of every walk.

use vstd::prelude::*;

use crate::bytes;
use crate::format::{ErrorView, Opcode};
use crate::parser;
use crate::parser::ModuleView;
use crate::slot;
use crate::slot::SlotTree;
use crate::text;
use crate::walker::model;
use crate::walker::model::{Stop, WalkView, MAX_LIST_DEPTH, MAX_RECURSION_DEPTH};

verus! {

// ---------------------------------------------------------------------------
// What a walk keeps
// ---------------------------------------------------------------------------

/// `s2` comes of `s`: HTML was only appended, no LIST body was left open, the
/// slots are as many as before, and no stray FALLBACK was forgotten.
pub open spec fn comes_of(s2: WalkView, s: WalkView) -> bool {
    &&& s.out.len() <= s2.out.len()
    &&& s2.out.take(s.out.len() as int) == s.out
    &&& s2.list_depth == s.list_depth
    &&& s2.slots.len() == s.slots.len()
    &&& s.stray <= s2.stray
}

proof fn comes_of_itself(s: WalkView)
    ensures
        comes_of(s, s),
{
    assert(s.out.take(s.out.len() as int) =~= s.out);
}

proof fn comes_of_chain(s3: WalkView, s2: WalkView, s: WalkView)
    requires
        comes_of(s3, s2),
        comes_of(s2, s),
    ensures
        comes_of(s3, s),
{
    assert(s3.out.take(s.out.len() as int) =~= s3.out.take(s2.out.len() as int).take(
        s.out.len() as int,
    ));
}

proof fn comes_of_emit(s: WalkView, more: Seq<char>)
    ensures
        comes_of(model::emit(s, more), s),
{
    assert((s.out + more).take(s.out.len() as int) =~= s.out);
}

proof fn comes_of_flush(s: WalkView)
    ensures
        comes_of(model::flushed(s), s),
{
    comes_of_itself(s);
    assert((s.out + ">"@).take(s.out.len() as int) =~= s.out);
}

proof fn simple_effect_keeps(m: ModuleView, s: WalkView, op: Opcode, p: int, depth: int)
    requires
        m.opcodes.len() <= usize::MAX,
        op != Opcode::ShowIf,
        op != Opcode::Switch,
        op != Opcode::List,
    ensures
        model::effect(m, s, op, p, depth) matches Ok(s2) ==> comes_of(s2, s),
{
    comes_of_itself(s);
    if let Ok(s2) = model::effect(m, s, op, p, depth) {
        assert(s2.out.take(s.out.len() as int) =~= s.out);
    }
}

pub(crate) proof fn effect_keeps(m: ModuleView, s: WalkView, op: Opcode, p: int, depth: int)
    requires
        m.opcodes.len() <= usize::MAX,
    ensures
        model::effect(m, s, op, p, depth) matches Ok(s2) ==> comes_of(s2, s),
    decreases model::levels_left(depth), 1int, 0int,
{
    if depth <= MAX_RECURSION_DEPTH {
        if op == Opcode::ShowIf {
            if let Ok((slot_id, then_len, else_len)) = model::show_if_header(m.opcodes, p) {
                let marked = model::emit(s, model::marker("<!--f:s"@, slot_id));
                let split = model::then_end(p, then_len);
                let else_start = model::plus(split, 1);
                let else_end = model::plus(else_start, else_len as int);
                comes_of_emit(s, model::marker("<!--f:s"@, slot_id));
                run_keeps(m, Stop::At(split), marked, p + 10, depth + 1);
                run_keeps(m, Stop::At(else_end), marked, else_start, depth + 1);
                if let Ok(s3) = model::effect(m, s, op, p, depth) {
                    let walked = if slot::truthy(slot::slot_at(s.slots, slot_id)) {
                        model::run(m, Stop::At(split), marked, p + 10, depth + 1)
                    } else {
                        model::run(m, Stop::At(else_end), marked, else_start, depth + 1)
                    };
                    let s2 = walked->Ok_0;
                    comes_of_emit(s2, model::marker("<!--/f:s"@, slot_id));
                    comes_of_chain(s2, marked, s);
                    comes_of_chain(s3, s2, s);
                }
            }
        } else if op == Opcode::Switch {
            if let Ok((slot_id, cases)) = model::switch_header(m.opcodes, p) {
                cases_keep(
                    m,
                    s,
                    cases,
                    p + 4 + 8 * cases.len(),
                    0,
                    slot::slot_text(slot::slot_at(s.slots, slot_id)),
                    depth + 1,
                );
            }
        } else if op == Opcode::List {
            if let Ok((slot_id, item_slot_id, body_len)) = model::list_header(m.opcodes, p) {
                let marked = model::emit(s, model::marker("<!--f:l"@, slot_id));
                let inside = WalkView { list_depth: s.list_depth + 1, ..marked };
                comes_of_emit(s, model::marker("<!--f:l"@, slot_id));
                if let SlotTree::Array(items) = slot::slot_at(s.slots, slot_id) {
                    items_keep(
                        m,
                        inside,
                        s.slots,
                        item_slot_id,
                        items,
                        0,
                        p + 8,
                        model::plus(p + 8, body_len as int),
                        depth + 1,
                    );
                }
                if let Ok(s3) = model::effect(m, s, op, p, depth) {
                    assert(s3.out.take(s.out.len() as int) =~= s.out) by {
                        let n = marked.out.len() as int;
                        assert(s3.out.take(n) =~= marked.out);
                        assert(s3.out.take(s.out.len() as int) =~= s3.out.take(n).take(
                            s.out.len() as int,
                        ));
                    }
                }
            }
        } else {
            simple_effect_keeps(m, s, op, p, depth);
        }
    }
}

pub(crate) proof fn cases_keep(
    m: ModuleView,
    s: WalkView,
    cases: Seq<(u32, u32)>,
    from: int,
    i: int,
    words: Seq<char>,
    depth: int,
)
    requires
        m.opcodes.len() <= usize::MAX,
    ensures
        model::walk_cases(m, s, cases, from, i, words, depth) matches Ok(s2) ==> comes_of(s2, s),
    decreases model::levels_left(depth), 3int, cases.len() - i,
{
    comes_of_itself(s);
    if 0 <= i < cases.len() {
        if let Ok(value) = parser::string_at(m.strings, cases[i].0) {
            if value == words {
                let stop = Stop::At(model::bodies_end(cases, from, (i + 1) as nat));
                let at = model::bodies_end(cases, from, i as nat);
                run_keeps(m, stop, s, at, depth);
                if let Ok(s2) = model::run(m, stop, s, at, depth) {
                    cases_keep(m, s2, cases, from, i + 1, words, depth);
                    if let Ok(s3) = model::walk_cases(m, s2, cases, from, i + 1, words, depth) {
                        comes_of_chain(s3, s2, s);
                    }
                }
            } else {
                cases_keep(m, s, cases, from, i + 1, words, depth);
            }
        }
    }
}

pub(crate) proof fn items_keep(
    m: ModuleView,
    s: WalkView,
    slots: Seq<SlotTree>,
    item_slot_id: u16,
    items: Seq<SlotTree>,
    i: int,
    body_start: int,
    body_end: int,
    depth: int,
)
    requires
        m.opcodes.len() <= usize::MAX,
        s.slots.len() == slots.len(),
    ensures
        model::walk_items(m, s, slots, item_slot_id, items, i, body_start, body_end, depth)
            matches Ok(s2) ==> comes_of(s2, s),
    decreases model::levels_left(depth), 3int, items.len() - i,
{
    comes_of_itself(s);
    if 0 <= i < items.len() {
        let shadow = WalkView { slots: slot::slot_set(slots, item_slot_id, items[i]), ..s };
        run_keeps(m, Stop::At(body_end), shadow, body_start, depth);
        if let Ok(s2) = model::run(m, Stop::At(body_end), shadow, body_start, depth) {
            items_keep(
                m,
                s2,
                slots,
                item_slot_id,
                items,
                i + 1,
                body_start,
                body_end,
                depth,
            );
            if let Ok(s3) = model::walk_items(
                m,
                s2,
                slots,
                item_slot_id,
                items,
                i + 1,
                body_start,
                body_end,
                depth,
            ) {
                comes_of_chain(s3, s2, shadow);
            }
        }
    }
}

/// A walk that succeeds only appends to the HTML, leaves the depth of lists and
/// the number of slots as they were, and leaves no tag open.
pub proof fn run_keeps(m: ModuleView, stop: Stop, s: WalkView, pos: int, depth: int)
    requires
        m.opcodes.len() <= usize::MAX,
    ensures
        model::run(m, stop, s, pos, depth) matches Ok(s2) ==> comes_of(s2, s) && !s2.tag_open,
    decreases model::levels_left(depth), 2int, model::bytes_left(m.opcodes, pos),
{
    comes_of_itself(s);
    comes_of_flush(s);
    if depth <= MAX_RECURSION_DEPTH && !(stop matches Stop::At(end) && pos >= end) && pos
        < m.opcodes.len() {
        if let Some(op) = crate::format::opcode_of(m.opcodes[pos]) {
            let ready = if op == Opcode::DynAttr {
                s
            } else {
                model::flushed(s)
            };
            effect_keeps(m, ready, op, pos + 1, depth);
            model::after_is_behind(m, ready, op, pos + 1);
            if let Ok(s2) = model::effect(m, ready, op, pos + 1, depth) {
                let next = model::after(m, ready, op, pos + 1);
                run_keeps(m, stop, s2, next, depth);
                comes_of_chain(s2, ready, s);
                if let Ok(s3) = model::run(m, stop, s2, next, depth) {
                    comes_of_chain(s3, s2, s);
                }
            }
        }
    }
}

/// A LIST leaves the slots as they were: its bodies work on copies.
pub proof fn list_leaves_slots_alone(m: ModuleView, s: WalkView, p: int, depth: int)
    requires
        m.opcodes.len() <= usize::MAX,
    ensures
        model::effect(m, s, Opcode::List, p, depth) matches Ok(s2) ==> s2.slots == s.slots,
{
}

// ---------------------------------------------------------------------------
// Depth
// ---------------------------------------------------------------------------

proof fn effect_same_above(
    m: ModuleView,
    s: WalkView,
    op: Opcode,
    p: int,
    depth: int,
    above: int,
)
    requires
        m.opcodes.len() <= usize::MAX,
        above <= depth,
        model::effect(m, s, op, p, depth) is Ok,
    ensures
        model::effect(m, s, op, p, above) == model::effect(m, s, op, p, depth),
    decreases model::levels_left(depth), 1int, 0int,
{
    if op == Opcode::ShowIf {
        show_if_same_above(m, s, p, depth, above);
    } else if op == Opcode::Switch {
        let (slot_id, cases) = model::switch_header(m.opcodes, p)->Ok_0;
        cases_same_above(
            m,
            s,
            cases,
            p + 4 + 8 * cases.len(),
            0,
            slot::slot_text(slot::slot_at(s.slots, slot_id)),
            depth + 1,
            above + 1,
        );
    } else if op == Opcode::List {
        list_same_above(m, s, p, depth, above);
    }
}

proof fn show_if_same_above(m: ModuleView, s: WalkView, p: int, depth: int, above: int)
    requires
        m.opcodes.len() <= usize::MAX,
        above <= depth <= MAX_RECURSION_DEPTH,
        model::show_if_effect(m, s, p, depth) is Ok,
    ensures
        model::show_if_effect(m, s, p, above) == model::show_if_effect(m, s, p, depth),
    decreases model::levels_left(depth), 0int, 0int,
{
    let (slot_id, then_len, else_len) = model::show_if_header(m.opcodes, p)->Ok_0;
    let marked = model::emit(s, model::marker("<!--f:s"@, slot_id));
    let split = model::then_end(p, then_len);
    let else_start = model::plus(split, 1);
    let else_end = model::plus(else_start, else_len as int);
    if slot::truthy(slot::slot_at(s.slots, slot_id)) {
        run_same_above(m, Stop::At(split), marked, p + 10, depth + 1, above + 1);
    } else {
        run_same_above(m, Stop::At(else_end), marked, else_start, depth + 1, above + 1);
    }
}

proof fn list_same_above(m: ModuleView, s: WalkView, p: int, depth: int, above: int)
    requires
        m.opcodes.len() <= usize::MAX,
        above <= depth <= MAX_RECURSION_DEPTH,
        model::list_effect(m, s, p, depth) is Ok,
    ensures
        model::list_effect(m, s, p, above) == model::list_effect(m, s, p, depth),
    decreases model::levels_left(depth), 0int, 0int,
{
    let (slot_id, item_slot_id, body_len) = model::list_header(m.opcodes, p)->Ok_0;
    let marked = model::emit(s, model::marker("<!--f:l"@, slot_id));
    if let SlotTree::Array(items) = slot::slot_at(s.slots, slot_id) {
        if items.len() > 0 {
            items_same_above(
                m,
                WalkView { list_depth: s.list_depth + 1, ..marked },
                s.slots,
                item_slot_id,
                items,
                0,
                p + 8,
                model::plus(p + 8, body_len as int),
                depth + 1,
                above + 1,
            );
        }
    }
}

proof fn cases_same_above(
    m: ModuleView,
    s: WalkView,
    cases: Seq<(u32, u32)>,
    from: int,
    i: int,
    words: Seq<char>,
    depth: int,
    above: int,
)
    requires
        m.opcodes.len() <= usize::MAX,
        above <= depth,
        model::walk_cases(m, s, cases, from, i, words, depth) is Ok,
    ensures
        model::walk_cases(m, s, cases, from, i, words, above) == model::walk_cases(
            m,
            s,
            cases,
            from,
            i,
            words,
            depth,
        ),
    decreases model::levels_left(depth), 3int, cases.len() - i,
{
    if 0 <= i < cases.len() {
        let value = parser::string_at(m.strings, cases[i].0)->Ok_0;
        if value == words {
            let stop = Stop::At(model::bodies_end(cases, from, (i + 1) as nat));
            let at = model::bodies_end(cases, from, i as nat);
            run_same_above(m, stop, s, at, depth, above);
            let s2 = model::run(m, stop, s, at, depth)->Ok_0;
            cases_same_above(m, s2, cases, from, i + 1, words, depth, above);
        } else {
            cases_same_above(m, s, cases, from, i + 1, words, depth, above);
        }
    }
}

proof fn items_same_above(
    m: ModuleView,
    s: WalkView,
    slots: Seq<SlotTree>,
    item_slot_id: u16,
    items: Seq<SlotTree>,
    i: int,
    body_start: int,
    body_end: int,
    depth: int,
    above: int,
)
    requires
        m.opcodes.len() <= usize::MAX,
        above <= depth,
        model::walk_items(m, s, slots, item_slot_id, items, i, body_start, body_end, depth) is Ok,
    ensures
        model::walk_items(m, s, slots, item_slot_id, items, i, body_start, body_end, above)
            == model::walk_items(m, s, slots, item_slot_id, items, i, body_start, body_end, depth),
    decreases model::levels_left(depth), 3int, items.len() - i,
{
    if 0 <= i < items.len() {
        let shadow = WalkView { slots: slot::slot_set(slots, item_slot_id, items[i]), ..s };
        run_same_above(m, Stop::At(body_end), shadow, body_start, depth, above);
        let s2 = model::run(m, Stop::At(body_end), shadow, body_start, depth)->Ok_0;
        items_same_above(
            m,
            s2,
            slots,
            item_slot_id,
            items,
            i + 1,
            body_start,
            body_end,
            depth,
            above,
        );
    }
}

/// The depth of a walk decides only whether it may go on: a walk that succeeds
/// gives the same wherever it starts closer to the top.
pub proof fn run_same_above(
    m: ModuleView,
    stop: Stop,
    s: WalkView,
    pos: int,
    depth: int,
    above: int,
)
    requires
        m.opcodes.len() <= usize::MAX,
        above <= depth,
        model::run(m, stop, s, pos, depth) is Ok,
    ensures
        model::run(m, stop, s, pos, above) == model::run(m, stop, s, pos, depth),
    decreases model::levels_left(depth), 2int, model::bytes_left(m.opcodes, pos),
{
    if !(stop matches Stop::At(end) && pos >= end) {
        let op = crate::format::opcode_of(m.opcodes[pos])->0;
        let ready = if op == Opcode::DynAttr {
            s
        } else {
            model::flushed(s)
        };
        let ends = op == Opcode::IslandEnd && stop is IslandEnd && bytes::u16_read(
            m.opcodes,
            pos + 1,
        ) == Ok::<u16, ErrorView>(stop->IslandEnd_0);
        if !ends {
            effect_same_above(m, ready, op, pos + 1, depth, above);
            model::after_is_behind(m, ready, op, pos + 1);
            let s2 = model::effect(m, ready, op, pos + 1, depth)->Ok_0;
            run_same_above(m, stop, s2, model::after(m, ready, op, pos + 1), depth, above);
        }
    }
}

// ---------------------------------------------------------------------------
// Limits
// ---------------------------------------------------------------------------

/// No walk goes past the recursion limit.
pub proof fn recursion_is_limited(m: ModuleView, stop: Stop, s: WalkView, pos: int, depth: int)
    requires
        m.opcodes.len() <= usize::MAX,
        depth > MAX_RECURSION_DEPTH,
    ensures
        model::run(m, stop, s, pos, depth) == Err::<WalkView, ErrorView>(
            ErrorView::RecursionLimitExceeded,
        ),
{
}

/// No list with items is walked inside as many lists as may be nested.
pub proof fn list_nesting_is_limited(m: ModuleView, s: WalkView, p: int, depth: int)
    requires
        m.opcodes.len() <= usize::MAX,
        depth <= MAX_RECURSION_DEPTH,
        s.list_depth >= MAX_LIST_DEPTH,
        model::list_header(m.opcodes, p) matches Ok((slot_id, _, _)) && slot::slot_at(
            s.slots,
            slot_id,
        ) matches SlotTree::Array(items) && items.len() > 0,
    ensures
        model::effect(m, s, Opcode::List, p, depth) == Err::<WalkView, ErrorView>(
            ErrorView::ListDepthExceeded { max: MAX_LIST_DEPTH },
        ),
{
}

// ---------------------------------------------------------------------------
// Escaping
// ---------------------------------------------------------------------------

/// What DYN_TEXT writes between its markers is never empty and holds no
/// markup, whatever the slot holds.
pub proof fn dyn_text_is_inert(value: SlotTree, marker_id: u16)
    ensures
        exists|words: Seq<char>|
            #![trigger text::unescaped(words)]
            words.len() > 0 && model::dyn_text_html(value, marker_id) == model::marker(
                "<!--f:t"@,
                marker_id,
            ) + words + model::marker("<!--/f:t"@, marker_id) && (forall|i: int|
                0 <= i < words.len() ==> (#[trigger] words[i]) != '<' && words[i] != '>'),
{
    let shown = slot::slot_text(value);
    let words = if shown.len() == 0 {
        seq!['\u{200B}']
    } else {
        text::escaped_html(shown)
    };
    text::escaped_html_has_no_markup(shown);
    assert(words.len() > 0);
    assert(text::unescaped(words) == text::unescaped(words));
}

/// No attribute that is written for a slot's value can be ended by that value.
pub proof fn attr_value_is_inert(key: Seq<char>, val: Seq<char>)
    requires
        val.len() > 0,
    ensures
        exists|words: Seq<char>|
            #![trigger text::unescaped(words)]
            text::unescaped(words) == val && model::attr_html(key, val) == " "@ + key + "=\""@
                + words + "\""@ && (forall|i: int|
                0 <= i < words.len() ==> (#[trigger] words[i]) != '"' && words[i] != '<'
                    && words[i] != '>'),
{
    text::escaped_attr_has_no_markup(val);
    text::escaping_is_undone(val);
    assert(text::unescaped(text::escaped_attr(val)) == val);
}

/// The text of a comment holds no pair of hyphens, so it cannot end the
/// comment.
pub proof fn comment_text_is_inert(words: Seq<char>)
    ensures
        forall|i: int|
            !(#[trigger] text::pair_at(
                text::pair_replaced(words, '-', '-', "&#45;&#45;"@),
                '-',
                '-',
                i,
            )),
{
    reveal_strlit("&#45;&#45;");
    text::replaced_pairs_are_gone(words, '-', '-', "&#45;&#45;"@);
}

/// The props in the script tag hold no `</`, so they cannot end the script.
pub proof fn script_props_are_inert(words: Seq<char>)
    ensures
        forall|i: int|
            !(#[trigger] text::pair_at(
                text::pair_replaced(words, '<', '/', "<\\/"@),
                '<',
                '/',
                i,
            )),
{
    reveal_strlit("<\\/");
    text::replaced_pairs_are_gone(words, '<', '/', "<\\/"@);
}

// ---------------------------------------------------------------------------
// TRY and FALLBACK
// ---------------------------------------------------------------------------

/// FALLBACK skips as many bytes as the TRY_START before it gave, and leaves no
/// trace of it.
pub proof fn fallback_is_skipped(m: ModuleView, s: WalkView, p: int, q: int)
    requires
        bytes::u32_read(m.opcodes, p) is Ok,
    ensures
        model::try_start_effect(m, s, p) matches Ok(s2) && model::fallback_effect(s2) == s
            && model::after(m, s2, Opcode::Fallback, q) == model::plus(
            q,
            bytes::u32_at(m.opcodes, p) as int,
        ),
{
    let s2 = model::try_start_effect(m, s, p)->Ok_0;
    assert(s2.fallback.drop_last() =~= s.fallback);
}

// ---------------------------------------------------------------------------
// Islands
// ---------------------------------------------------------------------------

/// An ISLAND_END with the given id stands at `q`.
pub open spec fn island_end_at(m: ModuleView, id: u16, q: int) -> bool {
    &&& 0 <= q < m.opcodes.len()
    &&& crate::format::opcode_of(m.opcodes[q]) == Some(Opcode::IslandEnd)
    &&& bytes::u16_read(m.opcodes, q + 1) == Ok::<u16, ErrorView>(id)
}

proof fn island_end_found(m: ModuleView, id: u16, s: WalkView, pos: int, depth: int) -> (q: int)
    requires
        m.opcodes.len() <= usize::MAX,
        0 <= pos,
        model::run(m, Stop::IslandEnd(id), s, pos, depth) is Ok,
    ensures
        pos <= q,
        island_end_at(m, id, q),
        model::run(m, Stop::At(q), s, pos, depth) == model::run(
            m,
            Stop::IslandEnd(id),
            s,
            pos,
            depth,
        ),
    decreases model::bytes_left(m.opcodes, pos),
{
    let stop = Stop::IslandEnd(id);
    let op = crate::format::opcode_of(m.opcodes[pos])->0;
    let ready = if op == Opcode::DynAttr {
        s
    } else {
        model::flushed(s)
    };
    if op == Opcode::IslandEnd && bytes::u16_read(m.opcodes, pos + 1) == Ok::<u16, ErrorView>(id) {
        pos
    } else {
        let s2 = model::effect(m, ready, op, pos + 1, depth)->Ok_0;
        let next = model::after(m, ready, op, pos + 1);
        model::after_is_behind(m, ready, op, pos + 1);
        island_end_found(m, id, s2, next, depth)
    }
}

/// The HTML of an island is that of everything between its ISLAND_START and an
/// ISLAND_END with its id.
pub proof fn island_is_its_content(m: ModuleView, slots: Seq<SlotTree>, id: u16)
    requires
        m.opcodes.len() <= usize::MAX,
        model::island_html_of(m, slots, id) is Ok,
    ensures
        exists|q: int|
            #![trigger island_end_at(m, id, q)]
            {
                let entry = m.islands[model::island_position(m.islands, id, 0)];
                &&& island_end_at(m, id, q)
                &&& entry.byte_offset + 3 <= q
                &&& model::run(
                    m,
                    Stop::At(q),
                    model::start(slots),
                    entry.byte_offset + 3,
                    0,
                ) matches Ok(s)
                &&& model::island_html_of(m, slots, id) == Ok::<Seq<char>, ErrorView>(s.out)
            },
{
    let entry = m.islands[model::island_position(m.islands, id, 0)];
    let q = island_end_found(m, id, model::start(slots), entry.byte_offset + 3, 0);
    assert(island_end_at(m, id, q));
}

/// The walk from `pos` on comes to `q` before it comes to an ISLAND_END with the
/// given id, or fails on the way; it does not pass `q` by.
pub open spec fn comes_to(m: ModuleView, id: u16, s: WalkView, pos: int, q: int, depth: int) -> bool
    decreases model::bytes_left(m.opcodes, pos),
    when m.opcodes.len() <= usize::MAX
{
    if pos >= q || pos >= m.opcodes.len() {
        pos == q
    } else {
        match crate::format::opcode_of(m.opcodes[pos]) {
            None => true,
            Some(op) => {
                let ready = if op == Opcode::DynAttr {
                    s
                } else {
                    model::flushed(s)
                };
                !island_end_at(m, id, pos) && match model::effect(m, ready, op, pos + 1, depth) {
                    Err(_) => true,
                    Ok(s2) => {
                        proof {
                            model::after_is_behind(m, ready, op, pos + 1);
                        }
                        comes_to(m, id, s2, model::after(m, ready, op, pos + 1), q, depth)
                    },
                }
            },
        }
    }
}

/// A walk until the end of an island stops at the first ISLAND_END with its id:
/// it gives exactly what the walk to that position gives, so nothing behind it is
/// rendered and no marker is written for it.
pub proof fn walk_stops_at_island_end(
    m: ModuleView,
    id: u16,
    s: WalkView,
    pos: int,
    q: int,
    depth: int,
)
    requires
        m.opcodes.len() <= usize::MAX,
        0 <= pos,
        island_end_at(m, id, q),
        comes_to(m, id, s, pos, q, depth),
    ensures
        model::run(m, Stop::IslandEnd(id), s, pos, depth) == model::run(
            m,
            Stop::At(q),
            s,
            pos,
            depth,
        ),
    decreases model::bytes_left(m.opcodes, pos),
{
    if pos < q && depth <= MAX_RECURSION_DEPTH {
        if let Some(op) = crate::format::opcode_of(m.opcodes[pos]) {
            let ready = if op == Opcode::DynAttr {
                s
            } else {
                model::flushed(s)
            };
            if let Ok(s2) = model::effect(m, ready, op, pos + 1, depth) {
                model::after_is_behind(m, ready, op, pos + 1);
                let next = model::after(m, ready, op, pos + 1);
                walk_stops_at_island_end(m, id, s2, next, q, depth);
            }
        }
    }
}

/// A walk until the end of an island that comes to the end of the stream has not
/// found the island; one that fails on the way reports that error.
pub proof fn missing_island_end_is_reported(
    m: ModuleView,
    id: u16,
    s: WalkView,
    pos: int,
    depth: int,
)
    requires
        m.opcodes.len() <= usize::MAX,
        0 <= pos,
        depth <= MAX_RECURSION_DEPTH,
        comes_to(m, id, s, pos, m.opcodes.len() as int, depth),
    ensures
        model::run(m, Stop::IslandEnd(id), s, pos, depth) == match model::run(
            m,
            Stop::At(m.opcodes.len() as int),
            s,
            pos,
            depth,
        ) {
            Ok(_) => Err::<WalkView, ErrorView>(ErrorView::IslandNotFound(id)),
            Err(e) => Err(e),
        },
    decreases model::bytes_left(m.opcodes, pos),
{
    if pos < m.opcodes.len() {
        if let Some(op) = crate::format::opcode_of(m.opcodes[pos]) {
            let ready = if op == Opcode::DynAttr {
                s
            } else {
                model::flushed(s)
            };
            if let Ok(s2) = model::effect(m, ready, op, pos + 1, depth) {
                model::after_is_behind(m, ready, op, pos + 1);
                let next = model::after(m, ready, op, pos + 1);
                missing_island_end_is_reported(m, id, s2, next, depth);
            }
        }
    }
}

/// The HTML of an island is that of everything from behind its ISLAND_START to
/// the first ISLAND_END with its id.
pub proof fn island_html_ends_at_first_match(m: ModuleView, slots: Seq<SlotTree>, id: u16, q: int)
    requires
        m.opcodes.len() <= usize::MAX,
        ({
            let at = model::island_position(m.islands, id, 0);
            let offset = m.islands[at].byte_offset as int;
            &&& at < m.islands.len()
            &&& offset + 3 <= m.opcodes.len()
            &&& crate::format::opcode_of(m.opcodes[offset]) == Some(Opcode::IslandStart)
            &&& comes_to(m, id, model::start(slots), offset + 3, q, 0)
        }),
        island_end_at(m, id, q),
    ensures
        model::island_html_of(m, slots, id) == match model::run(
            m,
            Stop::At(q),
            model::start(slots),
            m.islands[model::island_position(m.islands, id, 0)].byte_offset + 3,
            0,
        ) {
            Ok(s) => Ok::<Seq<char>, ErrorView>(s.out),
            Err(e) => Err(e),
        },
{
    let offset = m.islands[model::island_position(m.islands, id, 0)].byte_offset as int;
    walk_stops_at_island_end(m, id, model::start(slots), offset + 3, q, 0);
}

} // verus!
