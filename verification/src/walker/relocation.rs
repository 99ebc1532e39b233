//! Walking a body inside a larger stream is walking it on its own.

use vstd::prelude::*;

use crate::bytes;
use crate::format::{ErrorView, Opcode};
use crate::parser;
use crate::parser::ModuleView;
use crate::slot;
use crate::slot::SlotTree;
use crate::walker::model;
use crate::walker::model::{Stop, WalkView, MAX_RECURSION_DEPTH};

verus! {

/// The opcode stream of `part` stands in that of `whole` at `off`, over the same
/// tables.
pub open spec fn embeds(whole: ModuleView, part: ModuleView, off: int) -> bool {
    &&& whole.strings == part.strings
    &&& whole.slots == part.slots
    &&& whole.islands == part.islands
    &&& whole.opcodes.len() <= usize::MAX
    &&& 0 <= off
    &&& off + part.opcodes.len() <= whole.opcodes.len()
    &&& forall|i: int|
        0 <= i < part.opcodes.len() ==> (#[trigger] part.opcodes[i]) == whole.opcodes[off + i]
}

/// Where a position of the part lies in the whole.
pub open spec fn shifted(off: int, p: int) -> int {
    bytes::clamped(off + p)
}

proof fn reads_agree(whole: ModuleView, part: ModuleView, off: int, p: int)
    requires
        embeds(whole, part, off),
        0 <= p,
    ensures
        bytes::u16_read(part.opcodes, p) is Ok ==> bytes::u16_read(whole.opcodes, off + p)
            == bytes::u16_read(part.opcodes, p) && off + p + 2 <= usize::MAX,
        bytes::u32_read(part.opcodes, p) is Ok ==> bytes::u32_read(whole.opcodes, off + p)
            == bytes::u32_read(part.opcodes, p) && off + p + 4 <= usize::MAX,
{
    if p + 2 <= part.opcodes.len() {
        assert(part.opcodes[p] == whole.opcodes[off + p]);
        assert(part.opcodes[p + 1] == whole.opcodes[off + (p + 1)]);
    }
    if p + 4 <= part.opcodes.len() {
        assert(part.opcodes[p + 2] == whole.opcodes[off + (p + 2)]);
        assert(part.opcodes[p + 3] == whole.opcodes[off + (p + 3)]);
    }
}

proof fn attrs_agree(whole: ModuleView, part: ModuleView, off: int, cursor: int, count: nat)
    requires
        embeds(whole, part, off),
        0 <= cursor <= part.opcodes.len(),
        model::attrs_from(part.opcodes, part.strings, cursor, count) is Ok,
    ensures
        model::attrs_from(whole.opcodes, whole.strings, off + cursor, count)
            == model::attrs_from(part.opcodes, part.strings, cursor, count),
        cursor + 8 * count <= part.opcodes.len(),
    decreases count,
{
    if count > 0 {
        reads_agree(whole, part, off, cursor);
        reads_agree(whole, part, off, cursor + 4);
        attrs_agree(whole, part, off, cursor + 8, (count - 1) as nat);
        assert(off + (cursor + 8) == (off + cursor) + 8);
    }
}

proof fn cases_agree(whole: ModuleView, part: ModuleView, off: int, at: int, count: nat)
    requires
        embeds(whole, part, off),
        0 <= at <= part.opcodes.len(),
        model::cases_from(part.opcodes, at, count) is Ok,
    ensures
        model::cases_from(whole.opcodes, off + at, count) == model::cases_from(
            part.opcodes,
            at,
            count,
        ),
        model::cases_from(part.opcodes, at, count)->Ok_0.len() == count,
        at + 8 * count <= part.opcodes.len(),
    decreases count,
{
    if count > 0 {
        reads_agree(whole, part, off, at);
        reads_agree(whole, part, off, at + 4);
        cases_agree(whole, part, off, at + 8, (count - 1) as nat);
        assert(off + (at + 8) == (off + at) + 8);
    }
}

proof fn tag_agrees(whole: ModuleView, part: ModuleView, off: int, p: int)
    requires
        embeds(whole, part, off),
        0 <= p,
        model::tag_at(part.opcodes, part.strings, p) is Ok,
    ensures
        model::tag_at(whole.opcodes, whole.strings, off + p) == model::tag_at(
            part.opcodes,
            part.strings,
            p,
        ),
        bytes::u16_at(whole.opcodes, off + p + 4) == bytes::u16_at(part.opcodes, p + 4),
        p + 6 + 8 * bytes::u16_at(part.opcodes, p + 4) <= part.opcodes.len(),
{
    reads_agree(whole, part, off, p);
    reads_agree(whole, part, off, p + 4);
    attrs_agree(whole, part, off, p + 6, bytes::u16_at(part.opcodes, p + 4) as nat);
    assert(off + (p + 4) == (off + p) + 4);
    assert(off + (p + 6) == (off + p) + 6);
}

proof fn simple_effects_agree(
    whole: ModuleView,
    part: ModuleView,
    off: int,
    s: WalkView,
    op: Opcode,
    p: int,
    depth: int,
)
    requires
        embeds(whole, part, off),
        0 <= p <= part.opcodes.len(),
        op != Opcode::ShowIf,
        op != Opcode::Switch,
        op != Opcode::List,
        model::effect(part, s, op, p, depth) is Ok,
    ensures
        model::effect(whole, s, op, off + p, depth) == model::effect(part, s, op, p, depth),
        model::after(whole, s, op, off + p) == shifted(off, model::after(part, s, op, p)),
{
    reads_agree(whole, part, off, p);
    if op == Opcode::OpenTag || op == Opcode::VoidTag {
        tag_agrees(whole, part, off, p);
    } else if op == Opcode::DynText {
        reads_agree(whole, part, off, p + 2);
        assert(off + (p + 2) == (off + p) + 2);
    } else if op == Opcode::DynAttr {
        reads_agree(whole, part, off, p + 4);
        assert(off + (p + 4) == (off + p) + 4);
    } else if op == Opcode::Preload {
        reads_agree(whole, part, off, p + 1);
        assert(off + (p + 1) == (off + p) + 1);
        assert(part.opcodes[p] == whole.opcodes[off + p]);
    } else if op == Opcode::Prop {
        reads_agree(whole, part, off, p + 2);
        reads_agree(whole, part, off, p + 6);
        assert(off + (p + 2) == (off + p) + 2);
        assert(off + (p + 6) == (off + p) + 6);
    } else if op == Opcode::IslandStart {
        island_pending_agrees(whole, part);
    }
}

proof fn island_pending_agrees(whole: ModuleView, part: ModuleView)
    requires
        whole.strings == part.strings,
        whole.slots == part.slots,
        whole.islands == part.islands,
    ensures
        forall|t: WalkView, entry: crate::format::IslandEntryView, name: Seq<char>|
            model::island_pending(whole, t, entry, name) == #[trigger] model::island_pending(
                part,
                t,
                entry,
                name,
            ),
{
    assert forall|t: WalkView, entry: crate::format::IslandEntryView, name: Seq<char>|
        model::island_pending(whole, t, entry, name) == #[trigger] model::island_pending(
            part,
            t,
            entry,
            name,
        ) by {
        props_agree(whole, part, t.slots, entry.slot_ids);
    }
}

proof fn props_agree(whole: ModuleView, part: ModuleView, slots: Seq<SlotTree>, ids: Seq<u16>)
    requires
        whole.strings == part.strings,
        whole.slots == part.slots,
    ensures
        model::island_props(whole, slots, ids) == model::island_props(part, slots, ids),
    decreases ids.len(),
{
    if ids.len() > 0 {
        props_agree(whole, part, slots, ids.drop_last());
    }
}

proof fn show_if_agrees(whole: ModuleView, part: ModuleView, off: int, p: int)
    requires
        embeds(whole, part, off),
        0 <= p,
        model::show_if_header(part.opcodes, p) is Ok,
    ensures
        model::show_if_header(whole.opcodes, off + p) == model::show_if_header(part.opcodes, p),
        p + 10 <= part.opcodes.len(),
{
    reads_agree(whole, part, off, p);
    reads_agree(whole, part, off, p + 2);
    reads_agree(whole, part, off, p + 6);
    assert(off + (p + 2) == (off + p) + 2);
    assert(off + (p + 6) == (off + p) + 6);
}

proof fn list_agrees(whole: ModuleView, part: ModuleView, off: int, p: int)
    requires
        embeds(whole, part, off),
        0 <= p,
        model::list_header(part.opcodes, p) is Ok,
    ensures
        model::list_header(whole.opcodes, off + p) == model::list_header(part.opcodes, p),
        p + 8 <= part.opcodes.len(),
{
    reads_agree(whole, part, off, p);
    reads_agree(whole, part, off, p + 2);
    reads_agree(whole, part, off, p + 4);
    assert(off + (p + 2) == (off + p) + 2);
    assert(off + (p + 4) == (off + p) + 4);
}

proof fn switch_agrees(whole: ModuleView, part: ModuleView, off: int, p: int)
    requires
        embeds(whole, part, off),
        0 <= p,
        model::switch_header(part.opcodes, p) is Ok,
    ensures
        model::switch_header(whole.opcodes, off + p) == model::switch_header(part.opcodes, p),
        model::switch_header(part.opcodes, p) matches Ok((_, cases)) && p + 4 + 8 * cases.len()
            <= part.opcodes.len(),
{
    reads_agree(whole, part, off, p);
    reads_agree(whole, part, off, p + 2);
    assert(off + (p + 2) == (off + p) + 2);
    cases_agree(whole, part, off, p + 4, bytes::u16_at(part.opcodes, p + 2) as nat);
    assert(off + (p + 4) == (off + p) + 4);
}

proof fn bodies_agree(cases: Seq<(u32, u32)>, off: int, from: int, k: nat)
    requires
        0 <= off,
        0 <= from,
        off + from <= usize::MAX,
    ensures
        model::bodies_end(cases, off + from, k) == shifted(off, model::bodies_end(cases, from, k)),
        0 <= model::bodies_end(cases, from, k),
    decreases k,
{
    if k > 0 {
        bodies_agree(cases, off, from, (k - 1) as nat);
    }
}

proof fn show_if_effects_agree(
    whole: ModuleView,
    part: ModuleView,
    off: int,
    s: WalkView,
    p: int,
    depth: int,
)
    requires
        embeds(whole, part, off),
        0 <= p <= part.opcodes.len(),
        depth <= MAX_RECURSION_DEPTH,
        model::show_if_effect(part, s, p, depth) is Ok,
    ensures
        model::show_if_effect(whole, s, off + p, depth) == model::show_if_effect(part, s, p, depth),
        model::after(whole, s, Opcode::ShowIf, off + p) == shifted(
            off,
            model::after(part, s, Opcode::ShowIf, p),
        ),
    decreases model::levels_left(depth), 0int, 0int,
{
    show_if_agrees(whole, part, off, p);
    let (slot_id, then_len, else_len) = model::show_if_header(part.opcodes, p)->Ok_0;
    let marked = model::emit(s, model::marker("<!--f:s"@, slot_id));
    let split = model::then_end(p, then_len);
    let else_start = model::plus(split, 1);
    let else_end = model::plus(else_start, else_len as int);
    assert(model::then_end(off + p, then_len) == shifted(off, split));
    assert(model::plus(shifted(off, split), 1) == shifted(off, else_start));
    assert(model::plus(shifted(off, else_start), else_len as int) == shifted(off, else_end));
    assert(shifted(off, p + 10) == off + p + 10);
    if slot::truthy(slot::slot_at(s.slots, slot_id)) {
        runs_agree(whole, part, off, split, marked, p + 10, depth + 1);
    } else {
        runs_agree(whole, part, off, else_end, marked, else_start, depth + 1);
    }
}

proof fn switch_effects_agree(
    whole: ModuleView,
    part: ModuleView,
    off: int,
    s: WalkView,
    p: int,
    depth: int,
)
    requires
        embeds(whole, part, off),
        0 <= p <= part.opcodes.len(),
        depth <= MAX_RECURSION_DEPTH,
        model::switch_effect(part, s, p, depth) is Ok,
    ensures
        model::switch_effect(whole, s, off + p, depth) == model::switch_effect(part, s, p, depth),
        model::after(whole, s, Opcode::Switch, off + p) == shifted(
            off,
            model::after(part, s, Opcode::Switch, p),
        ),
    decreases model::levels_left(depth), 0int, 0int,
{
    switch_agrees(whole, part, off, p);
    let (slot_id, cases) = model::switch_header(part.opcodes, p)->Ok_0;
    let from = p + 4 + 8 * cases.len();
    bodies_agree(cases, off, from, cases.len());
    cases_walks_agree(
        whole,
        part,
        off,
        s,
        cases,
        from,
        0,
        slot::slot_text(slot::slot_at(s.slots, slot_id)),
        depth + 1,
    );
    assert(off + from == (off + p) + 4 + 8 * cases.len());
}

proof fn list_effects_agree(
    whole: ModuleView,
    part: ModuleView,
    off: int,
    s: WalkView,
    p: int,
    depth: int,
)
    requires
        embeds(whole, part, off),
        0 <= p <= part.opcodes.len(),
        depth <= MAX_RECURSION_DEPTH,
        model::list_effect(part, s, p, depth) is Ok,
    ensures
        model::list_effect(whole, s, off + p, depth) == model::list_effect(part, s, p, depth),
        model::after(whole, s, Opcode::List, off + p) == shifted(
            off,
            model::after(part, s, Opcode::List, p),
        ),
    decreases model::levels_left(depth), 0int, 0int,
{
    list_agrees(whole, part, off, p);
    let (slot_id, item_slot_id, body_len) = model::list_header(part.opcodes, p)->Ok_0;
    let marked = model::emit(s, model::marker("<!--f:l"@, slot_id));
    let body_end = model::plus(p + 8, body_len as int);
    assert(model::plus(off + p + 8, body_len as int) == shifted(off, body_end));
    assert(shifted(off, p + 8) == off + p + 8);
    if let SlotTree::Array(items) = slot::slot_at(s.slots, slot_id) {
        if items.len() > 0 {
            items_walks_agree(
                whole,
                part,
                off,
                WalkView { list_depth: s.list_depth + 1, ..marked },
                s.slots,
                item_slot_id,
                items,
                0,
                p + 8,
                body_end,
                depth + 1,
            );
        }
    }
}

pub(crate) proof fn effects_agree(
    whole: ModuleView,
    part: ModuleView,
    off: int,
    s: WalkView,
    op: Opcode,
    p: int,
    depth: int,
)
    requires
        embeds(whole, part, off),
        0 <= p <= part.opcodes.len(),
        model::effect(part, s, op, p, depth) is Ok,
    ensures
        model::effect(whole, s, op, off + p, depth) == model::effect(part, s, op, p, depth),
        model::after(whole, s, op, off + p) == shifted(off, model::after(part, s, op, p)),
    decreases model::levels_left(depth), 1int, 0int,
{
    if op == Opcode::ShowIf {
        show_if_effects_agree(whole, part, off, s, p, depth);
    } else if op == Opcode::Switch {
        switch_effects_agree(whole, part, off, s, p, depth);
    } else if op == Opcode::List {
        list_effects_agree(whole, part, off, s, p, depth);
    } else {
        simple_effects_agree(whole, part, off, s, op, p, depth);
    }
}

pub(crate) proof fn cases_walks_agree(
    whole: ModuleView,
    part: ModuleView,
    off: int,
    s: WalkView,
    cases: Seq<(u32, u32)>,
    from: int,
    i: int,
    words: Seq<char>,
    depth: int,
)
    requires
        embeds(whole, part, off),
        0 <= from,
        off + from <= usize::MAX,
        model::walk_cases(part, s, cases, from, i, words, depth) is Ok,
    ensures
        model::walk_cases(whole, s, cases, off + from, i, words, depth) == model::walk_cases(
            part,
            s,
            cases,
            from,
            i,
            words,
            depth,
        ),
    decreases model::levels_left(depth), 3int, cases.len() - i,
{
    if 0 <= i < cases.len() {
        let value = parser::string_at(part.strings, cases[i].0)->Ok_0;
        if value == words {
            let start = model::bodies_end(cases, from, i as nat);
            let end = model::bodies_end(cases, from, (i + 1) as nat);
            bodies_agree(cases, off, from, i as nat);
            bodies_agree(cases, off, from, (i + 1) as nat);
            runs_agree(whole, part, off, end, s, start, depth);
            let s2 = model::run(part, Stop::At(end), s, start, depth)->Ok_0;
            cases_walks_agree(whole, part, off, s2, cases, from, i + 1, words, depth);
        } else {
            cases_walks_agree(whole, part, off, s, cases, from, i + 1, words, depth);
        }
    }
}

pub(crate) proof fn items_walks_agree(
    whole: ModuleView,
    part: ModuleView,
    off: int,
    s: WalkView,
    slots: Seq<SlotTree>,
    item_slot_id: u16,
    items: Seq<SlotTree>,
    i: int,
    body_start: int,
    body_end: int,
    depth: int,
)
    requires
        embeds(whole, part, off),
        0 <= body_start,
        model::walk_items(part, s, slots, item_slot_id, items, i, body_start, body_end, depth)
            is Ok,
    ensures
        model::walk_items(
            whole,
            s,
            slots,
            item_slot_id,
            items,
            i,
            shifted(off, body_start),
            shifted(off, body_end),
            depth,
        ) == model::walk_items(
            part,
            s,
            slots,
            item_slot_id,
            items,
            i,
            body_start,
            body_end,
            depth,
        ),
    decreases model::levels_left(depth), 3int, items.len() - i,
{
    if 0 <= i < items.len() {
        let shadow = WalkView { slots: slot::slot_set(slots, item_slot_id, items[i]), ..s };
        runs_agree(whole, part, off, body_end, shadow, body_start, depth);
        let s2 = model::run(part, Stop::At(body_end), shadow, body_start, depth)->Ok_0;
        items_walks_agree(
            whole,
            part,
            off,
            s2,
            slots,
            item_slot_id,
            items,
            i + 1,
            body_start,
            body_end,
            depth,
        );
    }
}

/// A walk of a part that succeeds is the same walk wherever the part stands in
/// a larger stream.
pub proof fn runs_agree(
    whole: ModuleView,
    part: ModuleView,
    off: int,
    end: int,
    s: WalkView,
    pos: int,
    depth: int,
)
    requires
        embeds(whole, part, off),
        0 <= pos,
        model::run(part, Stop::At(end), s, pos, depth) is Ok,
    ensures
        model::run(whole, Stop::At(shifted(off, end)), s, shifted(off, pos), depth) == model::run(
            part,
            Stop::At(end),
            s,
            pos,
            depth,
        ),
    decreases model::levels_left(depth), 2int, model::bytes_left(part.opcodes, pos),
{
    if pos < end {
        assert(pos < part.opcodes.len());
        assert(part.opcodes[pos] == whole.opcodes[off + pos]);
        assert(shifted(off, pos) == off + pos);
        assert(shifted(off, pos) < shifted(off, end));
        let op = crate::format::opcode_of(part.opcodes[pos])->0;
        let ready = if op == Opcode::DynAttr {
            s
        } else {
            model::flushed(s)
        };
        effects_agree(whole, part, off, ready, op, pos + 1, depth);
        assert(off + (pos + 1) == (off + pos) + 1);
        model::after_is_behind(part, ready, op, pos + 1);
        let s2 = model::effect(part, ready, op, pos + 1, depth)->Ok_0;
        runs_agree(whole, part, off, end, s2, model::after(part, ready, op, pos + 1), depth);
    }
}

// ---------------------------------------------------------------------------
// One part behind the other
// ---------------------------------------------------------------------------

/// The state in which a walk that starts at `pos` lands on `end`, before an open
/// tag is closed there; none where it fails or passes `end` by.
#[verifier::opaque]
pub open spec fn landing(m: ModuleView, s: WalkView, pos: int, end: int, depth: int) -> Option<
    WalkView,
>
    decreases model::bytes_left(m.opcodes, pos),
    when m.opcodes.len() <= usize::MAX
{
    if pos == end {
        Some(s)
    } else if pos > end || pos >= m.opcodes.len() || depth > MAX_RECURSION_DEPTH {
        None
    } else {
        match crate::format::opcode_of(m.opcodes[pos]) {
            None => None,
            Some(op) => {
                let ready = if op == Opcode::DynAttr {
                    s
                } else {
                    model::flushed(s)
                };
                match model::effect(m, ready, op, pos + 1, depth) {
                    Err(_) => None,
                    Ok(s2) => {
                        proof {
                            model::after_is_behind(m, ready, op, pos + 1);
                        }
                        landing(m, s2, model::after(m, ready, op, pos + 1), end, depth)
                    },
                }
            },
        }
    }
}

/// The state in which an opcode is walked: with the open tag closed, unless
/// the opcode may still add to it.
pub open spec fn ready_for(op: Opcode, s: WalkView) -> WalkView {
    if op == Opcode::DynAttr {
        s
    } else {
        model::flushed(s)
    }
}

pub(crate) proof fn landing_unfolds(m: ModuleView, s: WalkView, pos: int, end: int, depth: int)
    requires
        m.opcodes.len() <= usize::MAX,
    ensures
        pos == end ==> landing(m, s, pos, end, depth) == Some(s),
        landing(m, s, pos, end, depth) is Some ==> pos <= end,
        landing(m, s, pos, end, depth) is Some && pos != end ==> {
            &&& pos < m.opcodes.len()
            &&& depth <= MAX_RECURSION_DEPTH
            &&& crate::format::opcode_of(m.opcodes[pos]) matches Some(op)
            &&& model::effect(m, ready_for(op, s), op, pos + 1, depth) matches Ok(s2)
            &&& landing(m, s, pos, end, depth) == landing(
                m,
                s2,
                model::after(m, ready_for(op, s), op, pos + 1),
                end,
                depth,
            )
        },
{
    reveal(landing);
}

pub(crate) proof fn landing_steps(m: ModuleView, s: WalkView, op: Opcode, pos: int, end: int, depth: int)
    requires
        m.opcodes.len() <= usize::MAX,
        pos < end,
        pos < m.opcodes.len(),
        depth <= MAX_RECURSION_DEPTH,
        crate::format::opcode_of(m.opcodes[pos]) == Some(op),
        model::effect(m, ready_for(op, s), op, pos + 1, depth) is Ok,
    ensures
        landing(m, s, pos, end, depth) == landing(
            m,
            model::effect(m, ready_for(op, s), op, pos + 1, depth)->Ok_0,
            model::after(m, ready_for(op, s), op, pos + 1),
            end,
            depth,
        ),
{
    reveal(landing);
}

/// A walk that lands on `mid` goes on there: walking to `end` is walking to
/// `mid`, then from `mid` to `end`.
pub proof fn walks_in_sequence(
    m: ModuleView,
    s: WalkView,
    pos: int,
    mid: int,
    end: int,
    depth: int,
)
    requires
        m.opcodes.len() <= usize::MAX,
        mid <= end,
        landing(m, s, pos, mid, depth) is Some,
    ensures
        model::run(m, Stop::At(end), s, pos, depth) == model::run(
            m,
            Stop::At(end),
            landing(m, s, pos, mid, depth)->0,
            mid,
            depth,
        ),
    decreases model::bytes_left(m.opcodes, pos),
{
    landing_unfolds(m, s, pos, mid, depth);
    if pos != mid {
        let op = crate::format::opcode_of(m.opcodes[pos])->0;
        let ready = ready_for(op, s);
        let s2 = model::effect(m, ready, op, pos + 1, depth)->Ok_0;
        model::after_is_behind(m, ready, op, pos + 1);
        walks_in_sequence(m, s2, model::after(m, ready, op, pos + 1), mid, end, depth);
    }
}

/// A landing is the end of the walk: a walk to `end` that lands there gives the
/// state with the open tag closed.
pub proof fn landing_ends_walk(m: ModuleView, s: WalkView, pos: int, end: int, depth: int)
    requires
        m.opcodes.len() <= usize::MAX,
        depth <= MAX_RECURSION_DEPTH,
        landing(m, s, pos, end, depth) is Some,
    ensures
        model::run(m, Stop::At(end), s, pos, depth) == Ok::<WalkView, ErrorView>(
            model::flushed(landing(m, s, pos, end, depth)->0),
        ),
{
    walks_in_sequence(m, s, pos, end, end, depth);
}

/// Two landings make one.
pub proof fn landings_join(
    m: ModuleView,
    s: WalkView,
    pos: int,
    mid: int,
    end: int,
    depth: int,
)
    requires
        m.opcodes.len() <= usize::MAX,
        mid <= end,
        landing(m, s, pos, mid, depth) is Some,
    ensures
        landing(m, s, pos, end, depth) == landing(
            m,
            landing(m, s, pos, mid, depth)->0,
            mid,
            end,
            depth,
        ),
    decreases model::bytes_left(m.opcodes, pos),
{
    landing_unfolds(m, s, pos, mid, depth);
    if pos != mid {
        let op = crate::format::opcode_of(m.opcodes[pos])->0;
        let ready = ready_for(op, s);
        let s2 = model::effect(m, ready, op, pos + 1, depth)->Ok_0;
        model::after_is_behind(m, ready, op, pos + 1);
        landing_steps(m, s, op, pos, end, depth);
        landings_join(m, s2, model::after(m, ready, op, pos + 1), mid, end, depth);
    }
}

proof fn landing_moves(
    whole: ModuleView,
    part: ModuleView,
    off: int,
    s: WalkView,
    op: Opcode,
    pos: int,
    end: int,
    depth: int,
)
    requires
        embeds(whole, part, off),
        0 <= pos < end <= part.opcodes.len(),
        depth <= MAX_RECURSION_DEPTH,
        crate::format::opcode_of(part.opcodes[pos]) == Some(op),
        model::effect(part, ready_for(op, s), op, pos + 1, depth) is Ok,
        model::after(part, ready_for(op, s), op, pos + 1) <= end,
    ensures
        landing(whole, s, off + pos, off + end, depth) == landing(
            whole,
            model::effect(part, ready_for(op, s), op, pos + 1, depth)->Ok_0,
            off + model::after(part, ready_for(op, s), op, pos + 1),
            off + end,
            depth,
        ),
{
    assert(part.opcodes[pos] == whole.opcodes[off + pos]);
    effects_agree(whole, part, off, ready_for(op, s), op, pos + 1, depth);
    assert(off + (pos + 1) == (off + pos) + 1);
    model::after_is_behind(part, ready_for(op, s), op, pos + 1);
    landing_steps(whole, s, op, off + pos, off + end, depth);
}

/// A part lands wherever it stands in a larger stream.
#[verifier::spinoff_prover]
#[verifier::rlimit(40)]
pub proof fn landings_agree(
    whole: ModuleView,
    part: ModuleView,
    off: int,
    s: WalkView,
    pos: int,
    end: int,
    depth: int,
)
    requires
        embeds(whole, part, off),
        0 <= pos <= end <= part.opcodes.len(),
        landing(part, s, pos, end, depth) is Some,
    ensures
        landing(whole, s, off + pos, off + end, depth) == landing(part, s, pos, end, depth),
    decreases model::bytes_left(part.opcodes, pos),
{
    landing_unfolds(part, s, pos, end, depth);
    if pos == end {
        landing_unfolds(whole, s, off + pos, off + end, depth);
    } else {
        let op = crate::format::opcode_of(part.opcodes[pos])->0;
        let ready = ready_for(op, s);
        let s2 = model::effect(part, ready, op, pos + 1, depth)->Ok_0;
        let next = model::after(part, ready, op, pos + 1);
        model::after_is_behind(part, ready, op, pos + 1);
        landing_unfolds(part, s2, next, end, depth);
        landing_moves(whole, part, off, s, op, pos, end, depth);
        landings_agree(whole, part, off, s2, next, end, depth);
    }
}

/// The module with another opcode stream.
pub open spec fn with_opcodes(m: ModuleView, opcodes: Seq<u8>) -> ModuleView {
    ModuleView { opcodes, ..m }
}

/// Streams one behind the other are walked one after the other: where the walk
/// of `a` lands on its end and the walk of `b` from there succeeds, the walk of
/// both gives what the walk of `b` gives.
pub proof fn concatenation_walks_in_turn(
    m: ModuleView,
    a: Seq<u8>,
    b: Seq<u8>,
    s: WalkView,
    depth: int,
)
    requires
        a.len() + b.len() <= usize::MAX,
        landing(with_opcodes(m, a), s, 0, a.len() as int, depth) is Some,
        model::run(
            with_opcodes(m, b),
            Stop::At(b.len() as int),
            landing(with_opcodes(m, a), s, 0, a.len() as int, depth)->0,
            0,
            depth,
        ) is Ok,
    ensures
        model::run(
            with_opcodes(m, a + b),
            Stop::At((a + b).len() as int),
            s,
            0,
            depth,
        ) == model::run(
            with_opcodes(m, b),
            Stop::At(b.len() as int),
            landing(with_opcodes(m, a), s, 0, a.len() as int, depth)->0,
            0,
            depth,
        ),
{
    let whole = with_opcodes(m, a + b);
    let (first, second) = (with_opcodes(m, a), with_opcodes(m, b));
    let n = a.len() as int;
    landings_agree(whole, first, 0, s, 0, n, depth);
    let s2 = landing(first, s, 0, n, depth)->0;
    walks_in_sequence(whole, s, 0, n, n + b.len(), depth);
    runs_agree(whole, second, n, b.len() as int, s2, 0, depth);
}

} // verus!
