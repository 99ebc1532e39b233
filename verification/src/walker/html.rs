//! The HTML of a walk does not depend on what stands around it, so that the
//! HTML of a stream is put together from the HTML of its parts.

use vstd::prelude::*;

use crate::bytes;
use crate::format::{ErrorView, Opcode};
use crate::parser;
use crate::parser::test_helpers;
use crate::parser::ModuleView;
use crate::slot;
use crate::slot::SlotTree;
use crate::walker::encoded;
use crate::walker::laws;
use crate::walker::model;
use crate::walker::model::{Stop, WalkView, MAX_LIST_DEPTH, MAX_RECURSION_DEPTH};
use crate::walker::relocation;

verus! {

// ---------------------------------------------------------------------------
// What stands around a walk
// ---------------------------------------------------------------------------

/// What stands around a walk.
pub struct Around {
    /// The HTML written before it.
    pub front: Seq<char>,
    /// The fallback lengths that wait below its own.
    pub below: Seq<usize>,
    /// The stray FALLBACKs before it.
    pub stray: nat,
    /// The LIST bodies it is in.
    pub lists: int,
    /// The levels of recursion it is in.
    pub levels: int,
}

/// A state with what stands around it.
pub open spec fn placed(s: WalkView, a: Around) -> WalkView {
    WalkView {
        out: a.front + s.out,
        fallback: a.below + s.fallback,
        stray: s.stray + a.stray,
        list_depth: s.list_depth + a.lists,
        ..s
    }
}

/// A limit on nesting was reached.
pub open spec fn limited(res: Result<WalkView, ErrorView>) -> bool {
    res == Err::<WalkView, ErrorView>(ErrorView::RecursionLimitExceeded) || res == Err::<
        WalkView,
        ErrorView,
    >(ErrorView::ListDepthExceeded { max: MAX_LIST_DEPTH })
}

/// The outcome is that of the walk on its own with what stands around it, unless
/// it stands deeper and reaches a limit there.
pub open spec fn same_around(
    res: Result<WalkView, ErrorView>,
    alone: WalkView,
    a: Around,
) -> bool {
    res == Ok::<WalkView, ErrorView>(placed(alone, a)) || ((a.lists > 0 || a.levels > 0)
        && limited(res))
}

/// The walk from `s` to `s2` does not take a fallback length from below its own.
pub open spec fn keeps_to_itself(s: WalkView, s2: WalkView, a: Around) -> bool {
    a.below.len() == 0 || s2.stray == s.stray
}

proof fn placed_emit(s: WalkView, more: Seq<char>, a: Around)
    ensures
        model::emit(placed(s, a), more) == placed(model::emit(s, more), a),
{
    assert((a.front + s.out) + more =~= a.front + (s.out + more));
}

proof fn placed_flushed(s: WalkView, a: Around)
    ensures
        model::flushed(placed(s, a)) == placed(model::flushed(s), a),
{
    assert((a.front + s.out) + ">"@ =~= a.front + (s.out + ">"@));
}

/// An outcome with what stands around it.
spec fn carried(res: Result<WalkView, ErrorView>, a: Around) -> Result<WalkView, ErrorView> {
    match res {
        Ok(s) => Ok(placed(s, a)),
        Err(e) => Err(e),
    }
}

proof fn tag_placed(m: ModuleView, s: WalkView, a: Around, p: int)
    ensures
        model::tag_effect(m, placed(s, a), p) == carried(model::tag_effect(m, s, p), a),
{
    if let Ok(s2) = model::tag_effect(m, s, p) {
        let t2 = model::tag_effect(m, placed(s, a), p)->Ok_0;
        assert(t2.out =~= a.front + s2.out);
    }
}

proof fn string_effects_placed(m: ModuleView, s: WalkView, a: Around, p: int)
    ensures
        model::close_tag_effect(m, placed(s, a), p) == carried(
            model::close_tag_effect(m, s, p),
            a,
        ),
        model::text_effect(m, placed(s, a), p) == carried(model::text_effect(m, s, p), a),
        model::comment_effect(m, placed(s, a), p) == carried(model::comment_effect(m, s, p), a),
        model::list_item_key_effect(m, placed(s, a), p) == carried(
            model::list_item_key_effect(m, s, p),
            a,
        ),
{
    if let Ok(words) = model::string_operand(m, p) {
        placed_emit(s, "</"@ + words + ">"@, a);
        placed_emit(s, crate::text::escaped_html(words), a);
        placed_emit(
            s,
            "<!--"@ + crate::text::pair_replaced(words, '-', '-', "&#45;&#45;"@) + "-->"@,
            a,
        );
    }
}

proof fn dyn_text_placed(m: ModuleView, s: WalkView, a: Around, p: int)
    ensures
        model::dyn_text_effect(m, placed(s, a), p) == carried(model::dyn_text_effect(m, s, p), a),
{
    if let Ok(slot_id) = bytes::u16_read(m.opcodes, p) {
        if let Ok(marker_id) = bytes::u16_read(m.opcodes, p + 2) {
            placed_emit(s, model::dyn_text_html(slot::slot_at(s.slots, slot_id), marker_id), a);
        }
    }
}

proof fn dyn_attr_placed(m: ModuleView, s: WalkView, a: Around, p: int)
    ensures
        model::dyn_attr_effect(m, placed(s, a), p) == carried(model::dyn_attr_effect(m, s, p), a),
{
    if let Ok(s2) = model::dyn_attr_effect(m, s, p) {
        let t2 = model::dyn_attr_effect(m, placed(s, a), p)->Ok_0;
        assert(t2.out =~= a.front + s2.out);
    }
}

proof fn island_placed(m: ModuleView, s: WalkView, a: Around, p: int)
    ensures
        model::island_start_effect(m, placed(s, a), p) == carried(
            model::island_start_effect(m, s, p),
            a,
        ),
        model::island_end_effect(m, placed(s, a), p) == carried(
            model::island_end_effect(m, s, p),
            a,
        ),
{
    if let Ok(id) = bytes::u16_read(m.opcodes, p) {
        placed_emit(s, model::marker("<!--f:i"@, id), a);
        placed_emit(s, model::marker("<!--/f:i"@, id), a);
    }
}

proof fn preload_placed(m: ModuleView, s: WalkView, a: Around, p: int)
    ensures
        model::preload_effect(m, placed(s, a), p) == carried(model::preload_effect(m, s, p), a),
{
    if let Ok(s2) = model::preload_effect(m, s, p) {
        let t2 = model::preload_effect(m, placed(s, a), p)->Ok_0;
        assert(t2.out =~= a.front + s2.out);
    }
}

proof fn try_placed(m: ModuleView, s: WalkView, a: Around, p: int)
    ensures
        model::try_start_effect(m, placed(s, a), p) == carried(
            model::try_start_effect(m, s, p),
            a,
        ),
        model::prop_effect(m, placed(s, a), p) == carried(model::prop_effect(m, s, p), a),
{
    if let Ok(len) = bytes::u32_read(m.opcodes, p) {
        assert((a.below + s.fallback).push(len as usize) =~= a.below + s.fallback.push(
            len as usize,
        ));
    }
}

proof fn fallback_placed(m: ModuleView, s: WalkView, a: Around, p: int)
    requires
        keeps_to_itself(s, model::fallback_effect(s), a),
    ensures
        model::fallback_effect(placed(s, a)) == placed(model::fallback_effect(s), a),
        model::after(m, placed(s, a), Opcode::Fallback, p) == model::after(
            m,
            s,
            Opcode::Fallback,
            p,
        ),
{
    let all = a.below + s.fallback;
    if s.fallback.len() > 0 {
        assert(all.drop_last() =~= a.below + s.fallback.drop_last());
        assert(all.last() == s.fallback.last());
    } else {
        assert(all =~= s.fallback);
    }
}

proof fn simple_effect_placed(
    m: ModuleView,
    s: WalkView,
    s2: WalkView,
    a: Around,
    op: Opcode,
    p: int,
    depth: int,
)
    requires
        m.opcodes.len() <= usize::MAX,
        op != Opcode::ShowIf,
        op != Opcode::Switch,
        op != Opcode::List,
        model::effect(m, s, op, p, depth) == Ok::<WalkView, ErrorView>(s2),
        keeps_to_itself(s, s2, a),
    ensures
        same_around(model::effect(m, placed(s, a), op, p, depth + a.levels), s2, a),
        model::after(m, placed(s, a), op, p) == model::after(m, s, op, p),
{
    if op == Opcode::Fallback {
        fallback_placed(m, s, a, p);
    } else if op == Opcode::TryStart || op == Opcode::Prop {
        try_placed(m, s, a, p);
    } else if op == Opcode::OpenTag || op == Opcode::VoidTag {
        tag_placed(m, s, a, p);
    } else if op == Opcode::DynText {
        dyn_text_placed(m, s, a, p);
    } else if op == Opcode::DynAttr {
        dyn_attr_placed(m, s, a, p);
    } else if op == Opcode::IslandStart || op == Opcode::IslandEnd {
        island_placed(m, s, a, p);
    } else if op == Opcode::Preload {
        preload_placed(m, s, a, p);
    } else if op != Opcode::ShowElse {
        string_effects_placed(m, s, a, p);
    }
}

proof fn show_if_placed(
    m: ModuleView,
    s: WalkView,
    s2: WalkView,
    a: Around,
    p: int,
    depth: int,
)
    requires
        m.opcodes.len() <= usize::MAX,
        depth <= MAX_RECURSION_DEPTH,
        depth + a.levels <= MAX_RECURSION_DEPTH,
        model::show_if_effect(m, s, p, depth) == Ok::<WalkView, ErrorView>(s2),
        keeps_to_itself(s, s2, a),
    ensures
        same_around(model::show_if_effect(m, placed(s, a), p, depth + a.levels), s2, a),
    decreases model::levels_left(depth), 0int, 0int,
{
    let (slot_id, then_len, else_len) = model::show_if_header(m.opcodes, p)->Ok_0;
    let (open, close) = (model::marker("<!--f:s"@, slot_id), model::marker("<!--/f:s"@, slot_id));
    let marked = model::emit(s, open);
    placed_emit(s, open, a);
    let split = model::then_end(p, then_len);
    let else_start = model::plus(split, 1);
    let else_end = model::plus(else_start, else_len as int);
    let (stop, at) = if slot::truthy(slot::slot_at(s.slots, slot_id)) {
        (Stop::At(split), p + 10)
    } else {
        (Stop::At(else_end), else_start)
    };
    let inner = model::run(m, stop, marked, at, depth + 1)->Ok_0;
    run_placed(m, stop, marked, inner, a, at, depth + 1);
    placed_emit(inner, close, a);
    assert(depth + 1 + a.levels == depth + a.levels + 1);
}

proof fn switch_placed(
    m: ModuleView,
    s: WalkView,
    s2: WalkView,
    a: Around,
    p: int,
    depth: int,
)
    requires
        m.opcodes.len() <= usize::MAX,
        depth <= MAX_RECURSION_DEPTH,
        depth + a.levels <= MAX_RECURSION_DEPTH,
        model::switch_effect(m, s, p, depth) == Ok::<WalkView, ErrorView>(s2),
        keeps_to_itself(s, s2, a),
    ensures
        same_around(model::switch_effect(m, placed(s, a), p, depth + a.levels), s2, a),
    decreases model::levels_left(depth), 0int, 0int,
{
    let (slot_id, cases) = model::switch_header(m.opcodes, p)->Ok_0;
    cases_placed(
        m,
        s,
        s2,
        a,
        cases,
        p + 4 + 8 * cases.len(),
        0,
        slot::slot_text(slot::slot_at(s.slots, slot_id)),
        depth + 1,
    );
    assert(depth + 1 + a.levels == depth + a.levels + 1);
}

proof fn list_placed(
    m: ModuleView,
    s: WalkView,
    s2: WalkView,
    a: Around,
    p: int,
    depth: int,
)
    requires
        m.opcodes.len() <= usize::MAX,
        depth <= MAX_RECURSION_DEPTH,
        depth + a.levels <= MAX_RECURSION_DEPTH,
        model::list_effect(m, s, p, depth) == Ok::<WalkView, ErrorView>(s2),
        keeps_to_itself(s, s2, a),
    ensures
        same_around(model::list_effect(m, placed(s, a), p, depth + a.levels), s2, a),
    decreases model::levels_left(depth), 0int, 0int,
{
    let (slot_id, item_slot_id, body_len) = model::list_header(m.opcodes, p)->Ok_0;
    let (open, close) = (model::marker("<!--f:l"@, slot_id), model::marker("<!--/f:l"@, slot_id));
    let marked = model::emit(s, open);
    placed_emit(s, open, a);
    let body_end = model::plus(p + 8, body_len as int);
    match slot::slot_at(s.slots, slot_id) {
        SlotTree::Array(items) => {
            if items.len() == 0 {
                placed_emit(marked, close, a);
            } else {
                let inside = WalkView { list_depth: s.list_depth + 1, ..marked };
                let inner = model::walk_items(
                    m,
                    inside,
                    s.slots,
                    item_slot_id,
                    items,
                    0,
                    p + 8,
                    body_end,
                    depth + 1,
                )->Ok_0;
                items_placed(
                    m,
                    inside,
                    inner,
                    a,
                    s.slots,
                    item_slot_id,
                    items,
                    0,
                    p + 8,
                    body_end,
                    depth + 1,
                );
                let outside = WalkView { list_depth: s.list_depth, slots: s.slots, ..inner };
                placed_emit(outside, close, a);
                let t = model::emit(placed(s, a), open);
                assert(placed(inside, a) == (WalkView {
                    list_depth: placed(s, a).list_depth + 1,
                    ..t
                }));
                assert(depth + 1 + a.levels == depth + a.levels + 1);
                assert(placed(outside, a) == (WalkView {
                    list_depth: placed(s, a).list_depth,
                    slots: s.slots,
                    ..placed(inner, a)
                }));
            }
        },
        _ => {
            placed_emit(marked, close, a);
        },
    }
}

proof fn effect_placed(
    m: ModuleView,
    s: WalkView,
    s2: WalkView,
    a: Around,
    op: Opcode,
    p: int,
    depth: int,
)
    requires
        m.opcodes.len() <= usize::MAX,
        model::effect(m, s, op, p, depth) == Ok::<WalkView, ErrorView>(s2),
        keeps_to_itself(s, s2, a),
    ensures
        same_around(model::effect(m, placed(s, a), op, p, depth + a.levels), s2, a),
        model::after(m, placed(s, a), op, p) == model::after(m, s, op, p),
    decreases model::levels_left(depth), 1int, 0int,
{
    if op == Opcode::ShowIf {
        if depth + a.levels <= MAX_RECURSION_DEPTH {
            show_if_placed(m, s, s2, a, p, depth);
        }
    } else if op == Opcode::Switch {
        if depth + a.levels <= MAX_RECURSION_DEPTH {
            switch_placed(m, s, s2, a, p, depth);
        }
    } else if op == Opcode::List {
        if depth + a.levels <= MAX_RECURSION_DEPTH {
            list_placed(m, s, s2, a, p, depth);
        }
    } else {
        simple_effect_placed(m, s, s2, a, op, p, depth);
    }
}

proof fn cases_placed(
    m: ModuleView,
    s: WalkView,
    s2: WalkView,
    a: Around,
    cases: Seq<(u32, u32)>,
    from: int,
    i: int,
    words: Seq<char>,
    depth: int,
)
    requires
        m.opcodes.len() <= usize::MAX,
        model::walk_cases(m, s, cases, from, i, words, depth) == Ok::<WalkView, ErrorView>(s2),
        keeps_to_itself(s, s2, a),
    ensures
        same_around(
            model::walk_cases(m, placed(s, a), cases, from, i, words, depth + a.levels),
            s2,
            a,
        ),
    decreases model::levels_left(depth), 3int, cases.len() - i,
{
    if 0 <= i < cases.len() {
        let value = parser::string_at(m.strings, cases[i].0)->Ok_0;
        if value == words {
            let stop = Stop::At(model::bodies_end(cases, from, (i + 1) as nat));
            let at = model::bodies_end(cases, from, i as nat);
            let s1 = model::run(m, stop, s, at, depth)->Ok_0;
            laws::run_keeps(m, stop, s, at, depth);
            laws::cases_keep(m, s1, cases, from, i + 1, words, depth);
            run_placed(m, stop, s, s1, a, at, depth);
            cases_placed(m, s1, s2, a, cases, from, i + 1, words, depth);
        } else {
            cases_placed(m, s, s2, a, cases, from, i + 1, words, depth);
        }
    }
}

proof fn items_placed(
    m: ModuleView,
    s: WalkView,
    s2: WalkView,
    a: Around,
    slots: Seq<SlotTree>,
    item_slot_id: u16,
    items: Seq<SlotTree>,
    i: int,
    body_start: int,
    body_end: int,
    depth: int,
)
    requires
        m.opcodes.len() <= usize::MAX,
        s.slots.len() == slots.len(),
        model::walk_items(m, s, slots, item_slot_id, items, i, body_start, body_end, depth)
            == Ok::<WalkView, ErrorView>(s2),
        keeps_to_itself(s, s2, a),
    ensures
        same_around(
            model::walk_items(
                m,
                placed(s, a),
                slots,
                item_slot_id,
                items,
                i,
                body_start,
                body_end,
                depth + a.levels,
            ),
            s2,
            a,
        ),
    decreases model::levels_left(depth), 3int, items.len() - i,
{
    if 0 <= i < items.len() {
        let shadow = WalkView { slots: slot::slot_set(slots, item_slot_id, items[i]), ..s };
        let s1 = model::run(m, Stop::At(body_end), shadow, body_start, depth)->Ok_0;
        laws::run_keeps(m, Stop::At(body_end), shadow, body_start, depth);
        laws::items_keep(m, s1, slots, item_slot_id, items, i + 1, body_start, body_end, depth);
        run_placed(m, Stop::At(body_end), shadow, s1, a, body_start, depth);
        items_placed(
            m,
            s1,
            s2,
            a,
            slots,
            item_slot_id,
            items,
            i + 1,
            body_start,
            body_end,
            depth,
        );
        assert(placed(shadow, a) == (WalkView { slots: shadow.slots, ..placed(s, a) }));
    }
}

/// A walk that succeeds on its own gives the same wherever it stands: the HTML
/// before it, the fallback lengths below its own, and the lists and levels that
/// it is in are carried through. Only a limit on nesting can stop it there, and
/// only where it stands deeper.
pub proof fn run_placed(
    m: ModuleView,
    stop: Stop,
    s: WalkView,
    s2: WalkView,
    a: Around,
    pos: int,
    depth: int,
)
    requires
        m.opcodes.len() <= usize::MAX,
        model::run(m, stop, s, pos, depth) == Ok::<WalkView, ErrorView>(s2),
        keeps_to_itself(s, s2, a),
    ensures
        same_around(model::run(m, stop, placed(s, a), pos, depth + a.levels), s2, a),
    decreases model::levels_left(depth), 2int, model::bytes_left(m.opcodes, pos),
{
    placed_flushed(s, a);
    if depth + a.levels <= MAX_RECURSION_DEPTH && !(stop matches Stop::At(end) && pos >= end) {
        let op = crate::format::opcode_of(m.opcodes[pos])->0;
        let ready = if op == Opcode::DynAttr {
            s
        } else {
            model::flushed(s)
        };
        let ends = op == Opcode::IslandEnd && stop is IslandEnd && bytes::u16_read(
            m.opcodes,
            pos + 1,
        ) == Ok::<u16, ErrorView>(stop->IslandEnd_0);
        if !ends {
            let s1 = model::effect(m, ready, op, pos + 1, depth)->Ok_0;
            let next = model::after(m, ready, op, pos + 1);
            model::after_is_behind(m, ready, op, pos + 1);
            laws::effect_keeps(m, ready, op, pos + 1, depth);
            laws::run_keeps(m, stop, s1, next, depth);
            effect_placed(m, ready, s1, a, op, pos + 1, depth);
            run_placed(m, stop, s1, s2, a, next, depth);
        }
    }
}

proof fn landing_counts_on(m: ModuleView, s: WalkView, pos: int, end: int, depth: int)
    requires
        m.opcodes.len() <= usize::MAX,
        relocation::landing(m, s, pos, end, depth) is Some,
    ensures
        s.stray <= relocation::landing(m, s, pos, end, depth)->0.stray,
    decreases model::bytes_left(m.opcodes, pos),
{
    relocation::landing_unfolds(m, s, pos, end, depth);
    if pos != end {
        let op = crate::format::opcode_of(m.opcodes[pos])->0;
        let ready = relocation::ready_for(op, s);
        let s1 = model::effect(m, ready, op, pos + 1, depth)->Ok_0;
        model::after_is_behind(m, ready, op, pos + 1);
        laws::effect_keeps(m, ready, op, pos + 1, depth);
        landing_counts_on(m, s1, model::after(m, ready, op, pos + 1), end, depth);
    }
}

/// A walk that lands on its own lands wherever it stands, as long as it does not
/// stand deeper.
pub proof fn landing_placed(
    m: ModuleView,
    s: WalkView,
    a: Around,
    pos: int,
    end: int,
    depth: int,
)
    requires
        m.opcodes.len() <= usize::MAX,
        end <= m.opcodes.len(),
        a.lists == 0,
        a.levels == 0,
        relocation::landing(m, s, pos, end, depth) matches Some(s2) && keeps_to_itself(s, s2, a),
    ensures
        relocation::landing(m, placed(s, a), pos, end, depth) == Some(
            placed(relocation::landing(m, s, pos, end, depth)->0, a),
        ),
    decreases model::bytes_left(m.opcodes, pos),
{
    relocation::landing_unfolds(m, s, pos, end, depth);
    if pos == end {
        relocation::landing_unfolds(m, placed(s, a), pos, end, depth);
    } else {
        let op = crate::format::opcode_of(m.opcodes[pos])->0;
        let ready = relocation::ready_for(op, s);
        let s1 = model::effect(m, ready, op, pos + 1, depth)->Ok_0;
        let next = model::after(m, ready, op, pos + 1);
        placed_flushed(s, a);
        assert(relocation::ready_for(op, placed(s, a)) == placed(ready, a));
        model::after_is_behind(m, ready, op, pos + 1);
        laws::effect_keeps(m, ready, op, pos + 1, depth);
        landing_counts_on(m, s1, next, end, depth);
        effect_placed(m, ready, s1, a, op, pos + 1, depth);
        relocation::landing_steps(m, placed(s, a), op, pos, end, depth);
        landing_placed(m, s1, a, next, end, depth);
    }
}

// ---------------------------------------------------------------------------
// The HTML of parts
// ---------------------------------------------------------------------------

/// The walk of a stream on its own, inside `lists` LIST bodies and `levels`
/// levels of recursion.
pub open spec fn walk_of(
    m: ModuleView,
    ops: Seq<u8>,
    slots: Seq<SlotTree>,
    lists: int,
    levels: int,
) -> Result<WalkView, ErrorView> {
    model::run(
        relocation::with_opcodes(m, ops),
        Stop::At(ops.len() as int),
        WalkView { list_depth: lists, ..model::start(slots) },
        0,
        levels,
    )
}

/// The state in which the walk of a stream on its own lands on the end of the
/// stream; none where the stream is not a run of complete opcodes.
pub open spec fn landed(m: ModuleView, ops: Seq<u8>, slots: Seq<SlotTree>) -> Option<WalkView> {
    relocation::landing(
        relocation::with_opcodes(m, ops),
        model::start(slots),
        0,
        ops.len() as int,
        0,
    )
}

/// The HTML of a stream on its own.
pub open spec fn html_alone(m: ModuleView, ops: Seq<u8>, slots: Seq<SlotTree>) -> Result<
    Seq<char>,
    ErrorView,
> {
    model::html_of(relocation::with_opcodes(m, ops), slots)
}

/// Nothing is left for what comes next: no island, no key and no fallback is
/// pending, and no props wait for the script tag.
pub open spec fn settled(s: WalkView) -> bool {
    &&& s.island is None
    &&& s.key is None
    &&& s.fallback.len() == 0
    &&& s.script.len() == 0
}

proof fn nothing_around(s: WalkView, a: Around)
    requires
        a.front.len() == 0,
        a.below.len() == 0,
        a.stray == 0,
    ensures
        placed(s, a) == (WalkView { list_depth: s.list_depth + a.lists, ..s }),
{
    assert(a.front + s.out =~= s.out);
    assert(a.below + s.fallback =~= s.fallback);
}

proof fn start_placed(s: WalkView, slots: Seq<SlotTree>, lists: int)
    requires
        s.slots == slots,
        settled(s),
        !s.tag_open,
        s.list_depth == lists,
    ensures
        s == placed(
            (WalkView { list_depth: lists, ..model::start(slots) }),
            (Around { front: s.out, below: Seq::empty(), stray: s.stray, lists: 0, levels: 0 }),
        ),
{
    assert(s.out + Seq::<char>::empty() =~= s.out);
    assert(Seq::<usize>::empty() + Seq::<usize>::empty() =~= s.fallback);
    assert(s.script =~= Seq::empty());
}

/// A stream that is walked inside lists and levels of recursion is walked as on its
/// own, unless it reaches a limit on nesting there.
pub proof fn deeper_walk_is_the_same(
    m: ModuleView,
    ops: Seq<u8>,
    slots: Seq<SlotTree>,
    lists: int,
    levels: int,
)
    requires
        ops.len() <= usize::MAX,
        lists >= 0,
        levels >= 0,
        walk_of(m, ops, slots, 0, 0) is Ok,
    ensures
        limited(walk_of(m, ops, slots, lists, levels)) || walk_of(m, ops, slots, lists, levels)
            == Ok::<WalkView, ErrorView>(
            (WalkView { list_depth: lists, ..walk_of(m, ops, slots, 0, 0)->Ok_0 }),
        ),
{
    let r = walk_of(m, ops, slots, 0, 0)->Ok_0;
    let part = relocation::with_opcodes(m, ops);
    let stop = Stop::At(ops.len() as int);
    let s = WalkView { list_depth: 0, ..model::start(slots) };
    let a = Around { front: Seq::empty(), below: Seq::empty(), stray: 0, lists, levels };
    laws::run_keeps(part, stop, s, 0, 0);
    run_placed(part, stop, s, r, a, 0, 0);
    nothing_around(s, a);
    nothing_around(r, a);
}

proof fn own_html(m: ModuleView, ops: Seq<u8>, slots: Seq<SlotTree>)
    requires
        walk_of(m, ops, slots, 0, 0) matches Ok(r) && r.script.len() == 0,
    ensures
        html_alone(m, ops, slots) == Ok::<Seq<char>, ErrorView>(
            walk_of(m, ops, slots, 0, 0)->Ok_0.out,
        ),
{
    let r = walk_of(m, ops, slots, 0, 0)->Ok_0;
    assert(r.out + Seq::<char>::empty() =~= r.out);
}

/// A SHOW_IF renders as the HTML of the branch that the slot's truthiness picks,
/// between its markers, whatever the other branch holds. The branch leaves no props
/// for the script tag, and does not reach a limit on nesting one level deeper.
pub proof fn show_if_html(
    m: ModuleView,
    slots: Seq<SlotTree>,
    slot_id: u16,
    then_ops: Seq<u8>,
    else_ops: Seq<u8>,
)
    requires
        m.opcodes == test_helpers::show_if_bytes(slot_id, then_ops, else_ops),
        m.opcodes.len() <= usize::MAX,
        then_ops.len() < 0x1_0000_0000,
        else_ops.len() < 0x1_0000_0000,
        walk_of(
            m,
            encoded::picked(model::start(slots), slot_id, then_ops, else_ops),
            slots,
            0,
            0,
        ) matches Ok(r) && r.script.len() == 0,
        !limited(
            walk_of(
                m,
                encoded::picked(model::start(slots), slot_id, then_ops, else_ops),
                slots,
                0,
                1,
            ),
        ),
    ensures
        html_alone(
            m,
            encoded::picked(model::start(slots), slot_id, then_ops, else_ops),
            slots,
        ) matches Ok(html) && model::html_of(m, slots) == Ok::<Seq<char>, ErrorView>(
            model::marker("<!--f:s"@, slot_id) + html + model::marker("<!--/f:s"@, slot_id),
        ),
{
    let s = model::start(slots);
    let branch = encoded::picked(s, slot_id, then_ops, else_ops);
    let part = relocation::with_opcodes(m, branch);
    let stop = Stop::At(branch.len() as int);
    let r = walk_of(m, branch, slots, 0, 0)->Ok_0;
    let (open, close) = (model::marker("<!--f:s"@, slot_id), model::marker("<!--/f:s"@, slot_id));
    test_helpers::stands_whole(m.opcodes);
    assert(branch.len() <= m.opcodes.len()) by {
        branch_is_shorter(slot_id, then_ops, else_ops);
    }
    own_html(m, branch, slots);
    deeper_walk_is_the_same(m, branch, slots, 0, 1);
    laws::run_keeps(part, stop, s, 0, 0);
    assert(walk_of(m, branch, slots, 0, 1) == Ok::<WalkView, ErrorView>(r));
    let marked = model::emit(s, open);
    let a = Around { front: open, below: Seq::empty(), stray: 0, lists: 0, levels: 0 };
    assert(marked.out =~= open);
    start_placed(marked, slots, 0);
    run_placed(part, stop, s, r, a, 0, 1);
    laws::run_keeps(part, stop, s, 0, 1);
    encoded::encoded_show_if_renders_branch(m, slot_id, then_ops, else_ops, 0, s, 0);
    branch_is_shorter(slot_id, then_ops, else_ops);
    let n = m.opcodes.len() as int;
    encoded::run_steps(m, s, Opcode::ShowIf, 0, n, 0);
    let done = model::emit(placed(r, a), close);
    assert(model::run(m, Stop::At(n), done, n, 0) == Ok::<WalkView, ErrorView>(done));
    assert(done.out + model::script_html(done.script) =~= open + r.out + close);
}

proof fn branch_is_shorter(slot_id: u16, then_ops: Seq<u8>, else_ops: Seq<u8>)
    ensures
        test_helpers::show_if_bytes(slot_id, then_ops, else_ops).len() == 12 + then_ops.len()
            + else_ops.len(),
{
    let a = bytes::u16_bytes(slot_id);
    let b = bytes::u32_bytes(test_helpers::low32(then_ops.len()));
    let c = bytes::u32_bytes(test_helpers::low32(else_ops.len()));
    assert(a.len() == 2 && b.len() == 4 && c.len() == 4);
}

/// The main body of a TRY is always rendered and the fallback always skipped: the
/// HTML is that of the main body on its own, whatever bytes the fallback holds.
/// The main body is a run of complete opcodes in which every TRY_START has its
/// FALLBACK.
pub proof fn try_html(
    m: ModuleView,
    slots: Seq<SlotTree>,
    main_ops: Seq<u8>,
    fallback_ops: Seq<u8>,
)
    requires
        m.opcodes == test_helpers::try_bytes(main_ops, fallback_ops),
        m.opcodes.len() <= usize::MAX,
        fallback_ops.len() < 0x1_0000_0000,
        landed(m, main_ops, slots) matches Some(r) && r.fallback.len() == 0 && r.stray == 0,
    ensures
        html_alone(m, main_ops, slots) is Ok,
        model::html_of(m, slots) == html_alone(m, main_ops, slots),
{
    let s = model::start(slots);
    let part = relocation::with_opcodes(m, main_ops);
    let n = main_ops.len() as int;
    let len = fallback_ops.len() as usize;
    let r = landed(m, main_ops, slots)->0;
    assert(n <= m.opcodes.len());
    let a = Around { front: Seq::empty(), below: seq![len], stray: 0, lists: 0, levels: 0 };
    landing_placed(part, s, a, 0, n, 0);
    assert(placed(s, a) == encoded::try_entered(s, fallback_ops.len())) by {
        assert(a.front + s.out =~= s.out);
        assert(a.below + s.fallback =~= s.fallback.push(len));
    }
    assert(placed(r, a).fallback =~= s.fallback.push(len));
    assert(placed(r, a).out =~= r.out);
    test_helpers::stands_whole(m.opcodes);
    encoded::encoded_try_renders_main(m, main_ops, fallback_ops, 0, s, 0);
    relocation::landing_ends_walk(m, s, 0, m.opcodes.len() as int, 0);
    relocation::landing_ends_walk(part, s, 0, n, 0);
}

/// Streams one behind the other render as their HTML one behind the other: where
/// the first is a run of complete opcodes that leaves the slots as they were and
/// nothing pending, and the second does not add to the tag that the first left
/// open, the HTML of both is the HTML of each, joined.
pub proof fn concatenated_html(
    m: ModuleView,
    slots: Seq<SlotTree>,
    first: Seq<u8>,
    second: Seq<u8>,
)
    requires
        m.opcodes == first + second,
        m.opcodes.len() <= usize::MAX,
        landed(m, first, slots) matches Some(r) && settled(r) && r.slots == slots,
        second.len() > 0 ==> crate::format::opcode_of(second[0]) != Some(Opcode::DynAttr),
        html_alone(m, second, slots) is Ok,
    ensures
        html_alone(m, first, slots) matches Ok(a) && model::html_of(m, slots) == Ok::<
            Seq<char>,
            ErrorView,
        >(a + html_alone(m, second, slots)->Ok_0),
{
    let s = model::start(slots);
    let (one, two) = (
        relocation::with_opcodes(m, first),
        relocation::with_opcodes(m, second),
    );
    let (n, k) = (first.len() as int, second.len() as int);
    let r = landed(m, first, slots)->0;
    relocation::landing_ends_walk(one, s, 0, n, 0);
    laws::run_keeps(one, Stop::At(n), s, 0, 0);
    let f = model::flushed(r);
    assert(f.out + Seq::<char>::empty() =~= f.out);
    // The second stream closes the open tag first, so it starts like a walk of
    // its own behind the HTML of the first.
    assert(model::flushed(f) == f);
    assert(model::run(two, Stop::At(k), r, 0, 0) == model::run(two, Stop::At(k), f, 0, 0));
    let r2 = model::run(two, Stop::At(k), s, 0, 0)->Ok_0;
    let a = Around { front: f.out, below: Seq::empty(), stray: f.stray, lists: 0, levels: 0 };
    start_placed(f, slots, 0);
    run_placed(two, Stop::At(k), s, r2, a, 0, 0);
    relocation::concatenation_walks_in_turn(m, first, second, s, 0);
    assert(relocation::with_opcodes(m, first + second) == m);
    assert(placed(r2, a).out + model::script_html(r2.script) =~= f.out + (r2.out
        + model::script_html(r2.script)));
}

// ---------------------------------------------------------------------------
// Lists
// ---------------------------------------------------------------------------

/// The slots that a list's body is walked over for an item.
pub open spec fn item_slots(slots: Seq<SlotTree>, item_slot_id: u16, item: SlotTree) -> Seq<
    SlotTree,
> {
    slot::slot_set(slots, item_slot_id, item)
}

/// A body can be walked inside a list: it is walked on its own and leaves nothing
/// for the next item, and it does not reach a limit on nesting one list and one
/// level deeper.
pub open spec fn fits_list(m: ModuleView, body: Seq<u8>, slots: Seq<SlotTree>) -> bool {
    &&& walk_of(m, body, slots, 0, 0) matches Ok(r)
    &&& settled(r)
    &&& !limited(walk_of(m, body, slots, 1, 1))
}

/// The HTML of a list's body on its own for each item from number `i` on, joined.
pub open spec fn items_html(
    m: ModuleView,
    slots: Seq<SlotTree>,
    item_slot_id: u16,
    items: Seq<SlotTree>,
    body: Seq<u8>,
    i: int,
) -> Seq<char>
    decreases items.len() - i,
{
    if i < 0 || i >= items.len() {
        Seq::empty()
    } else {
        html_alone(m, body, item_slots(slots, item_slot_id, items[i]))->Ok_0 + items_html(
            m,
            slots,
            item_slot_id,
            items,
            body,
            i + 1,
        )
    }
}

proof fn items_join(
    m: ModuleView,
    s: WalkView,
    slots: Seq<SlotTree>,
    item_slot_id: u16,
    items: Seq<SlotTree>,
    body: Seq<u8>,
    i: int,
)
    requires
        body.len() <= usize::MAX,
        settled(s),
        !s.tag_open,
        s.list_depth == 1,
        0 <= i,
        forall|k: int|
            0 <= k < items.len() ==> fits_list(
                m,
                body,
                item_slots(slots, item_slot_id, #[trigger] items[k]),
            ),
    ensures
        model::walk_items(
            relocation::with_opcodes(m, body),
            s,
            slots,
            item_slot_id,
            items,
            i,
            0,
            body.len() as int,
            1,
        ) matches Ok(s2) && settled(s2) && !s2.tag_open && s2.out == s.out + items_html(
            m,
            slots,
            item_slot_id,
            items,
            body,
            i,
        ),
    decreases items.len() - i,
{
    if i < items.len() {
        let part = relocation::with_opcodes(m, body);
        let stop = Stop::At(body.len() as int);
        let own = item_slots(slots, item_slot_id, items[i]);
        assert(fits_list(m, body, own));
        let r = walk_of(m, body, own, 1, 1)->Ok_0;
        own_html(m, body, own);
        deeper_walk_is_the_same(m, body, own, 1, 1);
        let begin = WalkView { list_depth: 1, ..model::start(own) };
        let shadow = WalkView { slots: own, ..s };
        let a = Around { front: s.out, below: Seq::empty(), stray: s.stray, lists: 0, levels: 0 };
        start_placed(shadow, own, 1);
        run_placed(part, stop, begin, r, a, 0, 1);
        laws::run_keeps(part, stop, begin, 0, 1);
        let next = placed(r, a);
        assert(next.fallback =~= Seq::empty());
        items_join(m, next, slots, item_slot_id, items, body, i + 1);
        assert((s.out + r.out) + items_html(m, slots, item_slot_id, items, body, i + 1) =~= s.out
            + (r.out + items_html(m, slots, item_slot_id, items, body, i + 1)));
    } else {
        assert(s.out + Seq::<char>::empty() =~= s.out);
    }
}

proof fn list_len(slot_id: u16, item_slot_id: u16, body: Seq<u8>)
    ensures
        test_helpers::list_bytes(slot_id, item_slot_id, body).len() == 9 + body.len(),
{
    let c = bytes::u32_bytes(test_helpers::low32(body.len()));
    assert(bytes::u16_bytes(slot_id).len() == 2 && bytes::u16_bytes(item_slot_id).len() == 2
        && c.len() == 4);
}

/// A LIST renders as the HTML of its items, in order and none skipped, between
/// its markers: the HTML of each is that of the body on its own, over slots in
/// which the item's slot holds the item.
pub proof fn list_html(
    m: ModuleView,
    slots: Seq<SlotTree>,
    slot_id: u16,
    item_slot_id: u16,
    items: Seq<SlotTree>,
    body: Seq<u8>,
)
    requires
        m.opcodes == test_helpers::list_bytes(slot_id, item_slot_id, body),
        m.opcodes.len() <= usize::MAX,
        body.len() < 0x1_0000_0000,
        slot::slot_at(slots, slot_id) == SlotTree::Array(items),
        forall|k: int|
            0 <= k < items.len() ==> fits_list(
                m,
                body,
                item_slots(slots, item_slot_id, #[trigger] items[k]),
            ),
    ensures
        forall|k: int|
            0 <= k < items.len() ==> html_alone(
                m,
                body,
                item_slots(slots, item_slot_id, #[trigger] items[k]),
            ) is Ok,
        model::html_of(m, slots) == Ok::<Seq<char>, ErrorView>(
            model::marker("<!--f:l"@, slot_id) + items_html(
                m,
                slots,
                item_slot_id,
                items,
                body,
                0,
            ) + model::marker("<!--/f:l"@, slot_id),
        ),
{
    let s = model::start(slots);
    let (open, close) = (model::marker("<!--f:l"@, slot_id), model::marker("<!--/f:l"@, slot_id));
    let all = items_html(m, slots, item_slot_id, items, body, 0);
    list_len(slot_id, item_slot_id, body);
    assert forall|k: int| 0 <= k < items.len() implies html_alone(
        m,
        body,
        item_slots(slots, item_slot_id, #[trigger] items[k]),
    ) is Ok by {
        own_html(m, body, item_slots(slots, item_slot_id, items[k]));
    }
    if items.len() == 0 {
        list_without_items_html(m, slots, slot_id, item_slot_id, body);
        assert(open + all + close =~= open + close);
    } else {
        let n = m.opcodes.len() as int;
        let entered = encoded::list_entered(s, slot_id);
        test_helpers::stands_whole(m.opcodes);
        items_join(m, entered, slots, item_slot_id, items, body, 0);
        encoded::encoded_list_renders_items(m, slot_id, item_slot_id, items, body, 0, s, 0);
        encoded::run_steps(m, s, Opcode::List, 0, n, 0);
        let walked = encoded::items_alone(m, s, slot_id, item_slot_id, items, body, 1)->Ok_0;
        let done = model::emit(WalkView { list_depth: 0, slots, ..walked }, close);
        assert(model::run(m, Stop::At(n), done, n, 0) == Ok::<WalkView, ErrorView>(done));
        assert(done.out + model::script_html(done.script) =~= open + all + close);
    }
}

/// A LIST over anything but an array with items renders as its markers alone.
pub proof fn list_without_items_html(
    m: ModuleView,
    slots: Seq<SlotTree>,
    slot_id: u16,
    item_slot_id: u16,
    body: Seq<u8>,
)
    requires
        m.opcodes == test_helpers::list_bytes(slot_id, item_slot_id, body),
        m.opcodes.len() <= usize::MAX,
        body.len() < 0x1_0000_0000,
        slot::slot_at(slots, slot_id) matches SlotTree::Array(items) ==> items.len() == 0,
    ensures
        model::html_of(m, slots) == Ok::<Seq<char>, ErrorView>(
            model::marker("<!--f:l"@, slot_id) + model::marker("<!--/f:l"@, slot_id),
        ),
{
    let s = model::start(slots);
    let (open, close) = (model::marker("<!--f:l"@, slot_id), model::marker("<!--/f:l"@, slot_id));
    let n = m.opcodes.len() as int;
    list_len(slot_id, item_slot_id, body);
    test_helpers::stands_whole(m.opcodes);
    encoded::encoded_list_without_items(m, slot_id, item_slot_id, body, 0, s, 0);
    encoded::run_steps(m, s, Opcode::List, 0, n, 0);
    let done = model::emit(model::emit(s, open), close);
    assert(model::run(m, Stop::At(n), done, n, 0) == Ok::<WalkView, ErrorView>(done));
    assert(done.out + model::script_html(done.script) =~= open + close);
}

// ---------------------------------------------------------------------------
// SWITCH
// ---------------------------------------------------------------------------

/// The value of every case is in the string table.
pub open spec fn values_in_table(m: ModuleView, cases: Seq<(u32, Seq<u8>)>) -> bool {
    forall|k: int| 0 <= k < cases.len() ==> (#[trigger] cases[k]).0 < m.strings.len()
}

/// The value of a case.
pub open spec fn case_value(m: ModuleView, case: (u32, Seq<u8>)) -> Seq<char> {
    m.strings[case.0 as int]
}

/// The text that the cases of a SWITCH are held against.
pub open spec fn switch_text(slots: Seq<SlotTree>, slot_id: u16) -> Seq<char> {
    slot::slot_text(slot::slot_at(slots, slot_id))
}

proof fn cases_passed_over(
    m: ModuleView,
    s: WalkView,
    cases: Seq<(u32, Seq<u8>)>,
    from: int,
    to: int,
    words: Seq<char>,
    depth: int,
)
    requires
        values_in_table(m, cases),
        0 <= from <= to <= cases.len(),
        forall|k: int| from <= k < to ==> case_value(m, #[trigger] cases[k]) != words,
    ensures
        encoded::cases_alone(m, s, cases, from, words, depth) == encoded::cases_alone(
            m,
            s,
            cases,
            to,
            words,
            depth,
        ),
    decreases to - from,
{
    if from < to {
        assert(case_value(m, cases[from]) != words);
        cases_passed_over(m, s, cases, from + 1, to, words, depth);
    }
}

proof fn switch_ends(
    m: ModuleView,
    slots: Seq<SlotTree>,
    slot_id: u16,
    cases: Seq<(u32, Seq<u8>)>,
    r: WalkView,
)
    requires
        m.opcodes == test_helpers::switch_bytes(slot_id, cases),
        m.opcodes.len() <= usize::MAX,
        encoded::cases_fit(cases),
        encoded::cases_alone(m, model::start(slots), cases, 0, switch_text(slots, slot_id), 1)
            == Ok::<WalkView, ErrorView>(r),
        !r.tag_open,
    ensures
        model::html_of(m, slots) == Ok::<Seq<char>, ErrorView>(
            r.out + model::script_html(r.script),
        ),
{
    let s = model::start(slots);
    let n = m.opcodes.len() as int;
    test_helpers::stands_whole(m.opcodes);
    encoded::encoded_switch_renders_cases(m, slot_id, cases, 0, s, 0);
    assert(0 < n);
    encoded::run_steps(m, s, Opcode::Switch, 0, n, 0);
    assert(model::run(m, Stop::At(n), r, n, 0) == Ok::<WalkView, ErrorView>(r));
}

proof fn case_is_shorter(slot_id: u16, cases: Seq<(u32, Seq<u8>)>, i: int)
    requires
        0 <= i < cases.len(),
    ensures
        cases[i].1.len() <= test_helpers::switch_bytes(slot_id, cases).len(),
{
    body_is_shorter(cases, i);
}

proof fn body_is_shorter(cases: Seq<(u32, Seq<u8>)>, i: int)
    requires
        0 <= i < cases.len(),
    ensures
        cases[i].1.len() <= test_helpers::case_bodies(cases).len(),
    decreases cases.len(),
{
    if i < cases.len() - 1 {
        body_is_shorter(cases.drop_last(), i);
        assert(cases.drop_last()[i] == cases[i]);
    }
}

/// A SWITCH of which one case matches renders as the HTML of that case's body on its
/// own, whatever the other bodies hold. The body does not reach a limit on nesting
/// one level deeper.
pub proof fn switch_html(
    m: ModuleView,
    slots: Seq<SlotTree>,
    slot_id: u16,
    cases: Seq<(u32, Seq<u8>)>,
    i: int,
)
    requires
        m.opcodes == test_helpers::switch_bytes(slot_id, cases),
        m.opcodes.len() <= usize::MAX,
        encoded::cases_fit(cases),
        values_in_table(m, cases),
        0 <= i < cases.len(),
        case_value(m, cases[i]) == switch_text(slots, slot_id),
        forall|k: int|
            0 <= k < cases.len() && k != i ==> case_value(m, #[trigger] cases[k]) != switch_text(
                slots,
                slot_id,
            ),
        walk_of(m, cases[i].1, slots, 0, 0) is Ok,
        !limited(walk_of(m, cases[i].1, slots, 0, 1)),
    ensures
        html_alone(m, cases[i].1, slots) is Ok,
        model::html_of(m, slots) == html_alone(m, cases[i].1, slots),
{
    let s = model::start(slots);
    let words = switch_text(slots, slot_id);
    let body = cases[i].1;
    let part = relocation::with_opcodes(m, body);
    let r = walk_of(m, body, slots, 0, 0)->Ok_0;
    case_is_shorter(slot_id, cases, i);
    laws::run_keeps(part, Stop::At(body.len() as int), s, 0, 0);
    deeper_walk_is_the_same(m, body, slots, 0, 1);
    assert(walk_of(m, body, slots, 0, 1) == Ok::<WalkView, ErrorView>(r));
    cases_passed_over(m, s, cases, 0, i, words, 1);
    cases_passed_over(m, r, cases, i + 1, cases.len() as int, words, 1);
    switch_ends(m, slots, slot_id, cases, r);
}

/// A SWITCH of which no case matches renders as nothing.
pub proof fn switch_without_match_html(
    m: ModuleView,
    slots: Seq<SlotTree>,
    slot_id: u16,
    cases: Seq<(u32, Seq<u8>)>,
)
    requires
        m.opcodes == test_helpers::switch_bytes(slot_id, cases),
        m.opcodes.len() <= usize::MAX,
        encoded::cases_fit(cases),
        values_in_table(m, cases),
        forall|k: int|
            0 <= k < cases.len() ==> case_value(m, #[trigger] cases[k]) != switch_text(
                slots,
                slot_id,
            ),
    ensures
        model::html_of(m, slots) == Ok::<Seq<char>, ErrorView>(Seq::empty()),
{
    let s = model::start(slots);
    cases_passed_over(m, s, cases, 0, cases.len() as int, switch_text(slots, slot_id), 1);
    switch_ends(m, slots, slot_id, cases, s);
    assert(s.out + model::script_html(s.script) =~= Seq::empty());
}

/// The HTML of the bodies of the matching cases from number `i` on, each on its own,
/// joined.
pub open spec fn matching_html(
    m: ModuleView,
    slots: Seq<SlotTree>,
    cases: Seq<(u32, Seq<u8>)>,
    words: Seq<char>,
    i: int,
) -> Seq<char>
    decreases cases.len() - i,
{
    if i < 0 || i >= cases.len() {
        Seq::empty()
    } else if case_value(m, cases[i]) == words {
        html_alone(m, cases[i].1, slots)->Ok_0 + matching_html(m, slots, cases, words, i + 1)
    } else {
        matching_html(m, slots, cases, words, i + 1)
    }
}

/// A body can be walked before others in a SWITCH: it is walked on its own, leaves
/// the slots as they were and nothing for the next, and does not reach a limit on
/// nesting one level deeper.
pub open spec fn fits_switch(m: ModuleView, body: Seq<u8>, slots: Seq<SlotTree>) -> bool {
    &&& walk_of(m, body, slots, 0, 0) matches Ok(r)
    &&& settled(r)
    &&& r.slots == slots
    &&& !limited(walk_of(m, body, slots, 0, 1))
}

proof fn cases_join(
    m: ModuleView,
    s: WalkView,
    slots: Seq<SlotTree>,
    cases: Seq<(u32, Seq<u8>)>,
    words: Seq<char>,
    i: int,
)
    requires
        values_in_table(m, cases),
        forall|k: int| 0 <= k < cases.len() ==> (#[trigger] cases[k]).1.len() <= usize::MAX,
        forall|k: int|
            0 <= k < cases.len() && case_value(m, #[trigger] cases[k]) == words ==> fits_switch(
                m,
                cases[k].1,
                slots,
            ),
        settled(s),
        !s.tag_open,
        s.list_depth == 0,
        s.slots == slots,
        0 <= i,
    ensures
        encoded::cases_alone(m, s, cases, i, words, 1) matches Ok(s2) && settled(s2)
            && !s2.tag_open && s2.out == s.out + matching_html(m, slots, cases, words, i),
    decreases cases.len() - i,
{
    if i < cases.len() {
        let body = cases[i].1;
        assert(cases[i].0 < m.strings.len() && body.len() <= usize::MAX);
        if case_value(m, cases[i]) == words {
            let part = relocation::with_opcodes(m, body);
            let stop = Stop::At(body.len() as int);
            let begin = model::start(slots);
            let r = walk_of(m, body, slots, 0, 0)->Ok_0;
            assert(fits_switch(m, body, slots));
            own_html(m, body, slots);
            laws::run_keeps(part, stop, begin, 0, 0);
            deeper_walk_is_the_same(m, body, slots, 0, 1);
            let a = Around {
                front: s.out,
                below: Seq::empty(),
                stray: s.stray,
                lists: 0,
                levels: 0,
            };
            start_placed(s, slots, 0);
            run_placed(part, stop, begin, r, a, 0, 1);
            let next = placed(r, a);
            assert(next.fallback =~= Seq::empty());
            cases_join(m, next, slots, cases, words, i + 1);
            let rest = matching_html(m, slots, cases, words, i + 1);
            assert((s.out + r.out) + rest =~= s.out + (r.out + rest));
        } else {
            cases_join(m, s, slots, cases, words, i + 1);
        }
    } else {
        assert(s.out + Seq::<char>::empty() =~= s.out);
    }
}

/// A SWITCH renders as the HTML of the bodies of all matching cases, each on its own,
/// in order and joined.
pub proof fn switch_joined_html(
    m: ModuleView,
    slots: Seq<SlotTree>,
    slot_id: u16,
    cases: Seq<(u32, Seq<u8>)>,
)
    requires
        m.opcodes == test_helpers::switch_bytes(slot_id, cases),
        m.opcodes.len() <= usize::MAX,
        encoded::cases_fit(cases),
        values_in_table(m, cases),
        forall|k: int|
            0 <= k < cases.len() && case_value(m, #[trigger] cases[k]) == switch_text(slots, slot_id)
                ==> fits_switch(m, cases[k].1, slots),
    ensures
        model::html_of(m, slots) == Ok::<Seq<char>, ErrorView>(
            matching_html(m, slots, cases, switch_text(slots, slot_id), 0),
        ),
{
    let s = model::start(slots);
    let words = switch_text(slots, slot_id);
    assert forall|k: int| 0 <= k < cases.len() implies (#[trigger] cases[k]).1.len()
        <= usize::MAX by {
        case_is_shorter(slot_id, cases, k);
    }
    cases_join(m, s, slots, cases, words, 0);
    let r = encoded::cases_alone(m, s, cases, 0, words, 1)->Ok_0;
    switch_ends(m, slots, slot_id, cases, r);
    assert(r.out + model::script_html(r.script) =~= matching_html(m, slots, cases, words, 0));
}

// ---------------------------------------------------------------------------
// Islands
// ---------------------------------------------------------------------------

/// An island in the stream: its ISLAND_START, its content and its ISLAND_END.
pub open spec fn island_block(id: u16, content: Seq<u8>) -> Seq<u8> {
    seq![0x0Bu8] + bytes::u16_bytes(id) + content + (seq![0x0Cu8] + bytes::u16_bytes(id))
}

proof fn comes_to_steps(
    m: ModuleView,
    id: u16,
    s: WalkView,
    op: Opcode,
    pos: int,
    q: int,
    depth: int,
)
    requires
        m.opcodes.len() <= usize::MAX,
        pos < q,
        pos < m.opcodes.len(),
        crate::format::opcode_of(m.opcodes[pos]) == Some(op),
        model::effect(m, relocation::ready_for(op, s), op, pos + 1, depth) is Ok,
    ensures
        laws::comes_to(m, id, s, pos, q, depth) == (!laws::island_end_at(m, id, pos)
            && laws::comes_to(
            m,
            id,
            model::effect(m, relocation::ready_for(op, s), op, pos + 1, depth)->Ok_0,
            model::after(m, relocation::ready_for(op, s), op, pos + 1),
            q,
            depth,
        )),
{
}

proof fn no_end_in_place(
    whole: ModuleView,
    part: ModuleView,
    off: int,
    id: u16,
    s: WalkView,
    op: Opcode,
    pos: int,
    depth: int,
)
    requires
        relocation::embeds(whole, part, off),
        0 <= pos < part.opcodes.len(),
        crate::format::opcode_of(part.opcodes[pos]) == Some(op),
        model::effect(part, s, op, pos + 1, depth) is Ok,
        !laws::island_end_at(part, id, pos),
    ensures
        !laws::island_end_at(whole, id, off + pos),
{
    assert(part.opcodes[pos] == whole.opcodes[off + pos]);
    if op == Opcode::IslandEnd {
        assert(bytes::u16_read(part.opcodes, pos + 1) is Ok);
        assert(part.opcodes[pos + 1] == whole.opcodes[off + (pos + 1)]);
        assert(part.opcodes[pos + 2] == whole.opcodes[off + (pos + 2)]);
    }
}

#[verifier::spinoff_prover]
#[verifier::rlimit(40)]
proof fn comes_to_in_place(
    whole: ModuleView,
    part: ModuleView,
    off: int,
    id: u16,
    s: WalkView,
    pos: int,
    depth: int,
)
    requires
        relocation::embeds(whole, part, off),
        0 <= pos <= part.opcodes.len(),
        relocation::landing(part, s, pos, part.opcodes.len() as int, depth) is Some,
        laws::comes_to(part, id, s, pos, part.opcodes.len() as int, depth),
    ensures
        laws::comes_to(whole, id, s, off + pos, off + part.opcodes.len(), depth),
    decreases model::bytes_left(part.opcodes, pos),
{
    let end = part.opcodes.len() as int;
    relocation::landing_unfolds(part, s, pos, end, depth);
    if pos < end {
        let op = crate::format::opcode_of(part.opcodes[pos])->0;
        let ready = relocation::ready_for(op, s);
        let s2 = model::effect(part, ready, op, pos + 1, depth)->Ok_0;
        let next = model::after(part, ready, op, pos + 1);
        assert(part.opcodes[pos] == whole.opcodes[off + pos]);
        model::after_is_behind(part, ready, op, pos + 1);
        relocation::landing_unfolds(part, s2, next, end, depth);
        comes_to_steps(part, id, s, op, pos, end, depth);
        no_end_in_place(whole, part, off, id, ready, op, pos, depth);
        relocation::effects_agree(whole, part, off, ready, op, pos + 1, depth);
        assert(off + (pos + 1) == (off + pos) + 1);
        assert(model::after(whole, ready, op, off + pos + 1) == off + next);
        comes_to_steps(whole, id, s, op, off + pos, off + end, depth);
        comes_to_in_place(whole, part, off, id, s2, next, depth);
    }
}

proof fn island_parts_stand(m: ModuleView, id: u16, content: Seq<u8>, offset: int)
    requires
        encoded::stands(m, island_block(id, content), offset),
    ensures
        0 <= offset,
        offset + 6 + content.len() <= m.opcodes.len(),
        crate::format::opcode_of(m.opcodes[offset]) == Some(Opcode::IslandStart),
        encoded::stands(m, content, offset + 3),
        laws::island_end_at(m, id, offset + 3 + content.len()),
{
    let (mark, close) = (bytes::u16_bytes(id), seq![0x0Cu8] + bytes::u16_bytes(id));
    let open = seq![0x0Bu8] + mark;
    assert(mark.len() == 2);
    test_helpers::stands_in_parts(m.opcodes, open + content, close, offset);
    test_helpers::stands_in_parts(m.opcodes, open, content, offset);
    encoded::opcode_stands(m, 0x0B, mark, offset);
    encoded::opcode_stands(m, 0x0C, mark, offset + 3 + content.len());
    encoded::u16_stands(m.opcodes, id, offset + 4 + content.len());
}

/// The HTML of an island is that of its content on its own: neither its markers nor
/// what stands before or behind it is rendered. The content is a run of complete
/// opcodes that holds no ISLAND_END of the island.
pub proof fn island_content_html(
    m: ModuleView,
    slots: Seq<SlotTree>,
    id: u16,
    content: Seq<u8>,
)
    requires
        model::island_position(m.islands, id, 0) < m.islands.len(),
        encoded::stands(
            m,
            island_block(id, content),
            m.islands[model::island_position(m.islands, id, 0)].byte_offset as int,
        ),
        landed(m, content, slots) matches Some(r) && r.script.len() == 0,
        laws::comes_to(
            relocation::with_opcodes(m, content),
            id,
            model::start(slots),
            0,
            content.len() as int,
            0,
        ),
    ensures
        html_alone(m, content, slots) is Ok,
        model::island_html_of(m, slots, id) == html_alone(m, content, slots),
{
    let s = model::start(slots);
    let offset = m.islands[model::island_position(m.islands, id, 0)].byte_offset as int;
    let part = relocation::with_opcodes(m, content);
    let n = content.len() as int;
    let q = offset + 3 + n;
    island_parts_stand(m, id, content, offset);
    encoded::body_embeds(m, content, offset + 3);
    comes_to_in_place(m, part, offset + 3, id, s, 0, 0);
    laws::island_html_ends_at_first_match(m, slots, id, q);
    relocation::landing_ends_walk(part, s, 0, n, 0);
    relocation::runs_agree(m, part, offset + 3, n, s, 0, 0);
    own_html(m, content, slots);
}

} // verus!
