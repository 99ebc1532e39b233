//! What walking encoded opcodes gives: the walker reads what the encoding
//! helpers write, and renders each body as it would on its own.

use vstd::prelude::*;

use crate::bytes;
use crate::format::{ErrorView, Opcode};
use crate::parser;
use crate::parser::test_helpers;
use crate::parser::ModuleView;
use crate::slot;
use crate::slot::SlotTree;
use crate::text;
use crate::walker::model;
use crate::walker::model::{Stop, WalkView, MAX_LIST_DEPTH, MAX_RECURSION_DEPTH};
use crate::walker::relocation;

verus! {

/// The bytes of an encoded opcode stand in a module's stream.
pub open spec fn stands(m: ModuleView, part: Seq<u8>, at: int) -> bool {
    m.opcodes.len() <= usize::MAX && test_helpers::stands_at(m.opcodes, part, at)
}

pub(crate) proof fn opcode_stands(m: ModuleView, byte: u8, rest: Seq<u8>, at: int)
    requires
        stands(m, seq![byte] + rest, at),
    ensures
        0 <= at < m.opcodes.len(),
        m.opcodes[at] == byte,
        stands(m, rest, at + 1),
        at + 1 + rest.len() <= m.opcodes.len(),
{
    test_helpers::stands_in_parts(m.opcodes, seq![byte], rest, at);
    test_helpers::stands_bounds(m.opcodes, seq![byte], at);
    test_helpers::stands_bounds(m.opcodes, rest, at + 1);
    assert(m.opcodes.subrange(at, at + 1)[0] == m.opcodes[at]);
}

pub(crate) proof fn u16_stands(ops: Seq<u8>, v: u16, at: int)
    requires
        test_helpers::stands_at(ops, bytes::u16_bytes(v), at),
    ensures
        bytes::u16_read(ops, at) == Ok::<u16, ErrorView>(v),
        0 <= at,
        at + 2 <= ops.len(),
{
    test_helpers::stands_bounds(ops, bytes::u16_bytes(v), at);
    bytes::u16_round_trip(ops, at, v);
}

pub(crate) proof fn u32_stands(ops: Seq<u8>, v: u32, at: int)
    requires
        test_helpers::stands_at(ops, bytes::u32_bytes(v), at),
    ensures
        bytes::u32_read(ops, at) == Ok::<u32, ErrorView>(v),
        0 <= at,
        at + 4 <= ops.len(),
{
    test_helpers::stands_bounds(ops, bytes::u32_bytes(v), at);
    bytes::u32_round_trip(ops, at, v);
}

pub(crate) proof fn body_embeds(m: ModuleView, body: Seq<u8>, off: int)
    requires
        stands(m, body, off),
    ensures
        relocation::embeds(m, relocation::with_opcodes(m, body), off),
        off + body.len() <= m.opcodes.len(),
{
    test_helpers::stands_bounds(m.opcodes, body, off);
    let part = relocation::with_opcodes(m, body);
    assert forall|i: int| 0 <= i < part.opcodes.len() implies (#[trigger] part.opcodes[i])
        == m.opcodes[off + i] by {
        assert(m.opcodes.subrange(off, off + body.len())[i] == m.opcodes[off + i]);
    }
}

// ---------------------------------------------------------------------------
// Opcodes without a body
// ---------------------------------------------------------------------------

/// An encoded TEXT writes its string, escaped, and the walk goes on behind it.
pub proof fn encoded_text_renders(m: ModuleView, str_idx: u32, at: int, s: WalkView, depth: int)
    requires
        stands(m, seq![0x04u8] + bytes::u32_bytes(str_idx), at),
        str_idx < m.strings.len(),
        depth <= MAX_RECURSION_DEPTH,
    ensures
        crate::format::opcode_of(m.opcodes[at]) == Some(Opcode::Text),
        model::effect(m, s, Opcode::Text, at + 1, depth) == Ok::<WalkView, ErrorView>(
            model::emit(s, text::escaped_html(m.strings[str_idx as int])),
        ),
        model::after(m, s, Opcode::Text, at + 1) == at + 5,
{
    opcode_stands(m, 0x04, bytes::u32_bytes(str_idx), at);
    u32_stands(m.opcodes, str_idx, at + 1);
}

/// An encoded CLOSE_TAG writes the end tag of its string, and the walk goes on
/// behind it.
pub proof fn encoded_close_tag_renders(
    m: ModuleView,
    str_idx: u32,
    at: int,
    s: WalkView,
    depth: int,
)
    requires
        stands(m, seq![0x02u8] + bytes::u32_bytes(str_idx), at),
        str_idx < m.strings.len(),
        depth <= MAX_RECURSION_DEPTH,
    ensures
        crate::format::opcode_of(m.opcodes[at]) == Some(Opcode::CloseTag),
        model::effect(m, s, Opcode::CloseTag, at + 1, depth) == Ok::<WalkView, ErrorView>(
            model::emit(s, "</"@ + m.strings[str_idx as int] + ">"@),
        ),
        model::after(m, s, Opcode::CloseTag, at + 1) == at + 5,
{
    opcode_stands(m, 0x02, bytes::u32_bytes(str_idx), at);
    u32_stands(m.opcodes, str_idx, at + 1);
}

/// An encoded PRELOAD writes a preload link of its kind, and the walk goes on
/// behind it.
pub proof fn encoded_preload_renders(
    m: ModuleView,
    resource_type: u8,
    url_str_idx: u32,
    at: int,
    s: WalkView,
    depth: int,
)
    requires
        stands(m, seq![0x0Fu8, resource_type] + bytes::u32_bytes(url_str_idx), at),
        url_str_idx < m.strings.len(),
        depth <= MAX_RECURSION_DEPTH,
    ensures
        crate::format::opcode_of(m.opcodes[at]) == Some(Opcode::Preload),
        model::effect(m, s, Opcode::Preload, at + 1, depth) == Ok::<WalkView, ErrorView>(
            model::emit(
                s,
                "<link rel=\"preload\" href=\""@ + text::escaped_attr(m.strings[url_str_idx as int])
                    + "\" as=\""@ + model::preload_kind(resource_type).0 + "\""@
                    + model::preload_kind(resource_type).1 + ">\n"@,
            ),
        ),
        model::after(m, s, Opcode::Preload, at + 1) == at + 6,
{
    let idx = bytes::u32_bytes(url_str_idx);
    assert(seq![0x0Fu8, resource_type] + idx =~= seq![0x0Fu8] + (seq![resource_type] + idx));
    opcode_stands(m, 0x0F, seq![resource_type] + idx, at);
    opcode_stands(m, resource_type, idx, at + 1);
    u32_stands(m.opcodes, url_str_idx, at + 2);
}

/// The attributes that key and value indices stand for.
pub open spec fn resolved(strings: Seq<Seq<char>>, attrs: Seq<(u32, u32)>) -> Seq<
    (Seq<char>, Seq<char>),
> {
    Seq::new(attrs.len(), |i: int| (strings[attrs[i].0 as int], strings[attrs[i].1 as int]))
}

/// Every index is in the string table.
pub open spec fn attrs_in_table(strings: Seq<Seq<char>>, attrs: Seq<(u32, u32)>) -> bool {
    forall|i: int|
        0 <= i < attrs.len() ==> (#[trigger] attrs[i]).0 < strings.len() && attrs[i].1
            < strings.len()
}

#[verifier::rlimit(40)]
proof fn attrs_front(attrs: Seq<(u32, u32)>)
    requires
        attrs.len() > 0,
    ensures
        test_helpers::attrs_bytes(attrs) == bytes::u32_bytes(attrs[0].0) + bytes::u32_bytes(
            attrs[0].1,
        ) + test_helpers::attrs_bytes(attrs.skip(1)),
    decreases attrs.len(),
{
    let rest = attrs.skip(1);
    if attrs.len() == 1 {
        assert(attrs.drop_last() =~= Seq::empty());
        assert(rest =~= Seq::empty());
        assert(test_helpers::attrs_bytes(attrs) =~= bytes::u32_bytes(attrs[0].0)
            + bytes::u32_bytes(attrs[0].1) + test_helpers::attrs_bytes(rest));
    } else {
        let init = attrs.drop_last();
        attrs_front(init);
        assert(init[0] == attrs[0]);
        assert(init.skip(1) =~= rest.drop_last());
        assert(attrs.last() == rest.last());
        assert(test_helpers::attrs_bytes(attrs) =~= bytes::u32_bytes(attrs[0].0)
            + bytes::u32_bytes(attrs[0].1) + test_helpers::attrs_bytes(rest));
    }
}

proof fn attrs_read_back(
    ops: Seq<u8>,
    strings: Seq<Seq<char>>,
    attrs: Seq<(u32, u32)>,
    at: int,
)
    requires
        test_helpers::stands_at(ops, test_helpers::attrs_bytes(attrs), at),
        attrs_in_table(strings, attrs),
    ensures
        model::attrs_from(ops, strings, at, attrs.len()) == Ok::<
            Seq<(Seq<char>, Seq<char>)>,
            ErrorView,
        >(resolved(strings, attrs)),
        test_helpers::attrs_bytes(attrs).len() == 8 * attrs.len(),
    decreases attrs.len(),
{
    if attrs.len() > 0 {
        let rest = attrs.skip(1);
        let (k, v) = (bytes::u32_bytes(attrs[0].0), bytes::u32_bytes(attrs[0].1));
        attrs_front(attrs);
        test_helpers::stands_in_parts(ops, k + v, test_helpers::attrs_bytes(rest), at);
        test_helpers::stands_in_parts(ops, k, v, at);
        u32_stands(ops, attrs[0].0, at);
        u32_stands(ops, attrs[0].1, at + 4);
        assert forall|i: int| 0 <= i < rest.len() implies (#[trigger] rest[i]).0 < strings.len()
            && rest[i].1 < strings.len() by {
            assert(rest[i] == attrs[i + 1]);
        }
        assert(attrs[0].0 < strings.len() && attrs[0].1 < strings.len());
        attrs_read_back(ops, strings, rest, at + 8);
        assert(seq![(strings[attrs[0].0 as int], strings[attrs[0].1 as int])] + resolved(
            strings,
            rest,
        ) =~= resolved(strings, attrs));
    } else {
        assert(resolved(strings, attrs) =~= Seq::empty());
    }
}

/// The operands of an encoded tag are read back: its name, and its attributes
/// by key and value. The walk goes on behind them.
pub proof fn encoded_tag_reads_back(
    m: ModuleView,
    opcode: u8,
    str_idx: u32,
    attrs: Seq<(u32, u32)>,
    at: int,
)
    requires
        stands(m, test_helpers::tag_bytes(opcode, str_idx, attrs), at),
        attrs.len() < 0x1_0000,
        attrs_in_table(m.strings, attrs),
    ensures
        m.opcodes[at] == opcode,
        model::tag_at(m.opcodes, m.strings, at + 1) == Ok::<
            (u32, Seq<(Seq<char>, Seq<char>)>),
            ErrorView,
        >((str_idx, resolved(m.strings, attrs))),
        at + 7 + 8 * bytes::u16_at(m.opcodes, at + 5) == at + test_helpers::tag_bytes(
            opcode,
            str_idx,
            attrs,
        ).len(),
{
    let name = bytes::u32_bytes(str_idx);
    let count = bytes::u16_bytes(test_helpers::low16(attrs.len()));
    let list = test_helpers::attrs_bytes(attrs);
    assert(test_helpers::tag_bytes(opcode, str_idx, attrs) =~= seq![opcode] + (name + count
        + list));
    opcode_stands(m, opcode, name + count + list, at);
    test_helpers::stands_in_parts(m.opcodes, name + count, list, at + 1);
    test_helpers::stands_in_parts(m.opcodes, name, count, at + 1);
    u32_stands(m.opcodes, str_idx, at + 1);
    u16_stands(m.opcodes, test_helpers::low16(attrs.len()), at + 5);
    attrs_read_back(m.opcodes, m.strings, attrs, at + 7);
}

// ---------------------------------------------------------------------------
// Opcodes with a body
// ---------------------------------------------------------------------------

proof fn branches_stand(
    m: ModuleView,
    a: Seq<u8>,
    b: Seq<u8>,
    c: Seq<u8>,
    then_ops: Seq<u8>,
    mark: Seq<u8>,
    else_ops: Seq<u8>,
    at: int,
)
    requires
        stands(m, seq![0x07u8] + a + b + c + then_ops + mark + else_ops, at),
        a.len() == 2,
        b.len() == 4,
        c.len() == 4,
        mark.len() == 1,
    ensures
        m.opcodes[at] == 0x07,
        0 <= at,
        test_helpers::stands_at(m.opcodes, a, at + 1),
        test_helpers::stands_at(m.opcodes, b, at + 3),
        test_helpers::stands_at(m.opcodes, c, at + 7),
        stands(m, then_ops, at + 11),
        stands(m, else_ops, at + 12 + then_ops.len()),
        at + 12 + then_ops.len() + else_ops.len() <= m.opcodes.len(),
{
    assert(seq![0x07u8] + a + b + c + then_ops + mark + else_ops =~= seq![0x07u8] + (a + b + c
        + then_ops + mark + else_ops));
    opcode_stands(m, 0x07, a + b + c + then_ops + mark + else_ops, at);
    test_helpers::stands_in_parts(m.opcodes, a + b + c + then_ops + mark, else_ops, at + 1);
    test_helpers::stands_in_parts(m.opcodes, a + b + c + then_ops, mark, at + 1);
    test_helpers::stands_in_parts(m.opcodes, a + b + c, then_ops, at + 1);
    test_helpers::stands_in_parts(m.opcodes, a + b, c, at + 1);
    test_helpers::stands_in_parts(m.opcodes, a, b, at + 1);
}

#[verifier::spinoff_prover]
#[verifier::rlimit(60)]
proof fn show_if_reads_back(
    m: ModuleView,
    slot_id: u16,
    then_ops: Seq<u8>,
    else_ops: Seq<u8>,
    at: int,
)
    requires
        stands(m, test_helpers::show_if_bytes(slot_id, then_ops, else_ops), at),
        then_ops.len() < 0x1_0000_0000,
        else_ops.len() < 0x1_0000_0000,
    ensures
        m.opcodes[at] == 0x07,
        0 <= at,
        model::show_if_header(m.opcodes, at + 1) == Ok::<(u16, u32, u32), ErrorView>(
            (slot_id, then_ops.len() as u32, else_ops.len() as u32),
        ),
        stands(m, then_ops, at + 11),
        stands(m, else_ops, at + 12 + then_ops.len()),
        at + 12 + then_ops.len() + else_ops.len() <= m.opcodes.len(),
{
    branches_stand(
        m,
        bytes::u16_bytes(slot_id),
        bytes::u32_bytes(test_helpers::low32(then_ops.len())),
        bytes::u32_bytes(test_helpers::low32(else_ops.len())),
        then_ops,
        seq![0x08u8],
        else_ops,
        at,
    );
    u16_stands(m.opcodes, slot_id, at + 1);
    u32_stands(m.opcodes, test_helpers::low32(then_ops.len()), at + 3);
    u32_stands(m.opcodes, test_helpers::low32(else_ops.len()), at + 7);
}

/// The branch that a slot's truthiness picks.
pub open spec fn picked(s: WalkView, slot_id: u16, then_ops: Seq<u8>, else_ops: Seq<u8>) -> Seq<
    u8,
> {
    if slot::truthy(slot::slot_at(s.slots, slot_id)) {
        then_ops
    } else {
        else_ops
    }
}

/// What walking a branch of a SHOW_IF on its own gives, behind the marker.
pub open spec fn branch_alone(
    m: ModuleView,
    s: WalkView,
    slot_id: u16,
    branch: Seq<u8>,
    depth: int,
) -> Result<WalkView, ErrorView> {
    model::run(
        relocation::with_opcodes(m, branch),
        Stop::At(branch.len() as int),
        model::emit(s, model::marker("<!--f:s"@, slot_id)),
        0,
        depth,
    )
}

proof fn branch_in_place(
    m: ModuleView,
    s: WalkView,
    slot_id: u16,
    branch: Seq<u8>,
    off: int,
    depth: int,
)
    requires
        stands(m, branch, off),
        branch_alone(m, s, slot_id, branch, depth) is Ok,
    ensures
        model::run(
            m,
            Stop::At(off + branch.len()),
            model::emit(s, model::marker("<!--f:s"@, slot_id)),
            off,
            depth,
        ) == branch_alone(m, s, slot_id, branch, depth),
        0 <= off,
        off + branch.len() <= usize::MAX,
{
    body_embeds(m, branch, off);
    relocation::runs_agree(
        m,
        relocation::with_opcodes(m, branch),
        off,
        branch.len() as int,
        model::emit(s, model::marker("<!--f:s"@, slot_id)),
        0,
        depth,
    );
}

proof fn show_if_takes_branch(
    m: ModuleView,
    s: WalkView,
    p: int,
    depth: int,
    header: (u16, u32, u32),
    walked: WalkView,
)
    requires
        m.opcodes.len() <= usize::MAX,
        depth <= MAX_RECURSION_DEPTH,
        0 <= p,
        p + 11 + header.1 + header.2 <= usize::MAX,
        model::show_if_header(m.opcodes, p) == Ok::<(u16, u32, u32), ErrorView>(header),
        slot::truthy(slot::slot_at(s.slots, header.0)) ==> model::run(
            m,
            Stop::At(p + 10 + header.1),
            model::emit(s, model::marker("<!--f:s"@, header.0)),
            p + 10,
            depth + 1,
        ) == Ok::<WalkView, ErrorView>(walked),
        !slot::truthy(slot::slot_at(s.slots, header.0)) ==> model::run(
            m,
            Stop::At(p + 11 + header.1 + header.2),
            model::emit(s, model::marker("<!--f:s"@, header.0)),
            p + 11 + header.1,
            depth + 1,
        ) == Ok::<WalkView, ErrorView>(walked),
    ensures
        model::effect(m, s, Opcode::ShowIf, p, depth) == Ok::<WalkView, ErrorView>(
            model::emit(walked, model::marker("<!--/f:s"@, header.0)),
        ),
        model::after(m, s, Opcode::ShowIf, p) == p + 11 + header.1 + header.2,
{
}

/// An encoded SHOW_IF renders the branch that the slot's truthiness picks, as
/// the branch would be rendered on its own, between its markers. The other
/// branch is passed over.
pub proof fn encoded_show_if_renders_branch(
    m: ModuleView,
    slot_id: u16,
    then_ops: Seq<u8>,
    else_ops: Seq<u8>,
    at: int,
    s: WalkView,
    depth: int,
)
    requires
        stands(m, test_helpers::show_if_bytes(slot_id, then_ops, else_ops), at),
        then_ops.len() < 0x1_0000_0000,
        else_ops.len() < 0x1_0000_0000,
        depth <= MAX_RECURSION_DEPTH,
        branch_alone(m, s, slot_id, picked(s, slot_id, then_ops, else_ops), depth + 1) is Ok,
    ensures
        crate::format::opcode_of(m.opcodes[at]) == Some(Opcode::ShowIf),
        model::effect(m, s, Opcode::ShowIf, at + 1, depth) == Ok::<WalkView, ErrorView>(
            model::emit(
                branch_alone(
                    m,
                    s,
                    slot_id,
                    picked(s, slot_id, then_ops, else_ops),
                    depth + 1,
                )->Ok_0,
                model::marker("<!--/f:s"@, slot_id),
            ),
        ),
        model::after(m, s, Opcode::ShowIf, at + 1) == at + 12 + then_ops.len() + else_ops.len(),
{
    show_if_reads_back(m, slot_id, then_ops, else_ops, at);
    let branch = picked(s, slot_id, then_ops, else_ops);
    let off = if slot::truthy(slot::slot_at(s.slots, slot_id)) {
        at + 11
    } else {
        at + 12 + then_ops.len()
    };
    branch_in_place(m, s, slot_id, branch, off, depth + 1);
    show_if_takes_branch(
        m,
        s,
        at + 1,
        depth,
        (slot_id, then_ops.len() as u32, else_ops.len() as u32),
        branch_alone(m, s, slot_id, branch, depth + 1)->Ok_0,
    );
}

#[verifier::rlimit(40)]
proof fn list_reads_back(
    m: ModuleView,
    slot_id: u16,
    item_slot_id: u16,
    body: Seq<u8>,
    at: int,
)
    requires
        stands(m, test_helpers::list_bytes(slot_id, item_slot_id, body), at),
        body.len() < 0x1_0000_0000,
    ensures
        m.opcodes[at] == 0x0A,
        0 <= at,
        model::list_header(m.opcodes, at + 1) == Ok::<(u16, u16, u32), ErrorView>(
            (slot_id, item_slot_id, body.len() as u32),
        ),
        stands(m, body, at + 9),
        at + 9 + body.len() <= m.opcodes.len(),
{
    let a = bytes::u16_bytes(slot_id);
    let b = bytes::u16_bytes(item_slot_id);
    let c = bytes::u32_bytes(test_helpers::low32(body.len()));
    assert(test_helpers::list_bytes(slot_id, item_slot_id, body) =~= seq![0x0Au8] + (a + b + c
        + body));
    opcode_stands(m, 0x0A, a + b + c + body, at);
    test_helpers::stands_in_parts(m.opcodes, a + b + c, body, at + 1);
    test_helpers::stands_in_parts(m.opcodes, a + b, c, at + 1);
    test_helpers::stands_in_parts(m.opcodes, a, b, at + 1);
    u16_stands(m.opcodes, slot_id, at + 1);
    u16_stands(m.opcodes, item_slot_id, at + 3);
    u32_stands(m.opcodes, test_helpers::low32(body.len()), at + 5);
}

/// The state in which the first item of a list is walked.
pub open spec fn list_entered(s: WalkView, slot_id: u16) -> WalkView {
    WalkView {
        list_depth: s.list_depth + 1,
        ..model::emit(s, model::marker("<!--f:l"@, slot_id))
    }
}

/// What walking a list's body on its own, once for each item, gives.
pub open spec fn items_alone(
    m: ModuleView,
    s: WalkView,
    slot_id: u16,
    item_slot_id: u16,
    items: Seq<SlotTree>,
    body: Seq<u8>,
    depth: int,
) -> Result<WalkView, ErrorView> {
    model::walk_items(
        relocation::with_opcodes(m, body),
        list_entered(s, slot_id),
        s.slots,
        item_slot_id,
        items,
        0,
        0,
        body.len() as int,
        depth,
    )
}

/// An encoded LIST renders its body once for each item, as the body would be
/// rendered on its own, between its markers.
pub proof fn encoded_list_renders_items(
    m: ModuleView,
    slot_id: u16,
    item_slot_id: u16,
    items: Seq<SlotTree>,
    body: Seq<u8>,
    at: int,
    s: WalkView,
    depth: int,
)
    requires
        stands(m, test_helpers::list_bytes(slot_id, item_slot_id, body), at),
        body.len() < 0x1_0000_0000,
        depth <= MAX_RECURSION_DEPTH,
        slot::slot_at(s.slots, slot_id) == SlotTree::Array(items),
        items.len() > 0,
        s.list_depth < MAX_LIST_DEPTH,
        items_alone(m, s, slot_id, item_slot_id, items, body, depth + 1) is Ok,
    ensures
        crate::format::opcode_of(m.opcodes[at]) == Some(Opcode::List),
        ({
            let alone = items_alone(m, s, slot_id, item_slot_id, items, body, depth + 1)->Ok_0;
            model::effect(m, s, Opcode::List, at + 1, depth) == Ok::<WalkView, ErrorView>(
                model::emit(
                    (WalkView { list_depth: s.list_depth, slots: s.slots, ..alone }),
                    model::marker("<!--/f:l"@, slot_id),
                ),
            )
        }),
        model::after(m, s, Opcode::List, at + 1) == at + 9 + body.len(),
{
    list_reads_back(m, slot_id, item_slot_id, body, at);
    body_embeds(m, body, at + 9);
    relocation::items_walks_agree(
        m,
        relocation::with_opcodes(m, body),
        at + 9,
        list_entered(s, slot_id),
        s.slots,
        item_slot_id,
        items,
        0,
        0,
        body.len() as int,
        depth + 1,
    );
}

/// An encoded LIST over anything but an array with items renders its two
/// markers alone.
pub proof fn encoded_list_without_items(
    m: ModuleView,
    slot_id: u16,
    item_slot_id: u16,
    body: Seq<u8>,
    at: int,
    s: WalkView,
    depth: int,
)
    requires
        stands(m, test_helpers::list_bytes(slot_id, item_slot_id, body), at),
        body.len() < 0x1_0000_0000,
        depth <= MAX_RECURSION_DEPTH,
        slot::slot_at(s.slots, slot_id) matches SlotTree::Array(items) ==> items.len() == 0,
    ensures
        model::effect(m, s, Opcode::List, at + 1, depth) == Ok::<WalkView, ErrorView>(
            model::emit(
                model::emit(s, model::marker("<!--f:l"@, slot_id)),
                model::marker("<!--/f:l"@, slot_id),
            ),
        ),
        model::after(m, s, Opcode::List, at + 1) == at + 9 + body.len(),
{
    list_reads_back(m, slot_id, item_slot_id, body, at);
}

proof fn try_parts_stand(m: ModuleView, len: Seq<u8>, main_ops: Seq<u8>, fallback_ops: Seq<u8>, at: int)
    requires
        stands(m, seq![0x0Du8] + len + main_ops + seq![0x0Eu8] + fallback_ops, at),
        len.len() == 4,
    ensures
        m.opcodes[at] == 0x0D,
        0 <= at,
        test_helpers::stands_at(m.opcodes, len, at + 1),
        stands(m, main_ops, at + 5),
        m.opcodes[at + 5 + main_ops.len()] == 0x0E,
        at + 6 + main_ops.len() + fallback_ops.len() <= m.opcodes.len(),
{
    let mark = seq![0x0Eu8];
    assert(seq![0x0Du8] + len + main_ops + mark + fallback_ops =~= seq![0x0Du8] + (len + main_ops
        + mark + fallback_ops));
    opcode_stands(m, 0x0D, len + main_ops + mark + fallback_ops, at);
    test_helpers::stands_in_parts(m.opcodes, len + main_ops + mark, fallback_ops, at + 1);
    test_helpers::stands_in_parts(m.opcodes, len + main_ops, mark, at + 1);
    test_helpers::stands_in_parts(m.opcodes, len, main_ops, at + 1);
    let turn = at + 5 + main_ops.len();
    test_helpers::stands_bounds(m.opcodes, mark, turn);
    assert(m.opcodes.subrange(turn, turn + 1)[0] == m.opcodes[turn]);
}

/// The state in which the main body of a TRY block is walked.
pub open spec fn try_entered(s: WalkView, fallback_len: nat) -> WalkView {
    WalkView { fallback: s.fallback.push(fallback_len as usize), ..model::flushed(s) }
}

proof fn try_start_lands(m: ModuleView, fallback_len: u32, at: int, end: int, s: WalkView, depth: int)
    requires
        m.opcodes.len() <= usize::MAX,
        0 <= at < end <= m.opcodes.len(),
        m.opcodes[at] == 0x0D,
        bytes::u32_read(m.opcodes, at + 1) == Ok::<u32, ErrorView>(fallback_len),
        depth <= MAX_RECURSION_DEPTH,
    ensures
        relocation::landing(m, s, at, end, depth) == relocation::landing(
            m,
            try_entered(s, fallback_len as nat),
            at + 5,
            end,
            depth,
        ),
{
    relocation::landing_steps(m, s, Opcode::TryStart, at, end, depth);
}

proof fn fallback_lands(
    m: ModuleView,
    fallback: Seq<usize>,
    skip: usize,
    turn: int,
    end: int,
    s: WalkView,
    depth: int,
)
    requires
        m.opcodes.len() <= usize::MAX,
        0 <= turn,
        end <= m.opcodes.len(),
        turn + 1 + skip == end,
        m.opcodes[turn] == 0x0E,
        s.fallback == fallback.push(skip),
        depth <= MAX_RECURSION_DEPTH,
    ensures
        relocation::landing(m, s, turn, end, depth) == Some(
            (WalkView { fallback, ..model::flushed(s) }),
        ),
{
    relocation::landing_steps(m, s, Opcode::Fallback, turn, end, depth);
    let done = WalkView { fallback, ..model::flushed(s) };
    assert(model::flushed(s).fallback.drop_last() =~= fallback);
    relocation::landing_unfolds(m, done, end, end, depth);
}

/// An encoded TRY block renders its main body and passes its fallback over: a
/// main body that lands on its end, and takes back what it put on the stack of
/// fallbacks, lands behind the block.
pub proof fn encoded_try_renders_main(
    m: ModuleView,
    main_ops: Seq<u8>,
    fallback_ops: Seq<u8>,
    at: int,
    s: WalkView,
    depth: int,
)
    requires
        stands(m, test_helpers::try_bytes(main_ops, fallback_ops), at),
        fallback_ops.len() < 0x1_0000_0000,
        depth <= MAX_RECURSION_DEPTH,
        relocation::landing(
            relocation::with_opcodes(m, main_ops),
            try_entered(s, fallback_ops.len()),
            0,
            main_ops.len() as int,
            depth,
        ) matches Some(reached) && reached.fallback == try_entered(s, fallback_ops.len()).fallback,
    ensures
        ({
            let reached = relocation::landing(
                relocation::with_opcodes(m, main_ops),
                try_entered(s, fallback_ops.len()),
                0,
                main_ops.len() as int,
                depth,
            )->0;
            relocation::landing(
                m,
                s,
                at,
                at + test_helpers::try_bytes(main_ops, fallback_ops).len(),
                depth,
            ) == Some((WalkView { fallback: s.fallback, ..model::flushed(reached) }))
        }),
{
    let n = main_ops.len();
    let turn = at + 5 + n;
    let end = turn + 1 + fallback_ops.len();
    let entered = try_entered(s, fallback_ops.len());
    let part = relocation::with_opcodes(m, main_ops);
    let reached = relocation::landing(part, entered, 0, n as int, depth)->0;
    try_parts_stand(
        m,
        bytes::u32_bytes(test_helpers::low32(fallback_ops.len())),
        main_ops,
        fallback_ops,
        at,
    );
    assert(end == at + test_helpers::try_bytes(main_ops, fallback_ops).len());
    u32_stands(m.opcodes, test_helpers::low32(fallback_ops.len()), at + 1);
    try_start_lands(m, fallback_ops.len() as u32, at, end, s, depth);
    body_embeds(m, main_ops, at + 5);
    relocation::landings_agree(m, part, at + 5, entered, 0, n as int, depth);
    relocation::landings_join(m, entered, at + 5, turn, end, depth);
    fallback_lands(m, s.fallback, fallback_ops.len() as usize, turn, end, reached, depth);
}

// ---------------------------------------------------------------------------
// SWITCH
// ---------------------------------------------------------------------------

/// Each body can be written with a u32 length, and the cases can be counted in
/// 16 bits.
pub open spec fn cases_fit(cases: Seq<(u32, Seq<u8>)>) -> bool {
    &&& cases.len() < 0x1_0000
    &&& forall|i: int| 0 <= i < cases.len() ==> (#[trigger] cases[i]).1.len() < 0x1_0000_0000
}

/// The headers of a run of cases.
pub open spec fn case_heads(cases: Seq<(u32, Seq<u8>)>) -> Seq<(u32, u32)> {
    Seq::new(cases.len(), |i: int| (cases[i].0, cases[i].1.len() as u32))
}

/// What walking the bodies of the matching cases from number `i` on gives, each
/// on its own.
pub open spec fn cases_alone(
    m: ModuleView,
    s: WalkView,
    cases: Seq<(u32, Seq<u8>)>,
    i: int,
    words: Seq<char>,
    depth: int,
) -> Result<WalkView, ErrorView>
    decreases cases.len() - i,
{
    if i < 0 || i >= cases.len() {
        Ok(s)
    } else {
        match parser::string_at(m.strings, cases[i].0) {
            Err(e) => Err(e),
            Ok(value) => if value == words {
                match model::run(
                    relocation::with_opcodes(m, cases[i].1),
                    Stop::At(cases[i].1.len() as int),
                    s,
                    0,
                    depth,
                ) {
                    Err(e) => Err(e),
                    Ok(s2) => cases_alone(m, s2, cases, i + 1, words, depth),
                }
            } else {
                cases_alone(m, s, cases, i + 1, words, depth)
            },
        }
    }
}

/// One case header.
spec fn head_bytes(case: (u32, Seq<u8>)) -> Seq<u8> {
    bytes::u32_bytes(case.0) + bytes::u32_bytes(test_helpers::low32(case.1.len()))
}

#[verifier::spinoff_prover]
#[verifier::rlimit(60)]
proof fn headers_front(cases: Seq<(u32, Seq<u8>)>)
    requires
        cases.len() > 0,
    ensures
        test_helpers::case_headers(cases) == head_bytes(cases[0]) + test_helpers::case_headers(
            cases.skip(1),
        ),
    decreases cases.len(),
{
    let rest = cases.skip(1);
    assert(test_helpers::case_headers(cases) =~= test_helpers::case_headers(cases.drop_last())
        + head_bytes(cases.last()));
    if cases.len() == 1 {
        assert(cases.drop_last() =~= Seq::empty());
        assert(rest =~= Seq::empty());
        assert(test_helpers::case_headers(cases) =~= head_bytes(cases[0])
            + test_helpers::case_headers(rest));
    } else {
        let init = cases.drop_last();
        headers_front(init);
        assert(init[0] == cases[0]);
        assert(init.skip(1) =~= rest.drop_last());
        assert(cases.last() == rest.last());
        assert(test_helpers::case_headers(rest) =~= test_helpers::case_headers(rest.drop_last())
            + head_bytes(rest.last()));
        assert(test_helpers::case_headers(cases) =~= head_bytes(cases[0])
            + test_helpers::case_headers(rest));
    }
}

#[verifier::rlimit(40)]
proof fn headers_read_back(ops: Seq<u8>, cases: Seq<(u32, Seq<u8>)>, at: int)
    requires
        test_helpers::stands_at(ops, test_helpers::case_headers(cases), at),
        forall|i: int| 0 <= i < cases.len() ==> (#[trigger] cases[i]).1.len() < 0x1_0000_0000,
    ensures
        model::cases_from(ops, at, cases.len()) == Ok::<Seq<(u32, u32)>, ErrorView>(
            case_heads(cases),
        ),
        test_helpers::case_headers(cases).len() == 8 * cases.len(),
    decreases cases.len(),
{
    if cases.len() > 0 {
        let rest = cases.skip(1);
        let case = cases[0];
        headers_front(cases);
        test_helpers::stands_in_parts(ops, head_bytes(case), test_helpers::case_headers(rest), at);
        test_helpers::stands_in_parts(
            ops,
            bytes::u32_bytes(case.0),
            bytes::u32_bytes(test_helpers::low32(case.1.len())),
            at,
        );
        u32_stands(ops, case.0, at);
        u32_stands(ops, test_helpers::low32(case.1.len()), at + 4);
        assert forall|i: int| 0 <= i < rest.len() implies (#[trigger] rest[i]).1.len()
            < 0x1_0000_0000 by {
            assert(rest[i] == cases[i + 1]);
        }
        headers_read_back(ops, rest, at + 8);
        assert(seq![(case.0, case.1.len() as u32)] + case_heads(rest) =~= case_heads(cases));
    } else {
        assert(case_heads(cases) =~= Seq::empty());
    }
}

/// Where the body of case `k` stands behind the headers.
spec fn body_offset(cases: Seq<(u32, Seq<u8>)>, k: int) -> nat {
    test_helpers::case_bodies(cases.take(k)).len()
}

proof fn body_stands(ops: Seq<u8>, cases: Seq<(u32, Seq<u8>)>, from: int, k: int)
    requires
        test_helpers::stands_at(ops, test_helpers::case_bodies(cases), from),
        0 <= k < cases.len(),
    ensures
        test_helpers::stands_at(ops, cases[k].1, from + body_offset(cases, k)),
        body_offset(cases, k) + cases[k].1.len() == body_offset(cases, k + 1),
    decreases cases.len(),
{
    let init = cases.drop_last();
    test_helpers::stands_in_parts(
        ops,
        test_helpers::case_bodies(init),
        cases.last().1,
        from,
    );
    assert(cases.take(k + 1).drop_last() =~= cases.take(k));
    assert(cases.take(k + 1).last() == cases[k]);
    if k == cases.len() - 1 {
        assert(cases.take(k) =~= init);
    } else {
        body_stands(ops, init, from, k);
        assert(init.take(k) =~= cases.take(k));
        assert(init[k] == cases[k]);
    }
}

proof fn bodies_end_at(ops: Seq<u8>, cases: Seq<(u32, Seq<u8>)>, from: int, k: nat)
    requires
        test_helpers::stands_at(ops, test_helpers::case_bodies(cases), from),
        ops.len() <= usize::MAX,
        forall|i: int| 0 <= i < cases.len() ==> (#[trigger] cases[i]).1.len() < 0x1_0000_0000,
        k <= cases.len(),
    ensures
        model::bodies_end(case_heads(cases), from, k) == from + body_offset(cases, k as int),
        from + body_offset(cases, k as int) <= ops.len(),
    decreases k,
{
    test_helpers::stands_bounds(ops, test_helpers::case_bodies(cases), from);
    if k == 0 {
        assert(cases.take(0) =~= Seq::empty());
    } else {
        bodies_end_at(ops, cases, from, (k - 1) as nat);
        body_stands(ops, cases, from, k - 1);
        test_helpers::stands_bounds(ops, cases[k - 1].1, from + body_offset(cases, k - 1));
    }
}

proof fn cases_walk_alone(
    m: ModuleView,
    s: WalkView,
    cases: Seq<(u32, Seq<u8>)>,
    from: int,
    i: int,
    words: Seq<char>,
    depth: int,
)
    requires
        stands(m, test_helpers::case_bodies(cases), from),
        forall|k: int| 0 <= k < cases.len() ==> (#[trigger] cases[k]).1.len() < 0x1_0000_0000,
        0 <= i,
        cases_alone(m, s, cases, i, words, depth) is Ok,
    ensures
        model::walk_cases(m, s, case_heads(cases), from, i, words, depth) == cases_alone(
            m,
            s,
            cases,
            i,
            words,
            depth,
        ),
    decreases cases.len() - i,
{
    let heads = case_heads(cases);
    if i < cases.len() {
        let value = parser::string_at(m.strings, cases[i].0)->Ok_0;
        if value == words {
            let body = cases[i].1;
            let part = relocation::with_opcodes(m, body);
            let off = from + body_offset(cases, i);
            body_stands(m.opcodes, cases, from, i);
            body_embeds(m, body, off);
            bodies_end_at(m.opcodes, cases, from, i as nat);
            bodies_end_at(m.opcodes, cases, from, (i + 1) as nat);
            test_helpers::stands_bounds(m.opcodes, body, off);
            relocation::runs_agree(m, part, off, body.len() as int, s, 0, depth);
            let s2 = model::run(part, Stop::At(body.len() as int), s, 0, depth)->Ok_0;
            cases_walk_alone(m, s2, cases, from, i + 1, words, depth);
        } else {
            cases_walk_alone(m, s, cases, from, i + 1, words, depth);
        }
    }
}

proof fn switch_parts_stand(
    m: ModuleView,
    a: Seq<u8>,
    b: Seq<u8>,
    heads: Seq<u8>,
    bodies: Seq<u8>,
    at: int,
)
    requires
        stands(m, seq![0x09u8] + a + b + heads + bodies, at),
        a.len() == 2,
        b.len() == 2,
    ensures
        m.opcodes[at] == 0x09,
        0 <= at,
        test_helpers::stands_at(m.opcodes, a, at + 1),
        test_helpers::stands_at(m.opcodes, b, at + 3),
        test_helpers::stands_at(m.opcodes, heads, at + 5),
        stands(m, bodies, at + 5 + heads.len()),
{
    assert(seq![0x09u8] + a + b + heads + bodies =~= seq![0x09u8] + (a + b + heads + bodies));
    opcode_stands(m, 0x09, a + b + heads + bodies, at);
    test_helpers::stands_in_parts(m.opcodes, a + b + heads, bodies, at + 1);
    test_helpers::stands_in_parts(m.opcodes, a + b, heads, at + 1);
    test_helpers::stands_in_parts(m.opcodes, a, b, at + 1);
}

#[verifier::rlimit(40)]
proof fn switch_reads_back(m: ModuleView, slot_id: u16, cases: Seq<(u32, Seq<u8>)>, at: int)
    requires
        stands(m, test_helpers::switch_bytes(slot_id, cases), at),
        cases_fit(cases),
    ensures
        m.opcodes[at] == 0x09,
        0 <= at,
        model::switch_header(m.opcodes, at + 1) == Ok::<(u16, Seq<(u32, u32)>), ErrorView>(
            (slot_id, case_heads(cases)),
        ),
        stands(m, test_helpers::case_bodies(cases), at + 5 + 8 * cases.len()),
        test_helpers::switch_bytes(slot_id, cases).len() == 5 + 8 * cases.len()
            + test_helpers::case_bodies(cases).len(),
{
    switch_parts_stand(
        m,
        bytes::u16_bytes(slot_id),
        bytes::u16_bytes(test_helpers::low16(cases.len())),
        test_helpers::case_headers(cases),
        test_helpers::case_bodies(cases),
        at,
    );
    u16_stands(m.opcodes, slot_id, at + 1);
    u16_stands(m.opcodes, test_helpers::low16(cases.len()), at + 3);
    headers_read_back(m.opcodes, cases, at + 5);
}

/// An encoded SWITCH renders the bodies of the cases whose value is the slot's
/// text, each as it would be rendered on its own, and passes the others over.
pub proof fn encoded_switch_renders_cases(
    m: ModuleView,
    slot_id: u16,
    cases: Seq<(u32, Seq<u8>)>,
    at: int,
    s: WalkView,
    depth: int,
)
    requires
        stands(m, test_helpers::switch_bytes(slot_id, cases), at),
        cases_fit(cases),
        depth <= MAX_RECURSION_DEPTH,
        cases_alone(
            m,
            s,
            cases,
            0,
            slot::slot_text(slot::slot_at(s.slots, slot_id)),
            depth + 1,
        ) is Ok,
    ensures
        crate::format::opcode_of(m.opcodes[at]) == Some(Opcode::Switch),
        model::effect(m, s, Opcode::Switch, at + 1, depth) == cases_alone(
            m,
            s,
            cases,
            0,
            slot::slot_text(slot::slot_at(s.slots, slot_id)),
            depth + 1,
        ),
        model::after(m, s, Opcode::Switch, at + 1) == at + test_helpers::switch_bytes(
            slot_id,
            cases,
        ).len(),
{
    let words = slot::slot_text(slot::slot_at(s.slots, slot_id));
    let from = at + 5 + 8 * cases.len();
    switch_reads_back(m, slot_id, cases, at);
    cases_walk_alone(m, s, cases, from, 0, words, depth + 1);
    bodies_end_at(m.opcodes, cases, from, cases.len());
    assert(cases.take(cases.len() as int) =~= cases);
}

// ---------------------------------------------------------------------------
// A whole element
// ---------------------------------------------------------------------------

pub(crate) proof fn run_steps(m: ModuleView, s: WalkView, op: Opcode, pos: int, end: int, depth: int)
    requires
        m.opcodes.len() <= usize::MAX,
        pos < end,
        pos < m.opcodes.len(),
        depth <= MAX_RECURSION_DEPTH,
        crate::format::opcode_of(m.opcodes[pos]) == Some(op),
        model::effect(m, relocation::ready_for(op, s), op, pos + 1, depth) is Ok,
    ensures
        model::run(m, Stop::At(end), s, pos, depth) == model::run(
            m,
            Stop::At(end),
            model::effect(m, relocation::ready_for(op, s), op, pos + 1, depth)->Ok_0,
            model::after(m, relocation::ready_for(op, s), op, pos + 1),
            depth,
        ),
{
}

/// The stream of an element without attributes around a text.
pub open spec fn element_bytes(tag_idx: u32, text_idx: u32) -> Seq<u8> {
    test_helpers::tag_bytes(0x01, tag_idx, Seq::empty()) + (seq![0x04u8] + bytes::u32_bytes(
        text_idx,
    )) + (seq![0x02u8] + bytes::u32_bytes(tag_idx))
}

#[verifier::rlimit(40)]
proof fn element_opens(m: ModuleView, tag_idx: u32, s: WalkView)
    requires
        stands(m, test_helpers::tag_bytes(0x01, tag_idx, Seq::empty()), 0),
        tag_idx < m.strings.len(),
        s.island is None,
        s.key is None,
    ensures
        crate::format::opcode_of(m.opcodes[0]) == Some(Opcode::OpenTag),
        model::effect(m, s, Opcode::OpenTag, 1, 0) == Ok::<WalkView, ErrorView>(
            (WalkView { out: s.out + "<"@ + m.strings[tag_idx as int], tag_open: true, ..s }),
        ),
        model::after(m, s, Opcode::OpenTag, 1) == 7,
        0 < m.opcodes.len(),
{
    let none = Seq::<(u32, u32)>::empty();
    encoded_tag_reads_back(m, 0x01, tag_idx, none, 0);
    test_helpers::stands_bounds(
        m.opcodes,
        test_helpers::tag_bytes(0x01, tag_idx, none),
        0,
    );
    assert(test_helpers::tag_bytes(0x01, tag_idx, none).len() == 7);
    assert(model::attrs_html(resolved(m.strings, none)) =~= Seq::empty());
    let opened = s.out + "<"@ + m.strings[tag_idx as int];
    assert(opened + model::attrs_html(resolved(m.strings, none)) + model::island_html(s.island)
        + model::key_html(s.key) =~= opened);
}

/// An encoded element renders as its start tag, its text, escaped, and its end
/// tag.
#[verifier::spinoff_prover]
#[verifier::rlimit(60)]
pub proof fn encoded_element_renders(
    m: ModuleView,
    tag_idx: u32,
    text_idx: u32,
    slots: Seq<SlotTree>,
)
    requires
        m.opcodes == element_bytes(tag_idx, text_idx),
        tag_idx < m.strings.len(),
        text_idx < m.strings.len(),
    ensures
        model::html_of(m, slots) == Ok::<Seq<char>, ErrorView>(
            "<"@ + m.strings[tag_idx as int] + ">"@ + text::escaped_html(
                m.strings[text_idx as int],
            ) + "</"@ + m.strings[tag_idx as int] + ">"@,
        ),
{
    let a = test_helpers::tag_bytes(0x01, tag_idx, Seq::empty());
    let b = seq![0x04u8] + bytes::u32_bytes(text_idx);
    let c = seq![0x02u8] + bytes::u32_bytes(tag_idx);
    let tag = m.strings[tag_idx as int];
    let words = text::escaped_html(m.strings[text_idx as int]);
    assert(a.len() == 7 && b.len() == 5 && c.len() == 5);
    test_helpers::stands_whole(m.opcodes);
    test_helpers::stands_in_parts(m.opcodes, a + b, c, 0);
    test_helpers::stands_in_parts(m.opcodes, a, b, 0);
    let s0 = model::start(slots);
    // Start tag
    element_opens(m, tag_idx, s0);
    run_steps(m, s0, Opcode::OpenTag, 0, 17, 0);
    let s1 = WalkView { out: s0.out + "<"@ + tag, tag_open: true, ..s0 };
    // Text
    let r1 = relocation::ready_for(Opcode::Text, s1);
    encoded_text_renders(m, text_idx, 7, r1, 0);
    run_steps(m, s1, Opcode::Text, 7, 17, 0);
    let s2 = model::emit(r1, words);
    // End tag
    let r2 = relocation::ready_for(Opcode::CloseTag, s2);
    encoded_close_tag_renders(m, tag_idx, 12, r2, 0);
    run_steps(m, s2, Opcode::CloseTag, 12, 17, 0);
    let s3 = model::emit(r2, "</"@ + tag + ">"@);
    assert(model::run(m, Stop::At(17), s3, 17, 0) == Ok::<WalkView, ErrorView>(s3));
    assert(s3.script =~= Seq::empty());
    assert(s3.out + model::script_html(s3.script) =~= "<"@ + tag + ">"@ + words + "</"@ + tag
        + ">"@);
}

} // verus!
