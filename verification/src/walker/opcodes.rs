//! What each opcode does to a walk that comes to it, wherever it stands and
//! whatever was walked before: the HTML it adds, given through its operands and
//! the slots' values, and where the walk goes on.

use vstd::prelude::*;

use crate::bytes;
use crate::format::{
    ErrorView, IslandEntryView, IslandTrigger, Opcode, PropsMode, SlotEntryView, SlotSource,
};
use crate::json;
use crate::json::JsonTree;
use crate::number;
use crate::parser::test_helpers;
use crate::parser::ModuleView;
use crate::slot;
use crate::slot::laws as slot_laws;
use crate::slot::SlotTree;
use crate::text;
use crate::walker;
use crate::walker::encoded;
use crate::walker::html;
use crate::walker::model;
use crate::walker::model::{PendingView, Stop, WalkView};
use crate::walker::relocation;

verus! {

// ---------------------------------------------------------------------------
// Walks
// ---------------------------------------------------------------------------

/// A walk to `stop` has not ended before `at`.
pub open spec fn reaches(stop: Stop, at: int) -> bool {
    stop matches Stop::At(end) ==> at < end
}

/// The HTML written so far, with the open tag closed if there is one.
pub open spec fn closed_out(s: WalkView) -> Seq<char> {
    if s.tag_open {
        s.out + ">"@
    } else {
        s.out
    }
}

/// The state with the open tag closed and `more` written behind it.
pub open spec fn written(s: WalkView, more: Seq<char>) -> WalkView {
    WalkView { out: closed_out(s) + more, tag_open: false, ..s }
}

/// A walk that comes to `at` in the state `s` goes on at `next` in the state `s2`.
pub open spec fn goes_on(
    m: ModuleView,
    stop: Stop,
    s: WalkView,
    at: int,
    s2: WalkView,
    next: int,
    depth: int,
) -> bool {
    model::run(m, stop, s, at, depth) == model::run(m, stop, s2, next, depth)
}

proof fn step(
    m: ModuleView,
    stop: Stop,
    s: WalkView,
    op: Opcode,
    at: int,
    s2: WalkView,
    next: int,
    depth: int,
)
    requires
        m.opcodes.len() <= usize::MAX,
        0 <= at < m.opcodes.len(),
        reaches(stop, at),
        depth <= 64,
        crate::format::opcode_of(m.opcodes[at]) == Some(op),
        op == Opcode::IslandEnd ==> stop is At,
        model::effect(m, relocation::ready_for(op, s), op, at + 1, depth) == Ok::<
            WalkView,
            ErrorView,
        >(s2),
        model::after(m, relocation::ready_for(op, s), op, at + 1) == next,
    ensures
        goes_on(m, stop, s, at, s2, next, depth),
{
}

proof fn fails(
    m: ModuleView,
    stop: Stop,
    s: WalkView,
    op: Opcode,
    at: int,
    e: ErrorView,
    depth: int,
)
    requires
        m.opcodes.len() <= usize::MAX,
        0 <= at < m.opcodes.len(),
        reaches(stop, at),
        depth <= 64,
        crate::format::opcode_of(m.opcodes[at]) == Some(op),
        op != Opcode::IslandEnd,
        model::effect(m, relocation::ready_for(op, s), op, at + 1, depth) == Err::<
            WalkView,
            ErrorView,
        >(e),
    ensures
        model::run(m, stop, s, at, depth) == Err::<WalkView, ErrorView>(e),
{
}

/// A walk starts with nothing written, the given slots and nothing pending.
pub proof fn walks_start_empty(slots: Seq<SlotTree>)
    ensures
        ({
            let s = model::start(slots);
            &&& s.out.len() == 0
            &&& s.slots == slots
            &&& s.list_depth == 0
            &&& s.fallback.len() == 0
            &&& s.stray == 0
            &&& s.island is None
            &&& s.key is None
            &&& s.script.len() == 0
            &&& !s.tag_open
        }),
{
}

/// A walk that has come to its end closes the open tag and is done; one that runs
/// out of bytes before its end fails.
pub proof fn walks_end(m: ModuleView, s: WalkView, pos: int, end: int, depth: int)
    requires
        m.opcodes.len() <= usize::MAX,
        depth <= 64,
    ensures
        pos >= end ==> model::run(m, Stop::At(end), s, pos, depth) == Ok::<WalkView, ErrorView>(
            (WalkView { out: closed_out(s), tag_open: false, ..s }),
        ),
        m.opcodes.len() <= pos < end && pos < usize::MAX ==> model::run(
            m,
            Stop::At(end),
            s,
            pos,
            depth,
        ) == Err::<WalkView, ErrorView>(
            ErrorView::BufferTooShort { expected: pos + 1, actual: m.opcodes.len() as int },
        ),
{
}

/// The HTML of a module is what the walk of its whole stream writes, from nothing,
/// where no props wait for the script tag; where the walk fails, its error is given.
pub proof fn html_is_what_the_walk_writes(m: ModuleView, slots: Seq<SlotTree>)
    ensures
        match model::run(m, Stop::At(m.opcodes.len() as int), model::start(slots), 0, 0) {
            Ok(s) => s.script.len() == 0 ==> model::html_of(m, slots) == Ok::<
                Seq<char>,
                ErrorView,
            >(s.out),
            Err(e) => model::html_of(m, slots) == Err::<Seq<char>, ErrorView>(e),
        },
{
    if let Ok(s) = model::run(m, Stop::At(m.opcodes.len() as int), model::start(slots), 0, 0) {
        assert(s.out + Seq::<char>::empty() =~= s.out);
    }
}

/// Where props wait for the script tag, it stands behind all other HTML, once, and
/// holds the JSON of all of them with every `</` written as `<\/`.
pub proof fn script_tag_stands_last(m: ModuleView, slots: Seq<SlotTree>)
    ensures
        match model::run(m, Stop::At(m.opcodes.len() as int), model::start(slots), 0, 0) {
            Ok(s) => match json::json_map_text(s.script) {
                Some(words) => s.script.len() > 0 ==> model::html_of(m, slots) == Ok::<
                    Seq<char>,
                    ErrorView,
                >(
                    s.out + ("<script id=\"__forma_islands\" type=\"application/json\">"@
                        + text::pair_replaced(words, '<', '/', "<\\/"@) + "</script>"@),
                ),
                None => true,
            },
            Err(e) => true,
        },
{
}

/// A byte that is no opcode ends a walk with an error.
pub proof fn unknown_opcodes_fail(
    m: ModuleView,
    stop: Stop,
    s: WalkView,
    at: int,
    depth: int,
)
    requires
        m.opcodes.len() <= usize::MAX,
        0 <= at < m.opcodes.len(),
        reaches(stop, at),
        depth <= 64,
        m.opcodes[at] == 0 || m.opcodes[at] > 0x12,
    ensures
        model::run(m, stop, s, at, depth) == Err::<WalkView, ErrorView>(
            ErrorView::InvalidOpcode(m.opcodes[at]),
        ),
{
}

/// A walk goes 64 levels deep, and lists nest four deep.
pub proof fn limits_are_as_promised()
    ensures
        model::MAX_RECURSION_DEPTH == 64,
        model::MAX_LIST_DEPTH == 4,
{
}

// ---------------------------------------------------------------------------
// Strings
// ---------------------------------------------------------------------------

/// TEXT writes its string, escaped.
pub proof fn text_is_written(
    m: ModuleView,
    stop: Stop,
    s: WalkView,
    idx: u32,
    at: int,
    depth: int,
)
    requires
        encoded::stands(m, seq![0x04u8] + bytes::u32_bytes(idx), at),
        idx < m.strings.len(),
        reaches(stop, at),
        depth <= 64,
    ensures
        goes_on(
            m,
            stop,
            s,
            at,
            written(s, text::escaped_html(m.strings[idx as int])),
            at + 5,
            depth,
        ),
{
    encoded::encoded_text_renders(m, idx, at, model::flushed(s), depth);
    encoded::opcode_stands(m, 0x04, bytes::u32_bytes(idx), at);
    step(
        m,
        stop,
        s,
        Opcode::Text,
        at,
        written(s, text::escaped_html(m.strings[idx as int])),
        at + 5,
        depth,
    );
}

/// CLOSE_TAG writes the end tag of its string.
pub proof fn end_tag_is_written(
    m: ModuleView,
    stop: Stop,
    s: WalkView,
    idx: u32,
    at: int,
    depth: int,
)
    requires
        encoded::stands(m, seq![0x02u8] + bytes::u32_bytes(idx), at),
        idx < m.strings.len(),
        reaches(stop, at),
        depth <= 64,
    ensures
        goes_on(
            m,
            stop,
            s,
            at,
            written(s, "</"@ + m.strings[idx as int] + ">"@),
            at + 5,
            depth,
        ),
{
    encoded::encoded_close_tag_renders(m, idx, at, model::flushed(s), depth);
    encoded::opcode_stands(m, 0x02, bytes::u32_bytes(idx), at);
    step(
        m,
        stop,
        s,
        Opcode::CloseTag,
        at,
        written(s, "</"@ + m.strings[idx as int] + ">"@),
        at + 5,
        depth,
    );
}

/// COMMENT writes its string as a comment, every pair of hyphens replaced.
pub proof fn comment_is_written(
    m: ModuleView,
    stop: Stop,
    s: WalkView,
    idx: u32,
    at: int,
    depth: int,
)
    requires
        encoded::stands(m, seq![0x10u8] + bytes::u32_bytes(idx), at),
        idx < m.strings.len(),
        reaches(stop, at),
        depth <= 64,
    ensures
        goes_on(
            m,
            stop,
            s,
            at,
            written(
                s,
                "<!--"@ + text::pair_replaced(
                    m.strings[idx as int],
                    '-',
                    '-',
                    "&#45;&#45;"@,
                ) + "-->"@,
            ),
            at + 5,
            depth,
        ),
{
    let words = "<!--"@ + text::pair_replaced(m.strings[idx as int], '-', '-', "&#45;&#45;"@)
        + "-->"@;
    encoded::opcode_stands(m, 0x10, bytes::u32_bytes(idx), at);
    encoded::u32_stands(m.opcodes, idx, at + 1);
    step(m, stop, s, Opcode::Comment, at, written(s, words), at + 5, depth);
}

/// LIST_ITEM_KEY writes nothing; its string is the key of the next tag.
pub proof fn key_is_kept_for_the_next_tag(
    m: ModuleView,
    stop: Stop,
    s: WalkView,
    idx: u32,
    at: int,
    depth: int,
)
    requires
        encoded::stands(m, seq![0x11u8] + bytes::u32_bytes(idx), at),
        idx < m.strings.len(),
        reaches(stop, at),
        depth <= 64,
    ensures
        goes_on(
            m,
            stop,
            s,
            at,
            (WalkView {
                key: Some(m.strings[idx as int]),
                out: closed_out(s),
                tag_open: false,
                ..s
            }),
            at + 5,
            depth,
        ),
{
    encoded::opcode_stands(m, 0x11, bytes::u32_bytes(idx), at);
    encoded::u32_stands(m.opcodes, idx, at + 1);
    step(
        m,
        stop,
        s,
        Opcode::ListItemKey,
        at,
        WalkView { key: Some(m.strings[idx as int]), out: closed_out(s), tag_open: false, ..s },
        at + 5,
        depth,
    );
}

/// An opcode whose string is not in the table ends the walk with an error that names
/// the index and the size of the table.
pub proof fn missing_strings_fail(
    m: ModuleView,
    stop: Stop,
    s: WalkView,
    opcode: u8,
    idx: u32,
    at: int,
    depth: int,
)
    requires
        encoded::stands(m, seq![opcode] + bytes::u32_bytes(idx), at),
        opcode == 0x02 || opcode == 0x04 || opcode == 0x10 || opcode == 0x11,
        idx >= m.strings.len(),
        reaches(stop, at),
        depth <= 64,
    ensures
        model::run(m, stop, s, at, depth) == Err::<WalkView, ErrorView>(
            ErrorView::StringIndexOutOfBounds { index: idx, len: m.strings.len() as int },
        ),
{
    encoded::opcode_stands(m, opcode, bytes::u32_bytes(idx), at);
    encoded::u32_stands(m.opcodes, idx, at + 1);
    let op = crate::format::opcode_of(opcode)->0;
    fails(
        m,
        stop,
        s,
        op,
        at,
        ErrorView::StringIndexOutOfBounds { index: idx, len: m.strings.len() as int },
        depth,
    );
}

/// PRELOAD writes a preload link: fonts of type 1, styles of type 2, scripts of type
/// 3, images of type 4, and anything else as a fetch.
pub proof fn preload_is_written(
    m: ModuleView,
    stop: Stop,
    s: WalkView,
    kind: u8,
    idx: u32,
    at: int,
    depth: int,
)
    requires
        encoded::stands(m, seq![0x0Fu8, kind] + bytes::u32_bytes(idx), at),
        idx < m.strings.len(),
        reaches(stop, at),
        depth <= 64,
    ensures
        ({
            let url = "<link rel=\"preload\" href=\""@ + text::escaped_attr(m.strings[idx as int])
                + "\" as=\""@;
            let link = if kind == 1 {
                url + "font"@ + "\""@ + " type=\"font/woff2\" crossorigin"@ + ">\n"@
            } else if kind == 2 {
                url + "style"@ + "\""@ + ">\n"@
            } else if kind == 3 {
                url + "script"@ + "\""@ + ">\n"@
            } else if kind == 4 {
                url + "image"@ + "\""@ + ">\n"@
            } else {
                url + "fetch"@ + "\""@ + ">\n"@
            };
            goes_on(m, stop, s, at, written(s, link), at + 6, depth)
        }),
{
    encoded::encoded_preload_renders(m, kind, idx, at, model::flushed(s), depth);
    let rest = seq![kind] + bytes::u32_bytes(idx);
    assert(seq![0x0Fu8, kind] + bytes::u32_bytes(idx) =~= seq![0x0Fu8] + rest);
    encoded::opcode_stands(m, 0x0F, rest, at);
    let url = "<link rel=\"preload\" href=\""@ + text::escaped_attr(m.strings[idx as int])
        + "\" as=\""@;
    let link = if kind == 1 {
        url + "font"@ + "\""@ + " type=\"font/woff2\" crossorigin"@ + ">\n"@
    } else if kind == 2 {
        url + "style"@ + "\""@ + ">\n"@
    } else if kind == 3 {
        url + "script"@ + "\""@ + ">\n"@
    } else if kind == 4 {
        url + "image"@ + "\""@ + ">\n"@
    } else {
        url + "fetch"@ + "\""@ + ">\n"@
    };
    reveal_strlit("");
    let (name, more) = model::preload_kind(kind);
    assert(url + name + "\""@ + more + ">\n"@ =~= link);
    step(m, stop, s, Opcode::Preload, at, written(s, link), at + 6, depth);
}

// ---------------------------------------------------------------------------
// Slots
// ---------------------------------------------------------------------------

/// An attribute with a value.
pub open spec fn attribute(name: Seq<char>, words: Seq<char>) -> Seq<char> {
    " "@ + name + "=\""@ + text::escaped_attr(words) + "\""@
}

/// With a tag open, DYN_ATTR writes its attribute with the text of the slot's value
/// whenever that text is not empty, whatever kind of value the slot holds; the tag
/// stays open. It writes nothing only where the text is empty or no tag is open.
pub proof fn dynamic_attribute_is_written(
    m: ModuleView,
    stop: Stop,
    s: WalkView,
    idx: u32,
    slot_id: u16,
    at: int,
    depth: int,
)
    requires
        encoded::stands(m, seq![0x06u8] + bytes::u32_bytes(idx) + bytes::u16_bytes(slot_id), at),
        idx < m.strings.len(),
        reaches(stop, at),
        depth <= 64,
    ensures
        ({
            let words = slot::slot_text(slot::slot_at(s.slots, slot_id));
            let shown = attribute(m.strings[idx as int], words);
            &&& s.tag_open && words.len() > 0 ==> goes_on(
                m,
                stop,
                s,
                at,
                (WalkView { out: s.out + shown, ..s }),
                at + 7,
                depth,
            )
            &&& !s.tag_open || words.len() == 0 ==> goes_on(m, stop, s, at, s, at + 7, depth)
            &&& text::unescaped(text::escaped_attr(words)) == words
        }),
{
    let words = slot::slot_text(slot::slot_at(s.slots, slot_id));
    let (a, b) = (bytes::u32_bytes(idx), bytes::u16_bytes(slot_id));
    assert(seq![0x06u8] + a + b =~= seq![0x06u8] + (a + b));
    encoded::opcode_stands(m, 0x06, a + b, at);
    test_helpers::stands_in_parts(m.opcodes, a, b, at + 1);
    encoded::u32_stands(m.opcodes, idx, at + 1);
    encoded::u16_stands(m.opcodes, slot_id, at + 5);
    text::escaping_is_undone(words);
    let s2 = if s.tag_open && words.len() > 0 {
        WalkView { out: s.out + attribute(m.strings[idx as int], words), ..s }
    } else {
        s
    };
    step(m, stop, s, Opcode::DynAttr, at, s2, at + 7, depth);
}

/// A dynamic attribute by the kind of its slot's value: a text, a boolean, an integer
/// in decimal digits, any other number by its decimal text, an array or an object.
/// Null and the empty text leave the attribute out.
pub proof fn dynamic_attribute_of_each_kind(
    m: ModuleView,
    stop: Stop,
    s: WalkView,
    idx: u32,
    slot_id: u16,
    at: int,
    depth: int,
)
    requires
        encoded::stands(m, seq![0x06u8] + bytes::u32_bytes(idx) + bytes::u16_bytes(slot_id), at),
        idx < m.strings.len(),
        reaches(stop, at),
        depth <= 64,
        s.tag_open,
    ensures
        ({
            let name = m.strings[idx as int];
            let left = |words: Seq<char>|
                goes_on(
                    m,
                    stop,
                    s,
                    at,
                    (WalkView { out: s.out + attribute(name, words), ..s }),
                    at + 7,
                    depth,
                );
            match slot::slot_at(s.slots, slot_id) {
                SlotTree::Null => goes_on(m, stop, s, at, s, at + 7, depth),
                SlotTree::Text(words) => if words.len() > 0 {
                    left(words)
                } else {
                    goes_on(m, stop, s, at, s, at + 7, depth)
                },
                SlotTree::Bool(b) => left(
                    if b {
                        "true"@
                    } else {
                        "false"@
                    },
                ),
                SlotTree::Number(n) => if number::is_integral(n.bits) {
                    left(text::signed_decimal(number::as_integer(n.bits)))
                } else {
                    n.text.len() > 0 ==> left(n.text)
                },
                SlotTree::Array(items) => left("[Array]"@),
                SlotTree::Object(pairs) => left("[Object]"@),
            }
        }),
{
    reveal_strlit("true");
    reveal_strlit("false");
    reveal_strlit("[Array]");
    reveal_strlit("[Object]");
    dynamic_attribute_is_written(m, stop, s, idx, slot_id, at, depth);
    if let SlotTree::Number(n) = slot::slot_at(s.slots, slot_id) {
        if number::is_integral(n.bits) {
            slot_laws::integers_have_text(n);
        }
    }
}

/// An id as it stands in a marker comment.
pub open spec fn mark(kind: Seq<char>, id: u16) -> Seq<char> {
    kind + text::decimal(id as nat) + "-->"@
}

/// DYN_TEXT writes the text of the slot's value, escaped, between its markers; an
/// empty text is written as a zero-width space.
pub proof fn dynamic_text_is_written(
    m: ModuleView,
    stop: Stop,
    s: WalkView,
    slot_id: u16,
    marker_id: u16,
    at: int,
    depth: int,
)
    requires
        encoded::stands(
            m,
            seq![0x05u8] + bytes::u16_bytes(slot_id) + bytes::u16_bytes(marker_id),
            at,
        ),
        reaches(stop, at),
        depth <= 64,
    ensures
        ({
            let words = slot::slot_text(slot::slot_at(s.slots, slot_id));
            let shown = if words.len() == 0 {
                seq!['\u{200B}']
            } else {
                text::escaped_html(words)
            };
            &&& goes_on(
                m,
                stop,
                s,
                at,
                written(s, mark("<!--f:t"@, marker_id) + shown + mark("<!--/f:t"@, marker_id)),
                at + 5,
                depth,
            )
            &&& text::unescaped(text::escaped_html(words)) == words
        }),
{
    let words = slot::slot_text(slot::slot_at(s.slots, slot_id));
    let shown = if words.len() == 0 {
        seq!['\u{200B}']
    } else {
        text::escaped_html(words)
    };
    let (a, b) = (bytes::u16_bytes(slot_id), bytes::u16_bytes(marker_id));
    assert(seq![0x05u8] + a + b =~= seq![0x05u8] + (a + b));
    encoded::opcode_stands(m, 0x05, a + b, at);
    test_helpers::stands_in_parts(m.opcodes, a, b, at + 1);
    encoded::u16_stands(m.opcodes, slot_id, at + 1);
    encoded::u16_stands(m.opcodes, marker_id, at + 3);
    text::escaping_is_undone(words);
    step(
        m,
        stop,
        s,
        Opcode::DynText,
        at,
        written(s, mark("<!--f:t"@, marker_id) + shown + mark("<!--/f:t"@, marker_id)),
        at + 5,
        depth,
    );
}

/// PROP puts a property of one slot's object into another slot, and leaves every
/// other slot alone. It writes nothing.
pub proof fn property_is_moved(
    m: ModuleView,
    stop: Stop,
    s: WalkView,
    from: u16,
    idx: u32,
    to: u16,
    at: int,
    depth: int,
)
    requires
        encoded::stands(
            m,
            seq![0x12u8] + bytes::u16_bytes(from) + bytes::u32_bytes(idx) + bytes::u16_bytes(to),
            at,
        ),
        idx < m.strings.len(),
        reaches(stop, at),
        depth <= 64,
    ensures
        ({
            let value = slot::property(slot::slot_at(s.slots, from), m.strings[idx as int]);
            let closed = written(s, Seq::empty());
            &&& to < s.slots.len() ==> goes_on(
                m,
                stop,
                s,
                at,
                (WalkView { slots: s.slots.update(to as int, value), ..closed }),
                at + 9,
                depth,
            )
            &&& to >= s.slots.len() ==> goes_on(m, stop, s, at, closed, at + 9, depth)
        }),
{
    let (a, b, c) = (bytes::u16_bytes(from), bytes::u32_bytes(idx), bytes::u16_bytes(to));
    assert(seq![0x12u8] + a + b + c =~= seq![0x12u8] + (a + b + c));
    encoded::opcode_stands(m, 0x12, a + b + c, at);
    test_helpers::stands_in_parts(m.opcodes, a + b, c, at + 1);
    test_helpers::stands_in_parts(m.opcodes, a, b, at + 1);
    encoded::u16_stands(m.opcodes, from, at + 1);
    encoded::u32_stands(m.opcodes, idx, at + 3);
    encoded::u16_stands(m.opcodes, to, at + 7);
    let value = slot::property(slot::slot_at(s.slots, from), m.strings[idx as int]);
    let closed = written(s, Seq::empty());
    assert(closed.out =~= closed_out(s));
    let s2 = if to < s.slots.len() {
        WalkView { slots: s.slots.update(to as int, value), ..closed }
    } else {
        closed
    };
    step(m, stop, s, Opcode::Prop, at, s2, at + 9, depth);
}

// ---------------------------------------------------------------------------
// Tags
// ---------------------------------------------------------------------------

/// Attributes are written in their order: those of two runs one behind the other,
/// one attribute by its name and its escaped value, and one without a value by its
/// name alone.
pub proof fn attributes_are_written_in_turn(
    a: Seq<(Seq<char>, Seq<char>)>,
    b: Seq<(Seq<char>, Seq<char>)>,
    key: Seq<char>,
    val: Seq<char>,
)
    ensures
        model::attrs_html(Seq::empty()).len() == 0,
        model::attrs_html(a + b) == model::attrs_html(a) + model::attrs_html(b),
        val.len() > 0 ==> model::attrs_html(seq![(key, val)]) == attribute(key, val),
        model::attrs_html(seq![(key, Seq::<char>::empty())]) == " "@ + key,
    decreases b.len(),
{
    let one = seq![(key, val)];
    let bare = seq![(key, Seq::<char>::empty())];
    assert(one.drop_last() =~= Seq::empty());
    assert(bare.drop_last() =~= Seq::empty());
    assert(one.last() == (key, val));
    assert(bare.last() == (key, Seq::<char>::empty()));
    assert(model::attrs_html(one.drop_last()) =~= Seq::empty());
    assert(model::attrs_html(bare.drop_last()) =~= Seq::empty());
    assert(model::attrs_html(one) =~= model::attr_html(key, val));
    assert(model::attrs_html(bare) =~= model::attr_html(key, Seq::empty()));
    if b.len() == 0 {
        assert(a + b =~= a);
        assert(model::attrs_html(a) + model::attrs_html(b) =~= model::attrs_html(a));
    } else {
        attributes_are_written_in_turn(a, b.drop_last(), key, val);
        assert((a + b).drop_last() =~= a + b.drop_last());
        assert((a + b).last() == b.last());
        assert(model::attrs_html(a + b) =~= model::attrs_html(a) + model::attrs_html(b));
    }
}

/// The attributes that mark an island's root element: its id, its component, its
/// state, when it is hydrated and, where there are any, its props.
pub open spec fn island_attributes(island: PendingView) -> Seq<char> {
    let marks = " data-forma-island=\""@ + text::decimal(island.id as nat)
        + "\" data-forma-component=\""@ + text::escaped_attr(island.component_name)
        + "\" data-forma-status=\"pending\""@ + " data-forma-hydrate=\""@ + (
    match island.trigger {
        IslandTrigger::Load => "load"@,
        IslandTrigger::Visible => "visible"@,
        IslandTrigger::Interaction => "interaction"@,
        IslandTrigger::Idle => "idle"@,
    }) + "\""@;
    match island.inline_props {
        None => marks,
        Some(props) => marks + " data-forma-props=\""@ + text::escaped_attr(props) + "\""@,
    }
}

pub(crate) proof fn tag_reads_back(
    m: ModuleView,
    opcode: u8,
    tag_idx: u32,
    attrs: Seq<(u32, u32)>,
    at: int,
)
    requires
        encoded::stands(
            m,
            seq![opcode] + bytes::u32_bytes(tag_idx) + bytes::u16_bytes(attrs.len() as u16)
                + test_helpers::attrs_bytes(attrs),
            at,
        ),
        attrs.len() < 0x1_0000,
        encoded::attrs_in_table(m.strings, attrs),
    ensures
        0 <= at < m.opcodes.len(),
        m.opcodes[at] == opcode,
        model::tag_at(m.opcodes, m.strings, at + 1) == Ok::<
            (u32, Seq<(Seq<char>, Seq<char>)>),
            ErrorView,
        >((tag_idx, encoded::resolved(m.strings, attrs))),
        bytes::u16_at(m.opcodes, at + 5) == attrs.len(),
{
    let (name, count) = (bytes::u32_bytes(tag_idx), bytes::u16_bytes(attrs.len() as u16));
    let list = test_helpers::attrs_bytes(attrs);
    assert(test_helpers::low16(attrs.len()) == attrs.len() as u16);
    assert(seq![opcode] + name + count + list =~= test_helpers::tag_bytes(opcode, tag_idx, attrs));
    encoded::encoded_tag_reads_back(m, opcode, tag_idx, attrs, at);
    assert(seq![opcode] + name + count + list =~= seq![opcode] + (name + count + list));
    encoded::opcode_stands(m, opcode, name + count + list, at);
    test_helpers::stands_in_parts(m.opcodes, name + count, list, at + 1);
    test_helpers::stands_in_parts(m.opcodes, name, count, at + 1);
    encoded::u16_stands(m.opcodes, attrs.len() as u16, at + 5);
}

/// OPEN_TAG and VOID_TAG write a tag with its attributes, then the attributes of the
/// island that waits for a tag, then the key that waits for one. The tag stays open,
/// and nothing waits any more.
#[verifier::spinoff_prover]
#[verifier::rlimit(40)]
pub proof fn tag_is_written(
    m: ModuleView,
    stop: Stop,
    s: WalkView,
    opcode: u8,
    tag_idx: u32,
    attrs: Seq<(u32, u32)>,
    at: int,
    depth: int,
)
    requires
        opcode == 0x01 || opcode == 0x03,
        encoded::stands(
            m,
            seq![opcode] + bytes::u32_bytes(tag_idx) + bytes::u16_bytes(attrs.len() as u16)
                + test_helpers::attrs_bytes(attrs),
            at,
        ),
        attrs.len() < 0x1_0000,
        tag_idx < m.strings.len(),
        encoded::attrs_in_table(m.strings, attrs),
        reaches(stop, at),
        depth <= 64,
    ensures
        ({
            let shown = Seq::new(
                attrs.len(),
                |i: int| (m.strings[attrs[i].0 as int], m.strings[attrs[i].1 as int]),
            );
            let island = match s.island {
                Some(island) => island_attributes(island),
                None => Seq::empty(),
            };
            let key = match s.key {
                Some(key) => " data-forma-key=\""@ + text::escaped_attr(key) + "\""@,
                None => Seq::empty(),
            };
            goes_on(
                m,
                stop,
                s,
                at,
                (WalkView {
                    out: closed_out(s) + "<"@ + m.strings[tag_idx as int] + model::attrs_html(shown)
                        + island + key,
                    island: None,
                    key: None,
                    tag_open: true,
                    ..s
                }),
                at + 7 + 8 * attrs.len(),
                depth,
            )
        }),
{
    let shown = Seq::new(
        attrs.len(),
        |i: int| (m.strings[attrs[i].0 as int], m.strings[attrs[i].1 as int]),
    );
    assert(shown =~= encoded::resolved(m.strings, attrs));
    tag_reads_back(m, opcode, tag_idx, attrs, at);
    let island = match s.island {
        Some(island) => island_attributes(island),
        None => Seq::empty(),
    };
    let key = match s.key {
        Some(key) => " data-forma-key=\""@ + text::escaped_attr(key) + "\""@,
        None => Seq::empty(),
    };
    let s2 = WalkView {
        out: closed_out(s) + "<"@ + m.strings[tag_idx as int] + model::attrs_html(shown) + island
            + key,
        island: None,
        key: None,
        tag_open: true,
        ..s
    };
    let op = crate::format::opcode_of(opcode)->0;
    assert(model::flushed(s).out == closed_out(s));
    step(m, stop, s, op, at, s2, at + 7 + 8 * attrs.len(), depth);
}

/// A whole element with one dynamic attribute: where the text of the slot's value is
/// not empty, the attribute stands in the start tag with that text, escaped.
pub proof fn element_with_dynamic_attribute(
    m: ModuleView,
    slots: Seq<SlotTree>,
    tag_idx: u32,
    idx: u32,
    slot_id: u16,
)
    requires
        m.opcodes == (seq![0x01u8] + bytes::u32_bytes(tag_idx) + bytes::u16_bytes(0)) + (
        seq![0x06u8] + bytes::u32_bytes(idx) + bytes::u16_bytes(slot_id)) + (seq![0x02u8]
            + bytes::u32_bytes(tag_idx)),
        tag_idx < m.strings.len(),
        idx < m.strings.len(),
    ensures
        ({
            let tag = m.strings[tag_idx as int];
            let words = slot::slot_text(slot::slot_at(slots, slot_id));
            let shown = if words.len() > 0 {
                attribute(m.strings[idx as int], words)
            } else {
                Seq::empty()
            };
            model::html_of(m, slots) == Ok::<Seq<char>, ErrorView>(
                "<"@ + tag + shown + ">"@ + "</"@ + tag + ">"@,
            )
        }),
{
    let none = Seq::<(u32, u32)>::empty();
    let a = seq![0x01u8] + bytes::u32_bytes(tag_idx) + bytes::u16_bytes(0);
    let b = seq![0x06u8] + bytes::u32_bytes(idx) + bytes::u16_bytes(slot_id);
    let c = seq![0x02u8] + bytes::u32_bytes(tag_idx);
    let tag = m.strings[tag_idx as int];
    let words = slot::slot_text(slot::slot_at(slots, slot_id));
    let s = model::start(slots);
    let stop = Stop::At(m.opcodes.len() as int);
    assert(m.opcodes.len() == 19);
    test_helpers::stands_whole(m.opcodes);
    test_helpers::stands_in_parts(m.opcodes, a + b, c, 0);
    test_helpers::stands_in_parts(m.opcodes, a, b, 0);
    assert(a + test_helpers::attrs_bytes(none) =~= a);
    tag_is_written(m, stop, s, 0x01, tag_idx, none, 0, 0);
    let shown = Seq::new(
        none.len(),
        |i: int| (m.strings[none[i].0 as int], m.strings[none[i].1 as int]),
    );
    assert(model::attrs_html(shown) =~= Seq::empty());
    let opened = WalkView { out: "<"@ + tag, tag_open: true, ..s };
    assert(Seq::<char>::empty() + "<"@ + tag + model::attrs_html(shown) + Seq::<char>::empty()
        + Seq::<char>::empty() =~= "<"@ + tag);
    assert(goes_on(m, stop, s, 0, opened, 7, 0));
    dynamic_attribute_is_written(m, stop, opened, idx, slot_id, 7, 0);
    let shown = if words.len() > 0 {
        attribute(m.strings[idx as int], words)
    } else {
        Seq::empty()
    };
    let filled = WalkView { out: opened.out + shown, ..opened };
    assert(words.len() == 0 ==> opened.out + shown =~= opened.out);
    assert(goes_on(m, stop, opened, 7, filled, 14, 0));
    end_tag_is_written(m, stop, filled, tag_idx, 14, 0);
    let done = written(filled, "</"@ + tag + ">"@);
    walks_end(m, done, 19, 19, 0);
    assert(done.out =~= "<"@ + tag + shown + ">"@ + "</"@ + tag + ">"@);
    html_is_what_the_walk_writes(m, slots);
}

// ---------------------------------------------------------------------------
// Islands
// ---------------------------------------------------------------------------

proof fn island_is_found(islands: Seq<IslandEntryView>, i: int, from: int)
    requires
        0 <= from <= i < islands.len(),
        forall|j: int| 0 <= j < i ==> (#[trigger] islands[j]).id != islands[i].id,
    ensures
        model::island_position(islands, islands[i].id, from) == i,
    decreases i - from,
{
    if from < i {
        assert(islands[from].id != islands[i].id);
        island_is_found(islands, i, from + 1);
    }
}

proof fn island_is_missing(islands: Seq<IslandEntryView>, id: u16, from: int)
    requires
        0 <= from <= islands.len(),
        forall|j: int| 0 <= j < islands.len() ==> (#[trigger] islands[j]).id != id,
    ensures
        model::island_position(islands, id, from) == islands.len(),
    decreases islands.len() - from,
{
    if from < islands.len() {
        assert(islands[from].id != id);
        island_is_missing(islands, id, from + 1);
    }
}

/// ISLAND_START writes its marker, and the island of that id waits for the next tag
/// with its component's name, its trigger and, in the inline mode, its props as JSON.
/// In the script tag mode its props are kept for the script tag. An island without
/// slots has no props in either.
pub proof fn island_starts(
    m: ModuleView,
    stop: Stop,
    s: WalkView,
    i: int,
    at: int,
    depth: int,
)
    requires
        0 <= i < m.islands.len(),
        forall|j: int| 0 <= j < i ==> (#[trigger] m.islands[j]).id != m.islands[i].id,
        encoded::stands(m, seq![0x0Bu8] + bytes::u16_bytes(m.islands[i].id), at),
        m.islands[i].name_str_idx < m.strings.len(),
        reaches(stop, at),
        depth <= 64,
    ensures
        ({
            let entry = m.islands[i];
            let props = JsonTree::Object(model::island_props(m, s.slots, entry.slot_ids));
            let inline = if entry.slot_ids.len() > 0 && entry.props_mode == PropsMode::Inline {
                match json::json_text(props) {
                    Some(words) => Some(words),
                    None => Some("{}"@),
                }
            } else {
                None
            };
            let script = if entry.slot_ids.len() > 0 && entry.props_mode == PropsMode::ScriptTag {
                model::with_entry(s.script, entry.id, props)
            } else {
                s.script
            };
            let pending = PendingView {
                id: entry.id,
                component_name: m.strings[entry.name_str_idx as int],
                inline_props: inline,
                trigger: entry.trigger,
            };
            goes_on(
                m,
                stop,
                s,
                at,
                (WalkView {
                    island: Some(pending),
                    script,
                    ..written(s, mark("<!--f:i"@, entry.id))
                }),
                at + 3,
                depth,
            )
        }),
{
    let entry = m.islands[i];
    island_is_found(m.islands, i, 0);
    encoded::opcode_stands(m, 0x0B, bytes::u16_bytes(entry.id), at);
    encoded::u16_stands(m.opcodes, entry.id, at + 1);
    let marked = model::emit(model::flushed(s), model::marker("<!--f:i"@, entry.id));
    assert(marked.out =~= written(s, mark("<!--f:i"@, entry.id)).out);
    let s2 = model::island_pending(m, marked, entry, m.strings[entry.name_str_idx as int]);
    step(m, stop, s, Opcode::IslandStart, at, s2, at + 3, depth);
}

/// ISLAND_START with an id that is not in the island table writes its marker alone.
pub proof fn unknown_island_starts(
    m: ModuleView,
    stop: Stop,
    s: WalkView,
    id: u16,
    at: int,
    depth: int,
)
    requires
        forall|j: int| 0 <= j < m.islands.len() ==> (#[trigger] m.islands[j]).id != id,
        encoded::stands(m, seq![0x0Bu8] + bytes::u16_bytes(id), at),
        reaches(stop, at),
        depth <= 64,
    ensures
        goes_on(m, stop, s, at, written(s, mark("<!--f:i"@, id)), at + 3, depth),
{
    island_is_missing(m.islands, id, 0);
    encoded::opcode_stands(m, 0x0B, bytes::u16_bytes(id), at);
    encoded::u16_stands(m.opcodes, id, at + 1);
    step(
        m,
        stop,
        s,
        Opcode::IslandStart,
        at,
        written(s, mark("<!--f:i"@, id)),
        at + 3,
        depth,
    );
}

/// ISLAND_END writes its marker.
pub proof fn island_ends(
    m: ModuleView,
    end: int,
    s: WalkView,
    id: u16,
    at: int,
    depth: int,
)
    requires
        encoded::stands(m, seq![0x0Cu8] + bytes::u16_bytes(id), at),
        at < end,
        depth <= 64,
    ensures
        goes_on(
            m,
            Stop::At(end),
            s,
            at,
            written(s, mark("<!--/f:i"@, id)),
            at + 3,
            depth,
        ),
{
    encoded::opcode_stands(m, 0x0C, bytes::u16_bytes(id), at);
    encoded::u16_stands(m.opcodes, id, at + 1);
    step(
        m,
        Stop::At(end),
        s,
        Opcode::IslandEnd,
        at,
        written(s, mark("<!--/f:i"@, id)),
        at + 3,
        depth,
    );
}

proof fn slot_is_found(slots: Seq<SlotEntryView>, k: int, from: int)
    requires
        0 <= from <= k < slots.len(),
        forall|j: int| 0 <= j < k ==> (#[trigger] slots[j]).slot_id != slots[k].slot_id,
    ensures
        model::slot_position(slots, slots[k].slot_id, from) == k,
    decreases k - from,
{
    if from < k {
        assert(slots[from].slot_id != slots[k].slot_id);
        slot_is_found(slots, k, from + 1);
    }
}

proof fn slot_is_missing(slots: Seq<SlotEntryView>, id: u16, from: int)
    requires
        0 <= from <= slots.len(),
        forall|j: int| 0 <= j < slots.len() ==> (#[trigger] slots[j]).slot_id != id,
    ensures
        model::slot_position(slots, id, from) == slots.len(),
    decreases slots.len() - from,
{
    if from < slots.len() {
        assert(slots[from].slot_id != id);
        slot_is_missing(slots, id, from + 1);
    }
}

/// `at` gives, for each of the ids, the slot of the table that has it; the names of
/// these slots are in the string table, and no two are the same.
pub open spec fn declared_by_name(m: ModuleView, ids: Seq<u16>, at: Seq<int>) -> bool {
    &&& at.len() == ids.len()
    &&& forall|i: int|
        0 <= i < ids.len() ==> 0 <= (#[trigger] at[i]) < m.slots.len() && m.slots[at[i]].slot_id
            == ids[i] && m.slots[at[i]].name_str_idx < m.strings.len()
    &&& forall|i: int, j: int|
        0 <= i < j < ids.len() ==> m.strings[m.slots[#[trigger] at[i]].name_str_idx as int]
            != m.strings[m.slots[#[trigger] at[j]].name_str_idx as int]
}

/// The props of an island are the values of all its slots by their names, in the
/// order of its slots.
pub proof fn props_are_the_slots_of_the_island(
    m: ModuleView,
    slots: Seq<SlotTree>,
    ids: Seq<u16>,
    at: Seq<int>,
)
    requires
        slot::ids_distinct(m),
        declared_by_name(m, ids, at),
    ensures
        model::island_props(m, slots, ids) == Seq::new(
            ids.len(),
            |i: int|
                (
                    m.strings[m.slots[at[i]].name_str_idx as int],
                    slot::json_of(slot::slot_at(slots, ids[i])),
                ),
        ),
    decreases ids.len(),
{
    let shown = Seq::new(
        ids.len(),
        |i: int|
            (
                m.strings[m.slots[at[i]].name_str_idx as int],
                slot::json_of(slot::slot_at(slots, ids[i])),
            ),
    );
    if ids.len() > 0 {
        let last = ids.len() - 1;
        let (init, at_init) = (ids.drop_last(), at.drop_last());
        assert(declared_by_name(m, init, at_init)) by {
            assert forall|i: int| 0 <= i < init.len() implies 0 <= (#[trigger] at_init[i])
                < m.slots.len() && m.slots[at_init[i]].slot_id == init[i]
                && m.slots[at_init[i]].name_str_idx < m.strings.len() by {
                assert(at_init[i] == at[i]);
            }
        }
        props_are_the_slots_of_the_island(m, slots, init, at_init);
        let before = model::island_props(m, slots, init);
        let k = at[last];
        assert(m.slots[k].slot_id == ids[last]);
        assert forall|j: int| 0 <= j < k implies (#[trigger] m.slots[j]).slot_id
            != m.slots[k].slot_id by {}
        slot_is_found(m.slots, k, 0);
        let name = m.strings[m.slots[k].name_str_idx as int];
        assert(model::slot_name(m, ids[last]) == Some(name));
        assert forall|j: int| 0 <= j < before.len() implies (#[trigger] before[j]).0 != name by {
            assert(at_init[j] == at[j]);
        }
        slot_laws::key_is_missing(before, name, 0);
        assert(model::island_props(m, slots, ids) =~= before.push(
            (name, slot::json_of(slot::slot_at(slots, ids[last]))),
        ));
        assert(model::island_props(m, slots, ids) =~= shown);
    } else {
        assert(model::island_props(m, slots, ids) =~= shown);
    }
}

/// An id that the slot table does not declare adds nothing to the props of an island.
pub proof fn undeclared_slots_are_no_props(
    m: ModuleView,
    slots: Seq<SlotTree>,
    ids: Seq<u16>,
    id: u16,
)
    requires
        forall|j: int| 0 <= j < m.slots.len() ==> (#[trigger] m.slots[j]).slot_id != id,
    ensures
        model::island_props(m, slots, ids.push(id)) == model::island_props(m, slots, ids),
{
    slot_is_missing(m.slots, id, 0);
    assert(ids.push(id).drop_last() =~= ids);
}

proof fn entry_is_found(entries: Seq<(u16, JsonTree)>, i: int, from: int)
    requires
        0 <= from <= i < entries.len(),
        forall|j: int| 0 <= j < i ==> (#[trigger] entries[j]).0 != entries[i].0,
    ensures
        model::entry_position(entries, entries[i].0, from) == i,
    decreases i - from,
{
    if from < i {
        assert(entries[from].0 != entries[i].0);
        entry_is_found(entries, i, from + 1);
    }
}

proof fn entry_is_missing(entries: Seq<(u16, JsonTree)>, id: u16, from: int)
    requires
        0 <= from <= entries.len(),
        forall|j: int| 0 <= j < entries.len() ==> (#[trigger] entries[j]).0 != id,
    ensures
        model::entry_position(entries, id, from) == entries.len(),
    decreases entries.len() - from,
{
    if from < entries.len() {
        assert(entries[from].0 != id);
        entry_is_missing(entries, id, from + 1);
    }
}

/// Props are kept for the script tag by island: those of a new island behind those
/// that are there, those of one that is there in the place of its earlier ones.
pub proof fn script_props_are_kept_by_island(
    entries: Seq<(u16, JsonTree)>,
    id: u16,
    props: JsonTree,
    i: int,
)
    ensures
        (forall|j: int| 0 <= j < entries.len() ==> (#[trigger] entries[j]).0 != id)
            ==> model::with_entry(entries, id, props) == entries.push((id, props)),
        0 <= i < entries.len() && entries[i].0 == id && (forall|j: int|
            0 <= j < i ==> (#[trigger] entries[j]).0 != id) ==> model::with_entry(
            entries,
            id,
            props,
        ) == entries.update(i, (id, props)),
{
    if forall|j: int| 0 <= j < entries.len() ==> (#[trigger] entries[j]).0 != id {
        entry_is_missing(entries, id, 0);
    }
    if 0 <= i < entries.len() && entries[i].0 == id && forall|j: int|
        0 <= j < i ==> (#[trigger] entries[j]).0 != id {
        entry_is_found(entries, i, 0);
    }
}

// ---------------------------------------------------------------------------
// Control flow
// ---------------------------------------------------------------------------

proof fn show_if_reads(m: ModuleView, slot_id: u16, first: u32, second: u32, at: int)
    requires
        encoded::stands(
            m,
            seq![0x07u8] + bytes::u16_bytes(slot_id) + bytes::u32_bytes(first) + bytes::u32_bytes(
                second,
            ),
            at,
        ),
    ensures
        0 <= at < m.opcodes.len(),
        m.opcodes[at] == 0x07,
        model::show_if_header(m.opcodes, at + 1) == Ok::<(u16, u32, u32), ErrorView>(
            (slot_id, first, second),
        ),
{
    let (a, b, c) = (bytes::u16_bytes(slot_id), bytes::u32_bytes(first), bytes::u32_bytes(second));
    assert(seq![0x07u8] + a + b + c =~= seq![0x07u8] + (a + b + c));
    encoded::opcode_stands(m, 0x07, a + b + c, at);
    test_helpers::stands_in_parts(m.opcodes, a + b, c, at + 1);
    test_helpers::stands_in_parts(m.opcodes, a, b, at + 1);
    encoded::u16_stands(m.opcodes, slot_id, at + 1);
    encoded::u32_stands(m.opcodes, first, at + 3);
    encoded::u32_stands(m.opcodes, second, at + 7);
}

/// SHOW_IF walks the branch that the slot's truthiness picks, between its markers,
/// and goes on behind both branches. The branches are parted by one byte.
#[verifier::spinoff_prover]
#[verifier::rlimit(60)]
pub proof fn branch_is_walked(
    m: ModuleView,
    stop: Stop,
    s: WalkView,
    slot_id: u16,
    first: u32,
    second: u32,
    at: int,
    depth: int,
)
    requires
        encoded::stands(
            m,
            seq![0x07u8] + bytes::u16_bytes(slot_id) + bytes::u32_bytes(first) + bytes::u32_bytes(
                second,
            ),
            at,
        ),
        at + 12 + first + second <= usize::MAX,
        reaches(stop, at),
        depth <= 64,
    ensures
        ({
            let marked = written(s, mark("<!--f:s"@, slot_id));
            let walked = if slot::truthy(slot::slot_at(s.slots, slot_id)) {
                model::run(m, Stop::At(at + 11 + first), marked, at + 11, depth + 1)
            } else {
                model::run(
                    m,
                    Stop::At(at + 12 + first + second),
                    marked,
                    at + 12 + first,
                    depth + 1,
                )
            };
            match walked {
                Ok(t) => goes_on(
                    m,
                    stop,
                    s,
                    at,
                    (WalkView { out: t.out + mark("<!--/f:s"@, slot_id), ..t }),
                    at + 12 + first + second,
                    depth,
                ),
                Err(e) => model::run(m, stop, s, at, depth) == Err::<WalkView, ErrorView>(e),
            }
        }),
{
    show_if_reads(m, slot_id, first, second, at);
    let ready = model::flushed(s);
    let marked = model::emit(ready, model::marker("<!--f:s"@, slot_id));
    assert(marked == written(s, mark("<!--f:s"@, slot_id)));
    assert(model::then_end(at + 1, first) == at + 11 + first);
    let walked = if slot::truthy(slot::slot_at(s.slots, slot_id)) {
        model::run(m, Stop::At(at + 11 + first), marked, at + 11, depth + 1)
    } else {
        model::run(m, Stop::At(at + 12 + first + second), marked, at + 12 + first, depth + 1)
    };
    match walked {
        Ok(t) => {
            step(
                m,
                stop,
                s,
                Opcode::ShowIf,
                at,
                WalkView { out: t.out + mark("<!--/f:s"@, slot_id), ..t },
                at + 12 + first + second,
                depth,
            );
        },
        Err(e) => {
            fails(m, stop, s, Opcode::ShowIf, at, e, depth);
        },
    }
}

/// A SHOW_ELSE that is come to is passed over.
pub proof fn show_else_is_passed_over(
    m: ModuleView,
    stop: Stop,
    s: WalkView,
    at: int,
    depth: int,
)
    requires
        encoded::stands(m, seq![0x08u8], at),
        reaches(stop, at),
        depth <= 64,
    ensures
        goes_on(m, stop, s, at, written(s, Seq::empty()), at + 1, depth),
{
    assert(seq![0x08u8] + Seq::<u8>::empty() =~= seq![0x08u8]);
    encoded::opcode_stands(m, 0x08, Seq::empty(), at);
    assert(written(s, Seq::empty()).out =~= closed_out(s));
    step(m, stop, s, Opcode::ShowElse, at, written(s, Seq::empty()), at + 1, depth);
}

/// TRY_START goes on with what it guards; the length of the fallback is remembered.
pub proof fn guarded_part_is_walked(
    m: ModuleView,
    stop: Stop,
    s: WalkView,
    len: u32,
    at: int,
    depth: int,
)
    requires
        encoded::stands(m, seq![0x0Du8] + bytes::u32_bytes(len), at),
        reaches(stop, at),
        depth <= 64,
    ensures
        goes_on(
            m,
            stop,
            s,
            at,
            (WalkView {
                fallback: s.fallback.push(len as usize),
                ..written(s, Seq::empty())
            }),
            at + 5,
            depth,
        ),
{
    encoded::opcode_stands(m, 0x0D, bytes::u32_bytes(len), at);
    encoded::u32_stands(m.opcodes, len, at + 1);
    assert(written(s, Seq::empty()).out =~= closed_out(s));
    step(
        m,
        stop,
        s,
        Opcode::TryStart,
        at,
        WalkView { fallback: s.fallback.push(len as usize), ..written(s, Seq::empty()) },
        at + 5,
        depth,
    );
}

/// FALLBACK passes over the fallback of the TRY_START that was met last and writes
/// nothing; one without a TRY_START passes over nothing.
pub proof fn fallback_is_passed_over(
    m: ModuleView,
    stop: Stop,
    s: WalkView,
    at: int,
    depth: int,
)
    requires
        encoded::stands(m, seq![0x0Eu8], at),
        s.fallback.len() > 0 ==> at + 1 + s.fallback.last() <= usize::MAX,
        reaches(stop, at),
        depth <= 64,
    ensures
        s.fallback.len() > 0 ==> goes_on(
            m,
            stop,
            s,
            at,
            (WalkView { fallback: s.fallback.drop_last(), ..written(s, Seq::empty()) }),
            at + 1 + s.fallback.last(),
            depth,
        ),
        s.fallback.len() == 0 ==> goes_on(
            m,
            stop,
            s,
            at,
            (WalkView { stray: s.stray + 1, ..written(s, Seq::empty()) }),
            at + 1,
            depth,
        ),
{
    assert(seq![0x0Eu8] + Seq::<u8>::empty() =~= seq![0x0Eu8]);
    encoded::opcode_stands(m, 0x0E, Seq::empty(), at);
    assert(written(s, Seq::empty()).out =~= closed_out(s));
    if s.fallback.len() > 0 {
        step(
            m,
            stop,
            s,
            Opcode::Fallback,
            at,
            WalkView { fallback: s.fallback.drop_last(), ..written(s, Seq::empty()) },
            at + 1 + s.fallback.last(),
            depth,
        );
    } else {
        step(
            m,
            stop,
            s,
            Opcode::Fallback,
            at,
            WalkView { stray: s.stray + 1, ..written(s, Seq::empty()) },
            at + 1,
            depth,
        );
    }
}

/// The states between the items of a list: the first is `begin`, and the body, walked
/// from `from` to `to` over the slots with the item in its slot, leads from each to
/// the next.
pub open spec fn items_lead_on(
    m: ModuleView,
    begin: WalkView,
    slots: Seq<SlotTree>,
    item_slot_id: u16,
    items: Seq<SlotTree>,
    states: Seq<WalkView>,
    from: int,
    to: int,
    depth: int,
) -> bool {
    &&& states.len() == items.len() + 1
    &&& states[0] == begin
    &&& forall|i: int|
        #![trigger items[i]]
        0 <= i < items.len() ==> model::run(
            m,
            Stop::At(to),
            (WalkView {
                slots: if item_slot_id < slots.len() {
                    slots.update(item_slot_id as int, items[i])
                } else {
                    slots
                },
                ..states[i]
            }),
            from,
            depth,
        ) == Ok::<WalkView, ErrorView>(states[i + 1])
}

proof fn items_lead_to_the_last(
    m: ModuleView,
    slots: Seq<SlotTree>,
    item_slot_id: u16,
    items: Seq<SlotTree>,
    states: Seq<WalkView>,
    from: int,
    to: int,
    depth: int,
    i: int,
)
    requires
        m.opcodes.len() <= usize::MAX,
        states.len() > 0,
        items_lead_on(m, states[0], slots, item_slot_id, items, states, from, to, depth),
        0 <= i <= items.len(),
    ensures
        model::walk_items(m, states[i], slots, item_slot_id, items, i, from, to, depth) == Ok::<
            WalkView,
            ErrorView,
        >(states[items.len() as int]),
    decreases items.len() - i,
{
    if i < items.len() {
        let own = WalkView {
            slots: if item_slot_id < slots.len() {
                slots.update(item_slot_id as int, items[i])
            } else {
                slots
            },
            ..states[i]
        };
        assert(own == (WalkView {
            slots: slot::slot_set(slots, item_slot_id, items[i]),
            ..states[i]
        }));
        assert(model::run(m, Stop::At(to), own, from, depth) == Ok::<WalkView, ErrorView>(
            states[i + 1],
        ));
        items_lead_to_the_last(m, slots, item_slot_id, items, states, from, to, depth, i + 1);
    }
}

proof fn list_reads(m: ModuleView, slot_id: u16, item_slot_id: u16, len: u32, at: int)
    requires
        encoded::stands(
            m,
            seq![0x0Au8] + bytes::u16_bytes(slot_id) + bytes::u16_bytes(item_slot_id)
                + bytes::u32_bytes(len),
            at,
        ),
    ensures
        0 <= at < m.opcodes.len(),
        m.opcodes[at] == 0x0A,
        model::list_header(m.opcodes, at + 1) == Ok::<(u16, u16, u32), ErrorView>(
            (slot_id, item_slot_id, len),
        ),
{
    let (a, b, c) = (
        bytes::u16_bytes(slot_id),
        bytes::u16_bytes(item_slot_id),
        bytes::u32_bytes(len),
    );
    assert(seq![0x0Au8] + a + b + c =~= seq![0x0Au8] + (a + b + c));
    encoded::opcode_stands(m, 0x0A, a + b + c, at);
    test_helpers::stands_in_parts(m.opcodes, a + b, c, at + 1);
    test_helpers::stands_in_parts(m.opcodes, a, b, at + 1);
    encoded::u16_stands(m.opcodes, slot_id, at + 1);
    encoded::u16_stands(m.opcodes, item_slot_id, at + 3);
    encoded::u32_stands(m.opcodes, len, at + 5);
}

/// LIST walks its body once for every item of the slot's array, from the first to the
/// last, between its markers. Each item is walked over the slots as they were before
/// the list with the item in its own slot, and the slots are as they were afterwards.
/// Lists nest four deep.
#[verifier::spinoff_prover]
#[verifier::rlimit(60)]
pub proof fn every_item_is_walked(
    m: ModuleView,
    stop: Stop,
    s: WalkView,
    slot_id: u16,
    item_slot_id: u16,
    items: Seq<SlotTree>,
    len: u32,
    states: Seq<WalkView>,
    at: int,
    depth: int,
)
    requires
        encoded::stands(
            m,
            seq![0x0Au8] + bytes::u16_bytes(slot_id) + bytes::u16_bytes(item_slot_id)
                + bytes::u32_bytes(len),
            at,
        ),
        at + 9 + len <= usize::MAX,
        slot::slot_at(s.slots, slot_id) == SlotTree::Array(items),
        items.len() > 0,
        s.list_depth < 4,
        items_lead_on(
            m,
            (WalkView {
                list_depth: s.list_depth + 1,
                ..written(s, mark("<!--f:l"@, slot_id))
            }),
            s.slots,
            item_slot_id,
            items,
            states,
            at + 9,
            at + 9 + len,
            depth + 1,
        ),
        reaches(stop, at),
        depth <= 64,
    ensures
        ({
            let last = states[items.len() as int];
            goes_on(
                m,
                stop,
                s,
                at,
                (WalkView {
                    out: last.out + mark("<!--/f:l"@, slot_id),
                    slots: s.slots,
                    list_depth: s.list_depth,
                    ..last
                }),
                at + 9 + len,
                depth,
            )
        }),
{
    list_reads(m, slot_id, item_slot_id, len, at);
    items_lead_to_the_last(
        m,
        s.slots,
        item_slot_id,
        items,
        states,
        at + 9,
        at + 9 + len,
        depth + 1,
        0,
    );
    let last = states[items.len() as int];
    let ready = model::flushed(s);
    assert(model::emit(ready, model::marker("<!--f:l"@, slot_id)) == written(
        s,
        mark("<!--f:l"@, slot_id),
    ));
    step(
        m,
        stop,
        s,
        Opcode::List,
        at,
        WalkView {
            out: last.out + mark("<!--/f:l"@, slot_id),
            slots: s.slots,
            list_depth: s.list_depth,
            ..last
        },
        at + 9 + len,
        depth,
    );
}

/// LIST over anything but an array with items writes its markers alone; one over an
/// array with items inside four other lists fails.
#[verifier::spinoff_prover]
#[verifier::rlimit(40)]
pub proof fn lists_without_items_or_too_deep(
    m: ModuleView,
    stop: Stop,
    s: WalkView,
    slot_id: u16,
    item_slot_id: u16,
    len: u32,
    at: int,
    depth: int,
)
    requires
        encoded::stands(
            m,
            seq![0x0Au8] + bytes::u16_bytes(slot_id) + bytes::u16_bytes(item_slot_id)
                + bytes::u32_bytes(len),
            at,
        ),
        at + 9 + len <= usize::MAX,
        reaches(stop, at),
        depth <= 64,
    ensures
        (slot::slot_at(s.slots, slot_id) matches SlotTree::Array(items) ==> items.len() == 0)
            ==> goes_on(
            m,
            stop,
            s,
            at,
            written(s, mark("<!--f:l"@, slot_id) + mark("<!--/f:l"@, slot_id)),
            at + 9 + len,
            depth,
        ),
        s.list_depth >= 4 && slot::slot_at(s.slots, slot_id) is Array && slot::slot_at(
            s.slots,
            slot_id,
        )->Array_0.len() > 0 ==> model::run(m, stop, s, at, depth) == Err::<WalkView, ErrorView>(
            ErrorView::ListDepthExceeded { max: 4 },
        ),
{
    list_reads(m, slot_id, item_slot_id, len, at);
    let value = slot::slot_at(s.slots, slot_id);
    let s2 = written(s, mark("<!--f:l"@, slot_id) + mark("<!--/f:l"@, slot_id));
    let ready = model::flushed(s);
    let marked = model::emit(ready, model::marker("<!--f:l"@, slot_id));
    assert(model::emit(marked, model::marker("<!--/f:l"@, slot_id)).out =~= s2.out);
    if value is Array && value->Array_0.len() > 0 {
        if s.list_depth >= 4 {
            fails(
                m,
                stop,
                s,
                Opcode::List,
                at,
                ErrorView::ListDepthExceeded { max: 4 },
                depth,
            );
        }
    } else {
        step(m, stop, s, Opcode::List, at, s2, at + 9 + len, depth);
    }
}

/// The headers of the cases of a SWITCH stand from `at` on: for each the index of its
/// value, then the length of its body.
pub open spec fn case_headers_stand(ops: Seq<u8>, cases: Seq<(u32, u32)>, at: int) -> bool {
    forall|i: int|
        #![trigger cases[i]]
        0 <= i < cases.len() ==> test_helpers::stands_at(
            ops,
            bytes::u32_bytes(cases[i].0) + bytes::u32_bytes(cases[i].1),
            at + 8 * i,
        )
}

/// The bodies of the cases stand one behind the other: `starts` gives where each
/// starts, and at last where all of them end.
pub open spec fn bodies_follow(cases: Seq<(u32, u32)>, starts: Seq<int>, from: int) -> bool {
    &&& starts.len() == cases.len() + 1
    &&& starts[0] == from
    &&& starts[cases.len() as int] <= usize::MAX
    &&& forall|i: int|
        #![trigger cases[i]]
        0 <= i < cases.len() ==> starts[i + 1] == starts[i] + cases[i].1
}

/// The states between the cases of a SWITCH: the first is `begin`; the body of a case
/// whose value is `words` leads from one to the next, any other case changes nothing.
pub open spec fn cases_lead_on(
    m: ModuleView,
    begin: WalkView,
    cases: Seq<(u32, u32)>,
    words: Seq<char>,
    starts: Seq<int>,
    states: Seq<WalkView>,
    depth: int,
) -> bool {
    &&& states.len() == cases.len() + 1
    &&& states[0] == begin
    &&& forall|i: int|
        #![trigger cases[i]]
        0 <= i < cases.len() ==> cases[i].0 < m.strings.len() && if m.strings[cases[i].0 as int]
            == words {
            model::run(m, Stop::At(starts[i + 1]), states[i], starts[i], depth) == Ok::<
                WalkView,
                ErrorView,
            >(states[i + 1])
        } else {
            states[i + 1] == states[i]
        }
}

proof fn headers_are_read(ops: Seq<u8>, cases: Seq<(u32, u32)>, at: int)
    requires
        case_headers_stand(ops, cases, at),
    ensures
        model::cases_from(ops, at, cases.len()) == Ok::<Seq<(u32, u32)>, ErrorView>(cases),
    decreases cases.len(),
{
    if cases.len() > 0 {
        let rest = cases.skip(1);
        let (a, b) = (bytes::u32_bytes(cases[0].0), bytes::u32_bytes(cases[0].1));
        test_helpers::stands_in_parts(ops, a, b, at);
        encoded::u32_stands(ops, cases[0].0, at);
        encoded::u32_stands(ops, cases[0].1, at + 4);
        assert forall|i: int|
            #![trigger rest[i]]
            0 <= i < rest.len() implies test_helpers::stands_at(
            ops,
            bytes::u32_bytes(rest[i].0) + bytes::u32_bytes(rest[i].1),
            at + 8 + 8 * i,
        ) by {
            assert(rest[i] == cases[i + 1]);
        }
        headers_are_read(ops, rest, at + 8);
        assert(seq![(cases[0].0, cases[0].1)] + rest =~= cases);
    } else {
        assert(cases =~= Seq::empty());
    }
}

proof fn later_start(cases: Seq<(u32, u32)>, starts: Seq<int>, from: int, k: int)
    requires
        bodies_follow(cases, starts, from),
        0 <= k <= cases.len(),
    ensures
        starts[k] <= usize::MAX,
    decreases cases.len() - k,
{
    if k < cases.len() {
        later_start(cases, starts, from, k + 1);
        assert(starts[k + 1] == starts[k] + cases[k].1);
    }
}

proof fn bodies_end_where_the_next_starts(
    cases: Seq<(u32, u32)>,
    starts: Seq<int>,
    from: int,
    k: nat,
)
    requires
        0 <= from,
        bodies_follow(cases, starts, from),
        k <= cases.len(),
    ensures
        model::bodies_end(cases, from, k) == starts[k as int],
        starts[k as int] >= from,
    decreases k,
{
    later_start(cases, starts, from, k as int);
    if k > 0 {
        bodies_end_where_the_next_starts(cases, starts, from, (k - 1) as nat);
        assert(starts[k as int] == starts[k - 1] + cases[k - 1].1);
    }
}

proof fn cases_lead_to_the_last(
    m: ModuleView,
    cases: Seq<(u32, u32)>,
    words: Seq<char>,
    starts: Seq<int>,
    states: Seq<WalkView>,
    from: int,
    depth: int,
    i: int,
)
    requires
        m.opcodes.len() <= usize::MAX,
        0 <= from,
        states.len() > 0,
        bodies_follow(cases, starts, from),
        cases_lead_on(m, states[0], cases, words, starts, states, depth),
        0 <= i <= cases.len(),
    ensures
        model::walk_cases(m, states[i], cases, from, i, words, depth) == Ok::<WalkView, ErrorView>(
            states[cases.len() as int],
        ),
    decreases cases.len() - i,
{
    if i < cases.len() {
        bodies_end_where_the_next_starts(cases, starts, from, i as nat);
        bodies_end_where_the_next_starts(cases, starts, from, (i + 1) as nat);
        assert(cases[i].0 < m.strings.len());
        cases_lead_to_the_last(m, cases, words, starts, states, from, depth, i + 1);
    }
}

/// SWITCH walks the body of every case whose value is the text of the slot's value,
/// from the first to the last, passes over all others, and goes on behind the last
/// body. It writes nothing of its own.
#[verifier::spinoff_prover]
#[verifier::rlimit(60)]
pub proof fn every_matching_case_is_walked(
    m: ModuleView,
    stop: Stop,
    s: WalkView,
    slot_id: u16,
    cases: Seq<(u32, u32)>,
    starts: Seq<int>,
    states: Seq<WalkView>,
    at: int,
    depth: int,
)
    requires
        cases.len() < 0x1_0000,
        encoded::stands(
            m,
            seq![0x09u8] + bytes::u16_bytes(slot_id) + bytes::u16_bytes(cases.len() as u16),
            at,
        ),
        case_headers_stand(m.opcodes, cases, at + 5),
        bodies_follow(cases, starts, at + 5 + 8 * cases.len()),
        cases_lead_on(
            m,
            written(s, Seq::empty()),
            cases,
            slot::slot_text(slot::slot_at(s.slots, slot_id)),
            starts,
            states,
            depth + 1,
        ),
        reaches(stop, at),
        depth <= 64,
    ensures
        goes_on(
            m,
            stop,
            s,
            at,
            states[cases.len() as int],
            starts[cases.len() as int],
            depth,
        ),
{
    let (a, b) = (bytes::u16_bytes(slot_id), bytes::u16_bytes(cases.len() as u16));
    let from = at + 5 + 8 * cases.len();
    assert(seq![0x09u8] + a + b =~= seq![0x09u8] + (a + b));
    encoded::opcode_stands(m, 0x09, a + b, at);
    test_helpers::stands_in_parts(m.opcodes, a, b, at + 1);
    encoded::u16_stands(m.opcodes, slot_id, at + 1);
    encoded::u16_stands(m.opcodes, cases.len() as u16, at + 3);
    headers_are_read(m.opcodes, cases, at + 5);
    assert(written(s, Seq::empty()).out =~= closed_out(s));
    assert(written(s, Seq::empty()) == model::flushed(s));
    cases_lead_to_the_last(
        m,
        cases,
        slot::slot_text(slot::slot_at(s.slots, slot_id)),
        starts,
        states,
        from,
        depth + 1,
        0,
    );
    bodies_end_where_the_next_starts(cases, starts, from, cases.len());
    step(
        m,
        stop,
        s,
        Opcode::Switch,
        at,
        states[cases.len() as int],
        starts[cases.len() as int],
        depth,
    );
}

/// The HTML of one island is what the walk writes from behind its ISLAND_START to its
/// own ISLAND_END, over the slots as given; markers and script tag do not belong to it.
pub proof fn island_html_is_what_the_walk_writes(
    m: ModuleView,
    slots: Seq<SlotTree>,
    i: int,
)
    requires
        0 <= i < m.islands.len(),
        forall|j: int| 0 <= j < i ==> (#[trigger] m.islands[j]).id != m.islands[i].id,
        m.islands[i].byte_offset + 3 <= m.opcodes.len(),
        m.opcodes[m.islands[i].byte_offset as int] == 0x0B,
    ensures
        match model::run(
            m,
            Stop::IslandEnd(m.islands[i].id),
            model::start(slots),
            m.islands[i].byte_offset + 3,
            0,
        ) {
            Ok(s) => model::island_html_of(m, slots, m.islands[i].id) == Ok::<
                Seq<char>,
                ErrorView,
            >(s.out),
            Err(e) => model::island_html_of(m, slots, m.islands[i].id) == Err::<
                Seq<char>,
                ErrorView,
            >(e),
        },
{
    island_is_found(m.islands, i, 0);
}

/// An island that is not in the table, or whose offset is not that of an ISLAND_START,
/// has no HTML.
pub proof fn islands_that_are_not_there(m: ModuleView, slots: Seq<SlotTree>, id: u16, i: int)
    ensures
        (forall|j: int| 0 <= j < m.islands.len() ==> (#[trigger] m.islands[j]).id != id)
            ==> model::island_html_of(m, slots, id) == Err::<Seq<char>, ErrorView>(
            ErrorView::IslandNotFound(id),
        ),
        0 <= i < m.islands.len() && m.islands[i].id == id && (forall|j: int|
            0 <= j < i ==> (#[trigger] m.islands[j]).id != id) && m.islands[i].byte_offset
            < m.opcodes.len() && m.opcodes[m.islands[i].byte_offset as int] != 0x0B
            ==> model::island_html_of(m, slots, id) == Err::<Seq<char>, ErrorView>(
            ErrorView::InvalidOpcode(m.opcodes[m.islands[i].byte_offset as int]),
        ),
        0 <= i < m.islands.len() && m.islands[i].id == id && (forall|j: int|
            0 <= j < i ==> (#[trigger] m.islands[j]).id != id) && m.islands[i].byte_offset
            >= m.opcodes.len() ==> model::island_html_of(m, slots, id) is Err,
{
    if forall|j: int| 0 <= j < m.islands.len() ==> (#[trigger] m.islands[j]).id != id {
        island_is_missing(m.islands, id, 0);
    }
    if 0 <= i < m.islands.len() && m.islands[i].id == id && forall|j: int|
        0 <= j < i ==> (#[trigger] m.islands[j]).id != id {
        island_is_found(m.islands, i, 0);
    }
}

/// A walk of an island stops at the ISLAND_END of its own id, and passes over one of
/// any other id, whose marker it writes.
pub proof fn island_ends_are_told_apart(
    m: ModuleView,
    own: u16,
    s: WalkView,
    id: u16,
    at: int,
    depth: int,
)
    requires
        encoded::stands(m, seq![0x0Cu8] + bytes::u16_bytes(id), at),
        depth <= 64,
    ensures
        id == own ==> model::run(m, Stop::IslandEnd(own), s, at, depth) == Ok::<
            WalkView,
            ErrorView,
        >((WalkView { out: closed_out(s), tag_open: false, ..s })),
        id != own ==> goes_on(
            m,
            Stop::IslandEnd(own),
            s,
            at,
            written(s, mark("<!--/f:i"@, id)),
            at + 3,
            depth,
        ),
{
    encoded::opcode_stands(m, 0x0C, bytes::u16_bytes(id), at);
    encoded::u16_stands(m.opcodes, id, at + 1);
    let s2 = written(s, mark("<!--/f:i"@, id));
    assert(model::effect(m, model::flushed(s), Opcode::IslandEnd, at + 1, depth) == Ok::<
        WalkView,
        ErrorView,
    >(s2));
}

// ---------------------------------------------------------------------------
// Streams that are cut off
// ---------------------------------------------------------------------------

/// How many bytes of operands the first operand asks for that is not whole, where only
/// `n` bytes stand behind an opcode; none where its fixed operands are all there.
pub open spec fn wanted(opcode: u8, n: int) -> Option<int> {
    if opcode == 0x02 || opcode == 0x04 || opcode == 0x0D || opcode == 0x10 || opcode == 0x11 {
        first_short(n, 4, 4, 4)
    } else if opcode == 0x0B || opcode == 0x0C {
        first_short(n, 2, 2, 2)
    } else if opcode == 0x01 || opcode == 0x03 || opcode == 0x06 {
        first_short(n, 4, 6, 6)
    } else if opcode == 0x05 || opcode == 0x09 {
        first_short(n, 2, 4, 4)
    } else if opcode == 0x07 {
        first_short(n, 2, 6, 10)
    } else if opcode == 0x0A {
        first_short(n, 2, 4, 8)
    } else if opcode == 0x0F {
        first_short(n, 1, 5, 5)
    } else if opcode == 0x12 {
        first_short(n, 2, 6, 8)
    } else {
        None
    }
}

/// The first of three ends that `n` bytes do not reach.
pub open spec fn first_short(n: int, a: int, b: int, c: int) -> Option<int> {
    if n < a {
        Some(a)
    } else if n < b {
        Some(b)
    } else if n < c {
        Some(c)
    } else {
        None
    }
}

/// An opcode whose operands are not all there ends the walk with an error that says how
/// far the stream should reach.
#[verifier::spinoff_prover]
#[verifier::rlimit(60)]
pub proof fn cut_off_operands_fail(
    m: ModuleView,
    stop: Stop,
    s: WalkView,
    at: int,
    depth: int,
)
    requires
        m.opcodes.len() + 16 <= usize::MAX,
        0 <= at < m.opcodes.len(),
        wanted(m.opcodes[at], m.opcodes.len() - at - 1) is Some,
        reaches(stop, at),
        depth <= 64,
    ensures
        model::run(m, stop, s, at, depth) == Err::<WalkView, ErrorView>(
            ErrorView::BufferTooShort {
                expected: at + 1 + wanted(m.opcodes[at], m.opcodes.len() - at - 1)->0,
                actual: m.opcodes.len() as int,
            },
        ),
{
    let e = ErrorView::BufferTooShort {
        expected: at + 1 + wanted(m.opcodes[at], m.opcodes.len() - at - 1)->0,
        actual: m.opcodes.len() as int,
    };
    let op = crate::format::opcode_of(m.opcodes[at])->0;
    let ready = relocation::ready_for(op, s);
    assert(model::effect(m, ready, op, at + 1, depth) == Err::<WalkView, ErrorView>(e));
    if op != Opcode::IslandEnd {
        fails(m, stop, s, op, at, e, depth);
    }
}

// ---------------------------------------------------------------------------
// Slot sources
// ---------------------------------------------------------------------------

/// Where no slot is declared twice, a slot is server-sourced as the table declares it;
/// one that is not declared is not.
pub proof fn slots_are_sourced_as_declared(m: ModuleView, k: int, id: u16)
    requires
        slot::ids_distinct(m),
    ensures
        0 <= k < m.slots.len() ==> (walker::server_sourced(m, m.slots[k].slot_id)
            <==> m.slots[k].source == SlotSource::Server),
        (forall|j: int| 0 <= j < m.slots.len() ==> (#[trigger] m.slots[j]).slot_id != id)
            ==> !walker::server_sourced(m, id),
{
    if 0 <= k < m.slots.len() {
        assert forall|j: int| 0 <= j < k implies (#[trigger] m.slots[j]).slot_id
            != m.slots[k].slot_id by {}
        slot_is_found(m.slots, k, 0);
    }
    if forall|j: int| 0 <= j < m.slots.len() ==> (#[trigger] m.slots[j]).slot_id != id {
        slot_is_missing(m.slots, id, 0);
    }
}

/// Markers, island attributes and the script tag by themselves.
pub proof fn pieces_are_written(kind: Seq<char>, id: u16, island: PendingView, words: Seq<char>)
    ensures
        model::marker(kind, id) == mark(kind, id),
        model::island_attrs_html(island) == island_attributes(island),
        model::json_script_html(words)
            == "<script id=\"__forma_islands\" type=\"application/json\">"@
            + text::pair_replaced(words, '<', '/', "<\\/"@) + "</script>"@,
{
}

// ---------------------------------------------------------------------------
// Names that are not in the table
// ---------------------------------------------------------------------------

/// The error for a string that is not in the table.
pub open spec fn no_string(m: ModuleView, idx: u32) -> Result<WalkView, ErrorView> {
    Err(ErrorView::StringIndexOutOfBounds { index: idx, len: m.strings.len() as int })
}

/// DYN_ATTR fails where its name is not in the table and a tag is open; where none is
/// open, its name does not matter.
pub proof fn attributes_without_a_name_fail(
    m: ModuleView,
    stop: Stop,
    s: WalkView,
    idx: u32,
    slot_id: u16,
    at: int,
    depth: int,
)
    requires
        encoded::stands(m, seq![0x06u8] + bytes::u32_bytes(idx) + bytes::u16_bytes(slot_id), at),
        idx >= m.strings.len(),
        reaches(stop, at),
        depth <= 64,
    ensures
        s.tag_open ==> model::run(m, stop, s, at, depth) == no_string(m, idx),
        !s.tag_open ==> goes_on(m, stop, s, at, s, at + 7, depth),
{
    let (a, b) = (bytes::u32_bytes(idx), bytes::u16_bytes(slot_id));
    assert(seq![0x06u8] + a + b =~= seq![0x06u8] + (a + b));
    encoded::opcode_stands(m, 0x06, a + b, at);
    test_helpers::stands_in_parts(m.opcodes, a, b, at + 1);
    encoded::u32_stands(m.opcodes, idx, at + 1);
    encoded::u16_stands(m.opcodes, slot_id, at + 5);
    if s.tag_open {
        fails(
            m,
            stop,
            s,
            Opcode::DynAttr,
            at,
            ErrorView::StringIndexOutOfBounds { index: idx, len: m.strings.len() as int },
            depth,
        );
    } else {
        step(m, stop, s, Opcode::DynAttr, at, s, at + 7, depth);
    }
}

/// PRELOAD fails where its URL is not in the table.
pub proof fn preloads_without_a_url_fail(
    m: ModuleView,
    stop: Stop,
    s: WalkView,
    kind: u8,
    idx: u32,
    at: int,
    depth: int,
)
    requires
        encoded::stands(m, seq![0x0Fu8, kind] + bytes::u32_bytes(idx), at),
        idx >= m.strings.len(),
        reaches(stop, at),
        depth <= 64,
    ensures
        model::run(m, stop, s, at, depth) == no_string(m, idx),
{
    let rest = seq![kind] + bytes::u32_bytes(idx);
    assert(seq![0x0Fu8, kind] + bytes::u32_bytes(idx) =~= seq![0x0Fu8] + rest);
    encoded::opcode_stands(m, 0x0F, rest, at);
    encoded::opcode_stands(m, kind, bytes::u32_bytes(idx), at + 1);
    encoded::u32_stands(m.opcodes, idx, at + 2);
    fails(
        m,
        stop,
        s,
        Opcode::Preload,
        at,
        ErrorView::StringIndexOutOfBounds { index: idx, len: m.strings.len() as int },
        depth,
    );
}

/// PROP fails where the name of the property is not in the table.
pub proof fn properties_without_a_name_fail(
    m: ModuleView,
    stop: Stop,
    s: WalkView,
    from: u16,
    idx: u32,
    to: u16,
    at: int,
    depth: int,
)
    requires
        encoded::stands(
            m,
            seq![0x12u8] + bytes::u16_bytes(from) + bytes::u32_bytes(idx) + bytes::u16_bytes(to),
            at,
        ),
        idx >= m.strings.len(),
        reaches(stop, at),
        depth <= 64,
    ensures
        model::run(m, stop, s, at, depth) == no_string(m, idx),
{
    let (a, b, c) = (bytes::u16_bytes(from), bytes::u32_bytes(idx), bytes::u16_bytes(to));
    assert(seq![0x12u8] + a + b + c =~= seq![0x12u8] + (a + b + c));
    encoded::opcode_stands(m, 0x12, a + b + c, at);
    test_helpers::stands_in_parts(m.opcodes, a + b, c, at + 1);
    test_helpers::stands_in_parts(m.opcodes, a, b, at + 1);
    encoded::u16_stands(m.opcodes, from, at + 1);
    encoded::u32_stands(m.opcodes, idx, at + 3);
    encoded::u16_stands(m.opcodes, to, at + 7);
    fails(
        m,
        stop,
        s,
        Opcode::Prop,
        at,
        ErrorView::StringIndexOutOfBounds { index: idx, len: m.strings.len() as int },
        depth,
    );
}

/// OPEN_TAG and VOID_TAG fail where the name of the tag is not in the table.
pub proof fn tags_without_a_name_fail(
    m: ModuleView,
    stop: Stop,
    s: WalkView,
    opcode: u8,
    tag_idx: u32,
    attrs: Seq<(u32, u32)>,
    at: int,
    depth: int,
)
    requires
        opcode == 0x01 || opcode == 0x03,
        encoded::stands(
            m,
            seq![opcode] + bytes::u32_bytes(tag_idx) + bytes::u16_bytes(attrs.len() as u16)
                + test_helpers::attrs_bytes(attrs),
            at,
        ),
        attrs.len() < 0x1_0000,
        tag_idx >= m.strings.len(),
        encoded::attrs_in_table(m.strings, attrs),
        reaches(stop, at),
        depth <= 64,
    ensures
        model::run(m, stop, s, at, depth) == no_string(m, tag_idx),
{
    tag_reads_back(m, opcode, tag_idx, attrs, at);
    let op = crate::format::opcode_of(opcode)->0;
    fails(
        m,
        stop,
        s,
        op,
        at,
        ErrorView::StringIndexOutOfBounds { index: tag_idx, len: m.strings.len() as int },
        depth,
    );
}

/// ISLAND_START fails where the name of the island's component is not in the table.
pub proof fn islands_without_a_name_fail(
    m: ModuleView,
    stop: Stop,
    s: WalkView,
    i: int,
    at: int,
    depth: int,
)
    requires
        0 <= i < m.islands.len(),
        forall|j: int| 0 <= j < i ==> (#[trigger] m.islands[j]).id != m.islands[i].id,
        encoded::stands(m, seq![0x0Bu8] + bytes::u16_bytes(m.islands[i].id), at),
        m.islands[i].name_str_idx >= m.strings.len(),
        reaches(stop, at),
        depth <= 64,
    ensures
        model::run(m, stop, s, at, depth) == no_string(m, m.islands[i].name_str_idx),
{
    let entry = m.islands[i];
    island_is_found(m.islands, i, 0);
    encoded::opcode_stands(m, 0x0B, bytes::u16_bytes(entry.id), at);
    encoded::u16_stands(m.opcodes, entry.id, at + 1);
    fails(
        m,
        stop,
        s,
        Opcode::IslandStart,
        at,
        ErrorView::StringIndexOutOfBounds {
            index: entry.name_str_idx,
            len: m.strings.len() as int,
        },
        depth,
    );
}

// ---------------------------------------------------------------------------
// Bodies that fail
// ---------------------------------------------------------------------------

proof fn items_lead_up_to(
    m: ModuleView,
    slots: Seq<SlotTree>,
    item_slot_id: u16,
    items: Seq<SlotTree>,
    states: Seq<WalkView>,
    from: int,
    to: int,
    depth: int,
    k: int,
    i: int,
)
    requires
        m.opcodes.len() <= usize::MAX,
        0 <= k <= i <= items.len(),
        states.len() > 0,
        items_lead_on(m, states[0], slots, item_slot_id, items.take(i), states, from, to, depth),
    ensures
        model::walk_items(m, states[k], slots, item_slot_id, items, k, from, to, depth)
            == model::walk_items(m, states[i], slots, item_slot_id, items, i, from, to, depth),
    decreases i - k,
{
    if k < i {
        assert(items.take(i)[k] == items[k]);
        let own = WalkView {
            slots: if item_slot_id < slots.len() {
                slots.update(item_slot_id as int, items[k])
            } else {
                slots
            },
            ..states[k]
        };
        assert(own == (WalkView {
            slots: slot::slot_set(slots, item_slot_id, items[k]),
            ..states[k]
        }));
        assert(model::run(m, Stop::At(to), own, from, depth) == Ok::<WalkView, ErrorView>(
            states[k + 1],
        ));
        items_lead_up_to(m, slots, item_slot_id, items, states, from, to, depth, k + 1, i);
    }
}

/// A LIST fails with the first of its items whose walk fails, and with its error.
#[verifier::spinoff_prover]
#[verifier::rlimit(60)]
pub proof fn lists_fail_with_their_items(
    m: ModuleView,
    stop: Stop,
    s: WalkView,
    slot_id: u16,
    item_slot_id: u16,
    items: Seq<SlotTree>,
    len: u32,
    states: Seq<WalkView>,
    i: int,
    e: ErrorView,
    at: int,
    depth: int,
)
    requires
        encoded::stands(
            m,
            seq![0x0Au8] + bytes::u16_bytes(slot_id) + bytes::u16_bytes(item_slot_id)
                + bytes::u32_bytes(len),
            at,
        ),
        at + 9 + len <= usize::MAX,
        slot::slot_at(s.slots, slot_id) == SlotTree::Array(items),
        0 <= i < items.len(),
        s.list_depth < 4,
        items_lead_on(
            m,
            (WalkView {
                list_depth: s.list_depth + 1,
                ..written(s, mark("<!--f:l"@, slot_id))
            }),
            s.slots,
            item_slot_id,
            items.take(i),
            states,
            at + 9,
            at + 9 + len,
            depth + 1,
        ),
        model::run(
            m,
            Stop::At(at + 9 + len),
            (WalkView {
                slots: slot::slot_set(s.slots, item_slot_id, items[i]),
                ..states[i]
            }),
            at + 9,
            depth + 1,
        ) == Err::<WalkView, ErrorView>(e),
        reaches(stop, at),
        depth <= 64,
    ensures
        model::run(m, stop, s, at, depth) == Err::<WalkView, ErrorView>(e),
{
    list_reads(m, slot_id, item_slot_id, len, at);
    items_lead_up_to(
        m,
        s.slots,
        item_slot_id,
        items,
        states,
        at + 9,
        at + 9 + len,
        depth + 1,
        0,
        i,
    );
    let ready = model::flushed(s);
    assert(model::emit(ready, model::marker("<!--f:l"@, slot_id)) == written(
        s,
        mark("<!--f:l"@, slot_id),
    ));
    fails(m, stop, s, Opcode::List, at, e, depth);
}

proof fn cases_lead_up_to(
    m: ModuleView,
    cases: Seq<(u32, u32)>,
    words: Seq<char>,
    starts: Seq<int>,
    states: Seq<WalkView>,
    from: int,
    depth: int,
    k: int,
    i: int,
)
    requires
        m.opcodes.len() <= usize::MAX,
        0 <= from,
        0 <= k <= i <= cases.len(),
        states.len() > 0,
        bodies_follow(cases, starts, from),
        cases_lead_on(m, states[0], cases.take(i), words, starts, states, depth),
    ensures
        model::walk_cases(m, states[k], cases, from, k, words, depth) == model::walk_cases(
            m,
            states[i],
            cases,
            from,
            i,
            words,
            depth,
        ),
    decreases i - k,
{
    if k < i {
        bodies_end_where_the_next_starts(cases, starts, from, k as nat);
        bodies_end_where_the_next_starts(cases, starts, from, (k + 1) as nat);
        assert(cases.take(i)[k] == cases[k]);
        cases_lead_up_to(m, cases, words, starts, states, from, depth, k + 1, i);
    }
}

/// A SWITCH fails with the first of its cases whose value is not in the string table,
/// or whose value matches and whose body fails, and with its error.
#[verifier::spinoff_prover]
#[verifier::rlimit(60)]
pub proof fn switches_fail_with_their_cases(
    m: ModuleView,
    stop: Stop,
    s: WalkView,
    slot_id: u16,
    cases: Seq<(u32, u32)>,
    starts: Seq<int>,
    states: Seq<WalkView>,
    i: int,
    e: ErrorView,
    at: int,
    depth: int,
)
    requires
        cases.len() < 0x1_0000,
        encoded::stands(
            m,
            seq![0x09u8] + bytes::u16_bytes(slot_id) + bytes::u16_bytes(cases.len() as u16),
            at,
        ),
        case_headers_stand(m.opcodes, cases, at + 5),
        bodies_follow(cases, starts, at + 5 + 8 * cases.len()),
        0 <= i < cases.len(),
        cases_lead_on(
            m,
            written(s, Seq::empty()),
            cases.take(i),
            slot::slot_text(slot::slot_at(s.slots, slot_id)),
            starts,
            states,
            depth + 1,
        ),
        if cases[i].0 < m.strings.len() {
            m.strings[cases[i].0 as int] == slot::slot_text(slot::slot_at(s.slots, slot_id))
                && model::run(m, Stop::At(starts[i + 1]), states[i], starts[i], depth + 1) == Err::<
                WalkView,
                ErrorView,
            >(e)
        } else {
            e == (ErrorView::StringIndexOutOfBounds {
                index: cases[i].0,
                len: m.strings.len() as int,
            })
        },
        reaches(stop, at),
        depth <= 64,
    ensures
        model::run(m, stop, s, at, depth) == Err::<WalkView, ErrorView>(e),
{
    let (a, b) = (bytes::u16_bytes(slot_id), bytes::u16_bytes(cases.len() as u16));
    let from = at + 5 + 8 * cases.len();
    let words = slot::slot_text(slot::slot_at(s.slots, slot_id));
    assert(seq![0x09u8] + a + b =~= seq![0x09u8] + (a + b));
    encoded::opcode_stands(m, 0x09, a + b, at);
    test_helpers::stands_in_parts(m.opcodes, a, b, at + 1);
    encoded::u16_stands(m.opcodes, slot_id, at + 1);
    encoded::u16_stands(m.opcodes, cases.len() as u16, at + 3);
    headers_are_read(m.opcodes, cases, at + 5);
    assert(written(s, Seq::empty()).out =~= closed_out(s));
    assert(written(s, Seq::empty()) == model::flushed(s));
    cases_lead_up_to(m, cases, words, starts, states, from, depth + 1, 0, i);
    bodies_end_where_the_next_starts(cases, starts, from, i as nat);
    bodies_end_where_the_next_starts(cases, starts, from, (i + 1) as nat);
    fails(m, stop, s, Opcode::Switch, at, e, depth);
}

} // verus!
