//! What slot values are written and read as, kind by kind, and what the slots of a
//! module hold, given by its slot table and its string table.

use vstd::prelude::*;

use crate::format::{ErrorView, SlotEntryView, SlotType};
use crate::json;
use crate::json::{JsonNumberView, JsonTree};
use crate::number;
use crate::number::{NumberView, SlotNumber};
use crate::parser;
use crate::parser::ModuleView;
use crate::slot;
use crate::slot::{SlotTree, SlotValue};
use crate::text;
use crate::types;

verus! {

// ---------------------------------------------------------------------------
// Values
// ---------------------------------------------------------------------------

/// Every kind of value has its text: nothing for Null, a text itself, `true` and
/// `false`, an integer in decimal digits, any other number by its decimal text, and
/// a fixed word for arrays and objects.
pub proof fn values_have_texts(
    words: Seq<char>,
    n: NumberView,
    items: Seq<SlotTree>,
    pairs: Seq<(Seq<char>, SlotTree)>,
)
    ensures
        slot::slot_text(SlotTree::Null).len() == 0,
        slot::slot_text(SlotTree::Text(words)) == words,
        slot::slot_text(SlotTree::Bool(true)) == seq!['t', 'r', 'u', 'e'],
        slot::slot_text(SlotTree::Bool(false)) == seq!['f', 'a', 'l', 's', 'e'],
        slot::slot_text(SlotTree::Array(items)) == seq!['[', 'A', 'r', 'r', 'a', 'y', ']'],
        slot::slot_text(SlotTree::Object(pairs)) == seq!['[', 'O', 'b', 'j', 'e', 'c', 't', ']'],
        number::is_integral(n.bits) ==> slot::slot_text(SlotTree::Number(n))
            == text::signed_decimal(number::as_integer(n.bits)),
        !number::is_integral(n.bits) ==> slot::slot_text(SlotTree::Number(n)) == n.text,
{
    reveal_strlit("true");
    reveal_strlit("false");
    reveal_strlit("[Array]");
    reveal_strlit("[Object]");
}

/// The text of an integer is never empty.
pub proof fn integers_have_text(n: NumberView)
    requires
        number::is_integral(n.bits),
    ensures
        slot::slot_text(SlotTree::Number(n)).len() > 0,
{
    reveal_strlit("-");
    let i = number::as_integer(n.bits);
    text::decimals_are_their_numbers(if i < 0 {
        (-i) as nat
    } else {
        i as nat
    });
}

/// Null, false, zero, the empty text and the empty array are falsy, all else is
/// truthy.
pub proof fn values_are_truthy(
    words: Seq<char>,
    n: NumberView,
    items: Seq<SlotTree>,
    pairs: Seq<(Seq<char>, SlotTree)>,
)
    ensures
        !slot::truthy(SlotTree::Null),
        slot::truthy(SlotTree::Bool(true)),
        !slot::truthy(SlotTree::Bool(false)),
        slot::truthy(SlotTree::Text(words)) <==> words.len() != 0,
        slot::truthy(SlotTree::Number(n)) <==> n.bits != 0 && n.bits != 0x8000_0000_0000_0000,
        slot::truthy(SlotTree::Array(items)) <==> items.len() != 0,
        slot::truthy(SlotTree::Object(pairs)),
{
    let b = n.bits;
    assert(number::is_zero(b) <==> b == 0 || b == 0x8000_0000_0000_0000) by {
        assert((b / 0x10_0000_0000_0000 % 0x800 == 0 && b % 0x10_0000_0000_0000 == 0) <==> (b == 0
            || b == 0x8000_0000_0000_0000)) by (bit_vector);
    }
}

/// A property of an object is the value of the first pair of that name.
pub proof fn properties_are_found(pairs: Seq<(Seq<char>, SlotTree)>, i: int)
    requires
        0 <= i < pairs.len(),
        forall|j: int| 0 <= j < i ==> (#[trigger] pairs[j]).0 != pairs[i].0,
    ensures
        slot::property(SlotTree::Object(pairs), pairs[i].0) == pairs[i].1,
{
    key_is_found(pairs, i, 0);
}

proof fn key_is_found<V>(pairs: Seq<(Seq<char>, V)>, i: int, from: int)
    requires
        0 <= from <= i < pairs.len(),
        forall|j: int| 0 <= j < i ==> (#[trigger] pairs[j]).0 != pairs[i].0,
    ensures
        json::key_position(pairs, pairs[i].0, from) == i,
    decreases i - from,
{
    if from < i {
        assert(pairs[from].0 != pairs[i].0);
        key_is_found(pairs, i, from + 1);
    }
}

pub(crate) proof fn key_is_missing<V>(pairs: Seq<(Seq<char>, V)>, name: Seq<char>, from: int)
    requires
        0 <= from <= pairs.len(),
        forall|j: int| 0 <= j < pairs.len() ==> (#[trigger] pairs[j]).0 != name,
    ensures
        json::key_position(pairs, name, from) == pairs.len(),
    decreases pairs.len() - from,
{
    if from < pairs.len() {
        assert(pairs[from].0 != name);
        key_is_missing(pairs, name, from + 1);
    }
}

/// An object has no property that none of its pairs names, and no other value has
/// properties at all.
pub proof fn properties_are_missing(
    pairs: Seq<(Seq<char>, SlotTree)>,
    name: Seq<char>,
    other: SlotTree,
)
    requires
        forall|j: int| 0 <= j < pairs.len() ==> (#[trigger] pairs[j]).0 != name,
        !(other is Object),
    ensures
        slot::property(SlotTree::Object(pairs), name) == SlotTree::Null,
        slot::property(other, name) == SlotTree::Null,
{
    key_is_missing(pairs, name, 0);
}

/// Values are written as JSON kind by kind; an integer is written as an integer, any
/// other finite number as it is, and one that is not finite as null.
pub proof fn values_are_written_as_json(words: Seq<char>, b: bool, n: NumberView)
    ensures
        slot::json_of(SlotTree::Null) == JsonTree::Null,
        slot::json_of(SlotTree::Text(words)) == JsonTree::Text(words),
        slot::json_of(SlotTree::Bool(b)) == JsonTree::Bool(b),
        number::is_integral(n.bits) ==> slot::json_of(SlotTree::Number(n)) == JsonTree::Number(
            JsonNumberView::Int(number::as_integer(n.bits) as i64),
        ),
        number::is_finite(n.bits) && !number::is_integral(n.bits) ==> slot::json_of(
            SlotTree::Number(n),
        ) == JsonTree::Number(JsonNumberView::Double(n)),
        !number::is_finite(n.bits) ==> slot::json_of(SlotTree::Number(n)) == JsonTree::Null,
{
    if number::is_integral(n.bits) && !number::is_finite(n.bits) {
        assert(number::exponent(n.bits) == 0x7ff);
    }
}

/// Arrays are written item by item, in their order.
pub proof fn arrays_are_written_as_json(items: Seq<SlotTree>, i: int)
    ensures
        slot::json_of(SlotTree::Array(items)) matches JsonTree::Array(written) && written.len()
            == items.len() && (0 <= i < items.len() ==> written[i] == slot::json_of(items[i])),
{
}

/// Objects that bind no key twice are written pair by pair, in their order.
pub proof fn objects_are_written_as_json(pairs: Seq<(Seq<char>, SlotTree)>, i: int)
    requires
        types::distinct_keys(pairs),
    ensures
        slot::json_of(SlotTree::Object(pairs)) matches JsonTree::Object(written) && written.len()
            == pairs.len() && (0 <= i < pairs.len() ==> written[i].0 == pairs[i].0 && written[i].1
            == slot::json_of(pairs[i].1)),
{
    let written = slot::json_pairs(pairs);
    assert forall|a: int, b: int| 0 <= a < b < written.len() implies (#[trigger] written[a]).0 != (
    #[trigger] written[b]).0 by {
        assert(pairs[a].0 != pairs[b].0);
    }
    json::distinct_pairs_stay(written);
}

/// JSON values are read kind by kind; an integer as its double, and a number that
/// has no double as zero.
pub proof fn json_is_read_as_values(words: Seq<char>, b: bool, n: NumberView, i: i64)
    ensures
        slot::slot_of_json(JsonTree::Null) == SlotTree::Null,
        slot::slot_of_json(JsonTree::Text(words)) == SlotTree::Text(words),
        slot::slot_of_json(JsonTree::Bool(b)) == SlotTree::Bool(b),
        slot::slot_of_json(JsonTree::Number(JsonNumberView::Double(n))) == SlotTree::Number(n),
        json::json_int_double(i) == Some(n) ==> slot::slot_of_json(
            JsonTree::Number(JsonNumberView::Int(i)),
        ) == SlotTree::Number(n),
        slot::slot_of_json(JsonTree::Number(JsonNumberView::NoDouble)) == SlotTree::Number(
            (NumberView { bits: 0, text: seq!['0'] }),
        ),
{
    reveal_strlit("0");
    assert("0"@ =~= seq!['0']);
}

/// JSON arrays are read item by item, and objects pair by pair, in their order.
pub proof fn json_collections_are_read(
    items: Seq<JsonTree>,
    pairs: Seq<(Seq<char>, JsonTree)>,
    i: int,
)
    ensures
        slot::slot_of_json(JsonTree::Array(items)) matches SlotTree::Array(read) && read.len()
            == items.len() && (0 <= i < items.len() ==> read[i] == slot::slot_of_json(items[i])),
        slot::slot_of_json(JsonTree::Object(pairs)) matches SlotTree::Object(read) && read.len()
            == pairs.len() && (0 <= i < pairs.len() ==> read[i].0 == pairs[i].0 && read[i].1
            == slot::slot_of_json(pairs[i].1)),
{
}

// ---------------------------------------------------------------------------
// Defaults
// ---------------------------------------------------------------------------

/// A default is read by the type of its slot: a text as it is, `true` and `false` as
/// booleans, a number as the number it is read as, and `[]` as the empty array.
pub proof fn defaults_are_typed(words: Seq<char>, parsed: Option<NumberView>)
    ensures
        slot::typed_default(SlotType::Text, words, parsed) == SlotTree::Text(words),
        slot::typed_default(SlotType::Bool, seq!['t', 'r', 'u', 'e'], parsed) == SlotTree::Bool(
            true,
        ),
        slot::typed_default(SlotType::Bool, seq!['f', 'a', 'l', 's', 'e'], parsed)
            == SlotTree::Bool(false),
        words != seq!['t', 'r', 'u', 'e'] && words != seq!['f', 'a', 'l', 's', 'e']
            ==> slot::typed_default(SlotType::Bool, words, parsed) == SlotTree::Null,
        parsed matches Some(n) ==> slot::typed_default(SlotType::Number, words, parsed)
            == SlotTree::Number(n),
        parsed is None ==> slot::typed_default(SlotType::Number, words, parsed) == SlotTree::Null,
        slot::typed_default(SlotType::Array, seq!['[', ']'], parsed) == SlotTree::Array(
            Seq::empty(),
        ),
        words != seq!['[', ']'] ==> slot::typed_default(SlotType::Array, words, parsed)
            == SlotTree::Null,
        slot::typed_default(SlotType::Object, words, parsed) == SlotTree::Null,
{
    reveal_strlit("true");
    reveal_strlit("false");
    reveal_strlit("[]");
    assert("true"@ =~= seq!['t', 'r', 'u', 'e']);
    assert("false"@ =~= seq!['f', 'a', 'l', 's', 'e']);
    assert("[]"@ =~= seq!['[', ']']);
    assert("true"@[0] != "false"@[0]);
}

/// The value that the default bytes of a slot stand for: none where there are no
/// bytes; otherwise what their text stands for, where bytes that are not UTF-8 count
/// as the empty text.
pub open spec fn initial_value(entry: SlotEntryView) -> SlotTree {
    if entry.default_bytes.len() == 0 {
        SlotTree::Null
    } else {
        let words = if vstd::utf8::valid_utf8(entry.default_bytes) {
            vstd::utf8::decode_utf8(entry.default_bytes)
        } else {
            Seq::empty()
        };
        slot::typed_default(entry.type_hint, words, number::parsed_number(words))
    }
}

/// Where no slot is declared twice, every slot starts with the value of its own
/// default, whatever its type and its source.
pub proof fn every_slot_starts_with_its_default(entries: Seq<SlotEntryView>, k: int)
    requires
        0 <= k < entries.len(),
        forall|i: int, j: int|
            0 <= i < j < entries.len() ==> (#[trigger] entries[i]).slot_id != (
            #[trigger] entries[j]).slot_id,
    ensures
        slot::slot_at(slot::default_slots(entries), entries[k].slot_id) == initial_value(
            entries[k],
        ),
{
    reveal_strlit("");
    assert(""@ =~= Seq::<char>::empty());
    slot::declared_slots_exist(entries, k);
    slot::defaults_keep_len(slot::null_slots(slot::slot_capacity(entries)), entries);
    default_of(slot::null_slots(slot::slot_capacity(entries)), entries, k);
}

proof fn default_of(slots: Seq<SlotTree>, entries: Seq<SlotEntryView>, k: int)
    requires
        0 <= k < entries.len(),
        entries[k].slot_id < slots.len(),
        forall|i: int, j: int|
            0 <= i < j < entries.len() ==> (#[trigger] entries[i]).slot_id != (
            #[trigger] entries[j]).slot_id,
    ensures
        slot::slot_at(slot::with_defaults(slots, entries), entries[k].slot_id) == (
        if entries[k].default_bytes.len() == 0 {
            slot::slot_at(slots, entries[k].slot_id)
        } else {
            slot::default_value(entries[k])
        }),
    decreases entries.len(),
{
    let init = entries.drop_last();
    slot::defaults_keep_len(slots, init);
    if k == entries.len() - 1 {
        default_untouched(slots, init, entries[k].slot_id);
    } else {
        default_of(slots, init, k);
        assert(entries[k].slot_id != entries[entries.len() - 1].slot_id);
    }
}

proof fn default_untouched(slots: Seq<SlotTree>, entries: Seq<SlotEntryView>, id: u16)
    requires
        forall|i: int| 0 <= i < entries.len() ==> (#[trigger] entries[i]).slot_id != id,
    ensures
        slot::slot_at(slot::with_defaults(slots, entries), id) == slot::slot_at(slots, id),
    decreases entries.len(),
{
    if entries.len() > 0 {
        let init = entries.drop_last();
        assert forall|i: int| 0 <= i < init.len() implies (#[trigger] init[i]).slot_id != id by {
            assert(init[i] == entries[i]);
        }
        default_untouched(slots, init, id);
        assert(entries[entries.len() - 1].slot_id != id);
        slot::defaults_keep_len(slots, init);
    }
}

/// A slot that the table does not declare is Null.
pub proof fn undeclared_slots_are_null(entries: Seq<SlotEntryView>, id: u16)
    requires
        forall|i: int| 0 <= i < entries.len() ==> (#[trigger] entries[i]).slot_id != id,
    ensures
        slot::slot_at(slot::default_slots(entries), id) == SlotTree::Null,
{
    default_untouched(slot::null_slots(slot::slot_capacity(entries)), entries, id);
}

/// There are just as many slots as the largest id asks for.
pub proof fn slots_reach_to_the_largest_id(entries: Seq<SlotEntryView>)
    ensures
        forall|i: int|
            0 <= i < entries.len() ==> (#[trigger] entries[i]).slot_id < slot::default_slots(
                entries,
            ).len(),
        entries.len() == 0 ==> slot::default_slots(entries).len() == 0,
        entries.len() > 0 ==> exists|i: int|
            0 <= i < entries.len() && (#[trigger] entries[i]).slot_id + 1 == slot::default_slots(
                entries,
            ).len(),
{
    slot::defaults_keep_len(slot::null_slots(slot::slot_capacity(entries)), entries);
    assert forall|i: int| 0 <= i < entries.len() implies (#[trigger] entries[i]).slot_id
        < slot::default_slots(entries).len() by {
        slot::declared_slots_exist(entries, i);
    }
    if entries.len() > 0 {
        let i = largest(entries);
        assert(entries[i].slot_id + 1 == slot::default_slots(entries).len());
    }
}

proof fn largest(entries: Seq<SlotEntryView>) -> (i: int)
    requires
        entries.len() > 0,
    ensures
        0 <= i < entries.len(),
        entries[i].slot_id + 1 == slot::slot_capacity(entries),
    decreases entries.len(),
{
    let last = entries.len() - 1;
    if entries.len() == 1 || entries[last].slot_id + 1 > slot::slot_capacity(entries.drop_last()) {
        assert(entries.len() == 1 ==> slot::slot_capacity(entries.drop_last()) == 0);
        last
    } else {
        let i = largest(entries.drop_last());
        assert(entries.drop_last()[i] == entries[i]);
        i
    }
}

// ---------------------------------------------------------------------------
// Slots out of JSON
// ---------------------------------------------------------------------------

/// Slot `k` of the table has the name `name`: its name is in the string table.
pub open spec fn is_named(m: ModuleView, k: int, name: Seq<char>) -> bool {
    &&& 0 <= k < m.slots.len()
    &&& m.slots[k].name_str_idx < m.strings.len()
    &&& m.strings[m.slots[k].name_str_idx as int] == name
}

/// A name is looked up in the whole slot table: it is found just where some slot has
/// it, and the slot found is the last one of that name.
pub proof fn names_are_looked_up(m: ModuleView, name: Seq<char>)
    ensures
        slot::last_named(m, name, m.slots.len()) is Some <==> exists|k: int| is_named(m, k, name),
        forall|k: int|
            #[trigger] is_named(m, k, name) && (forall|j: int|
                k < j ==> !#[trigger] is_named(m, j, name)) ==> slot::last_named(
                m,
                name,
                m.slots.len(),
            ) == Some(m.slots[k].slot_id),
{
    lookup_of(m, name, m.slots.len());
    assert forall|k: int|
        #[trigger] is_named(m, k, name) && (forall|j: int|
            k < j ==> !#[trigger] is_named(m, j, name)) implies slot::last_named(
        m,
        name,
        m.slots.len(),
    ) == Some(m.slots[k].slot_id) by {
        let j = choose|j: int|
            #[trigger] is_named(m, j, name) && slot::last_named(m, name, m.slots.len()) == Some(
                m.slots[j].slot_id,
            ) && forall|i: int| j < i < m.slots.len() ==> !#[trigger] is_named(m, i, name);
        assert(!(j < k));
        assert(!(k < j));
    }
}

proof fn lookup_of(m: ModuleView, name: Seq<char>, n: nat)
    requires
        n <= m.slots.len(),
    ensures
        slot::last_named(m, name, n) is None ==> forall|k: int|
            0 <= k < n ==> !#[trigger] is_named(m, k, name),
        slot::last_named(m, name, n) is Some ==> exists|j: int| #[trigger]
            is_named(m, j, name) && j < n && slot::last_named(m, name, n) == Some(
                m.slots[j].slot_id,
            ) && forall|i: int| j < i < n ==> !#[trigger] is_named(m, i, name),
    decreases n,
{
    if n > 0 {
        let last = n - 1;
        if is_named(m, last, name) {
            assert(slot::last_named(m, name, n) == Some(m.slots[last].slot_id));
        } else {
            lookup_of(m, name, (n - 1) as nat);
        }
    }
}

/// No two slots of the table have one name.
pub open spec fn names_distinct(m: ModuleView) -> bool {
    forall|i: int, j: int, name: Seq<char>|
        #[trigger] is_named(m, i, name) && #[trigger] is_named(m, j, name) ==> i == j
}

/// Where slot names and ids are distinct and a JSON object binds no key twice, every
/// slot whose name is a key of the object holds the value of that key, whatever the
/// slot's type, source and default, and wherever in the object the key stands.
pub proof fn every_slot_gets_the_value_of_its_name(
    m: ModuleView,
    pairs: Seq<(Seq<char>, JsonTree)>,
    k: int,
    i: int,
)
    requires
        names_distinct(m),
        slot::ids_distinct(m),
        types::distinct_keys(pairs),
        0 <= i < pairs.len(),
        0 <= k < m.slots.len(),
        m.slots[k].name_str_idx < m.strings.len(),
        m.strings[m.slots[k].name_str_idx as int] == pairs[i].0,
    ensures
        slot::slots_of_json(JsonTree::Object(pairs), m) matches Ok(slots) && slot::slot_at(
            slots,
            m.slots[k].slot_id,
        ) == slot::slot_of_json(pairs[i].1),
{
    let name = pairs[i].0;
    assert(is_named(m, k, name));
    names_are_looked_up(m, name);
    assert forall|j: int| k < j implies !#[trigger] is_named(m, j, name) by {}
    slot::declared_slots_exist(m.slots, k);
    slot::every_named_slot_is_set(
        slot::default_slots(m.slots),
        m,
        pairs,
        i,
        m.slots[k].slot_id,
    );
}

/// Where slot ids are distinct, every slot whose name is no key of the object keeps
/// the value of its own default.
pub proof fn every_other_slot_keeps_its_default(
    m: ModuleView,
    pairs: Seq<(Seq<char>, JsonTree)>,
    k: int,
)
    requires
        slot::ids_distinct(m),
        0 <= k < m.slots.len(),
        forall|i: int| 0 <= i < pairs.len() ==> !is_named(m, k, (#[trigger] pairs[i]).0),
    ensures
        slot::slots_of_json(JsonTree::Object(pairs), m) matches Ok(slots) && slot::slot_at(
            slots,
            m.slots[k].slot_id,
        ) == initial_value(m.slots[k]),
{
    let id = m.slots[k].slot_id;
    assert forall|i: int| 0 <= i < pairs.len() implies slot::last_named(
        m,
        (#[trigger] pairs[i]).0,
        m.slots.len(),
    ) != Some(id) by {
        let name = pairs[i].0;
        lookup_of(m, name, m.slots.len());
        if slot::last_named(m, name, m.slots.len()) == Some(id) {
            let j = choose|j: int|
                #[trigger] is_named(m, j, name) && j < m.slots.len() && slot::last_named(
                    m,
                    name,
                    m.slots.len(),
                ) == Some(m.slots[j].slot_id) && forall|l: int|
                    j < l < m.slots.len() ==> !#[trigger] is_named(m, l, name);
            assert(m.slots[j].slot_id == id);
            assert(!(j < k) && !(k < j));
        }
    }
    slot::missing_key_keeps_default(slot::default_slots(m.slots), m, pairs, id);
    every_slot_starts_with_its_default(m.slots, k);
}

/// A JSON value that is no object fills no slots; a JSON text fills them as the value
/// that it is read as, and one that is not JSON fails with the reader's words.
pub proof fn slots_come_out_of_objects(m: ModuleView, value: JsonTree, words: Seq<char>)
    ensures
        !(value is Object) ==> slot::slots_of_json(value, m) is Err,
        value is Object ==> slot::slots_of_json(value, m) is Ok,
        json::json_read(words) == Ok::<JsonTree, Seq<char>>(value) ==> slot::slots_of_json_text(
            words,
            m,
        ) == slot::slots_of_json(value, m),
        json::json_read(words) matches Err(e) ==> slot::slots_of_json_text(words, m) == Err::<
            Seq<SlotTree>,
            ErrorView,
        >(ErrorView::JsonParseError(e)),
{
}

/// There are as many slots as the table asks for, whatever the object holds.
pub proof fn json_makes_no_slots(m: ModuleView, pairs: Seq<(Seq<char>, JsonTree)>)
    ensures
        slot::slots_of_json(JsonTree::Object(pairs), m) matches Ok(slots) && slots.len()
            == slot::default_slots(m.slots).len(),
{
    slot::named_keep_len(slot::default_slots(m.slots), m, pairs);
}

/// The first slot of a name is looked for in the whole table as well.
pub proof fn first_names_are_looked_up(m: ModuleView, name: Seq<char>, k: int)
    ensures
        parser::first_named(m, name, k) <==> is_named(m, k, name) && forall|j: int|
            0 <= j < k ==> !#[trigger] is_named(m, j, name),
        parser::has_named(m, name) <==> exists|j: int| is_named(m, j, name),
{
    if parser::first_named(m, name, k) {
        assert forall|j: int| 0 <= j < k implies !#[trigger] is_named(m, j, name) by {
            assert(parser::string_at(m.strings, m.slots[j].name_str_idx) != Ok::<
                Seq<char>,
                ErrorView,
            >(name));
        }
    }
    if is_named(m, k, name) && forall|j: int| 0 <= j < k ==> !#[trigger] is_named(m, j, name) {
        assert forall|j: int| 0 <= j < k implies parser::string_at(
            m.strings,
            (#[trigger] m.slots[j]).name_str_idx,
        ) != Ok::<Seq<char>, ErrorView>(name) by {
            assert(!is_named(m, j, name));
        }
    }
    if parser::has_named(m, name) {
        let j = choose|j: int|
            0 <= j < m.slots.len() && parser::string_at(
                m.strings,
                (#[trigger] m.slots[j]).name_str_idx,
            ) == Ok::<Seq<char>, ErrorView>(name);
        assert(is_named(m, j, name));
    }
}

// ---------------------------------------------------------------------------
// Views
// ---------------------------------------------------------------------------

/// What a value is seen to hold is all that it holds.
pub proof fn values_are_seen_whole(
    words: String,
    b: bool,
    n: SlotNumber,
    items: Vec<SlotValue>,
    pairs: Vec<(String, SlotValue)>,
    i: int,
)
    ensures
        SlotValue::Null@ == SlotTree::Null,
        SlotValue::Text(words)@ == SlotTree::Text(words@),
        SlotValue::Bool(b)@ == SlotTree::Bool(b),
        SlotValue::Number(n)@ == SlotTree::Number((NumberView { bits: n.bits, text: n.text@ })),
        SlotValue::Array(items)@ matches SlotTree::Array(seen) && seen.len() == items@.len() && (0
            <= i < items@.len() ==> seen[i] == items@[i]@),
        SlotValue::Object(pairs)@ matches SlotTree::Object(seen) && seen.len() == pairs@.len() && (0
            <= i < pairs@.len() ==> seen[i] == (pairs@[i].0@, pairs@[i].1@)),
{
}

/// Slots that are made without values are all there and all Null.
pub proof fn new_slots_are_null(capacity: nat, id: u16)
    ensures
        slot::null_slots(capacity).len() == capacity,
        slot::slot_at(slot::null_slots(capacity), id) == SlotTree::Null,
{
}

// ---------------------------------------------------------------------------
// One after the other
// ---------------------------------------------------------------------------

/// Defaults are set one after the other, in the order of the table, so that of two for
/// one slot the later one counts.
pub proof fn defaults_are_set_in_turn(
    slots: Seq<SlotTree>,
    entries: Seq<SlotEntryView>,
    entry: SlotEntryView,
)
    ensures
        slot::with_defaults(slots, Seq::empty()) == slots,
        entry.default_bytes.len() == 0 ==> slot::with_defaults(slots, entries.push(entry))
            == slot::with_defaults(slots, entries),
        entry.default_bytes.len() > 0 ==> slot::with_defaults(slots, entries.push(entry))
            == slot::slot_set(
            slot::with_defaults(slots, entries),
            entry.slot_id,
            initial_value(entry),
        ),
{
    reveal_strlit("");
    assert(""@ =~= Seq::<char>::empty());
    assert(entries.push(entry).drop_last() =~= entries);
}

/// The pairs of an object are set one after the other, in their order: each in the last
/// slot of its name, whatever the slot, and one whose name no slot has is passed over.
pub proof fn pairs_are_set_in_turn(
    slots: Seq<SlotTree>,
    m: ModuleView,
    pairs: Seq<(Seq<char>, JsonTree)>,
    key: Seq<char>,
    value: JsonTree,
    k: int,
)
    ensures
        slot::with_named(slots, m, Seq::empty()) == slots,
        (forall|j: int| !#[trigger] is_named(m, j, key)) ==> slot::with_named(
            slots,
            m,
            pairs.push((key, value)),
        ) == slot::with_named(slots, m, pairs),
        is_named(m, k, key) && (forall|j: int| k < j ==> !#[trigger] is_named(m, j, key))
            ==> slot::with_named(slots, m, pairs.push((key, value))) == slot::slot_set(
            slot::with_named(slots, m, pairs),
            m.slots[k].slot_id,
            slot::slot_of_json(value),
        ),
        slot::slots_of_json(JsonTree::Object(pairs), m) == Ok::<Seq<SlotTree>, ErrorView>(
            slot::with_named(slot::default_slots(m.slots), m, pairs),
        ),
{
    names_are_looked_up(m, key);
    assert(pairs.push((key, value)).drop_last() =~= pairs);
}

} // verus!
