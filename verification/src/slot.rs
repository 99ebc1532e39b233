//! Slot values and the slot data that page handlers hand to the walker.

use vstd::prelude::*;

use crate::format::{ErrorView, IrError, SlotEntry, SlotEntryView, SlotType};
use crate::json;
use crate::json::{JsonNumber, JsonNumberView, JsonTree, JsonValue};
use crate::number;
use crate::number::{NumberView, SlotNumber};
use crate::parser;
use crate::parser::{IrModule, ModuleView, SlotTable};
use crate::text;
use crate::types;

pub mod laws;

verus! {

// ---------------------------------------------------------------------------
// SlotValue
// ---------------------------------------------------------------------------

/// Runtime values populated by page handlers before IR walking.
#[derive(Debug)]
pub enum SlotValue {
    Null,
    Text(String),
    Bool(bool),
    Number(SlotNumber),
    Array(Vec<SlotValue>),
    Object(Vec<(String, SlotValue)>),
}

/// What a [`SlotValue`] holds.
pub enum SlotTree {
    Null,
    Text(Seq<char>),
    Bool(bool),
    Number(NumberView),
    Array(Seq<SlotTree>),
    Object(Seq<(Seq<char>, SlotTree)>),
}

impl SlotValue {
    /// The value as a tree.
    pub open spec fn tree(self) -> SlotTree
        decreases self,
    {
        match self {
            SlotValue::Null => SlotTree::Null,
            SlotValue::Text(s) => SlotTree::Text(s@),
            SlotValue::Bool(b) => SlotTree::Bool(b),
            SlotValue::Number(n) => SlotTree::Number(n@),
            SlotValue::Array(items) => SlotTree::Array(
                Seq::new(
                    items@.len(),
                    |i: int|
                        if 0 <= i < items@.len() {
                            items@[i].tree()
                        } else {
                            SlotTree::Null
                        },
                ),
            ),
            SlotValue::Object(pairs) => SlotTree::Object(
                Seq::new(
                    pairs@.len(),
                    |i: int|
                        if 0 <= i < pairs@.len() {
                            (pairs@[i].0@, pairs@[i].1.tree())
                        } else {
                            (Seq::empty(), SlotTree::Null)
                        },
                ),
            ),
        }
    }
}

impl View for SlotValue {
    type V = SlotTree;

    open spec fn view(&self) -> SlotTree {
        self.tree()
    }
}

/// What a run of values holds.
pub open spec fn slot_trees(items: Seq<SlotValue>) -> Seq<SlotTree> {
    Seq::new(items.len(), |i: int| items[i]@)
}

/// What a run of named values holds.
pub open spec fn named_trees(pairs: Seq<(String, SlotValue)>) -> Seq<(Seq<char>, SlotTree)> {
    Seq::new(pairs.len(), |i: int| (pairs[i].0@, pairs[i].1@))
}

proof fn array_tree(items: Vec<SlotValue>)
    ensures
        SlotValue::Array(items)@ == SlotTree::Array(slot_trees(items@)),
{
    assert(SlotValue::Array(items)@->Array_0 =~= slot_trees(items@));
}

proof fn object_tree(pairs: Vec<(String, SlotValue)>)
    ensures
        SlotValue::Object(pairs)@ == SlotTree::Object(named_trees(pairs@)),
{
    assert(SlotValue::Object(pairs)@->Object_0 =~= named_trees(pairs@));
}

/// The text of a value.
pub open spec fn slot_text(t: SlotTree) -> Seq<char> {
    match t {
        SlotTree::Null => Seq::empty(),
        SlotTree::Text(s) => s,
        SlotTree::Bool(b) => if b {
            "true"@
        } else {
            "false"@
        },
        SlotTree::Number(n) => number::number_text(n),
        SlotTree::Array(_) => "[Array]"@,
        SlotTree::Object(_) => "[Object]"@,
    }
}

/// The truthiness of a value.
pub open spec fn truthy(t: SlotTree) -> bool {
    match t {
        SlotTree::Null => false,
        SlotTree::Bool(b) => b,
        SlotTree::Text(s) => s.len() > 0,
        SlotTree::Number(n) => !number::is_zero(n.bits),
        SlotTree::Array(items) => items.len() > 0,
        SlotTree::Object(_) => true,
    }
}

/// The named property of an object: its first binding, or Null.
pub open spec fn property(t: SlotTree, name: Seq<char>) -> SlotTree {
    match t {
        SlotTree::Object(pairs) => {
            let at = json::key_position(pairs, name, 0);
            if at < pairs.len() {
                pairs[at].1
            } else {
                SlotTree::Null
            }
        },
        _ => SlotTree::Null,
    }
}

/// The JSON value that a slot value is written as. Integers are written
/// plainly, numbers that are not finite as null; of two bindings of one key the
/// later one counts.
pub open spec fn json_of(t: SlotTree) -> JsonTree
    decreases t,
{
    match t {
        SlotTree::Null => JsonTree::Null,
        SlotTree::Text(s) => JsonTree::Text(s),
        SlotTree::Bool(b) => JsonTree::Bool(b),
        SlotTree::Number(n) => if number::is_integral(n.bits) {
            JsonTree::Number(JsonNumberView::Int(number::as_integer(n.bits) as i64))
        } else if number::is_finite(n.bits) {
            JsonTree::Number(JsonNumberView::Double(n))
        } else {
            JsonTree::Null
        },
        SlotTree::Array(items) => JsonTree::Array(
            Seq::new(
                items.len(),
                |i: int|
                    if 0 <= i < items.len() {
                        json_of(items[i])
                    } else {
                        JsonTree::Null
                    },
            ),
        ),
        SlotTree::Object(pairs) => JsonTree::Object(json::bound_in_turn(json_pairs(pairs))),
    }
}

/// The named values with each value as it is written.
pub open spec fn json_pairs(pairs: Seq<(Seq<char>, SlotTree)>) -> Seq<(Seq<char>, JsonTree)>
    decreases pairs,
{
    Seq::new(
        pairs.len(),
        |i: int|
            if 0 <= i < pairs.len() {
                (pairs[i].0, json_of(pairs[i].1))
            } else {
                (Seq::empty(), JsonTree::Null)
            },
    )
}

/// A double, or zero where there is none.
pub open spec fn or_zero(double: Option<NumberView>) -> NumberView {
    match double {
        Some(x) => x,
        None => NumberView { bits: 0, text: "0"@ },
    }
}

/// The slot value that a JSON value is read as.
pub open spec fn slot_of_json(j: JsonTree) -> SlotTree
    decreases j,
{
    match j {
        JsonTree::Null => SlotTree::Null,
        JsonTree::Text(s) => SlotTree::Text(s),
        JsonTree::Bool(b) => SlotTree::Bool(b),
        JsonTree::Number(JsonNumberView::Double(n)) => SlotTree::Number(n),
        JsonTree::Number(JsonNumberView::Int(n)) => SlotTree::Number(
            or_zero(json::json_int_double(n)),
        ),
        JsonTree::Number(JsonNumberView::NoDouble) => SlotTree::Number(or_zero(None)),
        JsonTree::Array(items) => SlotTree::Array(
            Seq::new(
                items.len(),
                |i: int|
                    if 0 <= i < items.len() {
                        slot_of_json(items[i])
                    } else {
                        SlotTree::Null
                    },
            ),
        ),
        JsonTree::Object(pairs) => SlotTree::Object(
            Seq::new(
                pairs.len(),
                |i: int|
                    if 0 <= i < pairs.len() {
                        (pairs[i].0, slot_of_json(pairs[i].1))
                    } else {
                        (Seq::empty(), SlotTree::Null)
                    },
            ),
        ),
    }
}

/// A JSON value that comes back as it was when it is read into a slot and written
/// again: its numbers are integers up to 2^53 or finite and not integral, and no
/// object binds a key twice.
pub open spec fn comes_back(j: JsonTree) -> bool
    decreases j,
{
    match j {
        JsonTree::Number(JsonNumberView::Int(n)) => json::is_exact(n),
        JsonTree::Number(JsonNumberView::Double(x)) => number::is_finite(x.bits)
            && !number::is_integral(x.bits),
        JsonTree::Number(JsonNumberView::NoDouble) => false,
        JsonTree::Array(items) => forall|i: int|
            #![trigger items[i]]
            0 <= i < items.len() ==> comes_back(items[i]),
        JsonTree::Object(pairs) => types::distinct_keys(pairs) && forall|i: int|
            #![trigger pairs[i]]
            0 <= i < pairs.len() ==> comes_back(pairs[i].1),
        _ => true,
    }
}

impl Clone for SlotValue {
    fn clone(&self) -> (res: Self)
        ensures
            res@ == self@,
        decreases self,
    {
        match self {
            SlotValue::Null => SlotValue::Null,
            SlotValue::Text(s) => SlotValue::Text(s.clone()),
            SlotValue::Bool(b) => SlotValue::Bool(*b),
            SlotValue::Number(n) => SlotValue::Number(n.clone()),
            SlotValue::Array(items) => {
                let mut copy: Vec<SlotValue> = Vec::with_capacity(items.len());
                let mut i: usize = 0;
                while i < items.len()
                    invariant
                        i <= items@.len(),
                        copy@.len() == i,
                        decreases_to!(self => items@),
                        forall|k: int| 0 <= k < i ==> (#[trigger] copy@[k])@ == items@[k]@,
                    decreases items.len() - i,
                {
                    proof {
                        assert(decreases_to!(items@ => items@[i as int]));
                    }
                    copy.push(items[i].clone());
                    i += 1;
                }
                proof {
                    array_tree(copy);
                    array_tree(*items);
                    assert(slot_trees(copy@) =~= slot_trees(items@));
                }
                SlotValue::Array(copy)
            },
            SlotValue::Object(pairs) => {
                let mut copy: Vec<(String, SlotValue)> = Vec::with_capacity(pairs.len());
                let mut i: usize = 0;
                while i < pairs.len()
                    invariant
                        i <= pairs@.len(),
                        copy@.len() == i,
                        decreases_to!(self => pairs@),
                        forall|k: int|
                            0 <= k < i ==> (#[trigger] copy@[k]).0@ == pairs@[k].0@
                                && copy@[k].1@ == pairs@[k].1@,
                    decreases pairs.len() - i,
                {
                    proof {
                        assert(decreases_to!(pairs@ => pairs@[i as int]));
                        assert(decreases_to!(pairs@[i as int] => pairs@[i as int].1));
                    }
                    let pair = &pairs[i];
                    copy.push((pair.0.clone(), pair.1.clone()));
                    i += 1;
                }
                proof {
                    object_tree(copy);
                    object_tree(*pairs);
                    assert(named_trees(copy@) =~= named_trees(pairs@));
                }
                SlotValue::Object(copy)
            },
        }
    }
}

impl SlotValue {
    /// Render to string for DYN_TEXT output.
    pub fn to_text(&self) -> (res: String)
        ensures
            res@ == slot_text(self@),
    {
        match self {
            SlotValue::Null => {
                let res = String::new();
                proof {
                    assert(res@ =~= Seq::<char>::empty());
                }
                res
            },
            SlotValue::Text(s) => s.clone(),
            SlotValue::Bool(b) => if *b {
                "true".to_owned()
            } else {
                "false".to_owned()
            },
            SlotValue::Number(n) => n.to_text(),
            SlotValue::Array(_) => "[Array]".to_owned(),
            SlotValue::Object(_) => "[Object]".to_owned(),
        }
    }

    /// Truthiness for SHOW_IF evaluation.
    pub fn as_bool(&self) -> (res: bool)
        ensures
            res == truthy(self@),
    {
        match self {
            SlotValue::Null => false,
            SlotValue::Bool(b) => *b,
            SlotValue::Text(s) => !s.as_str().is_empty(),
            SlotValue::Number(n) => n.is_nonzero(),
            SlotValue::Array(items) => items.len() > 0,
            SlotValue::Object(_) => true,
        }
    }

    /// Extract a named property from an Object. Returns Null if not Object or key not found.
    pub fn get_property(&self, name: &str) -> (res: SlotValue)
        ensures
            res@ == property(self@, name@),
    {
        match self {
            SlotValue::Object(pairs) => {
                proof {
                    object_tree(*pairs);
                }
                let ghost trees = named_trees(pairs@);
                let mut i: usize = 0;
                while i < pairs.len()
                    invariant
                        i <= pairs@.len(),
                        trees == named_trees(pairs@),
                        self@ == SlotTree::Object(trees),
                        json::key_position(trees, name@, 0) == json::key_position(
                            trees,
                            name@,
                            i as int,
                        ),
                    decreases pairs.len() - i,
                {
                    let pair = &pairs[i];
                    proof {
                        assert(trees[i as int] == (pair.0@, pair.1@));
                    }
                    if text::same_text(pair.0.as_str(), name) {
                        return pair.1.clone();
                    }
                    i += 1;
                }
                SlotValue::Null
            },
            _ => SlotValue::Null,
        }
    }

    /// For LIST iteration: returns the inner slice if Array, None otherwise.
    pub fn as_array(&self) -> (res: Option<&[SlotValue]>)
        ensures
            match res {
                Some(items) => self@ == SlotTree::Array(slot_trees(items@)),
                None => !(self@ is Array),
            },
    {
        match self {
            SlotValue::Array(items) => {
                proof {
                    array_tree(*items);
                }
                Some(items.as_slice())
            },
            _ => None,
        }
    }

    /// Borrow text without cloning. Returns the inner &str for Text variant,
    /// "" for all others (Number requires allocation via to_text()).
    pub fn as_text_ref(&self) -> (res: &str)
        ensures
            match self@ {
                SlotTree::Text(s) => res@ == s,
                _ => res@ == ""@,
            },
    {
        match self {
            SlotValue::Text(s) => s.as_str(),
            _ => "",
        }
    }

    /// Convert to a JSON value for props serialization.
    pub fn to_json(&self) -> (res: JsonValue)
        ensures
            res@ == json_of(self@),
        decreases self,
    {
        match self {
            SlotValue::Null => JsonValue::Null,
            SlotValue::Text(s) => JsonValue::Text(s.clone()),
            SlotValue::Bool(b) => JsonValue::Bool(*b),
            SlotValue::Number(n) => match n.to_integer() {
                Some(i) => JsonValue::Number(JsonNumber::Int(i)),
                None => if n.is_finite() {
                    JsonValue::Number(JsonNumber::Double(n.clone()))
                } else {
                    JsonValue::Null
                },
            },
            SlotValue::Array(items) => {
                let mut out: Vec<JsonValue> = Vec::with_capacity(items.len());
                let mut i: usize = 0;
                while i < items.len()
                    invariant
                        i <= items@.len(),
                        out@.len() == i,
                        decreases_to!(self => items@),
                        forall|k: int| 0 <= k < i ==> (#[trigger] out@[k])@ == json_of(items@[k]@),
                    decreases items.len() - i,
                {
                    proof {
                        assert(decreases_to!(items@ => items@[i as int]));
                    }
                    out.push(items[i].to_json());
                    i += 1;
                }
                proof {
                    array_tree(*items);
                    assert(JsonValue::Array(out)@->Array_0 =~= json_of(self@)->Array_0);
                }
                JsonValue::Array(out)
            },
            SlotValue::Object(pairs) => {
                let mut out: Vec<(String, JsonValue)> = Vec::new();
                let ghost all = Seq::new(
                    pairs@.len(),
                    |i: int| (pairs@[i].0@, json_of(pairs@[i].1@)),
                );
                let mut i: usize = 0;
                proof {
                    assert(json::pair_trees(out@) =~= Seq::empty());
                }
                while i < pairs.len()
                    invariant
                        i <= pairs@.len(),
                        decreases_to!(self => pairs@),
                        all == Seq::new(
                            pairs@.len(),
                            |i: int| (pairs@[i].0@, json_of(pairs@[i].1@)),
                        ),
                        json::pair_trees(out@) == json::bound_in_turn(all.take(i as int)),
                    decreases pairs.len() - i,
                {
                    let pair = &pairs[i];
                    proof {
                        assert(decreases_to!(pairs@ => pairs@[i as int]));
                        assert(decreases_to!(pairs@[i as int] => pairs@[i as int].1));
                        assert(all.take(i + 1).drop_last() =~= all.take(i as int));
                    }
                    json::put_pair(&mut out, pair.0.clone(), pair.1.to_json());
                    i += 1;
                }
                proof {
                    object_tree(*pairs);
                    json::object_tree(out);
                    assert(all.take(i as int) =~= all);
                    assert(json_pairs(named_trees(pairs@)) =~= all);
                }
                JsonValue::Object(out)
            },
        }
    }
}

/// A double, or zero where there is none.
pub fn number_or_zero(double: Option<SlotNumber>) -> (res: SlotNumber)
    ensures
        res@ == or_zero(number_view(double)),
{
    match double {
        Some(x) => x,
        None => SlotNumber { bits: 0, text: "0".to_owned() },
    }
}

/// Convert a JSON value to a `SlotValue` recursively.
///
/// Type mapping:
/// - null -> Null
/// - string -> Text
/// - bool -> Bool
/// - number -> Number
/// - array -> Array (each element converted recursively)
/// - object -> Object (each key-value pair converted recursively)
///
/// [`SlotValue::to_json`] gives the value back, as far as a double can hold its
/// numbers.
pub fn json_to_slot_value(value: &JsonValue) -> (res: SlotValue)
    ensures
        res@ == slot_of_json(value@),
        comes_back(value@) ==> json_of(res@) == value@,
    decreases value,
{
    match value {
        JsonValue::Null => SlotValue::Null,
        JsonValue::Text(s) => SlotValue::Text(s.clone()),
        JsonValue::Bool(b) => SlotValue::Bool(*b),
        JsonValue::Number(n) => {
            let double = match n {
                JsonNumber::Double(x) => Some(x.clone()),
                JsonNumber::Int(i) => json::int_to_double(*i),
                JsonNumber::NoDouble => None,
            };
            SlotValue::Number(number_or_zero(double))
        },
        JsonValue::Array(items) => {
            let mut out: Vec<SlotValue> = Vec::with_capacity(items.len());
            let mut i: usize = 0;
            while i < items.len()
                invariant
                    i <= items@.len(),
                    out@.len() == i,
                    decreases_to!(value => items@),
                    forall|k: int| 0 <= k < i ==> (#[trigger] out@[k])@ == slot_of_json(items@[k]@),
                    forall|k: int|
                        0 <= k < i && comes_back(items@[k]@) ==> json_of((#[trigger] out@[k])@)
                            == items@[k]@,
                decreases items.len() - i,
            {
                proof {
                    assert(decreases_to!(items@ => items@[i as int]));
                }
                out.push(json_to_slot_value(&items[i]));
                i += 1;
            }
            proof {
                array_tree(out);
                assert(slot_trees(out@) =~= slot_of_json(value@)->Array_0);
                if comes_back(value@) {
                    let trees = value@->Array_0;
                    assert forall|k: int| 0 <= k < trees.len() implies json_of(out@[k]@)
                        == #[trigger] trees[k] by {
                        assert(trees[k] == items@[k]@);
                    }
                    assert(json_of(SlotValue::Array(out)@)->Array_0 =~= trees);
                }
            }
            SlotValue::Array(out)
        },
        JsonValue::Object(pairs) => {
            let mut out: Vec<(String, SlotValue)> = Vec::with_capacity(pairs.len());
            let mut i: usize = 0;
            while i < pairs.len()
                invariant
                    i <= pairs@.len(),
                    out@.len() == i,
                    decreases_to!(value => pairs@),
                    forall|k: int|
                        0 <= k < i ==> (#[trigger] out@[k]).0@ == pairs@[k].0@ && out@[k].1@
                            == slot_of_json(pairs@[k].1@),
                    forall|k: int|
                        0 <= k < i && comes_back(pairs@[k].1@) ==> json_of((#[trigger] out@[k]).1@)
                            == pairs@[k].1@,
                decreases pairs.len() - i,
            {
                let pair = &pairs[i];
                proof {
                    assert(decreases_to!(pairs@ => pairs@[i as int]));
                    assert(decreases_to!(pairs@[i as int] => pairs@[i as int].1));
                }
                out.push((pair.0.clone(), json_to_slot_value(&pair.1)));
                i += 1;
            }
            proof {
                object_tree(out);
                json::object_tree(*pairs);
                assert(named_trees(out@) =~= slot_of_json(value@)->Object_0);
                if comes_back(value@) {
                    let trees = value@->Object_0;
                    let back = json_pairs(named_trees(out@));
                    assert forall|k: int| 0 <= k < trees.len() implies back[k]
                        == #[trigger] trees[k] by {
                        assert(trees[k] == (pairs@[k].0@, pairs@[k].1@));
                        assert(json_of(out@[k].1@) == pairs@[k].1@);
                    }
                    assert(back =~= trees);
                    json::distinct_pairs_stay(trees);
                }
            }
            SlotValue::Object(out)
        },
    }
}

// ---------------------------------------------------------------------------
// SlotData
// ---------------------------------------------------------------------------

/// Dense Vec indexed by slot_id: the bridge between Rust page handlers and the IR walker.
///
/// Handlers create a SlotData, populate it with values (title, user name, nav items, etc.),
/// then the walker reads slot values when it encounters DYN_TEXT, DYN_ATTR, SHOW_IF, LIST opcodes.
#[derive(Debug)]
pub struct SlotData {
    slots: Vec<SlotValue>,
}

impl View for SlotData {
    type V = Seq<SlotTree>;

    closed spec fn view(&self) -> Seq<SlotTree> {
        slot_trees(self.slots@)
    }
}

/// The value of a slot; Null where there is no such slot.
pub open spec fn slot_at(slots: Seq<SlotTree>, slot_id: u16) -> SlotTree {
    if slot_id < slots.len() {
        slots[slot_id as int]
    } else {
        SlotTree::Null
    }
}

/// The slots with one of them set; unchanged where there is no such slot.
pub open spec fn slot_set(slots: Seq<SlotTree>, slot_id: u16, value: SlotTree) -> Seq<SlotTree> {
    if slot_id < slots.len() {
        slots.update(slot_id as int, value)
    } else {
        slots
    }
}

/// `capacity` slots without a value.
pub open spec fn null_slots(capacity: nat) -> Seq<SlotTree> {
    Seq::new(capacity, |i: int| SlotTree::Null)
}

/// One more than the largest slot id of the entries; 0 where there are none.
pub open spec fn slot_capacity(entries: Seq<SlotEntryView>) -> nat
    decreases entries.len(),
{
    if entries.len() == 0 {
        0
    } else {
        let before = slot_capacity(entries.drop_last());
        let own = (entries.last().slot_id + 1) as nat;
        if own > before {
            own
        } else {
            before
        }
    }
}

/// The text of a slot's default; empty where it is not valid UTF-8.
pub open spec fn default_text(bytes: Seq<u8>) -> Seq<char> {
    if vstd::utf8::valid_utf8(bytes) {
        vstd::utf8::decode_utf8(bytes)
    } else {
        ""@
    }
}

/// The value that a slot's default stands for.
pub open spec fn default_value(entry: SlotEntryView) -> SlotTree {
    let words = default_text(entry.default_bytes);
    typed_default(entry.type_hint, words, number::parsed_number(words))
}

/// The value that a text stands for as the default of a slot of a type, given
/// the number that it is read as, if it is one.
pub open spec fn typed_default(
    type_hint: SlotType,
    words: Seq<char>,
    parsed: Option<NumberView>,
) -> SlotTree {
    match type_hint {
        SlotType::Bool => if words == "true"@ {
            SlotTree::Bool(true)
        } else if words == "false"@ {
            SlotTree::Bool(false)
        } else {
            SlotTree::Null
        },
        SlotType::Text => SlotTree::Text(words),
        SlotType::Number => match parsed {
            Some(n) => SlotTree::Number(n),
            None => SlotTree::Null,
        },
        SlotType::Array => if words == "[]"@ {
            SlotTree::Array(Seq::empty())
        } else {
            SlotTree::Null
        },
        SlotType::Object => SlotTree::Null,
    }
}

/// The slots with the entries' defaults set, one after the other; an entry
/// without a default leaves its slot alone.
pub open spec fn with_defaults(slots: Seq<SlotTree>, entries: Seq<SlotEntryView>) -> Seq<SlotTree>
    decreases entries.len(),
{
    if entries.len() == 0 {
        slots
    } else {
        let before = with_defaults(slots, entries.drop_last());
        if entries.last().default_bytes.len() == 0 {
            before
        } else {
            slot_set(before, entries.last().slot_id, default_value(entries.last()))
        }
    }
}

/// The slots of a slot table, filled from its defaults.
pub open spec fn default_slots(entries: Seq<SlotEntryView>) -> Seq<SlotTree> {
    with_defaults(null_slots(slot_capacity(entries)), entries)
}

/// The id of the last of the first `n` slots whose name is `name`.
pub open spec fn last_named(m: ModuleView, name: Seq<char>, n: nat) -> Option<u16>
    decreases n,
{
    if n == 0 {
        None
    } else if parser::string_at(m.strings, m.slots[n - 1].name_str_idx) == Ok::<
        Seq<char>,
        ErrorView,
    >(name) {
        Some(m.slots[n - 1].slot_id)
    } else {
        last_named(m, name, (n - 1) as nat)
    }
}

/// The slots with each pair's value set in the slot of its name, one after the
/// other; a pair whose name no slot has is passed over.
pub open spec fn with_named(
    slots: Seq<SlotTree>,
    m: ModuleView,
    pairs: Seq<(Seq<char>, JsonTree)>,
) -> Seq<SlotTree>
    decreases pairs.len(),
{
    if pairs.len() == 0 {
        slots
    } else {
        let before = with_named(slots, m, pairs.drop_last());
        match last_named(m, pairs.last().0, m.slots.len()) {
            Some(slot_id) => slot_set(before, slot_id, slot_of_json(pairs.last().1)),
            None => before,
        }
    }
}

/// The slots that a JSON value fills: an object overrides the defaults by name,
/// anything else is an error.
pub open spec fn slots_of_json(value: JsonTree, m: ModuleView) -> Result<
    Seq<SlotTree>,
    ErrorView,
> {
    match value {
        JsonTree::Object(pairs) => Ok(with_named(default_slots(m.slots), m, pairs)),
        _ => Err(ErrorView::JsonParseError("expected JSON object"@)),
    }
}

/// The slots that a JSON text fills.
pub open spec fn slots_of_json_text(json_str: Seq<char>, m: ModuleView) -> Result<
    Seq<SlotTree>,
    ErrorView,
> {
    match json::json_read(json_str) {
        Ok(value) => slots_of_json(value, m),
        Err(words) => Err(ErrorView::JsonParseError(words)),
    }
}

impl Clone for SlotData {
    fn clone(&self) -> (res: Self)
        ensures
            res@ == self@,
    {
        let mut slots: Vec<SlotValue> = Vec::with_capacity(self.slots.len());
        let mut i: usize = 0;
        while i < self.slots.len()
            invariant
                i <= self.slots@.len(),
                slots@.len() == i,
                forall|k: int| 0 <= k < i ==> (#[trigger] slots@[k])@ == self.slots@[k]@,
            decreases self.slots.len() - i,
        {
            slots.push(self.slots[i].clone());
            i += 1;
        }
        let res = SlotData { slots };
        proof {
            assert(res@ =~= self@);
        }
        res
    }
}

/// The number that a text is read as.
pub open spec fn number_view(n: Option<SlotNumber>) -> Option<NumberView> {
    match n {
        Some(n) => Some(n@),
        None => None,
    }
}

/// The value that a text stands for as the default of a slot of a type, given
/// the number that it is read as, if it is one.
pub fn default_from_text(type_hint: SlotType, words: String, parsed: Option<SlotNumber>) -> (res:
    SlotValue)
    ensures
        res@ == typed_default(type_hint, words@, number_view(parsed)),
{
    match type_hint {
        SlotType::Bool => if text::same_text(words.as_str(), "true") {
            SlotValue::Bool(true)
        } else if text::same_text(words.as_str(), "false") {
            SlotValue::Bool(false)
        } else {
            SlotValue::Null
        },
        SlotType::Text => SlotValue::Text(words),
        SlotType::Number => match parsed {
            Some(n) => SlotValue::Number(n),
            None => SlotValue::Null,
        },
        SlotType::Array => if text::same_text(words.as_str(), "[]") {
            let items: Vec<SlotValue> = Vec::new();
            proof {
                array_tree(items);
                assert(slot_trees(items@) =~= Seq::empty());
            }
            SlotValue::Array(items)
        } else {
            SlotValue::Null
        },
        SlotType::Object => SlotValue::Null,
    }
}

fn default_slot_value(entry: &SlotEntry) -> (res: SlotValue)
    ensures
        res@ == default_value(entry@),
{
    let words = match text::decode_text(entry.default_bytes.as_slice()) {
        Ok(words) => words,
        Err(_) => "".to_owned(),
    };
    let parsed = if entry.type_hint == SlotType::Number {
        match number::parse_number(words.as_str()) {
            Some(n) => Some(n.into_canonical()),
            None => None,
        }
    } else {
        None
    };
    default_from_text(entry.type_hint, words, parsed)
}

/// The id of the last slot named `name`.
fn slot_named(module: &IrModule, name: &str) -> (res: Option<u16>)
    ensures
        res == last_named(module@, name@, module@.slots.len()),
{
    let entries = module.slots.entries();
    let mut n: usize = entries.len();
    while n > 0
        invariant
            n <= entries@.len(),
            parser::slot_views(entries@) == module@.slots,
            last_named(module@, name@, module@.slots.len()) == last_named(
                module@,
                name@,
                n as nat,
            ),
        decreases n,
    {
        proof {
            assert(module@.slots[n - 1] == entries@[n - 1]@);
        }
        if let Ok(slot_name) = module.strings.get(entries[n - 1].name_str_idx) {
            if text::same_text(slot_name, name) {
                return Some(entries[n - 1].slot_id);
            }
        }
        n -= 1;
    }
    None
}

impl SlotData {
    /// Create a new SlotData with `capacity` Null-initialized slots.
    pub fn new(capacity: usize) -> (res: Self)
        ensures
            res@ == null_slots(capacity as nat),
    {
        let mut slots: Vec<SlotValue> = Vec::with_capacity(capacity);
        let mut i: usize = 0;
        while i < capacity
            invariant
                i <= capacity,
                slots@.len() == i,
                forall|k: int| 0 <= k < i ==> (#[trigger] slots@[k])@ == SlotTree::Null,
            decreases capacity - i,
        {
            slots.push(SlotValue::Null);
            i += 1;
        }
        let res = SlotData { slots };
        proof {
            assert(res@ =~= null_slots(capacity as nat));
        }
        res
    }

    /// Set a slot value. No-op if slot_id is out of bounds.
    pub fn set(&mut self, slot_id: u16, value: SlotValue)
        ensures
            final(self)@ == slot_set(old(self)@, slot_id, value@),
    {
        let idx = slot_id as usize;
        let ghost tree = value@;
        if idx < self.slots.len() {
            self.slots.set(idx, value);
        }
        proof {
            assert(self@ =~= slot_set(old(self)@, slot_id, tree));
        }
    }

    /// Get a reference to a slot value. Returns &Null if out of bounds.
    pub fn get(&self, slot_id: u16) -> (res: &SlotValue)
        ensures
            res@ == slot_at(self@, slot_id),
    {
        let idx = slot_id as usize;
        if idx < self.slots.len() {
            &self.slots[idx]
        } else {
            &SlotValue::Null
        }
    }

    /// Get the text content of a slot. Returns Some(&str) if Text, None otherwise.
    pub fn get_text(&self, slot_id: u16) -> (res: Option<&str>)
        ensures
            match slot_at(self@, slot_id) {
                SlotTree::Text(s) => res matches Some(got) && got@ == s,
                _ => res is None,
            },
    {
        match self.get(slot_id) {
            SlotValue::Text(s) => Some(s.as_str()),
            _ => None,
        }
    }

    /// Create SlotData from a named-key JSON string, resolving names to slot IDs
    /// via the module's string table and slot table.
    ///
    /// The JSON must be an object (e.g., `{"title": "Hello", "count": 42}`).
    /// Each key is resolved against the slot table: the slot entry's `name_str_idx`
    /// is looked up in the string table to find the slot name. If it matches a JSON
    /// key, the JSON value is converted to a `SlotValue` and stored at that slot_id.
    ///
    /// Unknown JSON keys (not in the slot table) are silently ignored.
    /// Starts from slot table defaults so missing keys retain their defaults.
    pub fn from_json(json_str: &str, module: &IrModule) -> (res: Result<Self, IrError>)
        ensures
            match res {
                Ok(data) => slots_of_json_text(json_str@, module@) == Ok::<
                    Seq<SlotTree>,
                    ErrorView,
                >(data@),
                Err(e) => slots_of_json_text(json_str@, module@) == Err::<
                    Seq<SlotTree>,
                    ErrorView,
                >(e@),
            },
            res is Ok ==> (json::json_read(json_str@) matches Ok(JsonTree::Object(pairs))
                && types::distinct_keys(pairs)),
    {
        match json::read_json(json_str) {
            Ok(value) => SlotData::from_json_value(&value, module),
            Err(words) => Err(IrError::JsonParseError(words)),
        }
    }

    /// Create SlotData from a JSON value that was read before: what
    /// [`SlotData::from_json`] does once the text is parsed.
    pub fn from_json_value(value: &JsonValue, module: &IrModule) -> (res: Result<Self, IrError>)
        ensures
            match res {
                Ok(data) => slots_of_json(value@, module@) == Ok::<Seq<SlotTree>, ErrorView>(data@),
                Err(e) => slots_of_json(value@, module@) == Err::<Seq<SlotTree>, ErrorView>(e@),
            },
    {
        let pairs = match value {
            JsonValue::Object(pairs) => pairs,
            _ => {
                return Err(IrError::JsonParseError("expected JSON object".to_owned()));
            },
        };
        proof {
            json::object_tree(*pairs);
        }
        let ghost trees = json::pair_trees(pairs@);
        let ghost start = default_slots(module@.slots);
        // Start from defaults
        let mut data = SlotData::new_from_defaults(&module.slots);
        // Override with JSON values
        let mut i: usize = 0;
        while i < pairs.len()
            invariant
                i <= pairs@.len(),
                trees == json::pair_trees(pairs@),
                data@ == with_named(start, module@, trees.take(i as int)),
            decreases pairs.len() - i,
        {
            let pair = &pairs[i];
            proof {
                assert(trees.take(i + 1).drop_last() =~= trees.take(i as int));
                assert(trees[i as int] == (pair.0@, pair.1@));
            }
            if let Some(slot_id) = slot_named(module, pair.0.as_str()) {
                data.set(slot_id, json_to_slot_value(&pair.1));
            }
            // Unknown keys silently ignored
            i += 1;
        }
        proof {
            assert(trees.take(i as int) =~= trees);
        }
        Ok(data)
    }

    /// Create SlotData pre-populated from the IR slot table defaults.
    /// Server-sourced slots with no default -> Null.
    /// Client-sourced slots with defaults -> parsed from default_bytes.
    pub fn new_from_defaults(table: &SlotTable) -> (res: Self)
        ensures
            res@ == default_slots(table@),
    {
        let entries = table.entries();
        let ghost views = table@;
        let mut capacity: usize = 0;
        let mut i: usize = 0;
        while i < entries.len()
            invariant
                i <= entries@.len(),
                views == parser::slot_views(entries@),
                capacity == slot_capacity(views.take(i as int)),
            decreases entries.len() - i,
        {
            let own = entries[i].slot_id as usize + 1;
            proof {
                assert(views.take(i + 1).drop_last() =~= views.take(i as int));
                assert(views[i as int] == entries@[i as int]@);
            }
            if own > capacity {
                capacity = own;
            }
            i += 1;
        }
        proof {
            assert(views.take(i as int) =~= views);
        }
        let mut data = SlotData::new(capacity);
        let mut j: usize = 0;
        while j < entries.len()
            invariant
                j <= entries@.len(),
                views == parser::slot_views(entries@),
                data@ == with_defaults(
                    null_slots(slot_capacity(views)),
                    views.take(j as int),
                ),
            decreases entries.len() - j,
        {
            let entry = &entries[j];
            proof {
                assert(views.take(j + 1).drop_last() =~= views.take(j as int));
                assert(views[j as int] == entries@[j as int]@);
            }
            if entry.default_bytes.len() > 0 {
                data.set(entry.slot_id, default_slot_value(entry));
            }
            j += 1;
        }
        proof {
            assert(views.take(j as int) =~= views);
        }
        data
    }
}

// ---------------------------------------------------------------------------
// Laws
// ---------------------------------------------------------------------------

/// A slot that was set gives back its value, every other slot keeps its own,
/// and setting a slot that does not exist changes nothing.
pub proof fn set_then_get(slots: Seq<SlotTree>, slot_id: u16, other: u16, value: SlotTree)
    ensures
        slot_id < slots.len() ==> slot_at(slot_set(slots, slot_id, value), slot_id) == value,
        other != slot_id ==> slot_at(slot_set(slots, slot_id, value), other) == slot_at(
            slots,
            other,
        ),
        slot_id >= slots.len() ==> slot_set(slots, slot_id, value) == slots,
        slot_set(slots, slot_id, value).len() == slots.len(),
{
}

/// Every slot that the table declares exists in the slots made from its
/// defaults.
pub proof fn declared_slots_exist(entries: Seq<SlotEntryView>, i: int)
    requires
        0 <= i < entries.len(),
    ensures
        entries[i].slot_id < default_slots(entries).len(),
{
    capacity_covers(entries, i);
    defaults_keep_len(null_slots(slot_capacity(entries)), entries);
}

proof fn capacity_covers(entries: Seq<SlotEntryView>, i: int)
    requires
        0 <= i < entries.len(),
    ensures
        entries[i].slot_id < slot_capacity(entries),
    decreases entries.len(),
{
    if i < entries.len() - 1 {
        capacity_covers(entries.drop_last(), i);
        assert(entries.drop_last()[i] == entries[i]);
    }
}

pub(crate) proof fn defaults_keep_len(slots: Seq<SlotTree>, entries: Seq<SlotEntryView>)
    ensures
        with_defaults(slots, entries).len() == slots.len(),
    decreases entries.len(),
{
    if entries.len() > 0 {
        defaults_keep_len(slots, entries.drop_last());
    }
}

/// A key that no slot has as its name is ignored.
pub proof fn unknown_key_is_ignored(
    slots: Seq<SlotTree>,
    m: ModuleView,
    pairs: Seq<(Seq<char>, JsonTree)>,
    key: Seq<char>,
    value: JsonTree,
)
    requires
        last_named(m, key, m.slots.len()) is None,
    ensures
        with_named(slots, m, pairs.push((key, value))) == with_named(slots, m, pairs),
{
    assert(pairs.push((key, value)).drop_last() =~= pairs);
}

/// A slot whose name the JSON object holds gets the value of that key, wherever
/// in the object it stands, as long as no key behind it names the same slot.
pub proof fn named_slot_is_set(
    slots: Seq<SlotTree>,
    m: ModuleView,
    pairs: Seq<(Seq<char>, JsonTree)>,
    k: int,
    slot_id: u16,
)
    requires
        0 <= k < pairs.len(),
        last_named(m, pairs[k].0, m.slots.len()) == Some(slot_id),
        forall|j: int|
            k < j < pairs.len() ==> last_named(m, (#[trigger] pairs[j]).0, m.slots.len()) != Some(
                slot_id,
            ),
        slot_id < slots.len(),
    ensures
        slot_at(with_named(slots, m, pairs), slot_id) == slot_of_json(pairs[k].1),
    decreases pairs.len(),
{
    let front = pairs.drop_last();
    named_keep_len(slots, m, front);
    if k < front.len() {
        assert(front[k] == pairs[k]);
        assert forall|j: int| k < j < front.len() implies last_named(
            m,
            (#[trigger] front[j]).0,
            m.slots.len(),
        ) != Some(slot_id) by {
            assert(front[j] == pairs[j]);
        }
        named_slot_is_set(slots, m, front, k, slot_id);
        assert(pairs[pairs.len() - 1] == pairs.last());
    }
}

/// The slot table declares no slot twice.
pub open spec fn ids_distinct(m: ModuleView) -> bool {
    forall|i: int, j: int|
        0 <= i < j < m.slots.len() ==> (#[trigger] m.slots[i]).slot_id != (
        #[trigger] m.slots[j]).slot_id
}

proof fn last_named_at(m: ModuleView, name: Seq<char>, n: nat) -> (i: int)
    requires
        n <= m.slots.len(),
        last_named(m, name, n) is Some,
    ensures
        0 <= i < n,
        m.slots[i].slot_id == last_named(m, name, n)->0,
        parser::string_at(m.strings, m.slots[i].name_str_idx) == Ok::<Seq<char>, ErrorView>(name),
    decreases n,
{
    if parser::string_at(m.strings, m.slots[n - 1].name_str_idx) == Ok::<Seq<char>, ErrorView>(
        name,
    ) {
        n - 1
    } else {
        last_named_at(m, name, (n - 1) as nat)
    }
}

/// Where neither the object binds a key twice nor the table declares a slot twice,
/// every slot whose name is a key of the object gets the value of that key.
pub proof fn every_named_slot_is_set(
    slots: Seq<SlotTree>,
    m: ModuleView,
    pairs: Seq<(Seq<char>, JsonTree)>,
    k: int,
    slot_id: u16,
)
    requires
        types::distinct_keys(pairs),
        ids_distinct(m),
        0 <= k < pairs.len(),
        last_named(m, pairs[k].0, m.slots.len()) == Some(slot_id),
        slot_id < slots.len(),
    ensures
        slot_at(with_named(slots, m, pairs), slot_id) == slot_of_json(pairs[k].1),
{
    assert forall|j: int| k < j < pairs.len() implies last_named(
        m,
        (#[trigger] pairs[j]).0,
        m.slots.len(),
    ) != Some(slot_id) by {
        if last_named(m, pairs[j].0, m.slots.len()) == Some(slot_id) {
            let x = last_named_at(m, pairs[k].0, m.slots.len());
            let y = last_named_at(m, pairs[j].0, m.slots.len());
            assert(m.slots[x].slot_id == m.slots[y].slot_id);
            assert(x == y);
            assert(pairs[k].0 != pairs[j].0);
        }
    }
    named_slot_is_set(slots, m, pairs, k, slot_id);
}

pub(crate) proof fn named_keep_len(
    slots: Seq<SlotTree>,
    m: ModuleView,
    pairs: Seq<(Seq<char>, JsonTree)>,
)
    ensures
        with_named(slots, m, pairs).len() == slots.len(),
    decreases pairs.len(),
{
    if pairs.len() > 0 {
        named_keep_len(slots, m, pairs.drop_last());
    }
}

/// A slot whose name the JSON object does not hold keeps its default.
pub proof fn missing_key_keeps_default(
    slots: Seq<SlotTree>,
    m: ModuleView,
    pairs: Seq<(Seq<char>, JsonTree)>,
    slot_id: u16,
)
    requires
        forall|k: int|
            0 <= k < pairs.len() ==> last_named(m, (#[trigger] pairs[k]).0, m.slots.len()) != Some(
                slot_id,
            ),
    ensures
        slot_at(with_named(slots, m, pairs), slot_id) == slot_at(slots, slot_id),
    decreases pairs.len(),
{
    if pairs.len() > 0 {
        let rest = pairs.drop_last();
        assert(pairs[pairs.len() - 1] == pairs.last());
        assert forall|k: int| 0 <= k < rest.len() implies last_named(
            m,
            (#[trigger] rest[k]).0,
            m.slots.len(),
        ) != Some(slot_id) by {
            assert(rest[k] == pairs[k]);
        }
        missing_key_keeps_default(slots, m, rest, slot_id);
    }
}

} // verus!
