//! JSON values, and their reading and writing.

use serde_json::Value;
use vstd::prelude::*;

use crate::number;
use crate::number::{NumberView, SlotNumber};
use crate::text;
use crate::types;

verus! {

/// A JSON number.
#[derive(Debug, PartialEq, Eq)]
pub enum JsonNumber {
    /// An integer to be written as one.
    Int(i64),
    /// A double-precision number.
    Double(SlotNumber),
    /// A number that has no double-precision value.
    NoDouble,
}

/// A JSON value. The keys of an object are distinct.
#[derive(Debug, PartialEq, Eq)]
pub enum JsonValue {
    Null,
    Bool(bool),
    Number(JsonNumber),
    Text(String),
    Array(Vec<JsonValue>),
    Object(Vec<(String, JsonValue)>),
}

/// What a [`JsonNumber`] holds.
pub enum JsonNumberView {
    Int(i64),
    Double(NumberView),
    NoDouble,
}

/// What a [`JsonValue`] holds.
pub enum JsonTree {
    Null,
    Bool(bool),
    Number(JsonNumberView),
    Text(Seq<char>),
    Array(Seq<JsonTree>),
    Object(Seq<(Seq<char>, JsonTree)>),
}

impl View for JsonNumber {
    type V = JsonNumberView;

    open spec fn view(&self) -> JsonNumberView {
        match *self {
            JsonNumber::Int(n) => JsonNumberView::Int(n),
            JsonNumber::Double(n) => JsonNumberView::Double(n@),
            JsonNumber::NoDouble => JsonNumberView::NoDouble,
        }
    }
}

impl JsonValue {
    /// The value as a tree.
    pub open spec fn tree(self) -> JsonTree
        decreases self,
    {
        match self {
            JsonValue::Null => JsonTree::Null,
            JsonValue::Bool(b) => JsonTree::Bool(b),
            JsonValue::Number(n) => JsonTree::Number(n@),
            JsonValue::Text(s) => JsonTree::Text(s@),
            JsonValue::Array(items) => JsonTree::Array(
                Seq::new(
                    items@.len(),
                    |i: int|
                        if 0 <= i < items@.len() {
                            items@[i].tree()
                        } else {
                            JsonTree::Null
                        },
                ),
            ),
            JsonValue::Object(pairs) => JsonTree::Object(
                Seq::new(
                    pairs@.len(),
                    |i: int|
                        if 0 <= i < pairs@.len() {
                            (pairs@[i].0@, pairs@[i].1.tree())
                        } else {
                            (Seq::empty(), JsonTree::Null)
                        },
                ),
            ),
        }
    }
}

impl View for JsonValue {
    type V = JsonTree;

    open spec fn view(&self) -> JsonTree {
        self.tree()
    }
}

/// What a run of pairs holds.
pub open spec fn pair_trees(pairs: Seq<(String, JsonValue)>) -> Seq<(Seq<char>, JsonTree)> {
    Seq::new(pairs.len(), |i: int| (pairs[i].0@, pairs[i].1@))
}

/// The tree of an object is the object of its pairs' trees.
pub proof fn object_tree(pairs: Vec<(String, JsonValue)>)
    ensures
        JsonValue::Object(pairs)@ == JsonTree::Object(pair_trees(pairs@)),
{
    assert(JsonValue::Object(pairs)@->Object_0 =~= pair_trees(pairs@));
}

// ---------------------------------------------------------------------------
// Objects
// ---------------------------------------------------------------------------

/// The position of the first pair from `from` on whose key is `key`, or the
/// number of pairs.
pub open spec fn key_position<V>(pairs: Seq<(Seq<char>, V)>, key: Seq<char>, from: int) -> int
    decreases pairs.len() - from,
{
    if from >= pairs.len() {
        pairs.len() as int
    } else if pairs[from].0 == key {
        from
    } else {
        key_position(pairs, key, from + 1)
    }
}

/// The pairs with `key` bound to `value`: an earlier binding is replaced, a new
/// one is appended.
pub open spec fn with_pair(
    pairs: Seq<(Seq<char>, JsonTree)>,
    key: Seq<char>,
    value: JsonTree,
) -> Seq<(Seq<char>, JsonTree)> {
    let at = key_position(pairs, key, 0);
    if at < pairs.len() {
        pairs.update(at, (key, value))
    } else {
        pairs.push((key, value))
    }
}

/// The pairs bound one after the other, from the first to the last.
pub open spec fn bound_in_turn(pairs: Seq<(Seq<char>, JsonTree)>) -> Seq<(Seq<char>, JsonTree)>
    decreases pairs.len(),
{
    if pairs.len() == 0 {
        Seq::empty()
    } else {
        with_pair(bound_in_turn(pairs.drop_last()), pairs.last().0, pairs.last().1)
    }
}

/// No object binds a key twice, at any depth.
pub open spec fn keys_distinct(j: JsonTree) -> bool
    decreases j,
{
    match j {
        JsonTree::Array(items) => forall|i: int|
            #![trigger items[i]]
            0 <= i < items.len() ==> keys_distinct(items[i]),
        JsonTree::Object(pairs) => types::distinct_keys(pairs) && forall|i: int|
            #![trigger pairs[i]]
            0 <= i < pairs.len() ==> keys_distinct(pairs[i].1),
        _ => true,
    }
}

/// Pairs that bind no key twice stay as they are when they are bound in turn.
pub proof fn distinct_pairs_stay(pairs: Seq<(Seq<char>, JsonTree)>)
    requires
        types::distinct_keys(pairs),
    ensures
        bound_in_turn(pairs) == pairs,
    decreases pairs.len(),
{
    if pairs.len() > 0 {
        let front = pairs.drop_last();
        assert forall|i: int, j: int| 0 <= i < j < front.len() implies (#[trigger] front[i]).0 != (
        #[trigger] front[j]).0 by {
            assert(front[i] == pairs[i] && front[j] == pairs[j]);
        }
        distinct_pairs_stay(front);
        types::first_position(front, pairs.last().0, 0);
        let at = key_position(front, pairs.last().0, 0);
        if at < front.len() {
            assert(front[at] == pairs[at]);
            assert(pairs[pairs.len() - 1] == pairs.last());
        }
        assert(front.push(pairs.last()) =~= pairs);
    }
}

/// Bind `key` to `value` in an object's pairs.
pub fn put_pair(pairs: &mut Vec<(String, JsonValue)>, key: String, value: JsonValue)
    ensures
        pair_trees(final(pairs)@) == with_pair(pair_trees(old(pairs)@), key@, value@),
{
    let ghost before = pair_trees(pairs@);
    let mut i: usize = 0;
    while i < pairs.len()
        invariant
            i <= pairs@.len(),
            before == pair_trees(old(pairs)@),
            pair_trees(pairs@) == before,
            key_position(before, key@, 0) == key_position(before, key@, i as int),
        decreases pairs.len() - i,
    {
        if text::same_text(pairs[i].0.as_str(), key.as_str()) {
            let ghost pair = (key, value);
            proof {
                assert(before[i as int].0 == key@);
            }
            pairs.set(i, (key, value));
            proof {
                assert(pair_trees(pairs@) =~= before.update(i as int, (pair.0@, pair.1@)));
            }
            return;
        }
        i += 1;
    }
    let ghost pair = (key, value);
    pairs.push((key, value));
    proof {
        assert(pair_trees(pairs@) =~= before.push((pair.0@, pair.1@)));
    }
}

// ---------------------------------------------------------------------------
// Reading and writing
// ---------------------------------------------------------------------------

/// `serde_json::Value`, the values that `serde_json` reads and writes.
#[verifier::external_type_specification]
#[verifier::external_body]
pub struct ExSerdeValue(serde_json::Value);

/// What `serde_json::from_str` reads in `text`: the value, each number as the
/// integer that `as_i64` gives or else the double that `as_f64` gives, or the
/// words of its error.
pub uninterp spec fn json_read(text: Seq<char>) -> Result<JsonTree, Seq<char>>;

/// What `serde_json::to_string` writes for a value.
pub uninterp spec fn json_text(value: JsonTree) -> Option<Seq<char>>;

/// What `serde_json::to_string` writes for a `BTreeMap` of values by id.
pub uninterp spec fn json_map_text(entries: Seq<(u16, JsonTree)>) -> Option<Seq<char>>;

/// The double that `serde_json::Number::as_f64` gives for an integer.
pub uninterp spec fn json_int_double(n: i64) -> Option<NumberView>;

/// The variants of `serde_json::Value`, one for one; a number becomes the
/// integer that `serde_json::Number::as_i64` gives, or else the double that
/// `as_f64` gives.
#[verifier::external_body]
fn from_serde(value: Value) -> JsonValue {
    match value {
        Value::Null => JsonValue::Null,
        Value::Bool(b) => JsonValue::Bool(b),
        Value::Number(n) => JsonValue::Number(match (n.as_i64(), n.as_f64()) {
            (Some(i), _) => JsonNumber::Int(i),
            (None, Some(x)) => JsonNumber::Double(
                SlotNumber { bits: x.to_bits(), text: x.to_string() }),
            (None, None) => JsonNumber::NoDouble,
        }),
        Value::String(s) => JsonValue::Text(s),
        Value::Array(items) => JsonValue::Array(
            items.into_iter().map(from_serde).collect()),
        Value::Object(map) => JsonValue::Object(
            map.into_iter().map(|(k, v)| (k, from_serde(v))).collect()),
    }
}

/// The variants of [`JsonValue`] as `serde_json::Value`, one for one; a double
/// goes through `serde_json::Number::from_f64`, which has no number for one
/// that is not finite.
#[verifier::external_body]
fn to_serde(value: &JsonValue) -> Value {
    match value {
        JsonValue::Null | JsonValue::Number(JsonNumber::NoDouble) => Value::Null,
        JsonValue::Bool(b) => Value::Bool(*b),
        JsonValue::Number(JsonNumber::Int(n)) => Value::from(*n),
        JsonValue::Number(JsonNumber::Double(x)) => Value::from(
            x.text.parse().ok().and_then(serde_json::Number::from_f64)),
        JsonValue::Text(s) => Value::String(s.clone()),
        JsonValue::Array(items) => items.iter().map(to_serde).collect(),
        JsonValue::Object(pairs) => pairs.iter().map(|(k, v)| (k.clone(), to_serde(v))).collect(),
    }
}

/// `serde_json::from_str` reads a JSON text. What it gives is a function of the
/// text alone, for an error the words of its message; which texts it accepts
/// is not stated here. Objects are `serde_json::Map`s, which bind no key twice.
#[verifier::external_body]
pub(crate) fn read_json(text: &str) -> (res: Result<JsonValue, String>)
    ensures
        match res {
            Ok(value) => json_read(text@) == Ok::<JsonTree, Seq<char>>(value@),
            Err(words) => json_read(text@) == Err::<JsonTree, Seq<char>>(words@),
        },
        res matches Ok(value) ==> keys_distinct(value@),
{
    match serde_json::from_str(text) {
        Ok(value) => Ok(from_serde(value)),
        Err(error) => Err(error.to_string()),
    }
}

/// `serde_json::to_string` writes a value, or fails. What it gives is a
/// function of the value alone; the text itself is not stated here.
#[verifier::external_body]
pub(crate) fn write_json(value: &JsonValue) -> (res: Option<String>)
    ensures
        match res {
            Some(words) => json_text(value@) == Some(words@),
            None => json_text(value@) is None,
        },
{
    serde_json::to_string(&to_serde(value)).ok()
}

/// What a run of values by id holds.
pub open spec fn entry_trees(entries: Seq<(u16, JsonValue)>) -> Seq<(u16, JsonTree)> {
    Seq::new(entries.len(), |i: int| (entries[i].0, entries[i].1@))
}

/// `serde_json::to_string` writes a `BTreeMap` of values by id, or fails. What
/// it gives is a function of the entries alone; the text itself is not stated
/// here.
#[verifier::external_body]
pub(crate) fn write_json_map(entries: &Vec<(u16, JsonValue)>) -> (res: Option<String>)
    ensures
        match res {
            Some(words) => json_map_text(entry_trees(entries@)) == Some(words@),
            None => json_map_text(entry_trees(entries@)) is None,
        },
{
    let map: std::collections::BTreeMap<u16, serde_json::Value> =
        entries.iter().map(|(id, value)| (*id, to_serde(value))).collect();
    serde_json::to_string(&map).ok()
}

/// The integers up to 2^53, each of which a double holds exactly.
pub open spec fn is_exact(n: i64) -> bool {
    -0x20_0000_0000_0000 <= n <= 0x20_0000_0000_0000
}

/// `serde_json::Number::as_f64` gives the double nearest to an integer, a function
/// of the integer alone. Up to 2^53 it is the integer itself; which of two doubles
/// stands for a larger one is not stated here.
#[verifier::external_body]
pub(crate) fn int_to_double(n: i64) -> (res: Option<SlotNumber>)
    ensures
        match res {
            Some(x) => json_int_double(n) == Some(x@) && (is_exact(n) ==> number::is_integral(
                x.bits,
            ) && number::as_integer(x.bits) == n),
            None => json_int_double(n) is None && !is_exact(n),
        },
{
    let double = serde_json::Number::from(n).as_f64();
    double.map(|x| SlotNumber { bits: x.to_bits(), text: x.to_string() })
}

proof fn with_pair_binds(pairs: Seq<(Seq<char>, JsonTree)>, key: Seq<char>, value: JsonTree)
    requires
        types::distinct_keys(pairs),
    ensures
        types::distinct_keys(with_pair(pairs, key, value)),
        types::bound(with_pair(pairs, key, value), key) == Some(value),
        forall|other: Seq<char>|
            other != key ==> #[trigger] types::bound(with_pair(pairs, key, value), other)
                == types::bound(pairs, other),
{
    let more = with_pair(pairs, key, value);
    let at = key_position(pairs, key, 0);
    types::first_position(pairs, key, 0);
    assert forall|i: int, j: int| 0 <= i < j < more.len() implies (#[trigger] more[i]).0 != (
    #[trigger] more[j]).0 by {
        assert(i != at ==> i < pairs.len() && more[i] == pairs[i]);
        assert(j != at ==> j < pairs.len() && more[j] == pairs[j]);
    }
    types::lookup_finds_binding(more, key);
    assert(more[at] == (key, value));
    assert forall|other: Seq<char>| other != key implies #[trigger] types::bound(more, other)
        == types::bound(pairs, other) by {
        types::lookup_finds_binding(more, other);
        types::lookup_finds_binding(pairs, other);
        types::first_position(pairs, other, 0);
        let p = key_position(pairs, other, 0);
        if p < pairs.len() {
            assert(more[p] == pairs[p]);
        } else {
            assert forall|i: int| 0 <= i < more.len() implies (#[trigger] more[i]).0 != other by {
                assert(i != at ==> i < pairs.len() && more[i] == pairs[i]);
            }
        }
    }
}

/// Where pairs are bound in turn, no key is bound twice; a key is bound to the value of
/// its last pair, and a key without a pair is not bound.
pub proof fn later_bindings_count(pairs: Seq<(Seq<char>, JsonTree)>)
    ensures
        types::distinct_keys(bound_in_turn(pairs)),
        forall|i: int|
            0 <= i < pairs.len() && (forall|j: int|
                i < j < pairs.len() ==> (#[trigger] pairs[j]).0 != pairs[i].0) ==> types::bound(
                bound_in_turn(pairs),
                (#[trigger] pairs[i]).0,
            ) == Some(pairs[i].1),
        forall|key: Seq<char>|
            (forall|j: int| 0 <= j < pairs.len() ==> (#[trigger] pairs[j]).0 != key)
                ==> #[trigger] types::bound(bound_in_turn(pairs), key) is None,
    decreases pairs.len(),
{
    if pairs.len() > 0 {
        let init = pairs.drop_last();
        let last = pairs.len() - 1;
        later_bindings_count(init);
        with_pair_binds(bound_in_turn(init), pairs[last].0, pairs[last].1);
        assert forall|i: int|
            0 <= i < pairs.len() && (forall|j: int|
                i < j < pairs.len() ==> (#[trigger] pairs[j]).0 != pairs[i].0) implies types::bound(
            bound_in_turn(pairs),
            (#[trigger] pairs[i]).0,
        ) == Some(pairs[i].1) by {
            if i < last {
                assert(pairs[last].0 != pairs[i].0);
                assert(init[i] == pairs[i]);
                assert forall|j: int| i < j < init.len() implies (#[trigger] init[j]).0
                    != init[i].0 by {
                    assert(init[j] == pairs[j]);
                }
            }
        }
        assert forall|key: Seq<char>|
            (forall|j: int| 0 <= j < pairs.len() ==> (#[trigger] pairs[j]).0 != key) implies
            #[trigger] types::bound(bound_in_turn(pairs), key) is None by {
            assert(pairs[last].0 != key);
            assert forall|j: int| 0 <= j < init.len() implies (#[trigger] init[j]).0 != key by {
                assert(init[j] == pairs[j]);
            }
        }
    }
}

/// What a JSON value is seen to hold is all that it holds.
pub proof fn values_are_seen_whole(
    words: String,
    b: bool,
    items: Vec<JsonValue>,
    pairs: Vec<(String, JsonValue)>,
    i: int,
)
    ensures
        JsonValue::Null@ == JsonTree::Null,
        JsonValue::Text(words)@ == JsonTree::Text(words@),
        JsonValue::Bool(b)@ == JsonTree::Bool(b),
        JsonValue::Array(items)@ matches JsonTree::Array(seen) && seen.len() == items@.len() && (0
            <= i < items@.len() ==> seen[i] == items@[i]@),
        JsonValue::Object(pairs)@ matches JsonTree::Object(seen) && seen.len() == pairs@.len() && (0
            <= i < pairs@.len() ==> seen[i] == (pairs@[i].0@, pairs@[i].1@)),
{
}

/// A new key is bound behind all others, and one that is bound already is bound anew in
/// its place.
pub proof fn keys_are_bound_in_place(
    pairs: Seq<(Seq<char>, JsonTree)>,
    key: Seq<char>,
    value: JsonTree,
    i: int,
)
    ensures
        (forall|j: int| 0 <= j < pairs.len() ==> (#[trigger] pairs[j]).0 != key) ==> with_pair(
            pairs,
            key,
            value,
        ) == pairs.push((key, value)),
        0 <= i < pairs.len() && pairs[i].0 == key && (forall|j: int|
            0 <= j < i ==> (#[trigger] pairs[j]).0 != key) ==> with_pair(pairs, key, value)
            == pairs.update(i, (key, value)),
{
    types::first_position(pairs, key, 0);
}

} // verus!
