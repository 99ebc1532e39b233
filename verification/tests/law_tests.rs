//! The laws of the library, each on concrete values.

use forma::dump::dump_ir;
use forma::format::{IrError, IslandTrigger, Opcode, PropsMode, SlotSource, SlotType};
use forma::json::{JsonNumber, JsonValue};
use forma::parser::test_helpers::{
    build_island_table, build_minimal_ir, build_slot_table, build_string_table, encode_close_tag, encode_list, encode_open_tag, encode_preload,
    encode_show_if, encode_switch, encode_text, encode_try, encode_void_tag,
};
use forma::parser::{IrModule, IslandTableParsed, SlotTable, StringTable};
use forma::slot::{json_to_slot_value, SlotData, SlotValue};
use forma::template::escape_html;
use forma::text::{push_escaped_html, push_pair_replaced};
use forma::walker::{check_slot_source, walk_island, walk_to_html};
use forma::SlotNumber;

fn module(strings: &[&str], opcodes: &[u8]) -> IrModule {
    IrModule::parse(&build_minimal_ir(strings, &[], opcodes, &[])).unwrap()
}

fn html(strings: &[&str], opcodes: &[u8], slots: &SlotData) -> String {
    walk_to_html(&module(strings, opcodes), slots).unwrap()
}

fn joined(parts: &[Vec<u8>]) -> Vec<u8> {
    let mut all = Vec::new();
    for part in parts {
        all.extend_from_slice(part);
    }
    all
}

fn text_slot(s: &str) -> SlotData {
    let mut slots = SlotData::new(2);
    slots.set(0, SlotValue::Text(s.to_string()));
    slots
}

#[test]
fn whole_file_round_trips() {
    let opcodes = joined(&[encode_open_tag(0, &[(1, 2)]), encode_close_tag(0)]);
    let data = build_minimal_ir(
        &["div", "class", "x", "Comp"],
        &[(4, 1, 0x02, 0x01, b"true"), (2, 0, 0x05, 0x00, &[])],
        &opcodes,
        &[(9, 0x04, 0x03, 3, 12, &[4, 2])],
    );
    let m = IrModule::parse(&data).unwrap();
    assert_eq!(m.header.version, 2);
    assert_eq!(m.header.flags, 0);
    assert_eq!(m.header.source_hash, 0);
    assert_eq!(m.opcodes, opcodes);
    assert_eq!(m.strings.get(3).unwrap(), "Comp");
    let slots = m.slots.entries();
    assert_eq!(slots.len(), 2);
    assert_eq!(slots[0].slot_id, 4);
    assert_eq!(slots[0].name_str_idx, 1);
    assert_eq!(slots[0].type_hint, SlotType::Bool);
    assert_eq!(slots[0].source, SlotSource::Client);
    assert_eq!(slots[0].default_bytes, b"true");
    assert!(slots[1].default_bytes.is_empty());
    let island = &m.islands.entries()[0];
    assert_eq!(island.id, 9);
    assert_eq!(island.trigger, IslandTrigger::Idle);
    assert_eq!(island.props_mode, PropsMode::Deferred);
    assert_eq!(island.name_str_idx, 3);
    assert_eq!(island.byte_offset, 12);
    assert_eq!(island.slot_ids, vec![4, 2]);
    assert_eq!(m.slot_id_by_name("class"), Some(4));
    assert_eq!(m.slot_id_by_name("div"), Some(2));
    assert_eq!(m.slot_id_by_name("x"), None);
    assert!(m.validate().is_ok());
}

#[test]
fn opcodes_have_distinct_bytes() {
    let mut known = Vec::new();
    for b in 0..=255u8 {
        if let Ok(op) = Opcode::from_byte(b) {
            assert!(!known.contains(&op));
            known.push(op);
        }
    }
    assert_eq!(known.len(), 18);
}

#[test]
fn escaped_text_holds_no_markup() {
    let mut out = String::new();
    push_escaped_html(&mut out, "<a href=\"x\">&amp;</a>");
    assert_eq!(out, "&lt;a href=\"x\"&gt;&amp;amp;&lt;/a&gt;");
    assert_eq!(
        escape_html("<a href=\"x\">&amp;</a>"),
        "&lt;a href=&quot;x&quot;&gt;&amp;amp;&lt;/a&gt;"
    );
    assert_eq!(escape_html("plain text"), "plain text");
}

#[test]
fn replaced_pairs_do_not_come_back() {
    for (text, expected) in [
        ("--", "&#45;&#45;"),
        ("---", "&#45;&#45;-"),
        ("----", "&#45;&#45;&#45;&#45;"),
        ("-a-", "-a-"),
        ("", ""),
    ] {
        let mut out = String::new();
        push_pair_replaced(&mut out, text, '-', '-', "&#45;&#45;");
        assert_eq!(out, expected);
        assert!(!out.contains("--"));
    }
    let mut out = String::new();
    push_pair_replaced(&mut out, "<</</", '<', '/', "<\\/");
    assert_eq!(out, "<<\\/<\\/");
}

#[test]
fn slot_text_never_becomes_markup() {
    let payload = "</span><script>alert(\"1\")</script>";
    let ops = joined(&[
        encode_open_tag(0, &[]),
        vec![0x06, 1, 0, 0, 0, 0, 0],
        vec![0x05, 0, 0, 0, 0],
        encode_close_tag(0),
    ]);
    let out = html(&["p", "title"], &ops, &text_slot(payload));
    assert_eq!(
        out,
        "<p title=\"&lt;/span&gt;&lt;script&gt;alert(&quot;1&quot;)&lt;/script&gt;\">\
         <!--f:t0-->&lt;/span&gt;&lt;script&gt;alert(\"1\")&lt;/script&gt;<!--/f:t0--></p>"
    );
}

#[test]
fn empty_slot_text_still_has_a_text_node() {
    assert_eq!(
        html(&["x"], &[0x05, 0, 0, 7, 0], &text_slot("")),
        "<!--f:t7-->\u{200B}<!--/f:t7-->"
    );
}

#[test]
fn branches_render_as_on_their_own() {
    let then_ops = joined(&[encode_open_tag(0, &[]), encode_text(1), encode_close_tag(0)]);
    let else_ops = encode_text(2);
    let strings = ["b", "yes", "no"];
    let ops = encode_show_if(0, &then_ops, &else_ops);
    let on = text_slot("on");
    let off = text_slot("");
    assert_eq!(
        html(&strings, &ops, &on),
        format!("<!--f:s0-->{}<!--/f:s0-->", html(&strings, &then_ops, &on))
    );
    assert_eq!(
        html(&strings, &ops, &off),
        format!("<!--f:s0-->{}<!--/f:s0-->", html(&strings, &else_ops, &off))
    );
}

#[test]
fn cases_render_as_on_their_own() {
    let a = encode_text(2);
    let b = joined(&[encode_open_tag(4, &[]), encode_close_tag(4)]);
    let strings = ["one", "two", "first", "second", "i"];
    let ops = encode_switch(0, &[(0, &a), (1, &b), (0, &b)]);
    let slots = text_slot("one");
    assert_eq!(
        html(&strings, &ops, &slots),
        format!("{}{}", html(&strings, &a, &slots), html(&strings, &b, &slots))
    );
    assert_eq!(html(&strings, &ops, &text_slot("two")), "<i></i>");
    assert_eq!(html(&strings, &ops, &text_slot("three")), "");
}

#[test]
fn list_items_render_in_turn_over_copies() {
    let mut slots = SlotData::new(3);
    slots.set(
        0,
        SlotValue::Array(vec![
            SlotValue::Text("a".to_string()),
            SlotValue::Text("b".to_string()),
        ]),
    );
    slots.set(1, SlotValue::Text("outer".to_string()));
    let item = vec![0x05, 1, 0, 0, 0];
    let ops = joined(&[encode_list(0, 1, &item), item.clone()]);
    assert_eq!(
        html(&["x"], &ops, &slots),
        "<!--f:l0--><!--f:t0-->a<!--/f:t0--><!--f:t0-->b<!--/f:t0--><!--/f:l0-->\
         <!--f:t0-->outer<!--/f:t0-->"
    );
}

#[test]
fn fallbacks_are_passed_over() {
    let main = joined(&[encode_text(0), encode_try(&encode_text(1), &encode_text(2))]);
    let ops = joined(&[encode_try(&main, &encode_text(3)), encode_text(4)]);
    assert_eq!(
        html(&["a", "b", "x", "y", "c"], &ops, &SlotData::new(0)),
        "abc"
    );
}

#[test]
fn parts_render_one_after_the_other() {
    let slots = SlotData::new(0);
    let strings = ["div", "one", "two"];
    let a = joined(&[encode_open_tag(0, &[]), encode_text(1)]);
    let b = joined(&[encode_text(2), encode_close_tag(0)]);
    let both = joined(&[a.clone(), b.clone()]);
    assert_eq!(
        html(&strings, &both, &slots),
        format!("{}{}", html(&strings, &a, &slots), html(&strings, &b, &slots))
    );
    assert_eq!(html(&strings, &both, &slots), "<div>onetwo</div>");
}

#[test]
fn every_tag_is_closed_at_the_end() {
    let slots = SlotData::new(0);
    assert_eq!(html(&["br", "x"], &encode_void_tag(0, &[]), &slots), "<br>");
    assert_eq!(
        html(&["br", "x"], &encode_void_tag(0, &[(1, 1), (0, 0)]), &slots),
        "<br x=\"x\" br=\"br\">"
    );
}

#[test]
fn preload_links_follow_their_kind() {
    let slots = SlotData::new(0);
    let kinds = [
        (1u8, "as=\"font\" type=\"font/woff2\" crossorigin>"),
        (2, "as=\"style\">"),
        (3, "as=\"script\">"),
        (4, "as=\"image\">"),
        (0, "as=\"fetch\">"),
        (200, "as=\"fetch\">"),
    ];
    for (kind, end) in kinds {
        assert_eq!(
            html(&["/a?b&c"], &encode_preload(kind, 0), &slots),
            format!("<link rel=\"preload\" href=\"/a?b&amp;c\" {end}\n")
        );
    }
}

#[test]
fn island_is_the_content_between_its_markers() {
    let inner = joined(&[
        encode_open_tag(0, &[]),
        vec![0x0B, 2, 0],
        encode_text(1),
        vec![0x0C, 2, 0],
        encode_close_tag(0),
    ]);
    let ops = joined(&[vec![0x0B, 1, 0], inner.clone(), vec![0x0C, 1, 0], encode_text(1)]);
    let data = build_minimal_ir(&["div", "x", "C"], &[], &ops, &[(1, 1, 3, 2, 0, &[])]);
    let m = IrModule::parse(&data).unwrap();
    let slots = SlotData::new(0);
    assert_eq!(
        walk_island(&m, &slots, 1).unwrap(),
        html(&["div", "x", "C"], &inner, &slots)
    );
}

#[test]
fn unset_server_slots_are_flagged() {
    let data = build_minimal_ir(
        &["a"],
        &[(0, 0, 1, 0, &[]), (1, 0, 1, 1, &[])],
        &[],
        &[],
    );
    let m = IrModule::parse(&data).unwrap();
    assert!(check_slot_source(&m, 0, &SlotValue::Null));
    assert!(!check_slot_source(&m, 0, &SlotValue::Bool(false)));
    assert!(!check_slot_source(&m, 1, &SlotValue::Null));
    assert!(!check_slot_source(&m, 2, &SlotValue::Null));
}

#[test]
fn set_slots_are_read_back() {
    let mut slots = SlotData::new(2);
    slots.set(1, SlotValue::Text("v".to_string()));
    slots.set(2, SlotValue::Text("lost".to_string()));
    assert_eq!(slots.get_text(1), Some("v"));
    assert!(matches!(slots.get(0), SlotValue::Null));
    assert!(matches!(slots.get(2), SlotValue::Null));
    assert_eq!(slots.get(1).as_text_ref(), "v");
    assert_eq!(slots.get(0).as_text_ref(), "");
    let copy = slots.clone();
    slots.set(1, SlotValue::Bool(true));
    assert_eq!(copy.get(1).to_text(), "v");
    assert_eq!(slots.get(1).to_text(), "true");
    assert_eq!(SlotValue::Array(vec![]).to_text(), "[Array]");
    assert_eq!(SlotValue::Object(vec![]).to_text(), "[Object]");
}

#[test]
fn dumps_are_exact() {
    let ops = joined(&[
        encode_open_tag(0, &[(1, 2), (0, 1)]),
        vec![0x06, 1, 0, 0, 0, 3, 0],
        encode_close_tag(9),
        encode_switch(5, &[(0, &encode_text(1))]),
        encode_show_if(1, &[], &[]),
        encode_list(2, 3, &[]),
        encode_try(&[], &[]),
        encode_preload(2, 1),
        vec![0x12, 1, 0, 2, 0, 0, 0, 4, 0],
        vec![0xEE, 0x04, 1],
    ]);
    let expected = "FMIR v2  source_hash=0000000000000000  strings=3  slots=0  islands=0\n\
        0000: OPEN_TAG      \"a\" attrs=2 [(\"b\",\"c\"), (\"a\",\"b\")]\n\
        0017: DYN_ATTR      \"b\" slot=3\n\
        001e: CLOSE_TAG     \"?\"\n\
        0023: SWITCH        slot=5 cases=1\n\
        0030: TEXT          \"b\"\n\
        0035: SHOW_IF       slot=1 then_len=0 else_len=0\n\
        0040: SHOW_ELSE\n\
        0041: LIST          slot=2 item_slot=3 body_len=0\n\
        004a: TRY_START     fallback_len=0\n\
        004f: FALLBACK\n\
        0050: PRELOAD       type=2 url=\"b\"\n\
        0056: PROP slot[1].\"c\" -> slot[4]\n\
        005f: UNKNOWN       0xee\n\
        0060: TEXT          <error: buffer too short: expected at least 101 bytes, got 98>\n";
    assert_eq!(dump_ir(&module(&["a", "b", "c"], &ops)), expected);
    assert!(dump_ir(&module(&["a"], &[0x0F]))
        .ends_with("0000: PRELOAD       <error: buffer too short: expected at least 2 bytes, got 1>\n"));
}

#[test]
fn a_fallback_may_hold_any_bytes() {
    let slots = SlotData::new(0);
    let strings = ["b", "x"];
    let main = joined(&[encode_open_tag(0, &[]), encode_text(1), encode_close_tag(0)]);
    let alone = html(&strings, &main, &slots);
    for fallback in [vec![], vec![0xFF, 0x00, 0xEE], encode_text(99)] {
        assert_eq!(html(&strings, &encode_try(&main, &fallback), &slots), alone);
    }
    // A tag that the main body leaves open is closed all the same.
    let open = encode_open_tag(0, &[]);
    assert_eq!(html(&strings, &encode_try(&open, &[0xFF]), &slots), "<b>");
}

#[test]
fn list_html_is_the_html_of_its_items() {
    let strings = ["li", "none"];
    let body = joined(&[
        encode_open_tag(0, &[]),
        encode_show_if(1, &[0x05, 1, 0, 3, 0], &encode_text(1)),
        encode_close_tag(0),
    ]);
    let items = ["a", "", "<c>"];
    let mut slots = SlotData::new(2);
    slots.set(
        0,
        SlotValue::Array(items.iter().map(|s| SlotValue::Text(s.to_string())).collect()),
    );
    let mut expected = String::from("<!--f:l0-->");
    for item in items {
        let mut own = slots.clone();
        own.set(1, SlotValue::Text(item.to_string()));
        expected.push_str(&html(&strings, &body, &own));
    }
    expected.push_str("<!--/f:l0-->");
    assert_eq!(html(&strings, &encode_list(0, 1, &body), &slots), expected);
    slots.set(0, SlotValue::Bool(true));
    assert_eq!(
        html(&strings, &encode_list(0, 1, &body), &slots),
        "<!--f:l0--><!--/f:l0-->"
    );
}

#[test]
fn an_island_without_its_end_is_not_found() {
    let inner = joined(&[encode_open_tag(0, &[]), encode_close_tag(0)]);
    let open_end = joined(&[vec![0x0B, 1, 0], inner.clone(), vec![0x0C, 2, 0]]);
    let ended = joined(&[open_end.clone(), vec![0x0C, 1, 0], vec![0xFF]]);
    let island = |ops: &[u8]| {
        let data = build_minimal_ir(&["div", "C"], &[], ops, &[(1, 1, 3, 1, 0, &[])]);
        walk_island(&IrModule::parse(&data).unwrap(), &SlotData::new(0), 1)
    };
    assert_eq!(island(&open_end).unwrap_err(), IrError::IslandNotFound(1));
    assert_eq!(island(&ended).unwrap(), "<div></div><!--/f:i2-->");
}

fn cut_short<T: std::fmt::Debug>(res: Result<T, IrError>, n: usize) {
    assert!(matches!(res.unwrap_err(), IrError::BufferTooShort { actual, .. } if actual == n));
}

#[test]
fn tables_stand_before_other_bytes_and_need_all_of_their_own() {
    let strings = build_string_table(&["a", "", "h\u{e9}llo"]);
    let slots = build_slot_table(&[(7, 2, 4, 1, b"[]"), (1, 0, 1, 0, &[])]);
    let islands = build_island_table(&[(3, 4, 2, 1, 99, &[5, 6]), (4, 1, 1, 0, 0, &[])]);
    let junk = [0xFF, 0x01, 0x02];
    let read = StringTable::parse(&joined(&[strings.clone(), junk.to_vec()])).unwrap();
    assert_eq!(read, StringTable::parse(&strings).unwrap());
    assert_eq!(read.get(2).unwrap(), "h\u{e9}llo");
    assert_eq!(
        SlotTable::parse(&joined(&[slots.clone(), junk.to_vec()])).unwrap(),
        SlotTable::parse(&slots).unwrap()
    );
    assert_eq!(
        IslandTableParsed::parse(&joined(&[islands.clone(), junk.to_vec()])).unwrap(),
        IslandTableParsed::parse(&islands).unwrap()
    );
    for n in 0..strings.len() {
        cut_short(StringTable::parse(&strings[..n]), n);
    }
    for n in 0..slots.len() {
        cut_short(SlotTable::parse(&slots[..n]), n);
    }
    for n in 0..islands.len() {
        cut_short(IslandTableParsed::parse(&islands[..n]), n);
    }
}

#[test]
fn json_values_come_back_from_slots() {
    let half = JsonNumber::Double(SlotNumber {
        bits: (0.5f64).to_bits(),
        text: (0.5f64).to_string(),
    });
    let limit = 1i64 << 53;
    let value = JsonValue::Object(vec![
        ("z".to_string(), JsonValue::Null),
        (
            "a".to_string(),
            JsonValue::Array(vec![
                JsonValue::Number(JsonNumber::Int(limit)),
                JsonValue::Number(JsonNumber::Int(-limit)),
                JsonValue::Number(JsonNumber::Int(0)),
                JsonValue::Number(half),
                JsonValue::Bool(true),
                JsonValue::Text("t".to_string()),
                JsonValue::Object(vec![]),
            ]),
        ),
    ]);
    assert_eq!(json_to_slot_value(&value).to_json(), value);
    // Beyond 2^53 a double cannot tell neighbours apart.
    let large = JsonValue::Number(JsonNumber::Int(limit + 1));
    assert_eq!(
        json_to_slot_value(&large).to_json(),
        JsonValue::Number(JsonNumber::Int(limit))
    );
}

#[test]
fn json_text_fills_slots_with_its_numbers() {
    let data = build_minimal_ir(
        &["a", "b", "c"],
        &[(0, 0, 3, 0, &[]), (1, 1, 3, 0, &[]), (2, 2, 5, 0, &[])],
        &[],
        &[],
    );
    let m = IrModule::parse(&data).unwrap();
    let slots =
        SlotData::from_json(r#"{"b": -2.5, "a": 9007199254740992, "c": {"k": 18446744073709551615, "k": 7}}"#, &m)
            .unwrap();
    assert_eq!(slots.get(0).to_text(), "9007199254740992");
    assert_eq!(slots.get(1).to_text(), "-2.5");
    assert_eq!(slots.get(2).get_property("k").to_text(), "7");
    assert_eq!(
        slots.get(2).to_json(),
        JsonValue::Object(vec![("k".to_string(), JsonValue::Number(JsonNumber::Int(7)))])
    );
}

#[test]
fn switch_html_is_the_html_of_its_matching_cases() {
    let strings = ["one", "two", "b", "text"];
    let open = joined(&[encode_open_tag(2, &[]), encode_text(3), encode_close_tag(2)]);
    let junk = vec![0xFF, 0xEE];
    let ops = encode_switch(0, &[(1, &junk), (0, &open)]);
    let slots = text_slot("one");
    assert_eq!(html(&strings, &ops, &slots), html(&strings, &open, &slots));
    assert_eq!(html(&strings, &ops, &slots), "<b>text</b>");
    assert_eq!(html(&strings, &ops, &text_slot("three")), "");
    let both = encode_switch(0, &[(0, &open), (1, &junk), (0, &encode_text(3))]);
    assert_eq!(html(&strings, &both, &slots), "<b>text</b>text");
}

#[test]
fn island_html_is_the_html_of_its_content() {
    let strings = ["div", "x", "C"];
    let content = joined(&[
        encode_open_tag(0, &[]),
        encode_show_if(0, &[0x0C, 1, 0], &[]),
        encode_text(1),
        encode_close_tag(0),
    ]);
    let before = encode_text(1);
    let ops = joined(&[
        before.clone(),
        vec![0x0B, 1, 0],
        content.clone(),
        vec![0x0C, 1, 0],
        vec![0xFF],
    ]);
    let data = build_minimal_ir(&strings, &[], &ops, &[(1, 1, 3, 2, before.len() as u32, &[])]);
    let m = IrModule::parse(&data).unwrap();
    let slots = text_slot("on");
    assert_eq!(
        walk_island(&m, &slots, 1).unwrap(),
        html(&strings, &content, &slots)
    );
}
