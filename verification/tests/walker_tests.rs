//! Walking modules and islands to HTML.

use forma::format::IrError;
use forma::json::{JsonNumber, JsonValue};
use forma::parser::test_helpers::{
    build_minimal_ir, encode_close_tag, encode_list, encode_open_tag, encode_preload, encode_show_if,
    encode_switch, encode_text, encode_try, encode_void_tag,
};
use forma::parser::IrModule;
use forma::slot::{SlotData, SlotValue};
use forma::walker::{walk_island, walk_to_html};
use forma::SlotNumber;

/// A slot value that holds a number.
fn number(x: f64) -> SlotValue {
    SlotValue::Number(SlotNumber {
        bits: x.to_bits(),
        text: x.to_string(),
    })
}

/// Encode a DYN_TEXT opcode: opcode(1) + slot_id(2) + marker_id(2)
fn encode_dyn_text(slot_id: u16, marker_id: u16) -> Vec<u8> {
    let mut buf = Vec::new();
    buf.push(0x05); // Opcode::DynText
    buf.extend_from_slice(&slot_id.to_le_bytes());
    buf.extend_from_slice(&marker_id.to_le_bytes());
    buf
}

/// Encode an ISLAND_START opcode: opcode(1) + island_id(2)
fn encode_island_start(island_id: u16) -> Vec<u8> {
    let mut buf = vec![0x0B];
    buf.extend_from_slice(&island_id.to_le_bytes());
    buf
}

/// Encode an ISLAND_END opcode: opcode(1) + island_id(2)
fn encode_island_end(island_id: u16) -> Vec<u8> {
    let mut buf = vec![0x0C];
    buf.extend_from_slice(&island_id.to_le_bytes());
    buf
}

/// Encode a COMMENT opcode: opcode(1) + str_idx(4)
fn encode_comment(str_idx: u32) -> Vec<u8> {
    let mut buf = vec![0x10];
    buf.extend_from_slice(&str_idx.to_le_bytes());
    buf
}

/// Helper: build an IrModule, walk it with empty slots, return the HTML.
fn walk_static(strings: &[&str], opcodes: &[u8]) -> String {
    let data = build_minimal_ir(strings, &[], opcodes, &[]);
    let module = IrModule::parse(&data).unwrap();
    let slots = SlotData::new(0);
    walk_to_html(&module, &slots).unwrap()
}

/// Helper: build an IrModule with slot declarations, walk with given SlotData.
fn walk_with_slots(
    strings: &[&str],
    slot_decls: &[(u16, u32, u8, u8, &[u8])],
    opcodes: &[u8],
    slots: &SlotData,
) -> String {
    let data = build_minimal_ir(strings, slot_decls, opcodes, &[]);
    let module = IrModule::parse(&data).unwrap();
    walk_to_html(&module, slots).unwrap()
}

/// Helper: build an IrModule with slots AND islands, walk with given SlotData.
fn walk_with_islands(
    strings: &[&str],
    slot_decls: &[(u16, u32, u8, u8, &[u8])],
    island_decls: &[(u16, u8, u8, u32, u32, &[u16])],
    opcodes: &[u8],
    slots: &SlotData,
) -> String {
    let data = build_minimal_ir(strings, slot_decls, opcodes, island_decls);
    let module = IrModule::parse(&data).unwrap();
    walk_to_html(&module, slots).unwrap()
}

/// Encode a LIST_ITEM_KEY opcode: opcode(1) + key_str_idx(4)
fn encode_list_item_key(key_str_idx: u32) -> Vec<u8> {
    let mut buf = vec![0x11]; // Opcode::ListItemKey
    buf.extend_from_slice(&key_str_idx.to_le_bytes());
    buf
}

/// Encode a DYN_ATTR opcode: opcode(1) + attr_str_idx(4) + slot_id(2)
fn encode_dyn_attr(attr_str_idx: u32, slot_id: u16) -> Vec<u8> {
    let mut bytes = vec![0x06]; // Opcode::DynAttr
    bytes.extend_from_slice(&attr_str_idx.to_le_bytes());
    bytes.extend_from_slice(&slot_id.to_le_bytes());
    bytes
}

#[test]
fn walk_static_div() {
    // <div class="container">Hello</div>
    // strings: 0="div", 1="class", 2="container", 3="Hello"
    let mut opcodes = Vec::new();
    opcodes.extend_from_slice(&encode_open_tag(0, &[(1, 2)]));
    opcodes.extend_from_slice(&encode_text(3));
    opcodes.extend_from_slice(&encode_close_tag(0));

    let html = walk_static(&["div", "class", "container", "Hello"], &opcodes);
    assert_eq!(html, r#"<div class="container">Hello</div>"#);
}

#[test]
fn walk_void_tag() {
    // <input type="email">
    // strings: 0="input", 1="type", 2="email"
    let opcodes = encode_void_tag(0, &[(1, 2)]);

    let html = walk_static(&["input", "type", "email"], &opcodes);
    assert_eq!(html, r#"<input type="email">"#);
}

#[test]
fn walk_nested_elements() {
    // <div><span>Hi</span></div>
    // strings: 0="div", 1="span", 2="Hi"
    let mut opcodes = Vec::new();
    opcodes.extend_from_slice(&encode_open_tag(0, &[]));
    opcodes.extend_from_slice(&encode_open_tag(1, &[]));
    opcodes.extend_from_slice(&encode_text(2));
    opcodes.extend_from_slice(&encode_close_tag(1));
    opcodes.extend_from_slice(&encode_close_tag(0));

    let html = walk_static(&["div", "span", "Hi"], &opcodes);
    assert_eq!(html, "<div><span>Hi</span></div>");
}

#[test]
fn walk_text_escaping() {
    // TEXT with "<script>alert('xss')</script>"
    let opcodes = encode_text(0);

    let html = walk_static(&["<script>alert('xss')</script>"], &opcodes);
    assert_eq!(html, "&lt;script&gt;alert('xss')&lt;/script&gt;");
}

#[test]
fn walk_attr_escaping() {
    // OPEN_TAG with attr value containing a double quote
    // strings: 0="div", 1="title", 2=r#"a"b"#
    let opcodes = encode_open_tag(0, &[(1, 2)]);

    let html = walk_static(&["div", "title", "a\"b"], &opcodes);
    assert_eq!(html, r#"<div title="a&quot;b">"#);
}

#[test]
fn walk_empty_element() {
    // <div></div> (no children)
    let mut opcodes = Vec::new();
    opcodes.extend_from_slice(&encode_open_tag(0, &[]));
    opcodes.extend_from_slice(&encode_close_tag(0));

    let html = walk_static(&["div"], &opcodes);
    assert_eq!(html, "<div></div>");
}

#[test]
fn walk_dyn_text() {
    // DYN_TEXT with slot data produces marker comments + value
    // strings: 0="greeting" (slot name)
    // slot decl: slot_id=0, name_str_idx=0, type=Text(0x01)
    let opcodes = encode_dyn_text(0, 0);

    let mut slots = SlotData::new(1);
    slots.set(0, SlotValue::Text("World".to_string()));

    let html = walk_with_slots(&["greeting"], &[(0, 0, 0x01, 0x00, &[])], &opcodes, &slots);
    assert_eq!(html, "<!--f:t0-->World<!--/f:t0-->");
}

#[test]
fn walk_dyn_text_null_emits_zwsp() {
    // DYN_TEXT with null slot value must emit a zero-width space between
    // markers so the browser creates a Text node for hydration to bind to.
    let opcodes = encode_dyn_text(0, 0);
    let slots = SlotData::new(1); // slot 0 defaults to Null

    let html = walk_with_slots(&["msg"], &[(0, 0, 0x01, 0x00, &[])], &opcodes, &slots);
    assert_eq!(html, "<!--f:t0-->\u{200B}<!--/f:t0-->");
}

#[test]
fn walk_dyn_text_empty_string_emits_zwsp() {
    // DYN_TEXT with explicit empty string also needs the ZWSP placeholder.
    let opcodes = encode_dyn_text(0, 0);
    let mut slots = SlotData::new(1);
    slots.set(0, SlotValue::Text(String::new()));

    let html = walk_with_slots(&["msg"], &[(0, 0, 0x01, 0x00, &[])], &opcodes, &slots);
    assert_eq!(html, "<!--f:t0-->\u{200B}<!--/f:t0-->");
}

#[test]
fn walk_dyn_text_escaping() {
    // DYN_TEXT value with HTML chars is escaped
    let opcodes = encode_dyn_text(0, 1);

    let mut slots = SlotData::new(1);
    slots.set(0, SlotValue::Text("<b>bold</b>".to_string()));

    let html = walk_with_slots(&["content"], &[(0, 0, 0x01, 0x00, &[])], &opcodes, &slots);
    assert_eq!(html, "<!--f:t1-->&lt;b&gt;bold&lt;/b&gt;<!--/f:t1-->");
}

#[test]
fn walk_island_markers() {
    // ISLAND_START(0) + TEXT content + ISLAND_END(0)
    let mut opcodes = Vec::new();
    opcodes.extend_from_slice(&encode_island_start(0));
    opcodes.extend_from_slice(&encode_text(0));
    opcodes.extend_from_slice(&encode_island_end(0));

    let html = walk_static(&["Hello"], &opcodes);
    assert_eq!(html, "<!--f:i0-->Hello<!--/f:i0-->");
}

#[test]
fn walk_comment() {
    let opcodes = encode_comment(0);

    let html = walk_static(&["This is a comment"], &opcodes);
    assert_eq!(html, "<!--This is a comment-->");
}

#[test]
fn walk_boolean_attr() {
    // <input disabled> — attribute with empty string value renders as valueless
    // strings: 0="input", 1="disabled", 2="" (empty string for boolean attr)
    let opcodes = encode_void_tag(0, &[(1, 2)]);

    let html = walk_static(&["input", "disabled", ""], &opcodes);
    assert_eq!(html, "<input disabled>");
}

#[test]
fn walk_multiple_attrs() {
    // <div id="main" class="container" data-x="42"></div>
    // strings: 0="div", 1="id", 2="main", 3="class", 4="container", 5="data-x", 6="42"
    let mut opcodes = Vec::new();
    opcodes.extend_from_slice(&encode_open_tag(0, &[(1, 2), (3, 4), (5, 6)]));
    opcodes.extend_from_slice(&encode_close_tag(0));

    let html = walk_static(
        &["div", "id", "main", "class", "container", "data-x", "42"],
        &opcodes,
    );
    assert_eq!(
        html,
        r#"<div id="main" class="container" data-x="42"></div>"#
    );
}

#[test]
fn walk_show_if_true_branch() {
    // SHOW_IF(slot=0): then=TEXT("Yes"), else=TEXT("No")
    // slot 0 = Bool(true) → render "Yes"
    // strings: 0="visible", 1="Yes", 2="No"
    let then_ops = encode_text(1); // TEXT "Yes"
    let else_ops = encode_text(2); // TEXT "No"
    let opcodes = encode_show_if(0, &then_ops, &else_ops);

    let mut slots = SlotData::new(1);
    slots.set(0, SlotValue::Bool(true));

    let html = walk_with_slots(
        &["visible", "Yes", "No"],
        &[(0, 0, 0x02, 0x00, &[])], // slot 0, name="visible", type=Bool
        &opcodes,
        &slots,
    );
    assert!(html.contains("Yes"), "should contain then-branch text");
    assert!(!html.contains("No"), "should NOT contain else-branch text");
    assert!(html.contains("<!--f:s0-->"), "should have opening marker");
    assert!(html.contains("<!--/f:s0-->"), "should have closing marker");
}

#[test]
fn walk_show_if_false_branch() {
    // SHOW_IF(slot=0): then=TEXT("Yes"), else=TEXT("No")
    // slot 0 = Bool(false) → render "No"
    let then_ops = encode_text(1);
    let else_ops = encode_text(2);
    let opcodes = encode_show_if(0, &then_ops, &else_ops);

    let mut slots = SlotData::new(1);
    slots.set(0, SlotValue::Bool(false));

    let html = walk_with_slots(
        &["visible", "Yes", "No"],
        &[(0, 0, 0x02, 0x00, &[])],
        &opcodes,
        &slots,
    );
    assert!(html.contains("No"), "should contain else-branch text");
    assert!(!html.contains("Yes"), "should NOT contain then-branch text");
    assert!(html.contains("<!--f:s0-->"), "should have opening marker");
    assert!(html.contains("<!--/f:s0-->"), "should have closing marker");
}

#[test]
fn walk_show_if_truthy_text() {
    // slot 0 = Text("hello") → truthy → render then branch
    let then_ops = encode_text(1);
    let else_ops = encode_text(2);
    let opcodes = encode_show_if(0, &then_ops, &else_ops);

    let mut slots = SlotData::new(1);
    slots.set(0, SlotValue::Text("hello".to_string()));

    let html = walk_with_slots(
        &["greeting", "Shown", "Hidden"],
        &[(0, 0, 0x01, 0x00, &[])], // type=Text
        &opcodes,
        &slots,
    );
    assert!(html.contains("Shown"), "truthy text should render then branch");
    assert!(!html.contains("Hidden"), "truthy text should NOT render else branch");
}

#[test]
fn walk_show_if_falsy_null() {
    // slot 0 = Null (default) → falsy → render else branch
    let then_ops = encode_text(1);
    let else_ops = encode_text(2);
    let opcodes = encode_show_if(0, &then_ops, &else_ops);

    let slots = SlotData::new(1); // slot 0 is Null by default

    let html = walk_with_slots(
        &["maybe", "Present", "Missing"],
        &[(0, 0, 0x01, 0x00, &[])],
        &opcodes,
        &slots,
    );
    assert!(html.contains("Missing"), "null should render else branch");
    assert!(!html.contains("Present"), "null should NOT render then branch");
}

#[test]
fn walk_show_if_no_else() {
    // SHOW_IF with empty else branch. When false, nothing rendered between markers.
    let then_ops = encode_text(1);
    let else_ops: Vec<u8> = vec![]; // empty else
    let opcodes = encode_show_if(0, &then_ops, &else_ops);

    let slots = SlotData::new(1); // Null → false

    let html = walk_with_slots(
        &["flag", "Content"],
        &[(0, 0, 0x02, 0x00, &[])],
        &opcodes,
        &slots,
    );
    assert_eq!(html, "<!--f:s0--><!--/f:s0-->", "empty else should produce only markers");
}

#[test]
fn walk_show_if_nested() {
    // Outer SHOW_IF(slot=0, true) → then branch contains inner SHOW_IF(slot=1, false)
    // Inner then=TEXT("inner-yes"), inner else=TEXT("inner-no")
    // strings: 0="outer", 1="inner", 2="outer-yes", 3="outer-no", 4="inner-yes", 5="inner-no"
    let inner_then = encode_text(4);
    let inner_else = encode_text(5);
    let inner_show_if = encode_show_if(1, &inner_then, &inner_else);

    let outer_then = inner_show_if; // outer then = inner SHOW_IF
    let outer_else = encode_text(3);
    let opcodes = encode_show_if(0, &outer_then, &outer_else);

    let mut slots = SlotData::new(2);
    slots.set(0, SlotValue::Bool(true));  // outer true
    slots.set(1, SlotValue::Bool(false)); // inner false

    let html = walk_with_slots(
        &["outer", "inner", "outer-yes", "outer-no", "inner-yes", "inner-no"],
        &[(0, 0, 0x02, 0x00, &[]), (1, 1, 0x02, 0x00, &[])],
        &opcodes,
        &slots,
    );
    // Outer is true → walk inner. Inner is false → render "inner-no"
    assert!(html.contains("inner-no"), "nested: inner false should render inner else");
    assert!(!html.contains("inner-yes"), "nested: inner true branch should not render");
    assert!(!html.contains("outer-no"), "nested: outer else should not render");
    // Verify correct nesting of markers
    assert!(html.contains("<!--f:s0-->"), "should have outer opening marker");
    assert!(html.contains("<!--/f:s0-->"), "should have outer closing marker");
    assert!(html.contains("<!--f:s1-->"), "should have inner opening marker");
    assert!(html.contains("<!--/f:s1-->"), "should have inner closing marker");
}

#[test]
fn walk_show_if_with_elements() {
    // Then branch contains OPEN_TAG("span") + TEXT("Hello") + CLOSE_TAG("span")
    // strings: 0="flag", 1="span", 2="Hello", 3="Bye"
    let mut then_ops = Vec::new();
    then_ops.extend_from_slice(&encode_open_tag(1, &[]));
    then_ops.extend_from_slice(&encode_text(2));
    then_ops.extend_from_slice(&encode_close_tag(1));

    let else_ops = encode_text(3);
    let opcodes = encode_show_if(0, &then_ops, &else_ops);

    let mut slots = SlotData::new(1);
    slots.set(0, SlotValue::Bool(true));

    let html = walk_with_slots(
        &["flag", "span", "Hello", "Bye"],
        &[(0, 0, 0x02, 0x00, &[])],
        &opcodes,
        &slots,
    );
    assert_eq!(
        html,
        "<!--f:s0--><span>Hello</span><!--/f:s0-->",
        "then branch should produce full HTML element"
    );
}

#[test]
fn walk_list_renders_items() {
    // LIST(slot=0, item_slot=1): body = DYN_TEXT(slot=1, marker=0)
    // slot 0 = Array([Text("Alice"), Text("Bob")])
    // strings: 0="items", 1="item"
    let body = encode_dyn_text(1, 0);
    let opcodes = encode_list(0, 1, &body);

    let mut slots = SlotData::new(2);
    slots.set(
        0,
        SlotValue::Array(vec![
            SlotValue::Text("Alice".to_string()),
            SlotValue::Text("Bob".to_string()),
        ]),
    );

    let html = walk_with_slots(
        &["items", "item"],
        &[(0, 0, 0x04, 0x00, &[]), (1, 1, 0x01, 0x00, &[])], // slot 0=Array, slot 1=Text
        &opcodes,
        &slots,
    );
    assert!(html.contains("Alice"), "should contain first item");
    assert!(html.contains("Bob"), "should contain second item");
    assert!(html.starts_with("<!--f:l0-->"), "should start with list open marker");
    assert!(html.ends_with("<!--/f:l0-->"), "should end with list close marker");
}

#[test]
fn walk_list_empty_array() {
    // LIST(slot=0, item_slot=1): body = DYN_TEXT(slot=1, marker=0)
    // slot 0 = Array([])
    let body = encode_dyn_text(1, 0);
    let opcodes = encode_list(0, 1, &body);

    let mut slots = SlotData::new(2);
    slots.set(0, SlotValue::Array(vec![]));

    let html = walk_with_slots(
        &["items", "item"],
        &[(0, 0, 0x04, 0x00, &[]), (1, 1, 0x01, 0x00, &[])],
        &opcodes,
        &slots,
    );
    assert_eq!(html, "<!--f:l0--><!--/f:l0-->", "empty array should produce only markers");
}

#[test]
fn walk_list_with_elements() {
    // LIST(slot=0, item_slot=1): body = <li>DYN_TEXT(slot=1)</li>
    // slot 0 = Array([Text("A"), Text("B")])
    // strings: 0="items", 1="item", 2="li"
    let mut body = Vec::new();
    body.extend_from_slice(&encode_open_tag(2, &[]));
    body.extend_from_slice(&encode_dyn_text(1, 0));
    body.extend_from_slice(&encode_close_tag(2));

    let opcodes = encode_list(0, 1, &body);

    let mut slots = SlotData::new(2);
    slots.set(
        0,
        SlotValue::Array(vec![
            SlotValue::Text("A".to_string()),
            SlotValue::Text("B".to_string()),
        ]),
    );

    let html = walk_with_slots(
        &["items", "item", "li"],
        &[(0, 0, 0x04, 0x00, &[]), (1, 1, 0x01, 0x00, &[])],
        &opcodes,
        &slots,
    );
    assert!(
        html.contains("<li><!--f:t0-->A<!--/f:t0--></li><li><!--f:t0-->B<!--/f:t0--></li>"),
        "should render li elements with content, got: {html}"
    );
}

#[test]
fn walk_list_null_slot() {
    // LIST(slot=0, item_slot=1): body = DYN_TEXT(slot=1, marker=0)
    // slot 0 = Null (not Array) → no iteration, empty markers
    let body = encode_dyn_text(1, 0);
    let opcodes = encode_list(0, 1, &body);

    let slots = SlotData::new(2); // slot 0 remains Null

    let html = walk_with_slots(
        &["items", "item"],
        &[(0, 0, 0x04, 0x00, &[]), (1, 1, 0x01, 0x00, &[])],
        &opcodes,
        &slots,
    );
    assert_eq!(html, "<!--f:l0--><!--/f:l0-->", "null slot should produce only markers");
}

#[test]
fn walk_list_nested() {
    // Outer LIST(slot=0, item_slot=1): each item is an Array
    // Inner LIST(slot=1, item_slot=2): each sub-item is Text
    // Body of inner: DYN_TEXT(slot=2, marker=0)
    // strings: 0="outer", 1="inner", 2="item"
    let inner_body = encode_dyn_text(2, 0);
    let inner_list = encode_list(1, 2, &inner_body);
    let opcodes = encode_list(0, 1, &inner_list);

    let mut slots = SlotData::new(3);
    slots.set(
        0,
        SlotValue::Array(vec![
            SlotValue::Array(vec![
                SlotValue::Text("a".to_string()),
                SlotValue::Text("b".to_string()),
            ]),
            SlotValue::Array(vec![
                SlotValue::Text("c".to_string()),
            ]),
        ]),
    );

    let html = walk_with_slots(
        &["outer", "inner", "item"],
        &[(0, 0, 0x04, 0x00, &[]), (1, 1, 0x04, 0x00, &[]), (2, 2, 0x01, 0x00, &[])],
        &opcodes,
        &slots,
    );
    // Verify all items rendered
    assert!(html.contains("a"), "should contain nested item 'a'");
    assert!(html.contains("b"), "should contain nested item 'b'");
    assert!(html.contains("c"), "should contain nested item 'c'");
    // Verify outer list markers
    assert!(html.starts_with("<!--f:l0-->"), "should have outer list open marker");
    assert!(html.ends_with("<!--/f:l0-->"), "should have outer list close marker");
    // Verify inner list markers present
    assert!(html.contains("<!--f:l1-->"), "should have inner list open marker");
    assert!(html.contains("<!--/f:l1-->"), "should have inner list close marker");
}

#[test]
fn walk_list_depth_exceeded() {
    // Nest 5 lists deep (exceeds MAX_LIST_DEPTH of 4)
    // Innermost body is a DYN_TEXT
    // strings: 0..=5 = "s0".."s5"
    let innermost_body = encode_dyn_text(5, 0);
    // Build from inside out: level 5 (innermost) → level 1 (outermost)
    let level5 = encode_list(4, 5, &innermost_body);
    let level4 = encode_list(3, 4, &level5);
    let level3 = encode_list(2, 3, &level4);
    let level2 = encode_list(1, 2, &level3);
    let level1 = encode_list(0, 1, &level2);

    let mut slots = SlotData::new(6);
    // Each level needs an array with at least one item to trigger iteration
    slots.set(0, SlotValue::Array(vec![SlotValue::Array(vec![
        SlotValue::Array(vec![SlotValue::Array(vec![
            SlotValue::Array(vec![SlotValue::Text("deep".to_string())]),
        ])]),
    ])]));
    // Inner slots get shadowed during iteration

    let data = build_minimal_ir(
        &["s0", "s1", "s2", "s3", "s4", "s5"],
        &[
            (0, 0, 0x04, 0x00, &[]), (1, 1, 0x04, 0x00, &[]), (2, 2, 0x04, 0x00, &[]),
            (3, 3, 0x04, 0x00, &[]), (4, 4, 0x04, 0x00, &[]), (5, 5, 0x01, 0x00, &[]),
        ],
        &level1,
        &[],
    );
    let module = IrModule::parse(&data).unwrap();
    let result = walk_to_html(&module, &slots);
    assert!(result.is_err(), "should fail with depth exceeded");
    match result.unwrap_err() {
        IrError::ListDepthExceeded { max: 4 } => {}
        other => panic!("expected ListDepthExceeded {{ max: 4 }}, got {other:?}"),
    }
}

#[test]
fn walk_switch_matching_case() {
    // SWITCH(slot=0): cases [("home", TEXT "Home"), ("about", TEXT "About")]
    // slot 0 = Text("about") → render "About"
    // strings: 0="page", 1="home", 2="Home", 3="about", 4="About"
    let case_home_body = encode_text(2); // TEXT "Home"
    let case_about_body = encode_text(4); // TEXT "About"
    let opcodes = encode_switch(0, &[(1, &case_home_body), (3, &case_about_body)]);

    let mut slots = SlotData::new(1);
    slots.set(0, SlotValue::Text("about".to_string()));

    let html = walk_with_slots(
        &["page", "home", "Home", "about", "About"],
        &[(0, 0, 0x01, 0x00, &[])],
        &opcodes,
        &slots,
    );
    assert!(html.contains("About"), "should contain matching case text");
    assert!(!html.contains("Home"), "should NOT contain non-matching case text");
}

#[test]
fn walk_switch_no_match() {
    // SWITCH(slot=0): cases [("home", TEXT "Home"), ("about", TEXT "About")]
    // slot 0 = Text("missing") → no match, empty output
    // strings: 0="page", 1="home", 2="Home", 3="about", 4="About"
    let case_home_body = encode_text(2);
    let case_about_body = encode_text(4);
    let opcodes = encode_switch(0, &[(1, &case_home_body), (3, &case_about_body)]);

    let mut slots = SlotData::new(1);
    slots.set(0, SlotValue::Text("missing".to_string()));

    let html = walk_with_slots(
        &["page", "home", "Home", "about", "About"],
        &[(0, 0, 0x01, 0x00, &[])],
        &opcodes,
        &slots,
    );
    assert!(html.is_empty(), "no match should produce empty output, got: {html}");
}

#[test]
fn walk_switch_first_case() {
    // SWITCH(slot=0): cases [("home", TEXT "Home"), ("about", TEXT "About")]
    // slot 0 = Text("home") → matches first case, render "Home"
    let case_home_body = encode_text(2);
    let case_about_body = encode_text(4);
    let opcodes = encode_switch(0, &[(1, &case_home_body), (3, &case_about_body)]);

    let mut slots = SlotData::new(1);
    slots.set(0, SlotValue::Text("home".to_string()));

    let html = walk_with_slots(
        &["page", "home", "Home", "about", "About"],
        &[(0, 0, 0x01, 0x00, &[])],
        &opcodes,
        &slots,
    );
    assert!(html.contains("Home"), "should contain first case text");
    assert!(!html.contains("About"), "should NOT contain second case text");
}

#[test]
fn walk_switch_with_elements() {
    // SWITCH(slot=0): matching case body = <span>Active</span>
    // strings: 0="page", 1="active", 2="span", 3="Active", 4="inactive", 5="Inactive"
    let mut active_body = Vec::new();
    active_body.extend_from_slice(&encode_open_tag(2, &[]));
    active_body.extend_from_slice(&encode_text(3));
    active_body.extend_from_slice(&encode_close_tag(2));

    let inactive_body = encode_text(5);
    let opcodes = encode_switch(0, &[(1, &active_body), (4, &inactive_body)]);

    let mut slots = SlotData::new(1);
    slots.set(0, SlotValue::Text("active".to_string()));

    let html = walk_with_slots(
        &["page", "active", "span", "Active", "inactive", "Inactive"],
        &[(0, 0, 0x01, 0x00, &[])],
        &opcodes,
        &slots,
    );
    assert_eq!(html, "<span>Active</span>", "should produce full HTML element from matching case");
}

#[test]
fn walk_try_renders_main() {
    // TRY_START with main body TEXT "Main" + FALLBACK TEXT "Fallback"
    // strings: 0="Main", 1="Fallback"
    let main_ops = encode_text(0);
    let fallback_ops = encode_text(1);
    let opcodes = encode_try(&main_ops, &fallback_ops);

    let html = walk_static(&["Main", "Fallback"], &opcodes);
    assert!(html.contains("Main"), "should contain main body text");
    assert!(!html.contains("Fallback"), "should NOT contain fallback text");
}

#[test]
fn walk_preload_font() {
    // PRELOAD resource_type=1 (font), url="/_assets/dm-mono.woff2"
    // strings: 0="/_assets/dm-mono.woff2"
    let opcodes = encode_preload(1, 0);

    let html = walk_static(&["/_assets/dm-mono.woff2"], &opcodes);
    assert!(
        html.contains(r#"<link rel="preload" href="/_assets/dm-mono.woff2" as="font" type="font/woff2" crossorigin>"#),
        "should produce preload link for font, got: {html}"
    );
}

#[test]
fn walk_preload_style() {
    // PRELOAD resource_type=2 (style), url="/_assets/styles.css"
    // strings: 0="/_assets/styles.css"
    let opcodes = encode_preload(2, 0);

    let html = walk_static(&["/_assets/styles.css"], &opcodes);
    assert!(
        html.contains(r#"as="style""#),
        "should contain as=\"style\", got: {html}"
    );
    assert!(
        html.contains(r#"href="/_assets/styles.css""#),
        "should contain correct href, got: {html}"
    );
}

// =========================================================================
// Hydration-roundtrip tests — verify walker produces exact expected HTML
// from programmatically-built IR. These tests complement the TS-side
// roundtrip tests (ir-roundtrip.test.ts) to ensure the binary contract
// between the TS emitter and the Rust walker is correct.
// =========================================================================

#[test]
fn roundtrip_page_structure() {
    // Build IR for a realistic page skeleton:
    // <html lang="en"><head><meta charset="utf-8"><title>Test</title></head>
    // <body><div id="app"></div></body></html>
    //
    // strings: 0="html", 1="lang", 2="en", 3="head", 4="meta",
    //          5="charset", 6="utf-8", 7="title", 8="Test",
    //          9="body", 10="div", 11="id", 12="app"
    let mut opcodes = Vec::new();
    opcodes.extend_from_slice(&encode_open_tag(0, &[(1, 2)]));           // <html lang="en">
    opcodes.extend_from_slice(&encode_open_tag(3, &[]));                 // <head>
    opcodes.extend_from_slice(&encode_void_tag(4, &[(5, 6)]));           // <meta charset="utf-8">
    opcodes.extend_from_slice(&encode_open_tag(7, &[]));                 // <title>
    opcodes.extend_from_slice(&encode_text(8));                          // Test
    opcodes.extend_from_slice(&encode_close_tag(7));                     // </title>
    opcodes.extend_from_slice(&encode_close_tag(3));                     // </head>
    opcodes.extend_from_slice(&encode_open_tag(9, &[]));                 // <body>
    opcodes.extend_from_slice(&encode_open_tag(10, &[(11, 12)]));        // <div id="app">
    opcodes.extend_from_slice(&encode_close_tag(10));                    // </div>
    opcodes.extend_from_slice(&encode_close_tag(9));                     // </body>
    opcodes.extend_from_slice(&encode_close_tag(0));                     // </html>

    let ir = build_minimal_ir(
        &[
            "html", "lang", "en", "head", "meta", "charset", "utf-8",
            "title", "Test", "body", "div", "id", "app",
        ],
        &[],
        &opcodes,
        &[],
    );
    let module = IrModule::parse(&ir).unwrap();
    let slots = SlotData::new(0);
    let html = walk_to_html(&module, &slots).unwrap();
    assert_eq!(
        html,
        r#"<html lang="en"><head><meta charset="utf-8"><title>Test</title></head><body><div id="app"></div></body></html>"#
    );
}

#[test]
fn roundtrip_dynamic_greeting() {
    // Build IR for: <div class="greeting"><!--f:t0-->Hello, World<!--/f:t0--></div>
    // with slot 0 = Text("Hello, World")
    //
    // strings: 0="div", 1="class", 2="greeting", 3="content"
    // slot decl: slot_id=0, name_str_idx=3 ("content"), type=Text
    let mut opcodes = Vec::new();
    opcodes.extend_from_slice(&encode_open_tag(0, &[(1, 2)])); // <div class="greeting">
    opcodes.extend_from_slice(&encode_dyn_text(0, 0));         // DYN_TEXT slot=0 marker=0
    opcodes.extend_from_slice(&encode_close_tag(0));           // </div>

    let ir = build_minimal_ir(
        &["div", "class", "greeting", "content"],
        &[(0, 3, 0x01, 0x00, &[])], // slot 0, name="content", type=Text
        &opcodes,
        &[],
    );
    let module = IrModule::parse(&ir).unwrap();
    let mut slots = SlotData::new(1);
    slots.set(0, SlotValue::Text("Hello, World".into()));
    let html = walk_to_html(&module, &slots).unwrap();
    assert_eq!(
        html,
        r#"<div class="greeting"><!--f:t0-->Hello, World<!--/f:t0--></div>"#
    );
}

#[test]
fn roundtrip_conditional_content() {
    // SHOW_IF slot=0
    //   then: <span class="badge">Logged In</span>
    //   else: <span class="badge">Guest</span>
    //
    // strings: 0="auth", 1="span", 2="class", 3="badge",
    //          4="Logged In", 5="Guest"
    let mut then_ops = Vec::new();
    then_ops.extend_from_slice(&encode_open_tag(1, &[(2, 3)]));
    then_ops.extend_from_slice(&encode_text(4));
    then_ops.extend_from_slice(&encode_close_tag(1));

    let mut else_ops = Vec::new();
    else_ops.extend_from_slice(&encode_open_tag(1, &[(2, 3)]));
    else_ops.extend_from_slice(&encode_text(5));
    else_ops.extend_from_slice(&encode_close_tag(1));

    let opcodes = encode_show_if(0, &then_ops, &else_ops);

    let ir = build_minimal_ir(
        &["auth", "span", "class", "badge", "Logged In", "Guest"],
        &[(0, 0, 0x02, 0x00, &[])], // slot 0, name="auth", type=Bool
        &opcodes,
        &[],
    );

    // Test true branch
    {
        let module = IrModule::parse(&ir).unwrap();
        let mut slots = SlotData::new(1);
        slots.set(0, SlotValue::Bool(true));
        let html = walk_to_html(&module, &slots).unwrap();
        assert_eq!(
            html,
            r#"<!--f:s0--><span class="badge">Logged In</span><!--/f:s0-->"#
        );
    }

    // Test false branch
    {
        let module = IrModule::parse(&ir).unwrap();
        let mut slots = SlotData::new(1);
        slots.set(0, SlotValue::Bool(false));
        let html = walk_to_html(&module, &slots).unwrap();
        assert_eq!(
            html,
            r#"<!--f:s0--><span class="badge">Guest</span><!--/f:s0-->"#
        );
    }
}

#[test]
fn roundtrip_list_rendering() {
    // LIST slot=0 item=1 → <li><!--f:t0-->{item}<!--/f:t0--></li>
    // Items: ["Alice", "Bob", "Charlie"]
    //
    // strings: 0="items", 1="item", 2="li"
    // slot decls: slot 0=Array, slot 1=Text (item)
    let mut body = Vec::new();
    body.extend_from_slice(&encode_open_tag(2, &[]));    // <li>
    body.extend_from_slice(&encode_dyn_text(1, 0));      // DYN_TEXT slot=1 marker=0
    body.extend_from_slice(&encode_close_tag(2));        // </li>

    let opcodes = encode_list(0, 1, &body);

    let ir = build_minimal_ir(
        &["items", "item", "li"],
        &[(0, 0, 0x04, 0x00, &[]), (1, 1, 0x01, 0x00, &[])], // slot 0=Array, slot 1=Text
        &opcodes,
        &[],
    );
    let module = IrModule::parse(&ir).unwrap();
    let mut slots = SlotData::new(2);
    slots.set(
        0,
        SlotValue::Array(vec![
            SlotValue::Text("Alice".into()),
            SlotValue::Text("Bob".into()),
            SlotValue::Text("Charlie".into()),
        ]),
    );
    let html = walk_to_html(&module, &slots).unwrap();
    assert_eq!(
        html,
        "<!--f:l0-->\
         <li><!--f:t0-->Alice<!--/f:t0--></li>\
         <li><!--f:t0-->Bob<!--/f:t0--></li>\
         <li><!--f:t0-->Charlie<!--/f:t0--></li>\
         <!--/f:l0-->"
    );
}

#[test]
fn roundtrip_switch_view() {
    // SWITCH slot=0, cases: "home" → <h1>Home</h1>, "about" → <h1>About</h1>
    // slot = "about"
    //
    // strings: 0="page", 1="home", 2="h1", 3="Home", 4="about", 5="About"
    let mut home_body = Vec::new();
    home_body.extend_from_slice(&encode_open_tag(2, &[]));
    home_body.extend_from_slice(&encode_text(3));
    home_body.extend_from_slice(&encode_close_tag(2));

    let mut about_body = Vec::new();
    about_body.extend_from_slice(&encode_open_tag(2, &[]));
    about_body.extend_from_slice(&encode_text(5));
    about_body.extend_from_slice(&encode_close_tag(2));

    let opcodes = encode_switch(0, &[(1, &home_body), (4, &about_body)]);

    let ir = build_minimal_ir(
        &["page", "home", "h1", "Home", "about", "About"],
        &[(0, 0, 0x01, 0x00, &[])], // slot 0, name="page", type=Text
        &opcodes,
        &[],
    );
    let module = IrModule::parse(&ir).unwrap();
    let mut slots = SlotData::new(1);
    slots.set(0, SlotValue::Text("about".into()));
    let html = walk_to_html(&module, &slots).unwrap();
    assert_eq!(html, "<h1>About</h1>");
}

#[test]
fn roundtrip_nested_structure() {
    // Realistic page fragment: nav with conditional auth + list of links
    //
    // <nav class="main-nav">
    //   <!--f:s0-->  (SHOW_IF: logged in?)
    //     <span>Welcome</span>
    //   <!--/f:s0-->
    //   <ul>
    //     <!--f:l1-->  (LIST: nav items)
    //       <li><!--f:t0-->{item}<!--/f:t0--></li>
    //     <!--/f:l1-->
    //   </ul>
    // </nav>
    //
    // strings: 0="nav", 1="class", 2="main-nav", 3="auth",
    //          4="span", 5="Welcome", 6="items", 7="item",
    //          8="ul", 9="li"
    //
    // slots: 0=Bool (auth), 1=Array (items), 2=Text (item shadow)

    // SHOW_IF then body: <span>Welcome</span>
    let mut then_ops = Vec::new();
    then_ops.extend_from_slice(&encode_open_tag(4, &[]));
    then_ops.extend_from_slice(&encode_text(5));
    then_ops.extend_from_slice(&encode_close_tag(4));

    let show_if_ops = encode_show_if(0, &then_ops, &[]);

    // LIST body: <li>DYN_TEXT(slot=2)</li>
    let mut list_body = Vec::new();
    list_body.extend_from_slice(&encode_open_tag(9, &[]));
    list_body.extend_from_slice(&encode_dyn_text(2, 0));
    list_body.extend_from_slice(&encode_close_tag(9));

    let list_ops = encode_list(1, 2, &list_body);

    // Full opcode stream
    let mut opcodes = Vec::new();
    opcodes.extend_from_slice(&encode_open_tag(0, &[(1, 2)])); // <nav class="main-nav">
    opcodes.extend_from_slice(&show_if_ops);                    // SHOW_IF auth
    opcodes.extend_from_slice(&encode_open_tag(8, &[]));       // <ul>
    opcodes.extend_from_slice(&list_ops);                       // LIST items
    opcodes.extend_from_slice(&encode_close_tag(8));           // </ul>
    opcodes.extend_from_slice(&encode_close_tag(0));           // </nav>

    let ir = build_minimal_ir(
        &[
            "nav", "class", "main-nav", "auth", "span", "Welcome",
            "items", "item", "ul", "li",
        ],
        &[
            (0, 3, 0x02, 0x00, &[]), // slot 0 = Bool (auth)
            (1, 6, 0x04, 0x00, &[]), // slot 1 = Array (items)
            (2, 7, 0x01, 0x00, &[]), // slot 2 = Text (item)
        ],
        &opcodes,
        &[],
    );
    let module = IrModule::parse(&ir).unwrap();
    let mut slots = SlotData::new(3);
    slots.set(0, SlotValue::Bool(true));
    slots.set(
        1,
        SlotValue::Array(vec![
            SlotValue::Text("Home".into()),
            SlotValue::Text("About".into()),
        ]),
    );

    let html = walk_to_html(&module, &slots).unwrap();
    assert_eq!(
        html,
        r#"<nav class="main-nav"><!--f:s0--><span>Welcome</span><!--/f:s0--><ul><!--f:l1--><li><!--f:t0-->Home<!--/f:t0--></li><li><!--f:t0-->About<!--/f:t0--></li><!--/f:l1--></ul></nav>"#
    );
}

// =========================================================================
// Island attribute injection tests
// =========================================================================

#[test]
fn walk_island_attrs_on_open_tag() {
    // ISLAND_START(0) + OPEN_TAG("div") + TEXT("Hello") + CLOSE_TAG("div") + ISLAND_END(0)
    // With island table entry: id=0, trigger=Load, props=Inline, name="AuthForm", no slots
    // strings: 0="div", 1="Hello", 2="AuthForm"
    let mut opcodes = Vec::new();
    opcodes.extend_from_slice(&encode_island_start(0));
    opcodes.extend_from_slice(&encode_open_tag(0, &[]));
    opcodes.extend_from_slice(&encode_text(1));
    opcodes.extend_from_slice(&encode_close_tag(0));
    opcodes.extend_from_slice(&encode_island_end(0));

    let slots = SlotData::new(0);
    let html = walk_with_islands(
        &["div", "Hello", "AuthForm"],
        &[],
        // island: id=0, trigger=Load(0x01), props=Inline(0x01), name_str_idx=2, byte_offset=0, no slot_ids
        &[(0, 0x01, 0x01, 2, 0, &[])],
        &opcodes,
        &slots,
    );
    assert_eq!(
        html,
        r#"<!--f:i0--><div data-forma-island="0" data-forma-component="AuthForm" data-forma-status="pending" data-forma-hydrate="load">Hello</div><!--/f:i0-->"#
    );
}

#[test]
fn walk_island_attrs_with_existing_attrs() {
    // ISLAND_START(0) + OPEN_TAG("div" class="form") + CLOSE_TAG + ISLAND_END(0)
    // strings: 0="div", 1="class", 2="form", 3="AuthForm"
    let mut opcodes = Vec::new();
    opcodes.extend_from_slice(&encode_island_start(0));
    opcodes.extend_from_slice(&encode_open_tag(0, &[(1, 2)]));
    opcodes.extend_from_slice(&encode_close_tag(0));
    opcodes.extend_from_slice(&encode_island_end(0));

    let slots = SlotData::new(0);
    let html = walk_with_islands(
        &["div", "class", "form", "AuthForm"],
        &[],
        &[(0, 0x01, 0x01, 3, 0, &[])],
        &opcodes,
        &slots,
    );
    assert_eq!(
        html,
        r#"<!--f:i0--><div class="form" data-forma-island="0" data-forma-component="AuthForm" data-forma-status="pending" data-forma-hydrate="load"></div><!--/f:i0-->"#
    );
}

#[test]
fn walk_island_attrs_on_void_tag() {
    // ISLAND_START(0) + VOID_TAG("input") + ISLAND_END(0)
    // strings: 0="input", 1="Widget"
    let mut opcodes = Vec::new();
    opcodes.extend_from_slice(&encode_island_start(0));
    opcodes.extend_from_slice(&encode_void_tag(0, &[]));
    opcodes.extend_from_slice(&encode_island_end(0));

    let slots = SlotData::new(0);
    let html = walk_with_islands(
        &["input", "Widget"],
        &[],
        &[(0, 0x01, 0x01, 1, 0, &[])],
        &opcodes,
        &slots,
    );
    assert_eq!(
        html,
        r#"<!--f:i0--><input data-forma-island="0" data-forma-component="Widget" data-forma-status="pending" data-forma-hydrate="load"><!--/f:i0-->"#
    );
}

#[test]
fn walk_inline_props_attribute() {
    // ISLAND_START(0) + OPEN_TAG("div") + CLOSE_TAG + ISLAND_END(0)
    // Island entry has slots [0, 1], PropsMode::Inline
    // Slot 0 = "title" (Text), Slot 1 = "count" (Number)
    // strings: 0="div", 1="MyComponent", 2="title", 3="count"
    let mut opcodes = Vec::new();
    opcodes.extend_from_slice(&encode_island_start(0));
    opcodes.extend_from_slice(&encode_open_tag(0, &[]));
    opcodes.extend_from_slice(&encode_close_tag(0));
    opcodes.extend_from_slice(&encode_island_end(0));

    let mut slots = SlotData::new(2);
    slots.set(0, SlotValue::Text("Hello".to_string()));
    slots.set(1, number(42.0));

    let html = walk_with_islands(
        &["div", "MyComponent", "title", "count"],
        &[
            (0, 2, 0x01, 0x00, &[]), // slot 0, name="title", Text, Server
            (1, 3, 0x03, 0x00, &[]), // slot 1, name="count", Number, Server
        ],
        // island: id=0, Load, Inline, name_str_idx=1, byte_offset=0, slot_ids=[0, 1]
        &[(0, 0x01, 0x01, 1, 0, &[0, 1])],
        &opcodes,
        &slots,
    );
    // Props should be JSON: {"title":"Hello","count":42}
    assert!(
        html.contains("data-forma-props="),
        "should contain data-forma-props, got: {html}"
    );
    assert!(
        html.contains(r#"data-forma-island="0""#),
        "should contain island id, got: {html}"
    );
    assert!(
        html.contains(r#"data-forma-component="MyComponent""#),
        "should contain component name, got: {html}"
    );
    // Parse the JSON from the props attribute to verify correctness.
    // The attribute uses double quotes with HTML entity escaping:
    //   data-forma-props="{&quot;title&quot;:&quot;Hello&quot;,&quot;count&quot;:42}"
    // Browsers auto-decode &quot; back to " when reading getAttribute(),
    // so we simulate that here by reversing the entity encoding.
    let marker = "data-forma-props=\"";
    let props_start = html.find(marker).unwrap() + marker.len();
    let props_end = html[props_start..].find('"').unwrap() + props_start;
    let raw_attr = &html[props_start..props_end];
    let decoded = raw_attr
        .replace("&quot;", "\"")
        .replace("&amp;", "&")
        .replace("&lt;", "<")
        .replace("&gt;", ">");
    let props_json: serde_json::Value = serde_json::from_str(&decoded).unwrap();
    assert_eq!(props_json["title"], "Hello");
    assert_eq!(props_json["count"], 42);
}

#[test]
fn walk_list_item_key_on_first_open_tag() {
    // LIST_ITEM_KEY(key_str_idx=1) + OPEN_TAG("li") + TEXT("item") + CLOSE_TAG
    // strings: 0="li", 1="user-123", 2="item"
    let mut opcodes = Vec::new();
    opcodes.extend_from_slice(&encode_list_item_key(1));
    opcodes.extend_from_slice(&encode_open_tag(0, &[]));
    opcodes.extend_from_slice(&encode_text(2));
    opcodes.extend_from_slice(&encode_close_tag(0));

    let html = walk_static(&["li", "user-123", "item"], &opcodes);
    assert_eq!(
        html,
        r#"<li data-forma-key="user-123">item</li>"#
    );
}

#[test]
fn walk_list_item_key_on_void_tag() {
    // LIST_ITEM_KEY(key_str_idx=1) + VOID_TAG("hr")
    // strings: 0="hr", 1="key-42"
    let mut opcodes = Vec::new();
    opcodes.extend_from_slice(&encode_list_item_key(1));
    opcodes.extend_from_slice(&encode_void_tag(0, &[]));

    let html = walk_static(&["hr", "key-42"], &opcodes);
    assert_eq!(
        html,
        r#"<hr data-forma-key="key-42">"#
    );
}

#[test]
fn walk_list_item_key_with_attrs() {
    // LIST_ITEM_KEY + OPEN_TAG("li" class="item") + TEXT + CLOSE_TAG
    // strings: 0="li", 1="class", 2="item", 3="k1", 4="content"
    let mut opcodes = Vec::new();
    opcodes.extend_from_slice(&encode_list_item_key(3));
    opcodes.extend_from_slice(&encode_open_tag(0, &[(1, 2)]));
    opcodes.extend_from_slice(&encode_text(4));
    opcodes.extend_from_slice(&encode_close_tag(0));

    let html = walk_static(&["li", "class", "item", "k1", "content"], &opcodes);
    assert_eq!(
        html,
        r#"<li class="item" data-forma-key="k1">content</li>"#
    );
}

#[test]
fn walk_script_tag_props_mode() {
    // ISLAND_START(0) + OPEN_TAG("div") + CLOSE_TAG + ISLAND_END(0)
    // Island entry: PropsMode::ScriptTag with slots [0]
    // strings: 0="div", 1="Counter", 2="label"
    let mut opcodes = Vec::new();
    opcodes.extend_from_slice(&encode_island_start(0));
    opcodes.extend_from_slice(&encode_open_tag(0, &[]));
    opcodes.extend_from_slice(&encode_close_tag(0));
    opcodes.extend_from_slice(&encode_island_end(0));

    let mut slots = SlotData::new(1);
    slots.set(0, SlotValue::Text("Click me".to_string()));

    let html = walk_with_islands(
        &["div", "Counter", "label"],
        &[(0, 2, 0x01, 0x00, &[])], // slot 0, name="label", Text, Server
        // island: id=0, Load, ScriptTag(0x02), name_str_idx=1, byte_offset=0, slot_ids=[0]
        &[(0, 0x01, 0x02, 1, 0, &[0])],
        &opcodes,
        &slots,
    );
    // Should NOT have inline data-forma-props
    assert!(
        !html.contains("data-forma-props"),
        "ScriptTag mode should not emit inline props, got: {html}"
    );
    // Should have island attrs
    assert!(
        html.contains(r#"data-forma-island="0""#),
        "should contain island id"
    );
    // Should have script tag at the end
    assert!(
        html.contains(r#"<script id="__forma_islands" type="application/json">"#),
        "should contain script tag, got: {html}"
    );
    assert!(html.contains("</script>"), "should close script tag");
    // Parse the JSON from the script tag
    let script_start = html.find(r#"type="application/json">"#).unwrap()
        + r#"type="application/json">"#.len();
    let script_end = html[script_start..].find("</script>").unwrap() + script_start;
    let json: serde_json::Value =
        serde_json::from_str(&html[script_start..script_end]).unwrap();
    assert_eq!(json["0"]["label"], "Click me");
}

#[test]
fn walk_deferred_props_mode() {
    // ISLAND_START(0) + OPEN_TAG("div") + CLOSE_TAG + ISLAND_END(0)
    // Island entry: PropsMode::Deferred — should not emit props at all
    // strings: 0="div", 1="LazyWidget", 2="data"
    let mut opcodes = Vec::new();
    opcodes.extend_from_slice(&encode_island_start(0));
    opcodes.extend_from_slice(&encode_open_tag(0, &[]));
    opcodes.extend_from_slice(&encode_close_tag(0));
    opcodes.extend_from_slice(&encode_island_end(0));

    let mut slots = SlotData::new(1);
    slots.set(0, SlotValue::Text("ignored".to_string()));

    let html = walk_with_islands(
        &["div", "LazyWidget", "data"],
        &[(0, 2, 0x01, 0x00, &[])],
        // island: id=0, Load, Deferred(0x03), name_str_idx=1, byte_offset=0, slot_ids=[0]
        &[(0, 0x01, 0x03, 1, 0, &[0])],
        &opcodes,
        &slots,
    );
    assert!(
        !html.contains("data-forma-props"),
        "Deferred mode should not emit inline props, got: {html}"
    );
    assert!(
        !html.contains("__forma_islands"),
        "Deferred mode should not emit script tag, got: {html}"
    );
    // Should still have island attrs
    assert!(
        html.contains(r#"data-forma-island="0""#),
        "should contain island id"
    );
    assert!(
        html.contains(r#"data-forma-component="LazyWidget""#),
        "should contain component name"
    );
}

#[test]
fn walk_island_no_entry_in_table() {
    // ISLAND_START(5) with no matching entry in island table
    // Should still emit comment markers but no data-forma attrs
    // strings: 0="div", 1="Hello"
    let mut opcodes = Vec::new();
    opcodes.extend_from_slice(&encode_island_start(5));
    opcodes.extend_from_slice(&encode_open_tag(0, &[]));
    opcodes.extend_from_slice(&encode_text(1));
    opcodes.extend_from_slice(&encode_close_tag(0));
    opcodes.extend_from_slice(&encode_island_end(5));

    let slots = SlotData::new(0);
    let html = walk_with_islands(
        &["div", "Hello"],
        &[],
        &[], // no islands in table
        &opcodes,
        &slots,
    );
    assert_eq!(
        html,
        "<!--f:i5--><div>Hello</div><!--/f:i5-->"
    );
}

#[test]
fn walk_inline_props_empty_slots() {
    // Island with Inline props mode but no slot_ids — should not emit data-forma-props
    // strings: 0="div", 1="Simple"
    let mut opcodes = Vec::new();
    opcodes.extend_from_slice(&encode_island_start(0));
    opcodes.extend_from_slice(&encode_open_tag(0, &[]));
    opcodes.extend_from_slice(&encode_close_tag(0));
    opcodes.extend_from_slice(&encode_island_end(0));

    let slots = SlotData::new(0);
    let html = walk_with_islands(
        &["div", "Simple"],
        &[],
        &[(0, 0x01, 0x01, 1, 0, &[])], // no slot_ids
        &opcodes,
        &slots,
    );
    assert!(
        !html.contains("data-forma-props"),
        "empty slot_ids should not emit props, got: {html}"
    );
    assert!(
        html.contains(r#"data-forma-island="0""#),
        "should contain island id"
    );
}

#[test]
fn walk_island_and_list_key_combined() {
    // ISLAND_START(0) + LIST_ITEM_KEY + OPEN_TAG("div") + CLOSE_TAG + ISLAND_END(0)
    // Both pending_island and pending_list_key active on same OPEN_TAG
    // strings: 0="div", 1="Card", 2="item-1"
    let mut opcodes = Vec::new();
    opcodes.extend_from_slice(&encode_island_start(0));
    opcodes.extend_from_slice(&encode_list_item_key(2));
    opcodes.extend_from_slice(&encode_open_tag(0, &[]));
    opcodes.extend_from_slice(&encode_close_tag(0));
    opcodes.extend_from_slice(&encode_island_end(0));

    let slots = SlotData::new(0);
    let html = walk_with_islands(
        &["div", "Card", "item-1"],
        &[],
        &[(0, 0x01, 0x01, 1, 0, &[])],
        &opcodes,
        &slots,
    );
    assert!(
        html.contains(r#"data-forma-island="0""#),
        "should contain island attrs"
    );
    assert!(
        html.contains(r#"data-forma-key="item-1""#),
        "should contain list key attr, got: {html}"
    );
}

#[test]
fn walk_multiple_islands_script_tag() {
    // Two islands, both ScriptTag mode, should produce a single script tag
    // with both entries
    // strings: 0="div", 1="span", 2="CompA", 3="CompB", 4="msg", 5="flag"
    let mut opcodes = Vec::new();
    // Island 0
    opcodes.extend_from_slice(&encode_island_start(0));
    opcodes.extend_from_slice(&encode_open_tag(0, &[]));
    opcodes.extend_from_slice(&encode_close_tag(0));
    opcodes.extend_from_slice(&encode_island_end(0));
    // Island 1
    opcodes.extend_from_slice(&encode_island_start(1));
    opcodes.extend_from_slice(&encode_open_tag(1, &[]));
    opcodes.extend_from_slice(&encode_close_tag(1));
    opcodes.extend_from_slice(&encode_island_end(1));

    let mut slots = SlotData::new(2);
    slots.set(0, SlotValue::Text("hello".to_string()));
    slots.set(1, SlotValue::Bool(true));

    let html = walk_with_islands(
        &["div", "span", "CompA", "CompB", "msg", "flag"],
        &[
            (0, 4, 0x01, 0x00, &[]), // slot 0, name="msg", Text
            (1, 5, 0x02, 0x00, &[]), // slot 1, name="flag", Bool
        ],
        &[
            (0, 0x01, 0x02, 2, 0, &[0]), // island 0, ScriptTag, name="CompA", byte_offset=0, slots=[0]
            (1, 0x01, 0x02, 3, 0, &[1]), // island 1, ScriptTag, name="CompB", byte_offset=0, slots=[1]
        ],
        &opcodes,
        &slots,
    );
    // Parse the script tag JSON
    let script_start = html.find(r#"type="application/json">"#).unwrap()
        + r#"type="application/json">"#.len();
    let script_end = html[script_start..].find("</script>").unwrap() + script_start;
    let json: serde_json::Value =
        serde_json::from_str(&html[script_start..script_end]).unwrap();
    assert_eq!(json["0"]["msg"], "hello");
    assert_eq!(json["1"]["flag"], true);
}

#[test]
fn walk_list_item_key_consumed_once() {
    // LIST_ITEM_KEY + OPEN_TAG("li") + OPEN_TAG("span") + TEXT + CLOSE_TAG("span") + CLOSE_TAG("li")
    // Key should only appear on the first tag (li), not span
    // strings: 0="li", 1="span", 2="abc", 3="text"
    let mut opcodes = Vec::new();
    opcodes.extend_from_slice(&encode_list_item_key(2));
    opcodes.extend_from_slice(&encode_open_tag(0, &[]));
    opcodes.extend_from_slice(&encode_open_tag(1, &[]));
    opcodes.extend_from_slice(&encode_text(3));
    opcodes.extend_from_slice(&encode_close_tag(1));
    opcodes.extend_from_slice(&encode_close_tag(0));

    let html = walk_static(&["li", "span", "abc", "text"], &opcodes);
    assert_eq!(
        html,
        r#"<li data-forma-key="abc"><span>text</span></li>"#
    );
}

#[test]
fn slot_value_to_json_all_types() {
    // Verify SlotValue::to_json() for all variants
    assert_eq!(SlotValue::Null.to_json(), JsonValue::Null);
    assert_eq!(
        SlotValue::Text("hello".to_string()).to_json(),
        JsonValue::Text("hello".to_string())
    );
    assert_eq!(SlotValue::Bool(true).to_json(), JsonValue::Bool(true));
    assert_eq!(SlotValue::Bool(false).to_json(), JsonValue::Bool(false));
    assert_eq!(number(42.0).to_json(), JsonValue::Number(JsonNumber::Int(42)));
    assert_eq!(
        number(3.15).to_json(),
        JsonValue::Number(JsonNumber::Double(SlotNumber {
            bits: 3.15f64.to_bits(),
            text: "3.15".to_string(),
        }))
    );
    assert_eq!(
        SlotValue::Array(vec![SlotValue::Text("a".to_string()), number(1.0)]).to_json(),
        JsonValue::Array(vec![
            JsonValue::Text("a".to_string()),
            JsonValue::Number(JsonNumber::Int(1)),
        ])
    );
    assert_eq!(
        SlotValue::Object(vec![
            ("key".to_string(), SlotValue::Text("val".to_string())),
        ]).to_json(),
        JsonValue::Object(vec![("key".to_string(), JsonValue::Text("val".to_string()))])
    );
}

#[test]
fn dyn_attr_emits_attribute_with_value() {
    // OPEN_TAG("input") + DYN_ATTR("type", slot=0) + CLOSE_TAG("input")
    // slot 0 = Text("password") → <input type="password"></input>
    // strings: 0="input", 1="type", 2="input_type" (slot name)
    let mut opcodes = Vec::new();
    opcodes.extend_from_slice(&encode_open_tag(0, &[]));
    opcodes.extend_from_slice(&encode_dyn_attr(1, 0));
    opcodes.extend_from_slice(&encode_close_tag(0));

    let mut slots = SlotData::new(1);
    slots.set(0, SlotValue::Text("password".to_string()));

    let html = walk_with_slots(
        &["input", "type", "input_type"],
        &[(0, 2, 0x01, 0x01, b"password")], // slot_id=0, name_str_idx=2, Text, Client, default="password"
        &opcodes,
        &slots,
    );
    assert_eq!(html, r#"<input type="password"></input>"#);
}

#[test]
fn dyn_attr_skips_when_slot_null() {
    // DYN_ATTR with Null slot value should emit no attribute at all.
    // <div> (no class attr) </div>
    // strings: 0="div", 1="class", 2="cls" (slot name)
    let mut opcodes = Vec::new();
    opcodes.extend_from_slice(&encode_open_tag(0, &[]));
    opcodes.extend_from_slice(&encode_dyn_attr(1, 0));
    opcodes.extend_from_slice(&encode_close_tag(0));

    let slots = SlotData::new(1); // slot 0 is Null by default

    let html = walk_with_slots(
        &["div", "class", "cls"],
        &[(0, 2, 0x01, 0x00, &[])],
        &opcodes,
        &slots,
    );
    assert_eq!(html, "<div></div>");
}

#[test]
fn dyn_attr_multiple_on_same_element() {
    // OPEN_TAG("input") + DYN_ATTR("type", slot=0) + DYN_ATTR("class", slot=1) + CLOSE_TAG
    // strings: 0="input", 1="type", 2="class", 3="slot_type", 4="slot_class"
    let mut opcodes = Vec::new();
    opcodes.extend_from_slice(&encode_open_tag(0, &[]));
    opcodes.extend_from_slice(&encode_dyn_attr(1, 0));
    opcodes.extend_from_slice(&encode_dyn_attr(2, 1));
    opcodes.extend_from_slice(&encode_close_tag(0));

    let mut slots = SlotData::new(2);
    slots.set(0, SlotValue::Text("email".to_string()));
    slots.set(1, SlotValue::Text("form-input".to_string()));

    let html = walk_with_slots(
        &["input", "type", "class", "slot_type", "slot_class"],
        &[
            (0, 3, 0x01, 0x01, b"text"),
            (1, 4, 0x01, 0x01, b""),
        ],
        &opcodes,
        &slots,
    );
    assert_eq!(html, r#"<input type="email" class="form-input"></input>"#);
}

#[test]
fn dyn_attr_on_void_tag() {
    // VOID_TAG("input") + DYN_ATTR("type", slot=0)
    // slot 0 = Text("checkbox") → <input type="checkbox">
    // strings: 0="input", 1="type", 2="slot_type"
    let mut opcodes = Vec::new();
    opcodes.extend_from_slice(&encode_void_tag(0, &[]));
    opcodes.extend_from_slice(&encode_dyn_attr(1, 0));

    let mut slots = SlotData::new(1);
    slots.set(0, SlotValue::Text("checkbox".to_string()));

    let html = walk_with_slots(
        &["input", "type", "slot_type"],
        &[(0, 2, 0x01, 0x01, b"text")],
        &opcodes,
        &slots,
    );
    assert_eq!(html, r#"<input type="checkbox">"#);
}

#[test]
fn walk_island_basic() {
    // Build IR with an island containing <p>hello</p>
    // strings: 0="MyIsland", 1="div", 2="p", 3="hello"
    // We need a wrapper div before the island, the island content, and wrapper close.
    //
    // Opcodes layout:
    // OPEN_TAG "div" []       -> offset 0
    // ISLAND_START id=0       -> offset X (byte_offset for island table)
    // OPEN_TAG "p" []
    // TEXT "hello"
    // CLOSE_TAG "p"
    // ISLAND_END id=0
    // CLOSE_TAG "div"

    let pre_island = encode_open_tag(1, &[]); // OPEN_TAG "div" -> str_idx=1
    let island_start = encode_island_start(0);
    let open_p = encode_open_tag(2, &[]); // OPEN_TAG "p" -> str_idx=2
    let text_hello = encode_text(3);
    let close_p = encode_close_tag(2);
    let island_end = encode_island_end(0);
    let close_div = encode_close_tag(1);

    let byte_offset = pre_island.len() as u32; // island starts after the div open

    let mut opcodes = Vec::new();
    opcodes.extend_from_slice(&pre_island);
    opcodes.extend_from_slice(&island_start);
    opcodes.extend_from_slice(&open_p);
    opcodes.extend_from_slice(&text_hello);
    opcodes.extend_from_slice(&close_p);
    opcodes.extend_from_slice(&island_end);
    opcodes.extend_from_slice(&close_div);

    let data = build_minimal_ir(
        &["MyIsland", "div", "p", "hello"],
        &[],
        &opcodes,
        &[(0, 0x01, 0x01, 0, byte_offset, &[])], // island 0, Load, Inline, name="MyIsland"
    );
    let module = IrModule::parse(&data).unwrap();
    let slots = SlotData::new(0);

    let html = walk_island(&module, &slots, 0).unwrap();
    assert_eq!(html, "<p>hello</p>");
}

#[test]
fn walk_island_not_found() {
    // Build IR with no islands, then request island_id=5
    let opcodes = encode_text(0);
    let data = build_minimal_ir(&["Hello"], &[], &opcodes, &[]);
    let module = IrModule::parse(&data).unwrap();
    let slots = SlotData::new(0);

    let result = walk_island(&module, &slots, 5);
    assert!(result.is_err());
    match result.unwrap_err() {
        IrError::IslandNotFound(5) => {} // expected
        other => panic!("expected IslandNotFound(5), got {other:?}"),
    }
}

#[test]
fn walk_island_with_dyn_text() {
    // Island containing DYN_TEXT that references a slot
    // strings: 0="IslandComp", 1="div", 2="greeting"
    // slot 0: name_str_idx=2 ("greeting"), type=Text

    let island_start = encode_island_start(0);
    let open_div = encode_open_tag(1, &[]); // str_idx=1 -> "div"
    let dyn_text = encode_dyn_text(0, 0); // slot_id=0, marker_id=0
    let close_div = encode_close_tag(1);
    let island_end = encode_island_end(0);

    let byte_offset = 0u32; // island starts at beginning of opcodes

    let mut opcodes = Vec::new();
    opcodes.extend_from_slice(&island_start);
    opcodes.extend_from_slice(&open_div);
    opcodes.extend_from_slice(&dyn_text);
    opcodes.extend_from_slice(&close_div);
    opcodes.extend_from_slice(&island_end);

    let data = build_minimal_ir(
        &["IslandComp", "div", "greeting"],
        &[(0, 2, 0x01, 0x00, &[])], // slot_id=0, name="greeting", Text, Server
        &opcodes,
        &[(0, 0x01, 0x01, 0, byte_offset, &[0])], // island 0, slot_ids=[0]
    );
    let module = IrModule::parse(&data).unwrap();

    let mut slots = SlotData::new(1);
    slots.set(0, SlotValue::Text("World".to_string()));

    let html = walk_island(&module, &slots, 0).unwrap();
    assert_eq!(html, "<div><!--f:t0-->World<!--/f:t0--></div>");
}

#[test]
fn walk_island_byte_offset_out_of_bounds() {
    // Island table entry with byte_offset pointing past the opcode stream
    let opcodes = encode_text(0); // just a small opcode stream

    let data = build_minimal_ir(
        &["BadIsland", "hello"],
        &[],
        &opcodes,
        &[(0, 0x01, 0x01, 0, 9999, &[])], // byte_offset=9999, way past end
    );
    let module = IrModule::parse(&data).unwrap();
    let slots = SlotData::new(0);

    let result = walk_island(&module, &slots, 0);
    assert!(result.is_err());
    match result.unwrap_err() {
        IrError::BufferTooShort { .. } => {} // expected
        other => panic!("expected BufferTooShort, got {other:?}"),
    }
}

/// Encode a PROP opcode: opcode(1) + src_slot_id(2) + prop_str_idx(4) + target_slot_id(2)
fn encode_prop(src_slot_id: u16, prop_str_idx: u32, target_slot_id: u16) -> Vec<u8> {
    let mut buf = vec![0x12]; // Opcode::Prop
    buf.extend_from_slice(&src_slot_id.to_le_bytes());
    buf.extend_from_slice(&prop_str_idx.to_le_bytes());
    buf.extend_from_slice(&target_slot_id.to_le_bytes());
    buf
}

#[test]
fn walk_prop_in_list_body() {
    // LIST(slot=0, item_slot=1):
    //   PROP(src=1, "name", target=2)
    //   DYN_TEXT(slot=2, marker=0)
    //
    // Slot 0 = Array([Object{name:"Alice"}, Object{name:"Bob"}])
    // Strings: 0="items", 1="item", 2="name"
    let mut body = Vec::new();
    body.extend_from_slice(&encode_prop(1, 2, 2)); // PROP(item_slot=1, prop="name", target=2)
    body.extend_from_slice(&encode_dyn_text(2, 0)); // DYN_TEXT(slot=2)
    let opcodes = encode_list(0, 1, &body);

    let mut slots = SlotData::new(3);
    slots.set(
        0,
        SlotValue::Array(vec![
            SlotValue::Object(vec![("name".to_string(), SlotValue::Text("Alice".to_string()))]),
            SlotValue::Object(vec![("name".to_string(), SlotValue::Text("Bob".to_string()))]),
        ]),
    );

    let html = walk_with_slots(
        &["items", "item", "name"],
        &[
            (0, 0, 0x04, 0x00, &[]), // slot 0: Array, Server
            (1, 1, 0x05, 0x00, &[]), // slot 1: Object, Server
            (2, 2, 0x01, 0x00, &[]), // slot 2: Text, Server
        ],
        &opcodes,
        &slots,
    );
    assert!(html.contains("Alice"), "should contain Alice, got: {html}");
    assert!(html.contains("Bob"), "should contain Bob, got: {html}");
}

#[test]
fn walk_prop_multiple_properties() {
    // LIST(slot=0, item_slot=1):
    //   PROP(src=1, "name", target=2)
    //   PROP(src=1, "email", target=3)
    //   <tr><td>DYN_TEXT(2)</td><td>DYN_TEXT(3)</td></tr>
    //
    // Strings: 0="rows", 1="row", 2="name", 3="email", 4="tr", 5="td"
    let mut body = Vec::new();
    body.extend_from_slice(&encode_prop(1, 2, 2)); // PROP(1, "name", 2)
    body.extend_from_slice(&encode_prop(1, 3, 3)); // PROP(1, "email", 3)
    body.extend_from_slice(&encode_open_tag(4, &[])); // <tr>
    body.extend_from_slice(&encode_open_tag(5, &[])); // <td>
    body.extend_from_slice(&encode_dyn_text(2, 0));   // name
    body.extend_from_slice(&encode_close_tag(5));      // </td>
    body.extend_from_slice(&encode_open_tag(5, &[])); // <td>
    body.extend_from_slice(&encode_dyn_text(3, 1));   // email
    body.extend_from_slice(&encode_close_tag(5));      // </td>
    body.extend_from_slice(&encode_close_tag(4));      // </tr>
    let opcodes = encode_list(0, 1, &body);

    let mut slots = SlotData::new(4);
    slots.set(
        0,
        SlotValue::Array(vec![
            SlotValue::Object(vec![
                ("name".to_string(), SlotValue::Text("Alice".to_string())),
                ("email".to_string(), SlotValue::Text("alice@test.com".to_string())),
            ]),
            SlotValue::Object(vec![
                ("name".to_string(), SlotValue::Text("Bob".to_string())),
                ("email".to_string(), SlotValue::Text("bob@test.com".to_string())),
            ]),
        ]),
    );

    let html = walk_with_slots(
        &["rows", "row", "name", "email", "tr", "td"],
        &[
            (0, 0, 0x04, 0x00, &[]),
            (1, 1, 0x05, 0x00, &[]),
            (2, 2, 0x01, 0x00, &[]),
            (3, 3, 0x01, 0x00, &[]),
        ],
        &opcodes,
        &slots,
    );
    assert!(html.contains("<td><!--f:t0-->Alice<!--/f:t0--></td>"), "should contain Alice td, got: {html}");
    assert!(html.contains("<td><!--f:t1-->alice@test.com<!--/f:t1--></td>"), "should contain alice email, got: {html}");
    assert!(html.contains("<td><!--f:t0-->Bob<!--/f:t0--></td>"), "should contain Bob td, got: {html}");
    assert!(html.contains("<td><!--f:t1-->bob@test.com<!--/f:t1--></td>"), "should contain bob email, got: {html}");
}

#[test]
fn walk_prop_on_non_object() {
    // PROP(src=0, "name", target=1) then DYN_TEXT(1)
    // Slot 0 = Text("hello") — not an object
    let mut opcodes = Vec::new();
    opcodes.extend_from_slice(&encode_prop(0, 1, 1));
    opcodes.extend_from_slice(&encode_dyn_text(1, 0));

    let mut slots = SlotData::new(2);
    slots.set(0, SlotValue::Text("hello".to_string()));

    let html = walk_with_slots(
        &["src", "name"],
        &[
            (0, 0, 0x01, 0x00, &[]),
            (1, 1, 0x01, 0x00, &[]),
        ],
        &opcodes,
        &slots,
    );
    // PROP on non-Object produces Null → DYN_TEXT renders zero-width space (U+200B)
    assert!(html.contains("<!--f:t0-->\u{200B}<!--/f:t0-->"), "non-object PROP should produce empty text, got: {html}");
}

#[test]
fn walk_prop_missing_property() {
    // PROP(src=0, "missing", target=1) then DYN_TEXT(1)
    // Slot 0 = Object with only "name" key
    let mut opcodes = Vec::new();
    opcodes.extend_from_slice(&encode_prop(0, 2, 1));
    opcodes.extend_from_slice(&encode_dyn_text(1, 0));

    let mut slots = SlotData::new(2);
    slots.set(
        0,
        SlotValue::Object(vec![("name".to_string(), SlotValue::Text("Alice".to_string()))]),
    );

    let html = walk_with_slots(
        &["src", "target", "missing"],
        &[
            (0, 0, 0x05, 0x00, &[]),
            (1, 1, 0x01, 0x00, &[]),
        ],
        &opcodes,
        &slots,
    );
    assert!(html.contains("<!--f:t0-->\u{200B}<!--/f:t0-->"), "missing property should produce empty text, got: {html}");
}

#[test]
fn walk_nested_show_if_within_limit() {
    // 5 levels of nested SHOW_IF — well within the 64-level limit.
    // Each level wraps the next; innermost renders TEXT "deep".
    // strings: 0..=4 = "s0".."s4", 5 = "deep"
    let inner = encode_text(5);
    let level4 = encode_show_if(4, &inner, &[]);
    let level3 = encode_show_if(3, &level4, &[]);
    let level2 = encode_show_if(2, &level3, &[]);
    let level1 = encode_show_if(1, &level2, &[]);
    let level0 = encode_show_if(0, &level1, &[]);

    let mut slots = SlotData::new(5);
    for i in 0..5 {
        slots.set(i, SlotValue::Bool(true));
    }

    let html = walk_with_slots(
        &["s0", "s1", "s2", "s3", "s4", "deep"],
        &[
            (0, 0, 0x02, 0x00, &[]),
            (1, 1, 0x02, 0x00, &[]),
            (2, 2, 0x02, 0x00, &[]),
            (3, 3, 0x02, 0x00, &[]),
            (4, 4, 0x02, 0x00, &[]),
        ],
        &level0,
        &slots,
    );
    assert!(
        html.contains("deep"),
        "5 levels of nesting should succeed, got: {html}"
    );
}

#[test]
fn walk_script_tag_props_escapes_close_script() {
    // Script tag JSON containing "</" should be escaped to "<\/"
    // to prevent premature close of the <script> tag.
    // ISLAND_START(0) + OPEN_TAG("div") + CLOSE_TAG + ISLAND_END(0)
    // Island with ScriptTag mode, slot value contains "</script>"
    // strings: 0="div", 1="Comp", 2="payload"
    let mut opcodes = Vec::new();
    opcodes.extend_from_slice(&encode_island_start(0));
    opcodes.extend_from_slice(&encode_open_tag(0, &[]));
    opcodes.extend_from_slice(&encode_close_tag(0));
    opcodes.extend_from_slice(&encode_island_end(0));

    let mut slots = SlotData::new(1);
    slots.set(0, SlotValue::Text("</script>alert(1)".to_string()));

    let html = walk_with_islands(
        &["div", "Comp", "payload"],
        &[(0, 2, 0x01, 0x00, &[])],
        &[(0, 0x01, 0x02, 1, 0, &[0])],
        &opcodes,
        &slots,
    );
    // The JSON inside the script tag must not contain a literal "</script>"
    assert!(
        !html.contains("</script>alert"),
        "script tag content must escape </script>, got: {html}"
    );
    assert!(
        html.contains("<\\/script>"),
        "should replace </ with <\\/ in script JSON, got: {html}"
    );
}
