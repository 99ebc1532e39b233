//! Text dumps.

use forma::dump::dump_ir;
use forma::parser::test_helpers::{
    build_minimal_ir, encode_close_tag, encode_open_tag, encode_text, encode_void_tag,
};
use forma::parser::IrModule;

/// Encode a DYN_TEXT opcode: opcode(1) + slot_id(2) + marker_id(2)
fn encode_dyn_text(slot_id: u16, marker_id: u16) -> Vec<u8> {
    let mut buf = Vec::new();
    buf.push(0x05); // Opcode::DynText
    buf.extend_from_slice(&slot_id.to_le_bytes());
    buf.extend_from_slice(&marker_id.to_le_bytes());
    buf
}

/// Helper: build an IrModule from strings/slots/opcodes and dump it.
fn dump_static(strings: &[&str], opcodes: &[u8]) -> String {
    let data = build_minimal_ir(strings, &[], opcodes, &[]);
    let module = IrModule::parse(&data).unwrap();
    dump_ir(&module)
}

#[test]
fn dump_static_div() {
    // <div class="container">Hello</div>
    // strings: 0="div", 1="class", 2="container", 3="Hello"
    let mut opcodes = Vec::new();
    opcodes.extend_from_slice(&encode_open_tag(0, &[(1, 2)]));
    opcodes.extend_from_slice(&encode_text(3));
    opcodes.extend_from_slice(&encode_close_tag(0));

    let output = dump_static(&["div", "class", "container", "Hello"], &opcodes);

    assert!(output.contains("OPEN_TAG"), "should contain OPEN_TAG");
    assert!(output.contains("\"div\""), "should contain tag name");
    assert!(output.contains("\"class\""), "should contain attr key");
    assert!(output.contains("\"container\""), "should contain attr val");
    assert!(output.contains("TEXT"), "should contain TEXT");
    assert!(output.contains("\"Hello\""), "should contain text content");
    assert!(output.contains("CLOSE_TAG"), "should contain CLOSE_TAG");
}

#[test]
fn dump_with_dyn_text() {
    // DYN_TEXT slot=0 marker=t0
    // strings: 0="greeting" (slot name)
    // slot decl: slot_id=0, name_str_idx=0, type=Text(0x01)
    let opcodes = encode_dyn_text(0, 0);

    let data = build_minimal_ir(&["greeting"], &[(0, 0, 0x01, 0x00, &[])], &opcodes, &[]);
    let module = IrModule::parse(&data).unwrap();
    let output = dump_ir(&module);

    assert!(output.contains("DYN_TEXT"), "should contain DYN_TEXT");
    assert!(output.contains("slot=0"), "should contain slot=0");
    assert!(output.contains("marker=t0"), "should contain marker=t0");
}

#[test]
fn dump_header_line() {
    let opcodes = encode_text(0);
    let output = dump_static(&["Hello"], &opcodes);

    let first_line = output.lines().next().unwrap();
    assert!(
        first_line.starts_with("FMIR v2"),
        "first line should start with FMIR v2, got: {}",
        first_line
    );
    assert!(
        first_line.contains("source_hash="),
        "first line should contain source_hash="
    );
    assert!(
        first_line.contains("strings="),
        "first line should contain strings="
    );
    assert!(
        first_line.contains("slots="),
        "first line should contain slots="
    );
    assert!(
        first_line.contains("islands="),
        "first line should contain islands="
    );
}

#[test]
fn dump_deterministic() {
    let mut opcodes = Vec::new();
    opcodes.extend_from_slice(&encode_open_tag(0, &[(1, 2)]));
    opcodes.extend_from_slice(&encode_text(3));
    opcodes.extend_from_slice(&encode_close_tag(0));

    let data = build_minimal_ir(&["div", "class", "container", "Hello"], &[], &opcodes, &[]);
    let module = IrModule::parse(&data).unwrap();

    let dump1 = dump_ir(&module);
    let dump2 = dump_ir(&module);

    assert_eq!(dump1, dump2, "same IR dumped twice must produce identical output");
}

#[test]
fn dump_void_tag() {
    // <input type="email">
    // strings: 0="input", 1="type", 2="email"
    let opcodes = encode_void_tag(0, &[(1, 2)]);
    let output = dump_static(&["input", "type", "email"], &opcodes);

    assert!(output.contains("VOID_TAG"), "should contain VOID_TAG");
    assert!(output.contains("\"input\""), "should contain tag name");
    assert!(output.contains("\"type\""), "should contain attr key");
    assert!(output.contains("\"email\""), "should contain attr val");
}
