//! Pages.

use forma::parser::test_helpers::{
    build_minimal_ir, encode_close_tag, encode_open_tag, encode_text,
};
use forma::parser::IrModule;
use forma::slot::{SlotData, SlotValue};
use forma::template::render_page;
use forma::types::{AssetManifest, PageConfig, RenderMode, RouteAssets, WasmAssets};

/// Build a minimal AssetManifest with no routes for testing.
fn empty_manifest() -> AssetManifest {
    AssetManifest {
        version: 1,
        build_hash: "test".to_string(),
        assets: vec![],
        routes: vec![],
        wasm: None,
    }
}

/// Build a valid IR module that renders "<p>hello</p>".
fn hello_ir_module() -> IrModule {
    let mut opcodes = Vec::new();
    opcodes.extend_from_slice(&encode_open_tag(0, &[])); // <p>
    opcodes.extend_from_slice(&encode_text(1)); // hello
    opcodes.extend_from_slice(&encode_close_tag(0)); // </p>

    let data = build_minimal_ir(&["p", "hello"], &[], &opcodes, &[]);
    IrModule::parse(&data).unwrap()
}

#[test]
fn phase1_renders_empty_app_div() {
    let manifest = empty_manifest();
    let page = render_page(&PageConfig {
        title: "Test",
        route_pattern: "/test",
        manifest: &manifest,
        config_script: None,
        body_class: None,
        personality_css: None,
        body_prefix: None,
        render_mode: RenderMode::Phase1ClientMount,
        ir_module: None,
        slots: None,
    }).unwrap();

    assert!(page.html.contains("<div id=\"app\"></div>"));
    // Check that the #app div does NOT have the SSR attribute
    assert!(!page.html.contains("<div id=\"app\" data-forma-ssr>"));
}

#[test]
fn phase2_renders_ssr_content_with_data_attr() {
    let manifest = empty_manifest();
    let ir = hello_ir_module();
    let slots = SlotData::new(0);

    let page = render_page(&PageConfig {
        title: "SSR Test",
        route_pattern: "/test",
        manifest: &manifest,
        config_script: None,
        body_class: None,
        personality_css: None,
        body_prefix: None,
        render_mode: RenderMode::Phase2SsrReconcile,
        ir_module: Some(&ir),
        slots: Some(&slots),
    }).unwrap();

    assert!(page.html.contains("data-forma-ssr"));
    assert!(page.html.contains("<p>hello</p>"));
    assert!(page.html.contains("<div id=\"app\" data-forma-ssr>"));
}

#[test]
fn phase2_falls_back_to_phase1_when_ir_module_missing() {
    let manifest = empty_manifest();

    let page = render_page(&PageConfig {
        title: "Fallback Test",
        route_pattern: "/test",
        manifest: &manifest,
        config_script: None,
        body_class: None,
        personality_css: None,
        body_prefix: None,
        render_mode: RenderMode::Phase2SsrReconcile,
        ir_module: None,
        slots: None,
    }).unwrap();

    // Should fall back to Phase 1: empty #app, no data-forma-ssr
    assert!(page.html.contains("<div id=\"app\"></div>"));
    assert!(!page.html.contains("<div id=\"app\" data-forma-ssr>"));
}

#[test]
fn phase2_falls_back_to_phase1_when_slots_missing() {
    let manifest = empty_manifest();
    let ir = hello_ir_module();

    let page = render_page(&PageConfig {
        title: "Fallback Test",
        route_pattern: "/test",
        manifest: &manifest,
        config_script: None,
        body_class: None,
        personality_css: None,
        body_prefix: None,
        render_mode: RenderMode::Phase2SsrReconcile,
        ir_module: Some(&ir),
        slots: None,
    }).unwrap();

    assert!(page.html.contains("<div id=\"app\"></div>"));
    assert!(!page.html.contains("<div id=\"app\" data-forma-ssr>"));
}

#[test]
fn phase2_falls_back_on_ir_walk_error() {
    let manifest = empty_manifest();
    // Build an IR module with deliberately corrupt opcodes
    let data = build_minimal_ir(
        &["x"],
        &[],
        &[0xFF], // invalid opcode byte
        &[],
    );
    let ir = IrModule::parse(&data).unwrap();
    let slots = SlotData::new(0);

    let page = render_page(&PageConfig {
        title: "Walk Error Test",
        route_pattern: "/test",
        manifest: &manifest,
        config_script: None,
        body_class: None,
        personality_css: None,
        body_prefix: None,
        render_mode: RenderMode::Phase2SsrReconcile,
        ir_module: Some(&ir),
        slots: Some(&slots),
    }).unwrap();

    // Should fall back to Phase 1
    assert!(page.html.contains("<div id=\"app\"></div>"));
    assert!(!page.html.contains("<div id=\"app\" data-forma-ssr>"));
}

#[test]
fn phase2_ssr_preserves_head_content() {
    let manifest = empty_manifest();
    let ir = hello_ir_module();
    let slots = SlotData::new(0);

    let page = render_page(&PageConfig {
        title: "Head Test",
        route_pattern: "/test",
        manifest: &manifest,
        config_script: Some("window.__TEST__=true;"),
        body_class: Some("dark"),
        personality_css: Some(":root{--c:red}"),
        body_prefix: Some("<nav>nav</nav>"),
        render_mode: RenderMode::Phase2SsrReconcile,
        ir_module: Some(&ir),
        slots: Some(&slots),
    }).unwrap();

    assert!(page.html.contains("<title>Head Test</title>"));
    assert!(page.html.contains("window.__TEST__=true;"));
    assert!(page.html.contains("class=\"dark\""));
    assert!(page.html.contains(":root{--c:red}"));
    assert!(page.html.contains("<nav>nav</nav>"));
    assert!(page.html.contains("<p>hello</p>"));
    assert!(page.html.contains("data-forma-ssr"));
}

#[test]
fn wasm_script_injected_when_manifest_has_wasm_and_route_has_ir() {
    let routes = vec![(
        "/test".to_string(),
        RouteAssets {
            js: vec!["test.abc123.js".to_string()],
            css: vec![],
            fonts: vec![],
            total_size_br: 0,
            budget_warn_threshold: 204800,
            ir: Some("test.def456.ir".to_string()),
        },
    )];

    let manifest = AssetManifest {
        version: 1,
        build_hash: "test".to_string(),
        assets: vec![],
        routes,
        wasm: Some(WasmAssets {
            loader: "forma_ir.abc.js".to_string(),
            binary: "forma_ir_bg.def.wasm".to_string(),
        }),
    };

    let page = render_page(&PageConfig {
        title: "WASM Test",
        route_pattern: "/test",
        manifest: &manifest,
        config_script: None,
        body_class: None,
        personality_css: None,
        body_prefix: None,
        render_mode: RenderMode::Phase1ClientMount,
        ir_module: None,
        slots: None,
    }).unwrap();

    assert!(page.html.contains("__FORMA_WASM__"));
    assert!(page.html.contains("/_assets/forma_ir.abc.js"));
    assert!(page.html.contains("/_assets/forma_ir_bg.def.wasm"));
    assert!(page.html.contains("/_assets/test.def456.ir"));
}

#[test]
fn wasm_script_not_injected_when_no_wasm_in_manifest() {
    let manifest = empty_manifest();
    let page = render_page(&PageConfig {
        title: "No WASM",
        route_pattern: "/test",
        manifest: &manifest,
        config_script: None,
        body_class: None,
        personality_css: None,
        body_prefix: None,
        render_mode: RenderMode::Phase1ClientMount,
        ir_module: None,
        slots: None,
    }).unwrap();

    assert!(!page.html.contains("__FORMA_WASM__"));
}

#[test]
fn wasm_script_not_injected_when_route_has_no_ir() {
    let routes = vec![(
        "/test".to_string(),
        RouteAssets {
            js: vec!["test.abc123.js".to_string()],
            css: vec![],
            fonts: vec![],
            total_size_br: 0,
            budget_warn_threshold: 204800,
            ir: None, // no IR
        },
    )];

    let manifest = AssetManifest {
        version: 1,
        build_hash: "test".to_string(),
        assets: vec![],
        routes,
        wasm: Some(WasmAssets {
            loader: "forma_ir.abc.js".to_string(),
            binary: "forma_ir_bg.def.wasm".to_string(),
        }),
    };

    let page = render_page(&PageConfig {
        title: "No IR",
        route_pattern: "/test",
        manifest: &manifest,
        config_script: None,
        body_class: None,
        personality_css: None,
        body_prefix: None,
        render_mode: RenderMode::Phase1ClientMount,
        ir_module: None,
        slots: None,
    }).unwrap();

    assert!(!page.html.contains("__FORMA_WASM__"));
}

#[test]
fn phase2_with_slot_data() {
    // Build IR with DYN_TEXT referencing slot 0
    let mut opcodes = Vec::new();
    opcodes.extend_from_slice(&encode_open_tag(0, &[])); // <span>
    // DYN_TEXT opcode: 0x05 + slot_id(u16) + marker_id(u16)
    opcodes.push(0x05);
    opcodes.extend_from_slice(&0u16.to_le_bytes()); // slot_id = 0
    opcodes.extend_from_slice(&0u16.to_le_bytes()); // marker_id = 0
    opcodes.extend_from_slice(&encode_close_tag(0)); // </span>

    let data = build_minimal_ir(
        &["span", "name"],           // strings
        &[(0, 1, 0x01, 0x00, &[])], // slot: id=0, name_str_idx=1, type=Text, source=Server
        &opcodes,
        &[],
    );
    let ir = IrModule::parse(&data).unwrap();

    let mut slots = SlotData::new(1);
    slots.set(0, SlotValue::Text("World".to_string()));

    let manifest = empty_manifest();
    let page = render_page(&PageConfig {
        title: "Slot Test",
        route_pattern: "/test",
        manifest: &manifest,
        config_script: None,
        body_class: None,
        personality_css: None,
        body_prefix: None,
        render_mode: RenderMode::Phase2SsrReconcile,
        ir_module: Some(&ir),
        slots: Some(&slots),
    }).unwrap();

    assert!(page.html.contains("data-forma-ssr"));
    // DYN_TEXT wraps content in marker comments for client reconciliation
    assert!(page.html.contains("<span><!--f:t0-->World<!--/f:t0--></span>"));
}
