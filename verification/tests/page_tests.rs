//! Pages, policies, assets and module loading.

use base64::{engine::general_purpose::STANDARD, Engine as _};
use forma::assets::{accepts, asset, encoded_name, mime_for, serve_asset, Encoding, Reply};
use forma::csp::{build_csp_header, nonce_from_bytes, nonce_from_draw, RngFailure};
use forma::ir_compat::{check_ir_compatibility, load_ir_modules};
use forma::parser::test_helpers::{build_minimal_ir, encode_text};
use forma::parser::IrModule;
use forma::slot::SlotData;
use forma::sw::serve_sw;
use forma::format::IrError;
use forma::template::{
    page_ssr, render_page, render_page_around, render_page_from_nonce, render_page_with_nonce,
    walk_page, Fallback,
};
use forma::types::{AssetManifest, PageConfig, RenderMode, RouteAssets, WasmAssets};

fn route(ir: Option<&str>) -> RouteAssets {
    RouteAssets {
        js: vec!["vendor.js".to_string(), "page\".js".to_string()],
        css: vec!["a&b.css".to_string()],
        fonts: vec!["<f>.woff2".to_string()],
        total_size_br: 1,
        budget_warn_threshold: 2,
        ir: ir.map(|s| s.to_string()),
    }
}

fn manifest() -> AssetManifest {
    AssetManifest {
        version: 1,
        build_hash: "h".to_string(),
        assets: vec![("app.js".to_string(), "app.123.js".to_string())],
        routes: vec![("/".to_string(), route(Some("home.ir")))],
        wasm: Some(WasmAssets {
            loader: "l.js".to_string(),
            binary: "b.wasm".to_string(),
        }),
    }
}

fn config<'a>(m: &'a AssetManifest, pattern: &'a str) -> PageConfig<'a> {
    PageConfig {
        title: "T & \"U\"",
        route_pattern: pattern,
        manifest: m,
        config_script: None,
        body_class: None,
        personality_css: None,
        body_prefix: None,
        render_mode: RenderMode::Phase1ClientMount,
        ir_module: None,
        slots: None,
    }
}

#[test]
fn phase1_page_is_exact() {
    let m = manifest();
    let mut c = config(&m, "/");
    c.config_script = Some("a<b");
    c.body_class = Some("x\" onload=\"y");
    c.personality_css = Some("p{}</style><script>");
    c.body_prefix = Some("<nav></nav>");
    let page = render_page_with_nonce(&c, "N");
    assert_eq!(
        page.html,
        "<!DOCTYPE html>\n<html lang=\"en\">\n<head>\n\
         <meta charset=\"utf-8\">\n\
         <meta name=\"viewport\" content=\"width=device-width, initial-scale=1\">\n\
         <title>T &amp; &quot;U&quot;</title>\n\
         <link rel=\"preload\" href=\"/_assets/&lt;f&gt;.woff2\" as=\"font\" type=\"font/woff2\" crossorigin>\n\
         <link rel=\"stylesheet\" href=\"/_assets/a&amp;b.css\">\n\
         <link rel=\"modulepreload\" href=\"/_assets/vendor.js\">\n\
         <link rel=\"modulepreload\" href=\"/_assets/page&quot;.js\">\n\
         <style nonce=\"N\">p{}&lt;/style&gt;&lt;script&gt;</style>\n\
         </head>\n<body class=\"x&quot; onload=&quot;y\">\n\
         <nav></nav><div id=\"app\"></div>\n\
         <script nonce=\"N\">a<b</script>\n\
         <script type=\"module\" nonce=\"N\" src=\"/_assets/page&quot;.js\"></script>\n\
         <script nonce=\"N\">window.__FORMA_WASM__={loader:\"/_assets/l.js\",binary:\"/_assets/b.wasm\",ir:\"/_assets/home.ir\"};</script>\n\
         <script nonce=\"N\">if('serviceWorker' in navigator)navigator.serviceWorker.register('/sw.js');</script>\n\
         </body>\n</html>"
    );
    assert_eq!(page.csp, build_csp_header("N"));
}

#[test]
fn unknown_route_has_no_assets() {
    let m = manifest();
    let page = render_page_with_nonce(&config(&m, "/other"), "N");
    assert!(!page.html.contains("/_assets/"));
    assert!(page.html.contains("<div id=\"app\"></div>\n\n<script nonce=\"N\">if("));
}

#[test]
fn phase2_failures_give_the_phase1_page() {
    let m = manifest();
    let plain = render_page_with_nonce(&config(&m, "/"), "N");
    let broken = IrModule::parse(&build_minimal_ir(&["x"], &[], &[0xFF], &[])).unwrap();
    let good = IrModule::parse(&build_minimal_ir(&["x"], &[], &encode_text(0), &[])).unwrap();
    let slots = SlotData::new(0);
    for (module, data) in [
        (None, None),
        (Some(&good), None),
        (None, Some(&slots)),
        (Some(&broken), Some(&slots)),
    ] {
        let mut c = config(&m, "/");
        c.render_mode = RenderMode::Phase2SsrReconcile;
        c.ir_module = module;
        c.slots = data;
        assert_eq!(render_page_with_nonce(&c, "N").html, plain.html);
    }
    let mut c = config(&m, "/");
    c.render_mode = RenderMode::Phase2SsrReconcile;
    c.ir_module = Some(&good);
    c.slots = Some(&slots);
    let page = render_page_with_nonce(&c, "N");
    assert_eq!(
        page.html,
        plain
            .html
            .replace("<div id=\"app\"></div>", "<div id=\"app\" data-forma-ssr>x</div>")
    );
}

#[test]
fn page_and_policy_share_the_nonce() {
    let m = manifest();
    let page = render_page(&config(&m, "/")).unwrap();
    let start = page.csp.find("'nonce-").unwrap() + "'nonce-".len();
    let nonce = &page.csp[start..start + 44];
    assert_eq!(page.csp, build_csp_header(nonce));
    assert_eq!(page.html, render_page_with_nonce(&config(&m, "/"), nonce).html);
}

#[test]
fn nonces_are_base64_of_their_bytes() {
    let mut bytes = Vec::new();
    for i in 0..=64u8 {
        assert_eq!(nonce_from_bytes(&bytes), STANDARD.encode(&bytes));
        bytes.push(i.wrapping_mul(37).wrapping_add(251));
    }
    assert_eq!(nonce_from_bytes(b"any carnal pleas"), "YW55IGNhcm5hbCBwbGVhcw==");
    assert_eq!(nonce_from_bytes(&[0xff, 0xfe]), "//4=");
    assert_eq!(nonce_from_bytes(&[0; 32]).len(), 44);
}

#[test]
fn policy_is_exact() {
    assert_eq!(
        build_csp_header("abc"),
        "default-src 'none'; script-src 'nonce-abc' 'self'; style-src 'nonce-abc' 'self'; \
         connect-src 'self'; img-src 'self' data:; font-src 'self'; frame-ancestors 'none'; \
         base-uri 'none'; form-action 'self'"
    );
}

#[test]
fn manifest_resolves_names() {
    let m = manifest();
    assert_eq!(m.resolve("app.js"), "app.123.js");
    assert_eq!(m.resolve("other.js"), "other.js");
    assert!(m.route("/").is_some());
    assert!(m.route("/x").is_none());
}

fn header<'a>(reply: &'a Reply, name: &str) -> Option<&'a str> {
    match reply {
        Reply::Found { headers, .. } => headers
            .iter()
            .find(|(n, _)| n == name)
            .map(|(_, v)| v.as_str()),
        Reply::NotFound => None,
    }
}

#[test]
fn encodings_are_negotiated() {
    assert!(accepts("gzip, deflate, br", Encoding::Brotli));
    assert!(accepts("gzip, deflate, br", Encoding::Gzip));
    assert!(!accepts("gzip", Encoding::Brotli));
    assert!(!accepts("deflate", Encoding::Gzip));
    assert!(!accepts("", Encoding::Brotli));
    assert_eq!(encoded_name("a.js", Encoding::Brotli), "a.js.br");
    assert_eq!(encoded_name("a.js", Encoding::Gzip), "a.js.gz");
}

#[test]
fn assets_are_served_with_their_headers() {
    let br = serve_asset("a.js", "br", Some(vec![1]), None, None);
    assert_eq!(header(&br, "content-encoding"), Some("br"));
    assert_eq!(
        header(&br, "content-type"),
        Some("application/javascript; charset=utf-8")
    );
    assert_eq!(
        header(&br, "cache-control"),
        Some("public, max-age=31536000, immutable")
    );
    assert_eq!(header(&br, "vary"), Some("accept-encoding"));
    assert_eq!(header(&br, "x-content-type-options"), Some("nosniff"));
    assert!(matches!(br, Reply::Found { body, .. } if body == vec![1]));
    let gz = serve_asset("a.css", "gzip", Some(vec![1]), Some(vec![2]), Some(vec![3]));
    assert_eq!(header(&gz, "content-encoding"), Some("gzip"));
    assert!(matches!(gz, Reply::Found { body, .. } if body == vec![2]));
    let raw = serve_asset("a.css", "br", None, Some(vec![2]), Some(vec![3]));
    assert_eq!(header(&raw, "content-encoding"), None);
    assert!(matches!(raw, Reply::Found { body, .. } if body == vec![3]));
    let plain = serve_asset("a.css", "", Some(vec![1]), Some(vec![2]), Some(vec![3]));
    assert!(matches!(plain, Reply::Found { body, .. } if body == vec![3]));
    assert!(matches!(
        serve_asset("a.css", "br", None, Some(vec![2]), None),
        Reply::NotFound
    ));
    let both = serve_asset("a.css", "br, gzip", Some(vec![1]), Some(vec![2]), Some(vec![3]));
    assert_eq!(header(&both, "content-encoding"), Some("br"));
    assert!(matches!(both, Reply::Found { body, .. } if body == vec![1]));
    let second = serve_asset("a.css", "br, gzip", None, Some(vec![2]), Some(vec![3]));
    assert_eq!(header(&second, "content-encoding"), Some("gzip"));
    assert!(matches!(second, Reply::Found { body, .. } if body == vec![2]));
}

#[test]
fn mime_types_go_by_suffix() {
    for (name, mime) in [
        ("a.js", "application/javascript; charset=utf-8"),
        ("a.css", "text/css; charset=utf-8"),
        ("a.woff2", "font/woff2"),
        ("a.wasm", "application/wasm"),
        ("a.json", "application/json"),
        ("a.html", "text/html; charset=utf-8"),
        ("a.svg", "image/svg+xml"),
        ("a.ir", "application/octet-stream"),
        ("js", "application/octet-stream"),
    ] {
        assert_eq!(mime_for(name), mime);
    }
}

#[test]
fn service_worker_is_not_cached() {
    let found = serve_sw(Some(vec![7]));
    assert_eq!(
        header(&found, "cache-control"),
        Some("no-cache, no-store, must-revalidate")
    );
    assert_eq!(header(&found, "service-worker-allowed"), Some("/"));
    assert_eq!(
        header(&found, "content-type"),
        Some("application/javascript; charset=utf-8")
    );
    assert!(matches!(found, Reply::Found { body, .. } if body == vec![7]));
    assert!(matches!(serve_sw(None), Reply::NotFound));
}

#[test]
fn text_assets_must_be_there_and_be_text() {
    assert_eq!(asset("m", Some("h\u{e9}".as_bytes().to_vec())).unwrap(), "h\u{e9}");
    assert_eq!(asset("m", None).unwrap_err(), "Missing asset: m");
    assert_eq!(asset("m", Some(vec![0xC3])).unwrap_err(), "Non-UTF8 asset: m");
}

#[test]
fn modules_are_loaded_by_route() {
    let good = build_minimal_ir(&["x"], &[], &encode_text(0), &[]);
    let mut old = good.clone();
    old[4] = 1;
    let files = vec![
        ("good.ir".to_string(), good),
        ("old.ir".to_string(), old),
        ("bad.ir".to_string(), b"junk".to_vec()),
    ];
    let mut m = manifest();
    m.routes = vec![
        ("/good".to_string(), route(Some("good.ir"))),
        ("/old".to_string(), route(Some("old.ir"))),
        ("/bad".to_string(), route(Some("bad.ir"))),
        ("/missing".to_string(), route(Some("missing.ir"))),
        ("/none".to_string(), route(None)),
    ];
    let (modes, modules) = load_ir_modules(&m, &files);
    assert_eq!(
        modes,
        vec![
            ("/good".to_string(), RenderMode::Phase2SsrReconcile),
            ("/old".to_string(), RenderMode::Phase1ClientMount),
            ("/bad".to_string(), RenderMode::Phase1ClientMount),
            ("/missing".to_string(), RenderMode::Phase1ClientMount),
        ]
    );
    assert_eq!(modules.len(), 1);
    assert_eq!(modules[0].0, "/good");
    assert_eq!(modules[0].1.opcodes, encode_text(0));
}

#[test]
fn other_versions_are_not_compatible() {
    let mut m = IrModule::parse(&build_minimal_ir(&["x"], &[], &[], &[])).unwrap();
    assert!(check_ir_compatibility(&m).is_ok());
    m.header.version = 3;
    assert_eq!(
        check_ir_compatibility(&m).unwrap_err(),
        "IR version 3 is not compatible with runtime version 2"
    );
}

#[test]
fn draws_decide_nonces_and_pages() {
    let mut bytes = [7u8; 32];
    bytes[31] = 0xff;
    let nonce = nonce_from_draw(Some(bytes));
    assert_eq!(nonce, Ok(STANDARD.encode(bytes)));
    assert_eq!(nonce_from_draw(None), Err(RngFailure));
    let m = manifest();
    let c = config(&m, "/");
    let page = render_page_from_nonce(&c, &nonce).unwrap();
    let expected = render_page_with_nonce(&c, &STANDARD.encode(bytes));
    assert_eq!(page.html, expected.html);
    assert_eq!(page.csp, expected.csp);
    assert_eq!(
        render_page_from_nonce(&c, &Err(RngFailure)).unwrap_err(),
        RngFailure
    );
}

#[test]
fn fallbacks_say_why() {
    let m = manifest();
    let broken = IrModule::parse(&build_minimal_ir(&["x"], &[], &[0xFF], &[])).unwrap();
    let good = IrModule::parse(&build_minimal_ir(&["x"], &[], &encode_text(0), &[])).unwrap();
    let slots = SlotData::new(0);
    let mut c = config(&m, "/");
    assert_eq!(page_ssr(&c), Ok(None));
    c.render_mode = RenderMode::Phase2SsrReconcile;
    assert_eq!(page_ssr(&c), Err(Fallback::Missing));
    c.ir_module = Some(&broken);
    assert_eq!(walk_page(&c), Err(Fallback::Missing));
    c.slots = Some(&slots);
    assert_eq!(page_ssr(&c), Err(Fallback::Walk(IrError::InvalidOpcode(0xFF))));
    c.ir_module = Some(&good);
    assert_eq!(page_ssr(&c), Ok(Some("x".to_string())));
    let around = render_page_around(&c, "N", Some("x"));
    let whole = render_page_with_nonce(&c, "N");
    assert_eq!((around.html, around.csp), (whole.html, whole.csp));
}
