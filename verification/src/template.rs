//! Page templates: the HTML shell around an empty or server-rendered app.

use vstd::prelude::*;

use crate::csp;
use crate::csp::RngFailure;
use crate::format::{ErrorView, IrError};
use crate::text;
use crate::types;
use crate::types::{
    AssetManifest, ConfigView, ManifestView, PageConfig, PageOutput, RenderMode,
};
use crate::walker;
use crate::walker::model;

pub mod laws;

verus! {

// ---------------------------------------------------------------------------
// What a page says
// ---------------------------------------------------------------------------

/// Where a file is served.
pub open spec fn asset_url(name: Seq<char>) -> Seq<char> {
    "/_assets/"@ + name
}

/// Where files are served.
pub open spec fn asset_urls(names: Seq<Seq<char>>) -> Seq<Seq<char>> {
    Seq::new(names.len(), |i: int| asset_url(names[i]))
}

/// A link of the head: what stands before the URL, the URL, what stands behind.
pub open spec fn link_html(before: Seq<char>, url: Seq<char>, behind: Seq<char>) -> Seq<char> {
    before + text::escaped_attr(url) + behind
}

/// A link for each URL.
pub open spec fn links_html(before: Seq<char>, urls: Seq<Seq<char>>, behind: Seq<char>) -> Seq<
    char,
>
    decreases urls.len(),
{
    if urls.len() == 0 {
        Seq::empty()
    } else {
        links_html(before, urls.drop_last(), behind) + link_html(before, urls.last(), behind)
    }
}

/// The resolved asset URLs of a route.
pub struct AssetsView {
    pub fonts: Seq<Seq<char>>,
    pub css_urls: Seq<Seq<char>>,
    pub js_urls: Seq<Seq<char>>,
}

/// The asset URLs of a route; none where the manifest does not know the route.
pub open spec fn assets_of(manifest: ManifestView, route_pattern: Seq<char>) -> AssetsView {
    match types::bound(manifest.routes, route_pattern) {
        Some(route) => AssetsView {
            fonts: asset_urls(route.fonts),
            css_urls: asset_urls(route.css),
            js_urls: asset_urls(route.js),
        },
        None => AssetsView { fonts: Seq::empty(), css_urls: Seq::empty(), js_urls: Seq::empty() },
    }
}

/// The personality CSS, escaped so that it cannot leave its `<style>`.
pub open spec fn style_html(nonce: Seq<char>, css: Option<Seq<char>>) -> Seq<char> {
    match css {
        Some(css) => "<style nonce=\""@ + nonce + "\">"@ + text::escaped_attr(css) + "</style>\n"@,
        None => Seq::empty(),
    }
}

/// The content of `<head>`.
pub open spec fn head_html(
    title: Seq<char>,
    nonce: Seq<char>,
    assets: AssetsView,
    personality_css: Option<Seq<char>>,
) -> Seq<char> {
    "<meta charset=\"utf-8\">\n"@
        + "<meta name=\"viewport\" content=\"width=device-width, initial-scale=1\">\n"@
        + "<title>"@ + text::escaped_attr(title) + "</title>\n"@ + links_html(
        "<link rel=\"preload\" href=\""@,
        assets.fonts,
        "\" as=\"font\" type=\"font/woff2\" crossorigin>\n"@,
    ) + links_html("<link rel=\"stylesheet\" href=\""@, assets.css_urls, "\">\n"@) + links_html(
        "<link rel=\"modulepreload\" href=\""@,
        assets.js_urls,
        "\">\n"@,
    ) + style_html(nonce, personality_css)
}

/// The class attribute of `<body>`.
pub open spec fn class_html(body_class: Option<Seq<char>>) -> Seq<char> {
    match body_class {
        Some(c) => " class=\""@ + text::escaped_attr(c) + "\""@,
        None => Seq::empty(),
    }
}

/// A text that may be missing.
pub open spec fn or_empty(words: Option<Seq<char>>) -> Seq<char> {
    match words {
        Some(words) => words,
        None => Seq::empty(),
    }
}

/// The inline configuration script. It is code, so it is written as it is.
pub open spec fn config_html(nonce: Seq<char>, script: Option<Seq<char>>) -> Seq<char> {
    match script {
        Some(script) => "<script nonce=\""@ + nonce + "\">"@ + script + "</script>\n"@,
        None => Seq::empty(),
    }
}

/// The page's own script: the last of the route's scripts.
pub open spec fn page_js_html(nonce: Seq<char>, js_urls: Seq<Seq<char>>) -> Seq<char> {
    if js_urls.len() == 0 {
        Seq::empty()
    } else {
        "<script type=\"module\" nonce=\""@ + nonce + "\" src=\""@ + text::escaped_attr(
            js_urls.last(),
        ) + "\"></script>"@
    }
}

/// The script that tells the client where to find the WASM renderer; only for
/// a manifest with WASM assets and a route with an `.ir` file.
pub open spec fn wasm_html(nonce: Seq<char>, manifest: ManifestView, route_pattern: Seq<char>) -> Seq<
    char,
> {
    match (manifest.wasm, types::bound(manifest.routes, route_pattern)) {
        (Some(wasm), Some(route)) => match route.ir {
            Some(ir_name) => "<script nonce=\""@ + nonce + "\">window.__FORMA_WASM__={loader:\""@
                + text::escaped_attr(asset_url(wasm.loader)) + "\",binary:\""@ + text::escaped_attr(
                asset_url(wasm.binary),
            ) + "\",ir:\""@ + text::escaped_attr(asset_url(ir_name)) + "\"};</script>\n"@,
            None => Seq::empty(),
        },
        _ => Seq::empty(),
    }
}

/// The script that registers the service worker.
pub open spec fn sw_html(nonce: Seq<char>) -> Seq<char> {
    "<script nonce=\""@ + nonce
        + "\">if('serviceWorker' in navigator)navigator.serviceWorker.register('/sw.js');</script>\n"@
}

/// The whole page around the app's element.
pub open spec fn shell_html(config: ConfigView, nonce: Seq<char>, app: Seq<char>) -> Seq<char> {
    let assets = assets_of(config.manifest, config.route_pattern);
    "<!DOCTYPE html>\n<html lang=\"en\">\n<head>\n"@ + head_html(
        config.title,
        nonce,
        assets,
        config.personality_css,
    ) + "</head>\n<body"@ + class_html(config.body_class) + ">\n"@ + or_empty(config.body_prefix)
        + app + "\n"@ + config_html(nonce, config.config_script) + page_js_html(
        nonce,
        assets.js_urls,
    ) + "\n"@ + wasm_html(nonce, config.manifest, config.route_pattern) + sw_html(nonce)
        + "</body>\n</html>"@
}

/// The app's element that the client mounts from scratch.
pub open spec fn empty_app() -> Seq<char> {
    "<div id=\"app\"></div>"@
}

/// The app's element that the server has rendered.
pub open spec fn ssr_app(body: Seq<char>) -> Seq<char> {
    "<div id=\"app\" data-forma-ssr>"@ + body + "</div>"@
}

/// What the server renders into the app's element: nothing where the module or
/// the slots are missing or the walk fails.
pub open spec fn ssr_body(config: ConfigView) -> Option<Seq<char>> {
    match (config.ir_module, config.slots) {
        (Some(m), Some(slots)) => match model::html_of(m, slots) {
            Ok(body) => Some(body),
            Err(_) => None,
        },
        _ => None,
    }
}

/// The Phase 1 page: an empty app.
pub open spec fn phase1_html(config: ConfigView, nonce: Seq<char>) -> Seq<char> {
    shell_html(config, nonce, empty_app())
}

/// The Phase 2 page: a server-rendered app, or the Phase 1 page.
pub open spec fn phase2_html(config: ConfigView, nonce: Seq<char>) -> Seq<char> {
    match ssr_body(config) {
        Some(body) => shell_html(config, nonce, ssr_app(body)),
        None => phase1_html(config, nonce),
    }
}

/// The HTML of a page.
pub open spec fn page_html(config: ConfigView, nonce: Seq<char>) -> Seq<char> {
    match config.render_mode {
        RenderMode::Phase1ClientMount => phase1_html(config, nonce),
        RenderMode::Phase2SsrReconcile => phase2_html(config, nonce),
    }
}

// ---------------------------------------------------------------------------
// Writing a page
// ---------------------------------------------------------------------------

/// Resolved asset URLs for a route: shared between Phase 1 and Phase 2 paths.
struct ResolvedAssets {
    fonts: Vec<String>,
    css_urls: Vec<String>,
    js_urls: Vec<String>,
}

impl View for ResolvedAssets {
    type V = AssetsView;

    closed spec fn view(&self) -> AssetsView {
        AssetsView {
            fonts: types::string_views(self.fonts@),
            css_urls: types::string_views(self.css_urls@),
            js_urls: types::string_views(self.js_urls@),
        }
    }
}

/// Escape text for HTML, in content and in double-quoted attribute values:
/// `& < > "`.
pub fn escape_html(s: &str) -> (res: String)
    ensures
        res@ == text::escaped_attr(s@),
{
    let mut out = String::new();
    text::push_escaped_attr(&mut out, s);
    proof {
        assert(out@ =~= text::escaped_attr(s@));
    }
    out
}

fn push_links(head: &mut String, before: &str, urls: &Vec<String>, behind: &str)
    ensures
        final(head)@ == old(head)@ + links_html(before@, types::string_views(urls@), behind@),
{
    let ghost start = head@;
    let ghost all = types::string_views(urls@);
    let mut i: usize = 0;
    while i < urls.len()
        invariant
            i <= urls@.len(),
            all == types::string_views(urls@),
            head@ == start + links_html(before@, all.take(i as int), behind@),
        decreases urls.len() - i,
    {
        let ghost done = head@;
        head.push_str(before);
        head.push_str(escape_html(urls[i].as_str()).as_str());
        head.push_str(behind);
        i += 1;
        proof {
            assert(all.take(i as int).drop_last() =~= all.take(i - 1));
            let link = link_html(before@, all[i - 1], behind@);
            assert(head@ =~= done + link);
            assert(done + link =~= start + (links_html(before@, all.take(i - 1), behind@) + link));
        }
    }
    proof {
        assert(all.take(i as int) =~= all);
    }
}

/// Build the common `<head>` content shared by both render paths.
fn build_head(
    title: &str,
    nonce: &str,
    assets: &ResolvedAssets,
    personality_css: Option<&str>,
) -> (res: String)
    ensures
        res@ == head_html(title@, nonce@, assets@, types::optional(personality_css)),
{
    let mut head = String::new();
    head.push_str("<meta charset=\"utf-8\">\n");
    head.push_str("<meta name=\"viewport\" content=\"width=device-width, initial-scale=1\">\n");
    head.push_str("<title>");
    head.push_str(escape_html(title).as_str());
    head.push_str("</title>\n");
    // Font preloads
    push_links(
        &mut head,
        "<link rel=\"preload\" href=\"",
        &assets.fonts,
        "\" as=\"font\" type=\"font/woff2\" crossorigin>\n",
    );
    // CSS stylesheets
    push_links(&mut head, "<link rel=\"stylesheet\" href=\"", &assets.css_urls, "\">\n");
    // JS modulepreloads
    push_links(&mut head, "<link rel=\"modulepreload\" href=\"", &assets.js_urls, "\">\n");
    // Personality CSS (inline, small)
    let ghost linked = head@;
    if let Some(css) = personality_css {
        head.push_str("<style nonce=\"");
        head.push_str(nonce);
        head.push_str("\">");
        head.push_str(escape_html(css).as_str());
        head.push_str("</style>\n");
    }
    proof {
        assert(head@ =~= linked + style_html(nonce@, types::optional(personality_css)));
        assert(head@ =~= head_html(title@, nonce@, assets@, types::optional(personality_css)));
    }
    head
}

fn to_urls(names: &Vec<String>) -> (res: Vec<String>)
    ensures
        types::string_views(res@) == asset_urls(types::string_views(names@)),
{
    let mut urls: Vec<String> = Vec::with_capacity(names.len());
    let mut i: usize = 0;
    while i < names.len()
        invariant
            i <= names@.len(),
            urls@.len() == i,
            forall|k: int| 0 <= k < i ==> (#[trigger] urls@[k])@ == asset_url(names@[k]@),
        decreases names.len() - i,
    {
        urls.push(to_url(names[i].as_str()));
        i += 1;
    }
    proof {
        assert(types::string_views(urls@) =~= asset_urls(types::string_views(names@)));
    }
    urls
}

fn to_url(name: &str) -> (res: String)
    ensures
        res@ == asset_url(name@),
{
    let mut url = "/_assets/".to_owned();
    url.push_str(name);
    url
}

/// Resolve asset URLs from the manifest for a given route pattern.
fn resolve_assets(manifest: &AssetManifest, route_pattern: &str) -> (res: ResolvedAssets)
    ensures
        res@ == assets_of(manifest@, route_pattern@),
{
    match manifest.route(route_pattern) {
        Some(route) => ResolvedAssets {
            fonts: to_urls(&route.fonts),
            css_urls: to_urls(&route.css),
            js_urls: to_urls(&route.js),
        },
        None => {
            let none = ResolvedAssets {
                fonts: Vec::new(),
                css_urls: Vec::new(),
                js_urls: Vec::new(),
            };
            proof {
                assert(none@.fonts =~= Seq::empty());
                assert(none@.css_urls =~= Seq::empty());
                assert(none@.js_urls =~= Seq::empty());
            }
            none
        },
    }
}

/// Shared body fragments (class attr, prefix, config script, page JS tag).
struct BodyParts {
    body_class_attr: String,
    body_prefix: String,
    config_script_tag: String,
    page_js_tag: String,
    wasm_script: String,
    sw_script: String,
}

fn build_class_attr(body_class: Option<&str>) -> (res: String)
    ensures
        res@ == class_html(types::optional(body_class)),
{
    let mut out = String::new();
    if let Some(c) = body_class {
        out.push_str(" class=\"");
        text::push_escaped_attr(&mut out, c);
        out.push_str("\"");
    }
    proof {
        assert(out@ =~= class_html(types::optional(body_class)));
    }
    out
}

fn build_config_script(nonce: &str, script: Option<&str>) -> (res: String)
    ensures
        res@ == config_html(nonce@, types::optional(script)),
{
    let mut out = String::new();
    if let Some(script) = script {
        out.push_str("<script nonce=\"");
        out.push_str(nonce);
        out.push_str("\">");
        out.push_str(script);
        out.push_str("</script>\n");
    }
    proof {
        assert(out@ =~= config_html(nonce@, types::optional(script)));
    }
    out
}

fn build_page_js(nonce: &str, js_urls: &Vec<String>) -> (res: String)
    ensures
        res@ == page_js_html(nonce@, types::string_views(js_urls@)),
{
    let mut out = String::new();
    if js_urls.len() > 0 {
        let url = &js_urls[js_urls.len() - 1];
        out.push_str("<script type=\"module\" nonce=\"");
        out.push_str(nonce);
        out.push_str("\" src=\"");
        text::push_escaped_attr(&mut out, url.as_str());
        out.push_str("\"></script>");
    }
    proof {
        assert(out@ =~= page_js_html(nonce@, types::string_views(js_urls@)));
    }
    out
}

fn build_wasm_script(nonce: &str, manifest: &AssetManifest, route_pattern: &str) -> (res: String)
    ensures
        res@ == wasm_html(nonce@, manifest@, route_pattern@),
{
    let mut out = String::new();
    if let Some(wasm) = &manifest.wasm {
        if let Some(route) = manifest.route(route_pattern) {
            if let Some(ir_name) = &route.ir {
                out.push_str("<script nonce=\"");
                out.push_str(nonce);
                out.push_str("\">window.__FORMA_WASM__={loader:\"");
                text::push_escaped_attr(&mut out, to_url(wasm.loader.as_str()).as_str());
                out.push_str("\",binary:\"");
                text::push_escaped_attr(&mut out, to_url(wasm.binary.as_str()).as_str());
                out.push_str("\",ir:\"");
                text::push_escaped_attr(&mut out, to_url(ir_name.as_str()).as_str());
                out.push_str("\"};</script>\n");
            }
        }
    }
    proof {
        assert(out@ =~= wasm_html(nonce@, manifest@, route_pattern@));
    }
    out
}

fn build_sw_script(nonce: &str) -> (res: String)
    ensures
        res@ == sw_html(nonce@),
{
    let mut out = "<script nonce=\"".to_owned();
    out.push_str(nonce);
    out.push_str(
        "\">if('serviceWorker' in navigator)navigator.serviceWorker.register('/sw.js');</script>\n",
    );
    out
}

/// Build shared body fragments (class attr, prefix, config script, page JS tag).
fn build_body_parts(nonce: &str, config: &PageConfig, js_urls: &Vec<String>) -> (res: BodyParts)
    ensures
        res.body_class_attr@ == class_html(config@.body_class),
        res.body_prefix@ == or_empty(config@.body_prefix),
        res.config_script_tag@ == config_html(nonce@, config@.config_script),
        res.page_js_tag@ == page_js_html(nonce@, types::string_views(js_urls@)),
        res.wasm_script@ == wasm_html(nonce@, config@.manifest, config@.route_pattern),
        res.sw_script@ == sw_html(nonce@),
{
    let body_prefix = match config.body_prefix {
        Some(prefix) => prefix.to_owned(),
        None => {
            let none = String::new();
            proof {
                assert(none@ =~= Seq::<char>::empty());
            }
            none
        },
    };
    BodyParts {
        body_class_attr: build_class_attr(config.body_class),
        body_prefix,
        config_script_tag: build_config_script(nonce, config.config_script),
        page_js_tag: build_page_js(nonce, js_urls),
        wasm_script: build_wasm_script(nonce, config.manifest, config.route_pattern),
        sw_script: build_sw_script(nonce),
    }
}

/// Put the page together around the app's element.
fn build_shell(config: &PageConfig, nonce: &str, app: &str) -> (res: PageOutput)
    ensures
        res.html@ == shell_html(config@, nonce@, app@),
        res.csp@ == csp::csp_text(nonce@),
{
    let assets = resolve_assets(config.manifest, config.route_pattern);
    let head = build_head(config.title, nonce, &assets, config.personality_css);
    let parts = build_body_parts(nonce, config, &assets.js_urls);
    let mut html = String::new();
    html.push_str("<!DOCTYPE html>\n<html lang=\"en\">\n<head>\n");
    html.push_str(head.as_str());
    html.push_str("</head>\n<body");
    html.push_str(parts.body_class_attr.as_str());
    html.push_str(">\n");
    html.push_str(parts.body_prefix.as_str());
    html.push_str(app);
    html.push_str("\n");
    html.push_str(parts.config_script_tag.as_str());
    html.push_str(parts.page_js_tag.as_str());
    html.push_str("\n");
    html.push_str(parts.wasm_script.as_str());
    html.push_str(parts.sw_script.as_str());
    html.push_str("</body>\n</html>");
    proof {
        assert(html@ =~= shell_html(config@, nonce@, app@));
    }
    PageOutput { html, csp: csp::build_csp_header(nonce) }
}

/// Phase 1: empty `<div id="app"></div>`, client JS mounts from scratch.
pub fn render_page_phase1(config: &PageConfig, nonce: &str) -> (res: PageOutput)
    ensures
        res.html@ == phase1_html(config@, nonce@),
        res.csp@ == csp::csp_text(nonce@),
{
    render_page_around(config, nonce, None)
}

/// Why a page is not rendered on the server.
#[derive(Debug, Clone, PartialEq, Eq)]
pub enum Fallback {
    /// The IR module or the slots are missing.
    Missing,
    /// The walk of the IR module failed.
    Walk(IrError),
}

/// Attempt the IR walk of a page: the content of the app's element, or why there is
/// none.
pub fn walk_page(config: &PageConfig) -> (res: Result<String, Fallback>)
    ensures
        match res {
            Ok(body) => ssr_body(config@) == Some(body@),
            Err(Fallback::Missing) => config@.ir_module is None || config@.slots is None,
            Err(Fallback::Walk(e)) => config@.ir_module is Some && config@.slots is Some
                && model::html_of(config@.ir_module->0, config@.slots->0) == Err::<
                Seq<char>,
                ErrorView,
            >(e@),
        },
{
    // Both ir_module and slots must be present for SSR
    match (config.ir_module, config.slots) {
        (Some(ir_module), Some(slots)) => match walker::walk_to_html(ir_module, slots) {
            Ok(body) => Ok(body),
            Err(e) => Err(Fallback::Walk(e)),
        },
        _ => Err(Fallback::Missing),
    }
}

/// The server-rendered content that a page's mode asks for, or why it falls back to
/// Phase 1.
pub fn page_ssr(config: &PageConfig) -> (res: Result<Option<String>, Fallback>)
    ensures
        match config.render_mode {
            RenderMode::Phase1ClientMount => res == Ok::<Option<String>, Fallback>(None),
            RenderMode::Phase2SsrReconcile => match res {
                Ok(body) => body is Some && ssr_body(config@) == Some(body->0@),
                Err(Fallback::Missing) => config@.ir_module is None || config@.slots is None,
                Err(Fallback::Walk(e)) => config@.ir_module is Some && config@.slots is Some
                    && model::html_of(config@.ir_module->0, config@.slots->0) == Err::<
                    Seq<char>,
                    ErrorView,
                >(e@),
            },
        },
{
    match config.render_mode {
        RenderMode::Phase1ClientMount => Ok(None),
        RenderMode::Phase2SsrReconcile => match walk_page(config) {
            Ok(body) => Ok(Some(body)),
            Err(e) => Err(e),
        },
    }
}

/// The app's element around what the server has rendered, if anything.
pub open spec fn app_around(ssr: Option<Seq<char>>) -> Seq<char> {
    match ssr {
        Some(body) => ssr_app(body),
        None => empty_app(),
    }
}

/// Render a page around what the server has rendered, if anything: what
/// [`render_page_with_nonce`] does once the walk is done.
pub fn render_page_around(config: &PageConfig, nonce: &str, ssr: Option<&str>) -> (res: PageOutput)
    ensures
        res.html@ == shell_html(config@, nonce@, app_around(types::optional(ssr))),
        res.csp@ == csp::csp_text(nonce@),
{
    match ssr {
        Some(body) => {
            let mut app = "<div id=\"app\" data-forma-ssr>".to_owned();
            app.push_str(body);
            app.push_str("</div>");
            build_shell(config, nonce, app.as_str())
        },
        None => build_shell(config, nonce, "<div id=\"app\"></div>"),
    }
}

/// Phase 2: server-render the IR module into `<div id="app" data-forma-ssr>`.
/// Falls back to Phase 1 on any error (missing IR module, walk failure, etc.).
pub fn render_page_phase2(config: &PageConfig, nonce: &str) -> (res: PageOutput)
    ensures
        res.html@ == phase2_html(config@, nonce@),
        res.csp@ == csp::csp_text(nonce@),
{
    match walk_page(config) {
        // SSR succeeded: build the full page with SSR content
        Ok(body) => render_page_around(config, nonce, Some(body.as_str())),
        Err(_) => render_page_phase1(config, nonce),
    }
}

/// Render a page with a given nonce: what [`render_page`] does once it has one.
pub fn render_page_with_nonce(config: &PageConfig, nonce: &str) -> (res: PageOutput)
    ensures
        res.html@ == page_html(config@, nonce@),
        res.csp@ == csp::csp_text(nonce@),
{
    match config.render_mode {
        RenderMode::Phase1ClientMount => render_page_phase1(config, nonce),
        RenderMode::Phase2SsrReconcile => render_page_phase2(config, nonce),
    }
}

/// `page` is the page of a configuration for some nonce, which its policy
/// names.
pub open spec fn is_page(config: ConfigView, page: PageOutput) -> bool {
    exists|nonce: Seq<char>| #[trigger]
        csp::is_nonce(nonce) && page.html@ == page_html(config, nonce) && page.csp@ == csp::csp_text(
            nonce,
        )
}

/// Render an HTML page with a fresh nonce, and the policy that goes with it.
pub fn render_page(config: &PageConfig) -> (res: Result<PageOutput, RngFailure>)
    ensures
        res matches Ok(page) ==> is_page(config@, page),
{
    let nonce = csp::generate_csp_nonce();
    let res = render_page_from_nonce(config, &nonce);
    proof {
        if let Ok(n) = nonce {
            assert(csp::is_nonce(n@));
        }
    }
    res
}

/// Render a page with the outcome of drawing a nonce: what [`render_page`] does
/// with it. The page is rendered exactly where there is a nonce.
pub fn render_page_from_nonce(config: &PageConfig, nonce: &Result<String, RngFailure>) -> (res:
    Result<PageOutput, RngFailure>)
    ensures
        match *nonce {
            Ok(nonce) => res matches Ok(page) && page.html@ == page_html(config@, nonce@)
                && page.csp@ == csp::csp_text(nonce@),
            Err(e) => res == Err::<PageOutput, RngFailure>(e),
        },
{
    match nonce {
        Ok(nonce) => Ok(render_page_with_nonce(config, nonce.as_str())),
        Err(e) => Err(*e),
    }
}

// ---------------------------------------------------------------------------
// Laws
// ---------------------------------------------------------------------------

/// Phase 2 falls back to Phase 1 on any error: where the module or the slots
/// are missing or the walk fails, the page is the one that Phase 1 gives.
pub proof fn phase2_falls_back_to_phase1(config: ConfigView, nonce: Seq<char>)
    requires
        config.render_mode == RenderMode::Phase2SsrReconcile,
        config.ir_module is None || config.slots is None || model::html_of(
            config.ir_module->0,
            config.slots->0,
        ) is Err,
    ensures
        page_html(config, nonce) == page_html(
            (ConfigView { render_mode: RenderMode::Phase1ClientMount, ..config }),
            nonce,
        ),
{
    let plain = ConfigView { render_mode: RenderMode::Phase1ClientMount, ..config };
    assert(shell_html(plain, nonce, empty_app()) == shell_html(config, nonce, empty_app()));
}

/// Phase 2 renders what the walk gives into the app's element.
pub proof fn phase2_renders_walk(config: ConfigView, nonce: Seq<char>)
    requires
        config.render_mode == RenderMode::Phase2SsrReconcile,
        config.ir_module is Some,
        config.slots is Some,
        model::html_of(config.ir_module->0, config.slots->0) is Ok,
    ensures
        page_html(config, nonce) == shell_html(
            config,
            nonce,
            ssr_app(model::html_of(config.ir_module->0, config.slots->0)->Ok_0),
        ),
{
}

/// A text that can end neither an element nor a double-quoted attribute.
pub open spec fn stays_inside(words: Seq<char>) -> bool {
    forall|i: int|
        0 <= i < words.len() ==> (#[trigger] words[i]) != '<' && words[i] != '>' && words[i] != '"'
}

/// Interpolated URLs, class names, titles and CSS are escaped: whatever they
/// hold, what the page writes between their delimiters stays inside them.
pub proof fn interpolations_stay_inside(
    value: Seq<char>,
    before: Seq<char>,
    behind: Seq<char>,
    nonce: Seq<char>,
)
    ensures
        exists|words: Seq<char>| #[trigger]
            stays_inside(words) && text::unescaped(words) == value && link_html(before, value, behind)
                == before + words + behind && class_html(Some(value)) == " class=\""@ + words + "\""@
                && style_html(nonce, Some(value)) == "<style nonce=\""@ + nonce + "\">"@ + words
                + "</style>\n"@,
{
    let words = text::escaped_attr(value);
    text::escaped_attr_has_no_markup(value);
    text::escaping_is_undone(value);
    assert(stays_inside(words));
}

} // verus!
