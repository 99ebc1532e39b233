//! Page configuration, page output and the asset manifest.

use vstd::prelude::*;

use crate::json;
use crate::parser::{IrModule, ModuleView};
use crate::slot::{SlotData, SlotTree};
use crate::text;

verus! {

/// Per-route render strategy.
#[derive(Debug, Clone, Copy, PartialEq, Eq, Structural)]
pub enum RenderMode {
    /// Phase 1: empty `<div id="app"></div>`, client JS mounts from scratch.
    Phase1ClientMount,
    /// Phase 2: server renders HTML into `#app` via IR walker, client reconciles.
    Phase2SsrReconcile,
}

/// Configuration for rendering an HTML page with external assets.
pub struct PageConfig<'a> {
    pub title: &'a str,
    pub route_pattern: &'a str,
    pub manifest: &'a AssetManifest,
    /// Optional inline `<script>` content (e.g. window.__CONFIG__ = {...})
    pub config_script: Option<&'a str>,
    pub body_class: Option<&'a str>,
    /// Optional inline `<style>` for personality/theme overrides
    pub personality_css: Option<&'a str>,
    /// Optional extra HTML before `<div id="app">`
    pub body_prefix: Option<&'a str>,
    pub render_mode: RenderMode,
    /// Pre-parsed IR module for Phase 2 SSR
    pub ir_module: Option<&'a IrModule>,
    /// Slot data for Phase 2 SSR
    pub slots: Option<&'a SlotData>,
}

/// Output from render_page: HTML body + CSP header value.
#[derive(Debug)]
pub struct PageOutput {
    pub html: String,
    pub csp: String,
}

/// Asset manifest of the embedded dist directory. A name is bound at most once
/// among the assets, and a pattern at most once among the routes.
#[derive(Debug, Clone)]
pub struct AssetManifest {
    pub version: u32,
    pub build_hash: String,
    /// Content-hashed filenames by logical name.
    pub assets: Vec<(String, String)>,
    /// Asset references by route pattern.
    pub routes: Vec<(String, RouteAssets)>,
    pub wasm: Option<WasmAssets>,
}

/// Per-route asset references.
#[derive(Debug, Clone)]
pub struct RouteAssets {
    pub js: Vec<String>,
    pub css: Vec<String>,
    pub fonts: Vec<String>,
    pub total_size_br: u64,
    pub budget_warn_threshold: u64,
    pub ir: Option<String>,
}

/// WASM asset references.
#[derive(Debug, Clone)]
pub struct WasmAssets {
    pub loader: String,
    pub binary: String,
}

// ---------------------------------------------------------------------------
// Views
// ---------------------------------------------------------------------------

/// The texts of a run of strings.
pub open spec fn string_views(strings: Seq<String>) -> Seq<Seq<char>> {
    Seq::new(strings.len(), |i: int| strings[i]@)
}

/// The text of an optional string slice.
pub open spec fn optional(words: Option<&str>) -> Option<Seq<char>> {
    match words {
        Some(words) => Some(words@),
        None => None,
    }
}

/// What [`RouteAssets`] hold.
pub struct RouteView {
    pub js: Seq<Seq<char>>,
    pub css: Seq<Seq<char>>,
    pub fonts: Seq<Seq<char>>,
    pub total_size_br: u64,
    pub budget_warn_threshold: u64,
    pub ir: Option<Seq<char>>,
}

/// What [`WasmAssets`] hold.
pub struct WasmView {
    pub loader: Seq<char>,
    pub binary: Seq<char>,
}

/// What an [`AssetManifest`] holds.
pub struct ManifestView {
    pub version: u32,
    pub build_hash: Seq<char>,
    pub assets: Seq<(Seq<char>, Seq<char>)>,
    pub routes: Seq<(Seq<char>, RouteView)>,
    pub wasm: Option<WasmView>,
}

/// What a [`PageConfig`] holds.
pub struct ConfigView {
    pub title: Seq<char>,
    pub route_pattern: Seq<char>,
    pub manifest: ManifestView,
    pub config_script: Option<Seq<char>>,
    pub body_class: Option<Seq<char>>,
    pub personality_css: Option<Seq<char>>,
    pub body_prefix: Option<Seq<char>>,
    pub render_mode: RenderMode,
    pub ir_module: Option<ModuleView>,
    pub slots: Option<Seq<SlotTree>>,
}

impl View for RouteAssets {
    type V = RouteView;

    open spec fn view(&self) -> RouteView {
        RouteView {
            js: string_views(self.js@),
            css: string_views(self.css@),
            fonts: string_views(self.fonts@),
            total_size_br: self.total_size_br,
            budget_warn_threshold: self.budget_warn_threshold,
            ir: match self.ir {
                Some(name) => Some(name@),
                None => None,
            },
        }
    }
}

impl View for AssetManifest {
    type V = ManifestView;

    open spec fn view(&self) -> ManifestView {
        ManifestView {
            version: self.version,
            build_hash: self.build_hash@,
            assets: Seq::new(
                self.assets@.len(),
                |i: int| (self.assets@[i].0@, self.assets@[i].1@),
            ),
            routes: Seq::new(
                self.routes@.len(),
                |i: int| (self.routes@[i].0@, self.routes@[i].1@),
            ),
            wasm: match self.wasm {
                Some(wasm) => Some(WasmView { loader: wasm.loader@, binary: wasm.binary@ }),
                None => None,
            },
        }
    }
}

impl<'a> View for PageConfig<'a> {
    type V = ConfigView;

    open spec fn view(&self) -> ConfigView {
        ConfigView {
            title: self.title@,
            route_pattern: self.route_pattern@,
            manifest: self.manifest@,
            config_script: optional(self.config_script),
            body_class: optional(self.body_class),
            personality_css: optional(self.personality_css),
            body_prefix: optional(self.body_prefix),
            render_mode: self.render_mode,
            ir_module: match self.ir_module {
                Some(m) => Some(m@),
                None => None,
            },
            slots: match self.slots {
                Some(s) => Some(s@),
                None => None,
            },
        }
    }
}

// ---------------------------------------------------------------------------
// Lookup
// ---------------------------------------------------------------------------

/// No key is bound twice.
pub open spec fn distinct_keys<V>(pairs: Seq<(Seq<char>, V)>) -> bool {
    forall|i: int, j: int|
        0 <= i < j < pairs.len() ==> (#[trigger] pairs[i]).0 != (#[trigger] pairs[j]).0
}

/// What `key` is bound to.
pub open spec fn bound<V>(pairs: Seq<(Seq<char>, V)>, key: Seq<char>) -> Option<V> {
    let at = json::key_position(pairs, key, 0);
    if at < pairs.len() {
        Some(pairs[at].1)
    } else {
        None
    }
}

/// A manifest binds no name and no route twice.
pub open spec fn manifest_ok(m: ManifestView) -> bool {
    distinct_keys(m.assets) && distinct_keys(m.routes)
}

/// The file that a logical name stands for; a name that is not bound stands for itself.
pub open spec fn resolved(m: ManifestView, logical_name: Seq<char>) -> Seq<char> {
    match bound(m.assets, logical_name) {
        Some(filename) => filename,
        None => logical_name,
    }
}

impl AssetManifest {
    /// Resolve a logical asset name to its content-hashed filename.
    pub fn resolve<'a>(&'a self, logical_name: &'a str) -> (res: &'a str)
        ensures
            res@ == resolved(self@, logical_name@),
            res@ == match bound(self@.assets, logical_name@) {
                Some(filename) => filename,
                None => logical_name@,
            },
    {
        let mut i: usize = 0;
        while i < self.assets.len()
            invariant
                i <= self.assets@.len(),
                json::key_position(self@.assets, logical_name@, 0) == json::key_position(
                    self@.assets,
                    logical_name@,
                    i as int,
                ),
            decreases self.assets.len() - i,
        {
            let pair = &self.assets[i];
            proof {
                assert(self@.assets[i as int] == (pair.0@, pair.1@));
            }
            if text::same_text(pair.0.as_str(), logical_name) {
                return pair.1.as_str();
            }
            i += 1;
        }
        logical_name
    }

    /// Get route assets for a route pattern.
    pub fn route(&self, pattern: &str) -> (res: Option<&RouteAssets>)
        ensures
            match res {
                Some(route) => bound(self@.routes, pattern@) == Some(route@),
                None => bound(self@.routes, pattern@) is None,
            },
    {
        let mut i: usize = 0;
        while i < self.routes.len()
            invariant
                i <= self.routes@.len(),
                json::key_position(self@.routes, pattern@, 0) == json::key_position(
                    self@.routes,
                    pattern@,
                    i as int,
                ),
            decreases self.routes.len() - i,
        {
            let pair = &self.routes[i];
            proof {
                assert(self@.routes[i as int] == (pair.0@, pair.1@));
            }
            if text::same_text(pair.0.as_str(), pattern) {
                return Some(&pair.1);
            }
            i += 1;
        }
        None
    }
}

// ---------------------------------------------------------------------------
// Laws
// ---------------------------------------------------------------------------

/// Where no key is bound twice, looking a key up gives what it is bound to,
/// wherever the binding stands; a key without a binding is not found.
pub proof fn lookup_finds_binding<V>(pairs: Seq<(Seq<char>, V)>, key: Seq<char>)
    requires
        distinct_keys(pairs),
    ensures
        forall|i: int|
            0 <= i < pairs.len() && (#[trigger] pairs[i]).0 == key ==> bound(pairs, key) == Some(
                pairs[i].1,
            ),
        (forall|i: int| 0 <= i < pairs.len() ==> (#[trigger] pairs[i]).0 != key) ==> bound(
            pairs,
            key,
        ) is None,
{
    first_position(pairs, key, 0);
}

pub(crate) proof fn first_position<V>(pairs: Seq<(Seq<char>, V)>, key: Seq<char>, from: int)
    requires
        0 <= from <= pairs.len(),
    ensures
        from <= json::key_position(pairs, key, from) <= pairs.len(),
        json::key_position(pairs, key, from) < pairs.len() ==> pairs[json::key_position(
            pairs,
            key,
            from,
        )].0 == key,
        forall|i: int|
            from <= i < json::key_position(pairs, key, from) ==> (#[trigger] pairs[i]).0 != key,
    decreases pairs.len() - from,
{
    if from < pairs.len() && pairs[from].0 != key {
        first_position(pairs, key, from + 1);
    }
}

/// What a route, a manifest and a configuration are seen to hold is all that they hold:
/// every file of every list, every binding, and every option, in their order.
pub proof fn nothing_is_left_out_of_view(
    route: RouteAssets,
    manifest: AssetManifest,
    config: PageConfig,
    i: int,
)
    ensures
        route@.css.len() == route.css@.len(),
        route@.js.len() == route.js@.len(),
        route@.fonts.len() == route.fonts@.len(),
        0 <= i < route.css@.len() ==> route@.css[i] == route.css@[i]@,
        0 <= i < route.js@.len() ==> route@.js[i] == route.js@[i]@,
        0 <= i < route.fonts@.len() ==> route@.fonts[i] == route.fonts@[i]@,
        route.ir matches Some(name) ==> route@.ir == Some(name@),
        route.ir is None ==> route@.ir is None,
        manifest@.assets.len() == manifest.assets@.len(),
        manifest@.routes.len() == manifest.routes@.len(),
        0 <= i < manifest.assets@.len() ==> manifest@.assets[i] == (
            manifest.assets@[i].0@,
            manifest.assets@[i].1@,
        ),
        0 <= i < manifest.routes@.len() ==> manifest@.routes[i] == (
            manifest.routes@[i].0@,
            manifest.routes@[i].1@,
        ),
        manifest.wasm matches Some(wasm) ==> (manifest@.wasm matches Some(seen) && seen.loader
            == wasm.loader@ && seen.binary == wasm.binary@),
        manifest.wasm is None ==> manifest@.wasm is None,
        config@.title == config.title@,
        config@.route_pattern == config.route_pattern@,
        config@.manifest == config.manifest@,
        config.config_script matches Some(words) ==> config@.config_script == Some(words@),
        config.config_script is None ==> config@.config_script is None,
        config.body_class matches Some(words) ==> config@.body_class == Some(words@),
        config.body_class is None ==> config@.body_class is None,
        config.personality_css matches Some(words) ==> config@.personality_css == Some(words@),
        config.personality_css is None ==> config@.personality_css is None,
        config.body_prefix matches Some(words) ==> config@.body_prefix == Some(words@),
        config.body_prefix is None ==> config@.body_prefix is None,
        config@.render_mode == config.render_mode,
        config.ir_module matches Some(m) ==> config@.ir_module == Some(m@),
        config.ir_module is None ==> config@.ir_module is None,
        config.slots matches Some(slots) ==> config@.slots == Some(slots@),
        config.slots is None ==> config@.slots is None,
{
}

/// A name that the manifest binds is resolved to the file it is bound to, wherever the
/// binding stands; any other name is resolved to itself.
pub proof fn names_are_resolved(m: ManifestView, i: int, name: Seq<char>)
    requires
        manifest_ok(m),
    ensures
        0 <= i < m.assets.len() ==> resolved(m, m.assets[i].0) == m.assets[i].1,
        (forall|k: int| 0 <= k < m.assets.len() ==> (#[trigger] m.assets[k]).0 != name)
            ==> resolved(m, name) == name,
{
    if 0 <= i < m.assets.len() {
        lookup_finds_binding(m.assets, m.assets[i].0);
    }
    lookup_finds_binding(m.assets, name);
}

} // verus!
