//! Loading IR modules and checking that the runtime can render them.

use vstd::prelude::*;

use crate::format::IR_VERSION;
use crate::json;
use crate::parser;
use crate::parser::{IrModule, ModuleView};
use crate::text;
use crate::types;
use crate::types::{AssetManifest, ManifestView, RenderMode, RouteView};

verus! {

/// The words that say that a version is not compatible.
pub open spec fn incompatible_text(version: u16) -> Seq<char> {
    "IR version "@ + text::decimal(version as nat) + " is not compatible with runtime version "@
        + text::decimal(IR_VERSION as nat)
}

/// Check that an IR module's version is compatible with the current runtime.
pub fn check_ir_compatibility(module: &IrModule) -> (res: Result<(), String>)
    ensures
        match res {
            Ok(()) => module@.header.version == IR_VERSION,
            Err(words) => module@.header.version != IR_VERSION && words@ == incompatible_text(
                module@.header.version,
            ),
        },
{
    if module.header.version != IR_VERSION {
        let mut words = "IR version ".to_owned();
        text::push_decimal(&mut words, module.header.version as u64);
        words.push_str(" is not compatible with runtime version ");
        text::push_decimal(&mut words, IR_VERSION as u64);
        return Err(words);
    }
    Ok(())
}

/// What a run of named files holds.
pub open spec fn file_views(files: Seq<(String, Vec<u8>)>) -> Seq<(Seq<char>, Seq<u8>)> {
    Seq::new(files.len(), |i: int| (files[i].0@, files[i].1@))
}

/// What a run of route patterns and render modes holds.
pub open spec fn mode_views(modes: Seq<(String, RenderMode)>) -> Seq<(Seq<char>, RenderMode)> {
    Seq::new(modes.len(), |i: int| (modes[i].0@, modes[i].1))
}

/// What a run of route patterns and modules holds.
pub open spec fn module_views(modules: Seq<(String, IrModule)>) -> Seq<(Seq<char>, ModuleView)> {
    Seq::new(modules.len(), |i: int| (modules[i].0@, modules[i].1@))
}

/// The module that can be rendered for a route: its `.ir` file is stored, is
/// parsed, and is of the runtime's version.
pub open spec fn route_module(ir: Seq<char>, files: Seq<(Seq<char>, Seq<u8>)>) -> Option<
    ModuleView,
> {
    match types::bound(files, ir) {
        Some(data) => match parser::module_of(data) {
            Ok(m) => if m.header.version == IR_VERSION {
                Some(m)
            } else {
                None
            },
            Err(_) => None,
        },
        None => None,
    }
}

/// The render mode of each route that has an `.ir` file: Phase 2 where the
/// module can be rendered, Phase 1 where it is invalid or missing.
pub open spec fn route_modes(
    routes: Seq<(Seq<char>, RouteView)>,
    files: Seq<(Seq<char>, Seq<u8>)>,
) -> Seq<(Seq<char>, RenderMode)>
    decreases routes.len(),
{
    if routes.len() == 0 {
        Seq::empty()
    } else {
        let before = route_modes(routes.drop_last(), files);
        match routes.last().1.ir {
            None => before,
            Some(ir) => before.push(
                (
                    routes.last().0,
                    if route_module(ir, files) is Some {
                        RenderMode::Phase2SsrReconcile
                    } else {
                        RenderMode::Phase1ClientMount
                    },
                ),
            ),
        }
    }
}

/// The module of each route that has one that can be rendered.
pub open spec fn route_modules(
    routes: Seq<(Seq<char>, RouteView)>,
    files: Seq<(Seq<char>, Seq<u8>)>,
) -> Seq<(Seq<char>, ModuleView)>
    decreases routes.len(),
{
    if routes.len() == 0 {
        Seq::empty()
    } else {
        let before = route_modules(routes.drop_last(), files);
        match routes.last().1.ir {
            None => before,
            Some(ir) => match route_module(ir, files) {
                Some(m) => before.push((routes.last().0, m)),
                None => before,
            },
        }
    }
}

fn find_file<'a>(files: &'a [(String, Vec<u8>)], name: &str) -> (res: Option<&'a Vec<u8>>)
    ensures
        match res {
            Some(data) => types::bound(file_views(files@), name@) == Some(data@),
            None => types::bound(file_views(files@), name@) is None,
        },
{
    let ghost views = file_views(files@);
    let mut i: usize = 0;
    while i < files.len()
        invariant
            i <= files@.len(),
            views == file_views(files@),
            json::key_position(views, name@, 0) == json::key_position(views, name@, i as int),
        decreases files.len() - i,
    {
        let pair = &files[i];
        proof {
            assert(views[i as int] == (pair.0@, pair.1@));
        }
        if text::same_text(pair.0.as_str(), name) {
            return Some(&pair.1);
        }
        i += 1;
    }
    None
}

fn load_module(files: &[(String, Vec<u8>)], ir_filename: &str) -> (res: Option<IrModule>)
    ensures
        match res {
            Some(module) => route_module(ir_filename@, file_views(files@)) == Some(module@),
            None => route_module(ir_filename@, file_views(files@)) is None,
        },
{
    match find_file(files, ir_filename) {
        Some(ir_bytes) => match IrModule::parse(ir_bytes.as_slice()) {
            Ok(module) => match check_ir_compatibility(&module) {
                Ok(()) => Some(module),
                Err(_) => None,
            },
            Err(_) => None,
        },
        None => None,
    }
}

/// Load and parse all IR modules from the asset manifest.
///
/// For each route with an `.ir` file, takes the binary from `files` (the
/// embedded files by name), parses it, and checks compatibility. Returns render
/// mode decisions and parsed modules, by route pattern.
///
/// Routes with valid IR get `Phase2SsrReconcile`. Invalid or missing IR
/// falls back to `Phase1ClientMount`.
pub fn load_ir_modules(manifest: &AssetManifest, files: &[(String, Vec<u8>)]) -> (res: (
    Vec<(String, RenderMode)>,
    Vec<(String, IrModule)>,
))
    ensures
        mode_views(res.0@) == route_modes(manifest@.routes, file_views(files@)),
        module_views(res.1@) == route_modules(manifest@.routes, file_views(files@)),
{
    let mut render_modes: Vec<(String, RenderMode)> = Vec::new();
    let mut ir_modules: Vec<(String, IrModule)> = Vec::new();
    let ghost routes = manifest@.routes;
    let ghost views = file_views(files@);
    let mut i: usize = 0;
    proof {
        assert(mode_views(render_modes@) =~= Seq::empty());
        assert(module_views(ir_modules@) =~= Seq::empty());
    }
    while i < manifest.routes.len()
        invariant
            i <= manifest.routes@.len(),
            routes == manifest@.routes,
            views == file_views(files@),
            mode_views(render_modes@) == route_modes(routes.take(i as int), views),
            module_views(ir_modules@) == route_modules(routes.take(i as int), views),
        decreases manifest.routes.len() - i,
    {
        let route = &manifest.routes[i];
        let ghost (modes, modules) = (render_modes@, ir_modules@);
        proof {
            assert(routes.take(i + 1).drop_last() =~= routes.take(i as int));
            assert(routes[i as int] == (route.0@, route.1@));
        }
        if let Some(ir_filename) = &route.1.ir {
            match load_module(files, ir_filename.as_str()) {
                Some(module) => {
                    render_modes.push((route.0.clone(), RenderMode::Phase2SsrReconcile));
                    ir_modules.push((route.0.clone(), module));
                    proof {
                        assert(module_views(ir_modules@) =~= module_views(modules).push(
                            (route.0@, module@),
                        ));
                    }
                },
                None => {
                    render_modes.push((route.0.clone(), RenderMode::Phase1ClientMount));
                },
            }
            proof {
                assert(mode_views(render_modes@) =~= mode_views(modes).push(
                    (route.0@, render_modes@.last().1),
                ));
            }
        }
        i += 1;
    }
    proof {
        assert(routes.take(i as int) =~= routes);
    }
    (render_modes, ir_modules)
}

// ---------------------------------------------------------------------------
// Laws
// ---------------------------------------------------------------------------

/// A module that was parsed is always of the runtime's version.
pub proof fn parsed_modules_are_compatible(data: Seq<u8>)
    ensures
        parser::module_of(data) matches Ok(m) ==> m.header.version == IR_VERSION,
{
}

/// Where a manifest binds no route twice, no route is given two render modes or
/// two modules, and every route that is given one is in the manifest.
pub proof fn loaded_routes_are_distinct(
    manifest: ManifestView,
    files: Seq<(Seq<char>, Seq<u8>)>,
)
    requires
        types::manifest_ok(manifest),
    ensures
        types::distinct_keys(route_modes(manifest.routes, files)),
        types::distinct_keys(route_modules(manifest.routes, files)),
        forall|i: int|
            0 <= i < route_modes(manifest.routes, files).len() ==> is_route(
                manifest.routes,
                (#[trigger] route_modes(manifest.routes, files)[i]).0,
            ),
        forall|i: int|
            0 <= i < route_modules(manifest.routes, files).len() ==> is_route(
                manifest.routes,
                (#[trigger] route_modules(manifest.routes, files)[i]).0,
            ),
{
    distinct_in_turn(manifest.routes, files);
}

/// `pattern` is one of the routes.
pub open spec fn is_route(routes: Seq<(Seq<char>, RouteView)>, pattern: Seq<char>) -> bool {
    exists|k: int| 0 <= k < routes.len() && (#[trigger] routes[k]).0 == pattern
}

proof fn distinct_in_turn(
    routes: Seq<(Seq<char>, RouteView)>,
    files: Seq<(Seq<char>, Seq<u8>)>,
)
    requires
        types::distinct_keys(routes),
    ensures
        types::distinct_keys(route_modes(routes, files)),
        types::distinct_keys(route_modules(routes, files)),
        forall|i: int|
            0 <= i < route_modes(routes, files).len() ==> is_route(
                routes,
                (#[trigger] route_modes(routes, files)[i]).0,
            ),
        forall|i: int|
            0 <= i < route_modules(routes, files).len() ==> is_route(
                routes,
                (#[trigger] route_modules(routes, files)[i]).0,
            ),
    decreases routes.len(),
{
    if routes.len() > 0 {
        let front = routes.drop_last();
        let last = routes.last().0;
        assert forall|i: int, j: int| 0 <= i < j < front.len() implies (#[trigger] front[i]).0 != (
        #[trigger] front[j]).0 by {
            assert(front[i] == routes[i] && front[j] == routes[j]);
        }
        distinct_in_turn(front, files);
        assert forall|pattern: Seq<char>| #[trigger] is_route(front, pattern) implies is_route(
            routes,
            pattern,
        ) && pattern != last by {
            let k = choose|k: int| 0 <= k < front.len() && (#[trigger] front[k]).0 == pattern;
            assert(routes[k] == front[k]);
            assert(routes[routes.len() - 1].0 == last);
        }
        assert(routes[routes.len() - 1].0 == last);
        assert(is_route(routes, last));
    }
}

/// A route is rendered in Phase 2 exactly where a module was loaded for it.
pub proof fn phase2_routes_have_modules(
    routes: Seq<(Seq<char>, RouteView)>,
    files: Seq<(Seq<char>, Seq<u8>)>,
    pattern: Seq<char>,
)
    ensures
        (exists|i: int|
            0 <= i < route_modes(routes, files).len() && #[trigger] route_modes(routes, files)[i]
                == (pattern, RenderMode::Phase2SsrReconcile)) <==> (exists|j: int|
            0 <= j < route_modules(routes, files).len() && (#[trigger] route_modules(
                routes,
                files,
            )[j]).0 == pattern),
    decreases routes.len(),
{
    let modes = route_modes(routes, files);
    let modules = route_modules(routes, files);
    if routes.len() > 0 {
        let before_modes = route_modes(routes.drop_last(), files);
        let before_modules = route_modules(routes.drop_last(), files);
        phase2_routes_have_modules(routes.drop_last(), files, pattern);
        if exists|i: int|
            0 <= i < modes.len() && #[trigger] modes[i] == (
                pattern,
                RenderMode::Phase2SsrReconcile,
            ) {
            let i = choose|i: int|
                0 <= i < modes.len() && #[trigger] modes[i] == (
                    pattern,
                    RenderMode::Phase2SsrReconcile,
                );
            if i < before_modes.len() {
                assert(before_modes[i] == modes[i]);
                let j = choose|j: int|
                    0 <= j < before_modules.len() && (#[trigger] before_modules[j]).0 == pattern;
                assert(modules[j] == before_modules[j]);
            } else {
                assert(modules[modules.len() - 1].0 == pattern);
            }
        }
        if exists|j: int| 0 <= j < modules.len() && (#[trigger] modules[j]).0 == pattern {
            let j = choose|j: int| 0 <= j < modules.len() && (#[trigger] modules[j]).0 == pattern;
            if j < before_modules.len() {
                assert(before_modules[j] == modules[j]);
                let i = choose|i: int|
                    0 <= i < before_modes.len() && #[trigger] before_modes[i] == (
                        pattern,
                        RenderMode::Phase2SsrReconcile,
                    );
                assert(modes[i] == before_modes[i]);
            } else {
                assert(modes[modes.len() - 1] == (pattern, RenderMode::Phase2SsrReconcile));
            }
        }
    }
}

/// The module that a route's file gives: the file is stored under the name that the
/// manifest gives for the route, and is parsed. Anything else gives none.
pub proof fn modules_come_out_of_files(
    ir: Seq<char>,
    files: Seq<(Seq<char>, Seq<u8>)>,
    f: int,
)
    requires
        types::distinct_keys(files),
    ensures
        0 <= f < files.len() && files[f].0 == ir ==> match parser::module_of(files[f].1) {
            Ok(m) => route_module(ir, files) == Some(m),
            Err(_) => route_module(ir, files) is None,
        },
        (forall|i: int| 0 <= i < files.len() ==> (#[trigger] files[i]).0 != ir) ==> route_module(
            ir,
            files,
        ) is None,
{
    types::lookup_finds_binding(files, ir);
    if 0 <= f < files.len() {
        parsed_modules_are_compatible(files[f].1);
    }
}

/// Every route of the manifest is decided on by its own file alone: one without an
/// `.ir` file gets neither mode nor module; one whose file gives a module is rendered
/// on the server from that module, any other one is mounted by the client.
pub proof fn every_route_is_decided_on(
    manifest: ManifestView,
    files: Seq<(Seq<char>, Seq<u8>)>,
    r: int,
)
    requires
        types::manifest_ok(manifest),
        0 <= r < manifest.routes.len(),
    ensures
        ({
            let (pattern, route) = manifest.routes[r];
            let mode = types::bound(route_modes(manifest.routes, files), pattern);
            let module = types::bound(route_modules(manifest.routes, files), pattern);
            match route.ir {
                None => mode is None && module is None,
                Some(ir) => match route_module(ir, files) {
                    Some(m) => mode == Some(RenderMode::Phase2SsrReconcile) && module == Some(m),
                    None => mode == Some(RenderMode::Phase1ClientMount) && module is None,
                },
            }
        }),
{
    let pattern = manifest.routes[r].0;
    let modes = route_modes(manifest.routes, files);
    let modules = route_modules(manifest.routes, files);
    loaded_routes_are_distinct(manifest, files);
    types::lookup_finds_binding(modes, pattern);
    types::lookup_finds_binding(modules, pattern);
    decision_stands(manifest.routes, files, r);
}

/// What the lists hold for one route.
spec fn decided(
    route: RouteView,
    pattern: Seq<char>,
    files: Seq<(Seq<char>, Seq<u8>)>,
    modes: Seq<(Seq<char>, RenderMode)>,
    modules: Seq<(Seq<char>, ModuleView)>,
) -> bool {
    let no_mode = forall|i: int| 0 <= i < modes.len() ==> (#[trigger] modes[i]).0 != pattern;
    let no_module = forall|i: int| 0 <= i < modules.len() ==> (#[trigger] modules[i]).0 != pattern;
    match route.ir {
        None => no_mode && no_module,
        Some(ir) => match route_module(ir, files) {
            Some(m) => (exists|i: int|
                0 <= i < modes.len() && #[trigger] modes[i] == (
                    pattern,
                    RenderMode::Phase2SsrReconcile,
                )) && (exists|i: int|
                0 <= i < modules.len() && #[trigger] modules[i] == (pattern, m)),
            None => (exists|i: int|
                0 <= i < modes.len() && #[trigger] modes[i] == (
                    pattern,
                    RenderMode::Phase1ClientMount,
                )) && no_module,
        },
    }
}

proof fn decision_stands(
    routes: Seq<(Seq<char>, RouteView)>,
    files: Seq<(Seq<char>, Seq<u8>)>,
    r: int,
)
    requires
        types::distinct_keys(routes),
        0 <= r < routes.len(),
    ensures
        decided(
            routes[r].1,
            routes[r].0,
            files,
            route_modes(routes, files),
            route_modules(routes, files),
        ),
    decreases routes.len(),
{
    let init = routes.drop_last();
    let pattern = routes[r].0;
    let (modes, modules) = (route_modes(routes, files), route_modules(routes, files));
    let (old_modes, old_modules) = (route_modes(init, files), route_modules(init, files));
    assert forall|i: int, j: int| 0 <= i < j < init.len() implies (#[trigger] init[i]).0 != (
    #[trigger] init[j]).0 by {
        assert(init[i] == routes[i] && init[j] == routes[j]);
    }
    distinct_in_turn(init, files);
    if r < routes.len() - 1 {
        decision_stands(init, files, r);
        assert(init[r] == routes[r]);
        assert(routes[routes.len() - 1].0 != pattern);
        assert(forall|i: int| 0 <= i < old_modes.len() ==> modes[i] == old_modes[i]);
        assert(forall|i: int| 0 <= i < old_modules.len() ==> modules[i] == old_modules[i]);
        assert(forall|i: int|
            old_modes.len() <= i < modes.len() ==> (#[trigger] modes[i]).0 != pattern);
        assert(forall|i: int|
            old_modules.len() <= i < modules.len() ==> (#[trigger] modules[i]).0 != pattern);
        if let Some(ir) = routes[r].1.ir {
            let mode = if route_module(ir, files) is Some {
                RenderMode::Phase2SsrReconcile
            } else {
                RenderMode::Phase1ClientMount
            };
            let i = choose|i: int|
                0 <= i < old_modes.len() && #[trigger] old_modes[i] == (pattern, mode);
            assert(modes[i] == (pattern, mode));
            if let Some(m) = route_module(ir, files) {
                let j = choose|j: int|
                    0 <= j < old_modules.len() && #[trigger] old_modules[j] == (pattern, m);
                assert(modules[j] == (pattern, m));
            }
        }
    } else {
        assert forall|other: Seq<char>| #[trigger] is_route(init, other) implies other
            != pattern by {
            let k = choose|k: int| 0 <= k < init.len() && (#[trigger] init[k]).0 == other;
            assert(routes[k] == init[k]);
        }
        assert(forall|i: int| 0 <= i < old_modes.len() ==> (#[trigger] old_modes[i]).0 != pattern);
        assert(forall|i: int|
            0 <= i < old_modules.len() ==> (#[trigger] old_modules[i]).0 != pattern);
        if let Some(ir) = routes[r].1.ir {
            assert(modes[modes.len() - 1].0 == pattern);
            if let Some(m) = route_module(ir, files) {
                assert(modes[modes.len() - 1] == (pattern, RenderMode::Phase2SsrReconcile));
                assert(modules[modules.len() - 1] == (pattern, m));
            } else {
                assert(modes[modes.len() - 1] == (pattern, RenderMode::Phase1ClientMount));
            }
        }
    }
}

/// The words on an incompatible version name it and the runtime's own, which is 2.
pub proof fn incompatible_versions_are_named(version: u16)
    ensures
        IR_VERSION == 2,
        incompatible_text(version) == "IR version "@ + text::decimal(version as nat)
            + " is not compatible with runtime version "@ + seq!['2'],
{
    reveal_with_fuel(text::decimal, 2);
    assert(text::decimal(2) =~= seq!['2']);
}

} // verus!
