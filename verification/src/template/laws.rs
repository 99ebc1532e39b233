//! What a page holds, given by its configuration and by the route of the manifest.

use vstd::prelude::*;

use crate::template;
use crate::text;
use crate::types;
use crate::types::{ConfigView, RenderMode};
use crate::walker::model;

verus! {

// ---------------------------------------------------------------------------
// Pieces
// ---------------------------------------------------------------------------

/// The URL of a file of the route, as it stands in an attribute.
pub open spec fn shown_url(name: Seq<char>) -> Seq<char> {
    text::escaped_attr("/_assets/"@ + name)
}

/// The link that preloads a font.
pub open spec fn font_link(name: Seq<char>) -> Seq<char> {
    "<link rel=\"preload\" href=\""@ + shown_url(name)
        + "\" as=\"font\" type=\"font/woff2\" crossorigin>\n"@
}

/// The link to a stylesheet.
pub open spec fn css_link(name: Seq<char>) -> Seq<char> {
    "<link rel=\"stylesheet\" href=\""@ + shown_url(name) + "\">\n"@
}

/// The link that preloads a script.
pub open spec fn js_link(name: Seq<char>) -> Seq<char> {
    "<link rel=\"modulepreload\" href=\""@ + shown_url(name) + "\">\n"@
}

/// The app's element: what the server has rendered, or nothing.
pub open spec fn app_element(config: ConfigView) -> Seq<char> {
    if config.render_mode == RenderMode::Phase2SsrReconcile && config.ir_module is Some
        && config.slots is Some && model::html_of(config.ir_module->0, config.slots->0) is Ok {
        "<div id=\"app\" data-forma-ssr>"@ + model::html_of(
            config.ir_module->0,
            config.slots->0,
        )->Ok_0 + "</div>"@
    } else {
        "<div id=\"app\"></div>"@
    }
}

/// The whole page of a configuration whose route has the given lists of files, around
/// the app's element.
pub open spec fn page_of(
    config: ConfigView,
    nonce: Seq<char>,
    app: Seq<char>,
    fonts: Seq<Seq<char>>,
    css: Seq<Seq<char>>,
    js: Seq<Seq<char>>,
    ir: Option<Seq<char>>,
) -> Seq<char> {
    let style = match config.personality_css {
        Some(css) => "<style nonce=\""@ + nonce + "\">"@ + text::escaped_attr(css) + "</style>\n"@,
        None => Seq::empty(),
    };
    let class = match config.body_class {
        Some(c) => " class=\""@ + text::escaped_attr(c) + "\""@,
        None => Seq::empty(),
    };
    let prefix = match config.body_prefix {
        Some(words) => words,
        None => Seq::empty(),
    };
    let script = match config.config_script {
        Some(script) => "<script nonce=\""@ + nonce + "\">"@ + script + "</script>\n"@,
        None => Seq::empty(),
    };
    let page_js = if js.len() > 0 {
        "<script type=\"module\" nonce=\""@ + nonce + "\" src=\""@ + shown_url(js[js.len() - 1])
            + "\"></script>"@
    } else {
        Seq::empty()
    };
    let wasm = if ir is Some && config.manifest.wasm is Some {
        "<script nonce=\""@ + nonce + "\">window.__FORMA_WASM__={loader:\""@ + shown_url(
            config.manifest.wasm->0.loader,
        ) + "\",binary:\""@ + shown_url(config.manifest.wasm->0.binary) + "\",ir:\""@ + shown_url(
            ir->0,
        ) + "\"};</script>\n"@
    } else {
        Seq::empty()
    };
    "<!DOCTYPE html>\n<html lang=\"en\">\n<head>\n"@ + ("<meta charset=\"utf-8\">\n"@
        + "<meta name=\"viewport\" content=\"width=device-width, initial-scale=1\">\n"@
        + "<title>"@ + text::escaped_attr(config.title) + "</title>\n"@ + Seq::new(
        fonts.len(),
        |i: int| font_link(fonts[i]),
    ).flatten() + Seq::new(css.len(), |i: int| css_link(css[i])).flatten() + Seq::new(
        js.len(),
        |i: int| js_link(js[i]),
    ).flatten() + style) + "</head>\n<body"@ + class + ">\n"@ + prefix + app
        + "\n"@ + script + page_js + "\n"@ + wasm + ("<script nonce=\""@ + nonce
        + "\">if('serviceWorker' in navigator)navigator.serviceWorker.register('/sw.js');</script>\n"@)
        + "</body>\n</html>"@
}

// ---------------------------------------------------------------------------
// The whole page
// ---------------------------------------------------------------------------

proof fn links_are_joined(before: Seq<char>, names: Seq<Seq<char>>, behind: Seq<char>)
    ensures
        template::links_html(before, template::asset_urls(names), behind) == Seq::new(
            names.len(),
            |i: int| before + shown_url(names[i]) + behind,
        ).flatten(),
    decreases names.len(),
{
    let links = Seq::new(names.len(), |i: int| before + shown_url(names[i]) + behind);
    let urls = template::asset_urls(names);
    links.lemma_flatten_and_flatten_alt_are_equivalent();
    if names.len() > 0 {
        let init = names.drop_last();
        let before_last = Seq::new(init.len(), |i: int| before + shown_url(init[i]) + behind);
        links_are_joined(before, init, behind);
        before_last.lemma_flatten_and_flatten_alt_are_equivalent();
        assert(links.drop_last() =~= before_last);
        assert(urls.drop_last() =~= template::asset_urls(init));
        assert(urls.last() == "/_assets/"@ + names.last());
    } else {
        assert(links.flatten_alt() =~= Seq::empty());
    }
}

proof fn all_links(fonts: Seq<Seq<char>>, css: Seq<Seq<char>>, js: Seq<Seq<char>>)
    ensures
        template::links_html(
            "<link rel=\"preload\" href=\""@,
            template::asset_urls(fonts),
            "\" as=\"font\" type=\"font/woff2\" crossorigin>\n"@,
        ) == Seq::new(fonts.len(), |i: int| font_link(fonts[i])).flatten(),
        template::links_html(
            "<link rel=\"stylesheet\" href=\""@,
            template::asset_urls(css),
            "\">\n"@,
        ) == Seq::new(css.len(), |i: int| css_link(css[i])).flatten(),
        template::links_html(
            "<link rel=\"modulepreload\" href=\""@,
            template::asset_urls(js),
            "\">\n"@,
        ) == Seq::new(js.len(), |i: int| js_link(js[i])).flatten(),
{
    links_are_joined(
        "<link rel=\"preload\" href=\""@,
        fonts,
        "\" as=\"font\" type=\"font/woff2\" crossorigin>\n"@,
    );
    links_are_joined("<link rel=\"stylesheet\" href=\""@, css, "\">\n"@);
    links_are_joined("<link rel=\"modulepreload\" href=\""@, js, "\">\n"@);
    assert(Seq::new(fonts.len(), |i: int| font_link(fonts[i])) =~= Seq::new(
        fonts.len(),
        |i: int|
            "<link rel=\"preload\" href=\""@ + shown_url(fonts[i])
                + "\" as=\"font\" type=\"font/woff2\" crossorigin>\n"@,
    ));
    assert(Seq::new(css.len(), |i: int| css_link(css[i])) =~= Seq::new(
        css.len(),
        |i: int| "<link rel=\"stylesheet\" href=\""@ + shown_url(css[i]) + "\">\n"@,
    ));
    assert(Seq::new(js.len(), |i: int| js_link(js[i])) =~= Seq::new(
        js.len(),
        |i: int| "<link rel=\"modulepreload\" href=\""@ + shown_url(js[i]) + "\">\n"@,
    ));
}

/// The page of a route that the manifest knows is put together from the files that
/// the manifest lists for it: a link for each font, each stylesheet and each script,
/// in the order of the lists, the last script as the page's own, and the renderer
/// where both the manifest and the route have one.
pub proof fn page_is_put_together(config: ConfigView, nonce: Seq<char>, app: Seq<char>, r: int)
    requires
        types::manifest_ok(config.manifest),
        0 <= r < config.manifest.routes.len(),
        config.manifest.routes[r].0 == config.route_pattern,
    ensures
        ({
            let route = config.manifest.routes[r].1;
            template::shell_html(config, nonce, app) == page_of(
                config,
                nonce,
                app,
                route.fonts,
                route.css,
                route.js,
                route.ir,
            )
        }),
{
    let route = config.manifest.routes[r].1;
    types::lookup_finds_binding(config.manifest.routes, config.route_pattern);
    assert(types::bound(config.manifest.routes, config.route_pattern) == Some(route));
    all_links(route.fonts, route.css, route.js);
}

/// The page of a route that the manifest does not know links no files and has no
/// script of its own.
pub proof fn page_without_a_route(config: ConfigView, nonce: Seq<char>, app: Seq<char>)
    requires
        types::manifest_ok(config.manifest),
        forall|r: int|
            0 <= r < config.manifest.routes.len() ==> (#[trigger] config.manifest.routes[r]).0
                != config.route_pattern,
    ensures
        template::shell_html(config, nonce, app) == page_of(
            config,
            nonce,
            app,
            Seq::empty(),
            Seq::empty(),
            Seq::empty(),
            None,
        ),
{
    let none = Seq::<Seq<char>>::empty();
    types::lookup_finds_binding(config.manifest.routes, config.route_pattern);
    all_links(none, none, none);
    assert(template::asset_urls(none) =~= none);
}

/// A page is its shell around the app's element, by its mode: an empty element in Phase
/// 1, what the walk gives in Phase 2, and an empty element there too where the module
/// or the slots are missing or the walk fails.
pub proof fn pages_go_by_their_mode(config: ConfigView, nonce: Seq<char>, body: Seq<char>)
    ensures
        template::page_html(config, nonce) == template::shell_html(
            config,
            nonce,
            app_element(config),
        ),
        template::phase1_html(config, nonce) == template::shell_html(
            config,
            nonce,
            "<div id=\"app\"></div>"@,
        ),
        template::phase2_html(config, nonce) == template::shell_html(
            config,
            nonce,
            app_element(
                (ConfigView { render_mode: RenderMode::Phase2SsrReconcile, ..config }),
            ),
        ),
        template::app_around(None) == "<div id=\"app\"></div>"@,
        template::app_around(Some(body)) == "<div id=\"app\" data-forma-ssr>"@ + body + "</div>"@,
        config.ir_module is Some && config.slots is Some ==> (match model::html_of(
            config.ir_module->0,
            config.slots->0,
        ) {
            Ok(html) => template::ssr_body(config) == Some(html),
            Err(_) => template::ssr_body(config) is None,
        }),
        config.ir_module is None || config.slots is None ==> template::ssr_body(config) is None,
{
}

// ---------------------------------------------------------------------------
// The files of the route
// ---------------------------------------------------------------------------

/// `a` and `b` stand in `hay`, `b` behind the end of `a`.
pub open spec fn found_in_order(hay: Seq<char>, a: Seq<char>, b: Seq<char>) -> bool {
    exists|p: int, q: int|
        #[trigger] text::found_at(hay, a, p) && #[trigger] text::found_at(hay, b, q) && p + a.len()
            <= q
}

proof fn found_between(front: Seq<char>, part: Seq<char>, back: Seq<char>, needle: Seq<char>, p: int)
    requires
        text::found_at(part, needle, p),
    ensures
        text::found_at(front + part + back, needle, front.len() + p),
{
    let hay = front + part + back;
    let at = front.len() + p;
    assert(hay.subrange(at, at + needle.len()) =~= part.subrange(p, p + needle.len()));
}

/// Where the pieces before number `i` of a run of texts end.
pub open spec fn offset_of(texts: Seq<Seq<char>>, i: int) -> int
    decreases i,
{
    if i <= 0 {
        0
    } else {
        offset_of(texts, i - 1) + texts[i - 1].len()
    }
}

proof fn offset_in_front(texts: Seq<Seq<char>>, i: int)
    requires
        0 <= i < texts.len(),
    ensures
        offset_of(texts.drop_last(), i) == offset_of(texts, i),
    decreases i,
{
    if i > 0 {
        offset_in_front(texts, i - 1);
        assert(texts.drop_last()[i - 1] == texts[i - 1]);
    }
}

proof fn offsets_rise(texts: Seq<Seq<char>>, i: int, j: int)
    requires
        0 <= i < j <= texts.len(),
    ensures
        offset_of(texts, i) + texts[i].len() <= offset_of(texts, j),
    decreases j,
{
    if i < j - 1 {
        offsets_rise(texts, i, j - 1);
    }
}

proof fn piece_is_found(texts: Seq<Seq<char>>, i: int)
    requires
        0 <= i < texts.len(),
    ensures
        texts.flatten().len() == offset_of(texts, texts.len() as int),
        text::found_at(texts.flatten(), texts[i], offset_of(texts, i)),
    decreases texts.len(),
{
    let init = texts.drop_last();
    let last = texts.len() - 1;
    texts.lemma_flatten_and_flatten_alt_are_equivalent();
    init.lemma_flatten_and_flatten_alt_are_equivalent();
    assert(texts.flatten() == init.flatten() + texts[last]);
    offset_in_front(texts, last);
    if texts.len() > 1 {
        piece_is_found(init, 0);
    } else {
        assert(init.flatten_alt() =~= Seq::empty());
    }
    assert(init.flatten().len() == offset_of(texts, last));
    if i < last {
        piece_is_found(init, i);
        offset_in_front(texts, i);
        assert(init[i] == texts[i]);
        found_between(Seq::empty(), init.flatten(), texts[last], texts[i], offset_of(texts, i));
        assert(Seq::<char>::empty() + init.flatten() + texts[last] =~= texts.flatten());
    } else {
        assert(text::found_at(texts[last], texts[last], 0)) by {
            assert(texts[last].subrange(0, texts[last].len() as int) =~= texts[last]);
        }
        found_between(init.flatten(), texts[last], Seq::empty(), texts[last], 0);
        assert(init.flatten() + texts[last] + Seq::<char>::empty() =~= texts.flatten());
    }
}

proof fn joins(x: Seq<char>, y: Seq<char>, z: Seq<char>)
    ensures
        (x + y) + z == x + (y + z),
{
    assert((x + y) + z =~= x + (y + z));
}

proof fn tail_is_joined(
    head: Seq<char>,
    t1: Seq<char>,
    t2: Seq<char>,
    t3: Seq<char>,
    t4: Seq<char>,
    t5: Seq<char>,
    t6: Seq<char>,
    t7: Seq<char>,
    t8: Seq<char>,
    t9: Seq<char>,
    t10: Seq<char>,
    t11: Seq<char>,
    t12: Seq<char>,
) -> (back: Seq<char>)
    ensures
        head + t1 + t2 + t3 + t4 + t5 + t6 + t7 + t8 + t9 + t10 + t11 + t12 == head + back,
{
    let x0 = head;
    let x1 = x0 + t1;
    let x2 = x1 + t2;
    let x3 = x2 + t3;
    let x4 = x3 + t4;
    let x5 = x4 + t5;
    let x6 = x5 + t6;
    let x7 = x6 + t7;
    let x8 = x7 + t8;
    let x9 = x8 + t9;
    let x10 = x9 + t10;
    let x11 = x10 + t11;
    let u12 = t12;
    let u11 = t11 + u12;
    joins(x10, t11, u12);
    let u10 = t10 + u11;
    joins(x9, t10, u11);
    let u9 = t9 + u10;
    joins(x8, t9, u10);
    let u8 = t8 + u9;
    joins(x7, t8, u9);
    let u7 = t7 + u8;
    joins(x6, t7, u8);
    let u6 = t6 + u7;
    joins(x5, t6, u7);
    let u5 = t5 + u6;
    joins(x4, t5, u6);
    let u4 = t4 + u5;
    joins(x3, t4, u5);
    let u3 = t3 + u4;
    joins(x2, t3, u4);
    let u2 = t2 + u3;
    joins(x1, t2, u3);
    let u1 = t1 + u2;
    joins(x0, t1, u2);
    u1
}

proof fn head_is_regrouped(
    begin: Seq<char>,
    titled: Seq<char>,
    fonts: Seq<char>,
    css: Seq<char>,
    js: Seq<char>,
    style: Seq<char>,
    rest: Seq<char>,
)
    ensures
        begin + (titled + fonts + css + js + style) + rest == (begin + titled) + (fonts + css + js)
            + (style + rest),
{
    assert(begin + (titled + fonts + css + js + style) + rest =~= (begin + titled) + (fonts + css
        + js) + (style + rest));
}

/// A page as the part before its links, the links of each kind, and the rest.
proof fn page_holds_links(config: ConfigView, nonce: Seq<char>, r: int) -> (parts: (
    Seq<char>,
    Seq<char>,
))
    requires
        types::manifest_ok(config.manifest),
        0 <= r < config.manifest.routes.len(),
        config.manifest.routes[r].0 == config.route_pattern,
    ensures
        ({
            let route = config.manifest.routes[r].1;
            template::page_html(config, nonce) == parts.0 + (Seq::new(
                route.fonts.len(),
                |i: int| font_link(route.fonts[i]),
            ).flatten() + Seq::new(route.css.len(), |i: int| css_link(route.css[i])).flatten()
                + Seq::new(route.js.len(), |i: int| js_link(route.js[i])).flatten()) + parts.1
        }),
{
    let route = config.manifest.routes[r].1;
    let fonts = Seq::new(route.fonts.len(), |i: int| font_link(route.fonts[i])).flatten();
    let css = Seq::new(route.css.len(), |i: int| css_link(route.css[i])).flatten();
    let js = Seq::new(route.js.len(), |i: int| js_link(route.js[i])).flatten();
    let front = "<!DOCTYPE html>\n<html lang=\"en\">\n<head>\n"@ + ("<meta charset=\"utf-8\">\n"@
        + "<meta name=\"viewport\" content=\"width=device-width, initial-scale=1\">\n"@
        + "<title>"@ + text::escaped_attr(config.title) + "</title>\n"@);
    let style = template::style_html(nonce, config.personality_css);
    let begin = "<!DOCTYPE html>\n<html lang=\"en\">\n<head>\n"@;
    let titled = "<meta charset=\"utf-8\">\n"@
        + "<meta name=\"viewport\" content=\"width=device-width, initial-scale=1\">\n"@
        + "<title>"@ + text::escaped_attr(config.title) + "</title>\n"@;
    let head = begin + (titled + fonts + css + js + style);
    let rest = tail_is_joined(
        head,
        "</head>\n<body"@,
        template::class_html(config.body_class),
        ">\n"@,
        template::or_empty(config.body_prefix),
        app_element(config),
        "\n"@,
        template::config_html(nonce, config.config_script),
        template::page_js_html(nonce, template::asset_urls(route.js)),
        "\n"@,
        template::wasm_html(nonce, config.manifest, config.route_pattern),
        template::sw_html(nonce),
        "</body>\n</html>"@,
    );
    types::lookup_finds_binding(config.manifest.routes, config.route_pattern);
    all_links(route.fonts, route.css, route.js);
    assert(template::page_html(config, nonce) == head + rest);
    head_is_regrouped(begin, titled, fonts, css, js, style, rest);
    let back = style + rest;
    (front, back)
}

/// Every file that the manifest lists for the route is linked in the page: each font
/// is preloaded, each stylesheet is linked and each script is preloaded.
pub proof fn every_file_is_linked(config: ConfigView, nonce: Seq<char>, r: int, i: int)
    requires
        types::manifest_ok(config.manifest),
        0 <= r < config.manifest.routes.len(),
        config.manifest.routes[r].0 == config.route_pattern,
        0 <= i,
    ensures
        ({
            let route = config.manifest.routes[r].1;
            let page = template::page_html(config, nonce);
            &&& i < route.fonts.len() ==> text::has_text(page, font_link(route.fonts[i]))
            &&& i < route.css.len() ==> text::has_text(page, css_link(route.css[i]))
            &&& i < route.js.len() ==> text::has_text(page, js_link(route.js[i]))
        }),
{
    let route = config.manifest.routes[r].1;
    let (front, back) = page_holds_links(config, nonce, r);
    let fonts = Seq::new(route.fonts.len(), |i: int| font_link(route.fonts[i]));
    let css = Seq::new(route.css.len(), |i: int| css_link(route.css[i]));
    let js = Seq::new(route.js.len(), |i: int| js_link(route.js[i]));
    if i < fonts.len() {
        link_is_found(front, fonts, Seq::empty(), css.flatten() + js.flatten(), back, i);
        assert(Seq::<char>::empty() + fonts.flatten() + (css.flatten() + js.flatten())
            =~= fonts.flatten() + css.flatten() + js.flatten());
    }
    if i < css.len() {
        link_is_found(front, css, fonts.flatten(), js.flatten(), back, i);
    }
    if i < js.len() {
        link_is_found(front, js, fonts.flatten() + css.flatten(), Seq::empty(), back, i);
        assert((fonts.flatten() + css.flatten()) + js.flatten() + Seq::<char>::empty()
            =~= fonts.flatten() + css.flatten() + js.flatten());
    }
}

proof fn link_is_found(
    front: Seq<char>,
    links: Seq<Seq<char>>,
    left: Seq<char>,
    right: Seq<char>,
    back: Seq<char>,
    i: int,
)
    requires
        0 <= i < links.len(),
    ensures
        text::found_at(
            front + (left + links.flatten() + right) + back,
            links[i],
            front.len() + left.len() + offset_of(links, i),
        ),
{
    piece_is_found(links, i);
    found_between(left, links.flatten(), right, links[i], offset_of(links, i));
    found_between(
        front,
        left + links.flatten() + right,
        back,
        links[i],
        left.len() + offset_of(links, i),
    );
}

/// Links stand in the page in the order of the manifest's lists.
pub proof fn files_are_linked_in_order(config: ConfigView, nonce: Seq<char>, r: int, i: int, j: int)
    requires
        types::manifest_ok(config.manifest),
        0 <= r < config.manifest.routes.len(),
        config.manifest.routes[r].0 == config.route_pattern,
        0 <= i < j,
    ensures
        ({
            let route = config.manifest.routes[r].1;
            let page = template::page_html(config, nonce);
            &&& j < route.fonts.len() ==> found_in_order(
                page,
                font_link(route.fonts[i]),
                font_link(route.fonts[j]),
            )
            &&& j < route.css.len() ==> found_in_order(
                page,
                css_link(route.css[i]),
                css_link(route.css[j]),
            )
            &&& j < route.js.len() ==> found_in_order(
                page,
                js_link(route.js[i]),
                js_link(route.js[j]),
            )
        }),
{
    let route = config.manifest.routes[r].1;
    let (front, back) = page_holds_links(config, nonce, r);
    let fonts = Seq::new(route.fonts.len(), |i: int| font_link(route.fonts[i]));
    let css = Seq::new(route.css.len(), |i: int| css_link(route.css[i]));
    let js = Seq::new(route.js.len(), |i: int| js_link(route.js[i]));
    let none = Seq::<char>::empty();
    if j < fonts.len() {
        link_is_found(front, fonts, none, css.flatten() + js.flatten(), back, i);
        link_is_found(front, fonts, none, css.flatten() + js.flatten(), back, j);
        offsets_rise(fonts, i, j);
        assert(none + fonts.flatten() + (css.flatten() + js.flatten()) =~= fonts.flatten()
            + css.flatten() + js.flatten());
    }
    if j < css.len() {
        link_is_found(front, css, fonts.flatten(), js.flatten(), back, i);
        link_is_found(front, css, fonts.flatten(), js.flatten(), back, j);
        offsets_rise(css, i, j);
    }
    if j < js.len() {
        link_is_found(front, js, fonts.flatten() + css.flatten(), none, back, i);
        link_is_found(front, js, fonts.flatten() + css.flatten(), none, back, j);
        offsets_rise(js, i, j);
        assert((fonts.flatten() + css.flatten()) + js.flatten() + none =~= fonts.flatten()
            + css.flatten() + js.flatten());
    }
}

} // verus!
