//! Static assets: content negotiation, response headers and text assets.

use vstd::prelude::*;

use crate::text;

verus! {

// ---------------------------------------------------------------------------
// Replies
// ---------------------------------------------------------------------------

/// What a request for a file is answered with.
#[derive(Debug)]
pub enum Reply {
    /// The file, behind its response headers (name and value).
    Found { headers: Vec<(String, String)>, body: Vec<u8> },
    /// There is no such file.
    NotFound,
}

/// What a [`Reply`] holds.
pub enum ReplyView {
    Found { headers: Seq<(Seq<char>, Seq<char>)>, body: Seq<u8> },
    NotFound,
}

/// What a run of headers holds.
pub open spec fn header_views(headers: Seq<(String, String)>) -> Seq<(Seq<char>, Seq<char>)> {
    Seq::new(headers.len(), |i: int| (headers[i].0@, headers[i].1@))
}

impl View for Reply {
    type V = ReplyView;

    open spec fn view(&self) -> ReplyView {
        match *self {
            Reply::Found { headers, body } => ReplyView::Found {
                headers: header_views(headers@),
                body: body@,
            },
            Reply::NotFound => ReplyView::NotFound,
        }
    }
}

/// Append a header.
pub(crate) fn push_header(headers: &mut Vec<(String, String)>, name: &str, value: &str)
    ensures
        header_views(final(headers)@) == header_views(old(headers)@).push((name@, value@)),
{
    headers.push((name.to_owned(), value.to_owned()));
    proof {
        assert(header_views(headers@) =~= header_views(old(headers)@).push((name@, value@)));
    }
}

// ---------------------------------------------------------------------------
// Content negotiation
// ---------------------------------------------------------------------------

/// A content encoding of stored files.
#[derive(Debug, Clone, Copy, PartialEq, Eq, Structural)]
pub enum Encoding {
    Brotli,
    Gzip,
}

/// The name of an encoding in the Content-Encoding header.
pub open spec fn encoding_text(encoding: Encoding) -> Seq<char> {
    match encoding {
        Encoding::Brotli => "br"@,
        Encoding::Gzip => "gzip"@,
    }
}

/// What an encoding appends to a file's name.
pub open spec fn encoding_suffix(encoding: Encoding) -> Seq<char> {
    match encoding {
        Encoding::Brotli => ".br"@,
        Encoding::Gzip => ".gz"@,
    }
}

/// An Accept-Encoding header names an encoding.
pub open spec fn accepted(accept: Seq<char>, encoding: Encoding) -> bool {
    text::has_text(accept, encoding_text(encoding))
}

/// Whether an Accept-Encoding header names an encoding.
pub fn accepts(accept: &str, encoding: Encoding) -> (res: bool)
    ensures
        res == accepted(accept@, encoding),
{
    text::contains_text(
        accept,
        match encoding {
            Encoding::Brotli => "br",
            Encoding::Gzip => "gzip",
        },
    )
}

/// The name under which the encoded form of a file is stored.
pub fn encoded_name(filename: &str, encoding: Encoding) -> (res: String)
    ensures
        res@ == filename@ + encoding_suffix(encoding),
{
    let mut name = filename.to_owned();
    name.push_str(
        match encoding {
            Encoding::Brotli => ".br",
            Encoding::Gzip => ".gz",
        },
    );
    name
}

/// The MIME type of a file, by its name.
pub open spec fn mime_text(filename: Seq<char>) -> Seq<char> {
    if text::has_suffix(filename, ".js"@) {
        "application/javascript; charset=utf-8"@
    } else if text::has_suffix(filename, ".css"@) {
        "text/css; charset=utf-8"@
    } else if text::has_suffix(filename, ".woff2"@) {
        "font/woff2"@
    } else if text::has_suffix(filename, ".wasm"@) {
        "application/wasm"@
    } else if text::has_suffix(filename, ".json"@) {
        "application/json"@
    } else if text::has_suffix(filename, ".html"@) {
        "text/html; charset=utf-8"@
    } else if text::has_suffix(filename, ".svg"@) {
        "image/svg+xml"@
    } else {
        "application/octet-stream"@
    }
}

/// The MIME type of a file, by its name.
pub fn mime_for(filename: &str) -> (res: &'static str)
    ensures
        res@ == mime_text(filename@),
{
    if text::ends_with_text(filename, ".js") {
        "application/javascript; charset=utf-8"
    } else if text::ends_with_text(filename, ".css") {
        "text/css; charset=utf-8"
    } else if text::ends_with_text(filename, ".woff2") {
        "font/woff2"
    } else if text::ends_with_text(filename, ".wasm") {
        "application/wasm"
    } else if text::ends_with_text(filename, ".json") {
        "application/json"
    } else if text::ends_with_text(filename, ".html") {
        "text/html; charset=utf-8"
    } else if text::ends_with_text(filename, ".svg") {
        "image/svg+xml"
    } else {
        "application/octet-stream"
    }
}

/// The headers of an asset.
pub open spec fn asset_headers(filename: Seq<char>, encoding: Option<Encoding>) -> Seq<
    (Seq<char>, Seq<char>),
> {
    let common = seq![
        ("content-type"@, mime_text(filename)),
        ("cache-control"@, "public, max-age=31536000, immutable"@),
        ("vary"@, "accept-encoding"@),
        ("x-content-type-options"@, "nosniff"@),
    ];
    match encoding {
        Some(encoding) => common.push(("content-encoding"@, encoding_text(encoding))),
        None => common,
    }
}

/// The reply that holds an asset.
pub fn asset_response(filename: &str, data: Vec<u8>, encoding: Option<Encoding>) -> (res: Reply)
    ensures
        res@ == (ReplyView::Found {
            headers: asset_headers(filename@, encoding),
            body: data@,
        }),
{
    let mut headers: Vec<(String, String)> = Vec::new();
    push_header(&mut headers, "content-type", mime_for(filename));
    push_header(&mut headers, "cache-control", "public, max-age=31536000, immutable");
    push_header(&mut headers, "vary", "accept-encoding");
    push_header(&mut headers, "x-content-type-options", "nosniff");
    if let Some(encoding) = encoding {
        push_header(
            &mut headers,
            "content-encoding",
            match encoding {
                Encoding::Brotli => "br",
                Encoding::Gzip => "gzip",
            },
        );
    }
    proof {
        assert(header_views(headers@) =~= asset_headers(filename@, encoding));
    }
    Reply::Found { headers, body: data }
}

/// The answer to a request for an asset, given what is stored under its encoded
/// names and under its own name: brotli where the client accepts it and it is
/// stored, else gzip likewise, else the raw file.
pub open spec fn asset_reply(
    filename: Seq<char>,
    accept: Seq<char>,
    br: Option<Seq<u8>>,
    gz: Option<Seq<u8>>,
    raw: Option<Seq<u8>>,
) -> ReplyView {
    if accepted(accept, Encoding::Brotli) && br is Some {
        ReplyView::Found {
            headers: asset_headers(filename, Some(Encoding::Brotli)),
            body: br->0,
        }
    } else if accepted(accept, Encoding::Gzip) && gz is Some {
        ReplyView::Found {
            headers: asset_headers(filename, Some(Encoding::Gzip)),
            body: gz->0,
        }
    } else if raw is Some {
        ReplyView::Found { headers: asset_headers(filename, None), body: raw->0 }
    } else {
        ReplyView::NotFound
    }
}

/// The contents of a file that may be missing.
pub open spec fn file_view(file: Option<Vec<u8>>) -> Option<Seq<u8>> {
    match file {
        Some(data) => Some(data@),
        None => None,
    }
}

/// Serve a static asset with content negotiation (brotli, gzip).
///
/// `br` and `gz` are what is stored under the [`encoded_name`] of either
/// encoding, and `raw` what is stored under the file's own name. Brotli is tried
/// first, then gzip, then raw.
pub fn serve_asset(
    filename: &str,
    accept: &str,
    br: Option<Vec<u8>>,
    gz: Option<Vec<u8>>,
    raw: Option<Vec<u8>>,
) -> (res: Reply)
    ensures
        res@ == asset_reply(filename@, accept@, file_view(br), file_view(gz), file_view(raw)),
{
    if accepts(accept, Encoding::Brotli) {
        if let Some(data) = br {
            return asset_response(filename, data, Some(Encoding::Brotli));
        }
    }
    if accepts(accept, Encoding::Gzip) {
        if let Some(data) = gz {
            return asset_response(filename, data, Some(Encoding::Gzip));
        }
    }
    match raw {
        Some(data) => asset_response(filename, data, None),
        None => Reply::NotFound,
    }
}

// ---------------------------------------------------------------------------
// Text assets
// ---------------------------------------------------------------------------

/// A file as text, or the words that say why it cannot be had.
pub open spec fn asset_text(name: Seq<char>, file: Option<Seq<u8>>) -> Result<
    Seq<char>,
    Seq<char>,
> {
    match file {
        None => Err("Missing asset: "@ + name),
        Some(data) => if vstd::utf8::valid_utf8(data) {
            Ok(vstd::utf8::decode_utf8(data))
        } else {
            Err("Non-UTF8 asset: "@ + name)
        },
    }
}

/// Load a text asset, given what is stored under its name.
pub fn asset(name: &str, file: Option<Vec<u8>>) -> (res: Result<String, String>)
    ensures
        match res {
            Ok(words) => asset_text(name@, file_view(file)) == Ok::<Seq<char>, Seq<char>>(words@),
            Err(words) => asset_text(name@, file_view(file)) == Err::<Seq<char>, Seq<char>>(words@),
        },
{
    match file {
        None => {
            let mut words = "Missing asset: ".to_owned();
            words.push_str(name);
            Err(words)
        },
        Some(data) => match text::decode_text(data.as_slice()) {
            Ok(words) => Ok(words),
            Err(_) => {
                let mut words = "Non-UTF8 asset: ".to_owned();
                words.push_str(name);
                Err(words)
            },
        },
    }
}

// ---------------------------------------------------------------------------
// Laws
// ---------------------------------------------------------------------------

/// A file that is stored is served to every client, encoded only where the
/// client accepts the encoding; a file that is not stored is not found.
pub proof fn stored_assets_are_served(
    filename: Seq<char>,
    accept: Seq<char>,
    br: Option<Seq<u8>>,
    gz: Option<Seq<u8>>,
    raw: Seq<u8>,
)
    ensures
        asset_reply(filename, accept, br, gz, Some(raw)) is Found,
        asset_reply(filename, accept, None, None, None) is NotFound,
        !accepted(accept, Encoding::Brotli) ==> asset_reply(filename, accept, br, gz, Some(raw))
            == asset_reply(filename, accept, None, gz, Some(raw)),
        !accepted(accept, Encoding::Gzip) ==> asset_reply(filename, accept, br, gz, Some(raw))
            == asset_reply(filename, accept, br, None, Some(raw)),
        asset_reply(filename, accept, None, None, Some(raw)) == (ReplyView::Found {
            headers: asset_headers(filename, None),
            body: raw,
        }),
{
}

proof fn ends_in(stem: Seq<char>, suffix: Seq<char>)
    ensures
        text::has_suffix(stem + suffix, suffix),
{
    assert((stem + suffix).subrange(stem.len() as int, (stem + suffix).len() as int) =~= suffix);
}

proof fn last_of_suffix(filename: Seq<char>, suffix: Seq<char>, k: int)
    requires
        text::has_suffix(filename, suffix),
        0 < k <= suffix.len(),
    ensures
        filename.len() >= suffix.len(),
        filename[filename.len() - k] == suffix[suffix.len() - k],
{
    let from = filename.len() - suffix.len();
    assert(filename.subrange(from, filename.len() as int)[suffix.len() - k] == filename[from
        + suffix.len() - k]);
}

proof fn suffixes_differ(filename: Seq<char>, a: Seq<char>, b: Seq<char>, k: int)
    requires
        text::has_suffix(filename, a),
        0 < k <= a.len(),
        k <= b.len(),
        a[a.len() - k] != b[b.len() - k],
    ensures
        !text::has_suffix(filename, b),
{
    last_of_suffix(filename, a, k);
    if text::has_suffix(filename, b) {
        last_of_suffix(filename, b, k);
    }
}

/// The MIME type goes by the end of a file's name, whatever stands before it.
#[verifier::spinoff_prover]
#[verifier::rlimit(40)]
pub proof fn types_go_by_the_end_of_the_name(filename: Seq<char>, stem: Seq<char>)
    ensures
        filename == stem + ".js"@ ==> mime_text(filename) == "application/javascript; charset=utf-8"@,
        filename == stem + ".css"@ ==> mime_text(filename) == "text/css; charset=utf-8"@,
        filename == stem + ".woff2"@ ==> mime_text(filename) == "font/woff2"@,
        filename == stem + ".wasm"@ ==> mime_text(filename) == "application/wasm"@,
        filename == stem + ".json"@ ==> mime_text(filename) == "application/json"@,
        filename == stem + ".html"@ ==> mime_text(filename) == "text/html; charset=utf-8"@,
        filename == stem + ".svg"@ ==> mime_text(filename) == "image/svg+xml"@,
        !text::has_suffix(filename, ".js"@)
            && !text::has_suffix(filename, ".css"@)
            && !text::has_suffix(filename, ".woff2"@)
            && !text::has_suffix(filename, ".wasm"@)
            && !text::has_suffix(filename, ".json"@)
            && !text::has_suffix(filename, ".html"@)
            && !text::has_suffix(filename, ".svg"@) ==> mime_text(filename)
            == "application/octet-stream"@,
{
    reveal_strlit(".js");
    reveal_strlit(".css");
    reveal_strlit(".woff2");
    reveal_strlit(".wasm");
    reveal_strlit(".json");
    reveal_strlit(".html");
    reveal_strlit(".svg");
    if filename == stem + ".js"@ {
        ends_in(stem, ".js"@);
    }
    if filename == stem + ".css"@ {
        ends_in(stem, ".css"@);
        suffixes_differ(filename, ".css"@, ".js"@, 2);
    }
    if filename == stem + ".woff2"@ {
        ends_in(stem, ".woff2"@);
        suffixes_differ(filename, ".woff2"@, ".js"@, 1);
        suffixes_differ(filename, ".woff2"@, ".css"@, 1);
    }
    if filename == stem + ".wasm"@ {
        ends_in(stem, ".wasm"@);
        suffixes_differ(filename, ".wasm"@, ".js"@, 1);
        suffixes_differ(filename, ".wasm"@, ".css"@, 1);
        suffixes_differ(filename, ".wasm"@, ".woff2"@, 1);
    }
    if filename == stem + ".json"@ {
        ends_in(stem, ".json"@);
        suffixes_differ(filename, ".json"@, ".js"@, 1);
        suffixes_differ(filename, ".json"@, ".css"@, 1);
        suffixes_differ(filename, ".json"@, ".woff2"@, 1);
        suffixes_differ(filename, ".json"@, ".wasm"@, 1);
    }
    if filename == stem + ".html"@ {
        ends_in(stem, ".html"@);
        suffixes_differ(filename, ".html"@, ".js"@, 1);
        suffixes_differ(filename, ".html"@, ".css"@, 1);
        suffixes_differ(filename, ".html"@, ".woff2"@, 1);
        suffixes_differ(filename, ".html"@, ".wasm"@, 1);
        suffixes_differ(filename, ".html"@, ".json"@, 1);
    }
    if filename == stem + ".svg"@ {
        ends_in(stem, ".svg"@);
        suffixes_differ(filename, ".svg"@, ".js"@, 1);
        suffixes_differ(filename, ".svg"@, ".css"@, 1);
        suffixes_differ(filename, ".svg"@, ".woff2"@, 1);
        suffixes_differ(filename, ".svg"@, ".wasm"@, 1);
        suffixes_differ(filename, ".svg"@, ".json"@, 1);
        suffixes_differ(filename, ".svg"@, ".html"@, 1);
    }
}

/// A header is there, and has no value but the given one.
pub open spec fn only_value(
    headers: Seq<(Seq<char>, Seq<char>)>,
    name: Seq<char>,
    value: Seq<char>,
) -> bool {
    &&& exists|i: int| 0 <= i < headers.len() && #[trigger] headers[i] == (name, value)
    &&& forall|i: int|
        0 <= i < headers.len() && (#[trigger] headers[i]).0 == name ==> headers[i].1 == value
}

/// A header is not there.
pub open spec fn no_value(headers: Seq<(Seq<char>, Seq<char>)>, name: Seq<char>) -> bool {
    forall|i: int| 0 <= i < headers.len() ==> (#[trigger] headers[i]).0 != name
}

proof fn header_names_differ()
    ensures
        "content-type"@ != "cache-control"@,
        "content-type"@ != "vary"@,
        "content-type"@ != "x-content-type-options"@,
        "content-type"@ != "content-encoding"@,
        "cache-control"@ != "vary"@,
        "cache-control"@ != "x-content-type-options"@,
        "cache-control"@ != "content-encoding"@,
        "vary"@ != "x-content-type-options"@,
        "vary"@ != "content-encoding"@,
        "x-content-type-options"@ != "content-encoding"@,
{
    reveal_strlit("content-type");
    reveal_strlit("cache-control");
    reveal_strlit("vary");
    reveal_strlit("x-content-type-options");
    reveal_strlit("content-encoding");
    assert("content-type"@.len() == 12 && "cache-control"@.len() == 13 && "vary"@.len() == 4
        && "x-content-type-options"@.len() == 22 && "content-encoding"@.len() == 16);
}

proof fn headers_of_an_asset(filename: Seq<char>, encoding: Option<Encoding>)
    ensures
        ({
            let headers = asset_headers(filename, encoding);
            &&& only_value(headers, "content-type"@, mime_text(filename))
            &&& only_value(headers, "cache-control"@, "public, max-age=31536000, immutable"@)
            &&& only_value(headers, "vary"@, "accept-encoding"@)
            &&& only_value(headers, "x-content-type-options"@, "nosniff"@)
            &&& encoding == Some(Encoding::Brotli) ==> only_value(
                headers,
                "content-encoding"@,
                "br"@,
            )
            &&& encoding == Some(Encoding::Gzip) ==> only_value(
                headers,
                "content-encoding"@,
                "gzip"@,
            )
            &&& encoding is None ==> no_value(headers, "content-encoding"@)
        }),
{
    header_names_differ();
    let headers = asset_headers(filename, encoding);
    assert(headers[0] == ("content-type"@, mime_text(filename)));
    assert(headers[1] == ("cache-control"@, "public, max-age=31536000, immutable"@));
    assert(headers[2] == ("vary"@, "accept-encoding"@));
    assert(headers[3] == ("x-content-type-options"@, "nosniff"@));
    if let Some(encoding) = encoding {
        assert(headers.len() == 5);
        assert(headers[4] == ("content-encoding"@, encoding_text(encoding)));
    } else {
        assert(headers.len() == 4);
    }
}

/// The content type of a found asset goes by the end of the requested file's name
/// alone, in whatever encoding the file is served.
pub proof fn content_type_goes_by_the_name(
    filename: Seq<char>,
    stem: Seq<char>,
    accept: Seq<char>,
    br: Option<Seq<u8>>,
    gz: Option<Seq<u8>>,
    raw: Option<Seq<u8>>,
)
    ensures
        match asset_reply(filename, accept, br, gz, raw) {
            ReplyView::Found { headers, body } => {
                &&& filename == stem + ".js"@ ==> only_value(
                    headers,
                    "content-type"@,
                    "application/javascript; charset=utf-8"@,
                )
                &&& filename == stem + ".css"@ ==> only_value(
                    headers,
                    "content-type"@,
                    "text/css; charset=utf-8"@,
                )
                &&& filename == stem + ".woff2"@ ==> only_value(
                    headers,
                    "content-type"@,
                    "font/woff2"@,
                )
                &&& filename == stem + ".wasm"@ ==> only_value(
                    headers,
                    "content-type"@,
                    "application/wasm"@,
                )
                &&& filename == stem + ".json"@ ==> only_value(
                    headers,
                    "content-type"@,
                    "application/json"@,
                )
                &&& filename == stem + ".html"@ ==> only_value(
                    headers,
                    "content-type"@,
                    "text/html; charset=utf-8"@,
                )
                &&& filename == stem + ".svg"@ ==> only_value(
                    headers,
                    "content-type"@,
                    "image/svg+xml"@,
                )
                &&& !text::has_suffix(filename, ".js"@)
                    && !text::has_suffix(filename, ".css"@)
                    && !text::has_suffix(filename, ".woff2"@)
                    && !text::has_suffix(filename, ".wasm"@)
                    && !text::has_suffix(filename, ".json"@)
                    && !text::has_suffix(filename, ".html"@)
                    && !text::has_suffix(filename, ".svg"@) ==> only_value(
                    headers,
                    "content-type"@,
                    "application/octet-stream"@,
                )
            },
            ReplyView::NotFound => true,
        },
{
    types_go_by_the_end_of_the_name(filename, stem);
    headers_of_an_asset(filename, None);
    headers_of_an_asset(filename, Some(Encoding::Brotli));
    headers_of_an_asset(filename, Some(Encoding::Gzip));
}

/// Two replies to requests for one file have the same content type, whatever the
/// clients accept and whatever is stored.
pub proof fn content_type_is_the_same_in_every_encoding(
    filename: Seq<char>,
    one: (Seq<char>, Option<Seq<u8>>, Option<Seq<u8>>, Option<Seq<u8>>),
    two: (Seq<char>, Option<Seq<u8>>, Option<Seq<u8>>, Option<Seq<u8>>),
    i: int,
    j: int,
)
    ensures
        match (
            asset_reply(filename, one.0, one.1, one.2, one.3),
            asset_reply(filename, two.0, two.1, two.2, two.3),
        ) {
            (
                ReplyView::Found { headers: a, body: x },
                ReplyView::Found { headers: b, body: y },
            ) => 0 <= i < a.len() && 0 <= j < b.len() && a[i].0 == "content-type"@ && b[j].0
                == "content-type"@ ==> a[i].1 == b[j].1,
            _ => true,
        },
{
    headers_of_an_asset(filename, None);
    headers_of_an_asset(filename, Some(Encoding::Brotli));
    headers_of_an_asset(filename, Some(Encoding::Gzip));
}

/// Brotli is served where the client names `br` and a brotli file is stored, else gzip
/// where it names `gzip` and a gzip file is stored, else the raw file. The reply holds
/// what is stored, says how it is encoded, is never to be asked for again, and depends
/// on what the client accepts.
pub proof fn assets_are_negotiated(
    filename: Seq<char>,
    accept: Seq<char>,
    br: Option<Seq<u8>>,
    gz: Option<Seq<u8>>,
    raw: Option<Seq<u8>>,
)
    ensures
        ({
            let by_br = text::has_text(accept, "br"@) && br is Some;
            let by_gz = !by_br && text::has_text(accept, "gzip"@) && gz is Some;
            match asset_reply(filename, accept, br, gz, raw) {
                ReplyView::Found { headers, body } => {
                    &&& by_br || by_gz || raw is Some
                    &&& by_br ==> body == br->0 && only_value(headers, "content-encoding"@, "br"@)
                    &&& by_gz ==> body == gz->0 && only_value(
                        headers,
                        "content-encoding"@,
                        "gzip"@,
                    )
                    &&& !by_br && !by_gz ==> body == raw->0 && no_value(
                        headers,
                        "content-encoding"@,
                    )
                    &&& only_value(
                        headers,
                        "cache-control"@,
                        "public, max-age=31536000, immutable"@,
                    )
                    &&& only_value(headers, "vary"@, "accept-encoding"@)
                    &&& only_value(headers, "x-content-type-options"@, "nosniff"@)
                },
                ReplyView::NotFound => !by_br && !by_gz && raw is None,
            }
        }),
{
    headers_of_an_asset(filename, None);
    headers_of_an_asset(filename, Some(Encoding::Brotli));
    headers_of_an_asset(filename, Some(Encoding::Gzip));
}

/// Encoded files are stored under the file's name with `.br` or `.gz` behind it.
pub proof fn encoded_files_have_suffixes(filename: Seq<char>)
    ensures
        filename + encoding_suffix(Encoding::Brotli) == filename.push('.').push('b').push('r'),
        filename + encoding_suffix(Encoding::Gzip) == filename.push('.').push('g').push('z'),
{
    reveal_strlit(".br");
    reveal_strlit(".gz");
    assert(filename + ".br"@ =~= filename.push('.').push('b').push('r'));
    assert(filename + ".gz"@ =~= filename.push('.').push('g').push('z'));
}

/// A text asset is the text of its file, character for character; a missing file and
/// one that is not UTF-8 are told apart by words that name the file.
pub proof fn text_assets_are_their_files(name: Seq<char>, words: Seq<char>, data: Seq<u8>)
    ensures
        asset_text(name, Some(vstd::utf8::encode_utf8(words))) == Ok::<Seq<char>, Seq<char>>(
            words,
        ),
        asset_text(name, None) == Err::<Seq<char>, Seq<char>>("Missing asset: "@ + name),
        !vstd::utf8::valid_utf8(data) ==> asset_text(name, Some(data)) == Err::<
            Seq<char>,
            Seq<char>,
        >("Non-UTF8 asset: "@ + name),
{
    vstd::utf8::encode_utf8_decode_utf8(words);
    vstd::utf8::encode_utf8_valid_utf8(words);
}

} // verus!
