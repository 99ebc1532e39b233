//! The service worker.

use vstd::prelude::*;

use crate::assets;
use crate::assets::{Reply, ReplyView};

verus! {

/// The answer to a request for the service worker, given what is stored as
/// `sw.js`.
pub open spec fn sw_reply(file: Option<Seq<u8>>) -> ReplyView {
    match file {
        Some(data) => ReplyView::Found {
            headers: seq![
                ("content-type"@, "application/javascript; charset=utf-8"@),
                ("cache-control"@, "no-cache, no-store, must-revalidate"@),
                ("service-worker-allowed"@, "/"@),
            ],
            body: data,
        },
        None => ReplyView::NotFound,
    }
}

/// Serve the service worker with no-cache headers. Not found if there is none.
pub fn serve_sw(file: Option<Vec<u8>>) -> (res: Reply)
    ensures
        res@ == sw_reply(assets::file_view(file)),
{
    match file {
        Some(data) => {
            let mut headers: Vec<(String, String)> = Vec::new();
            assets::push_header(
                &mut headers,
                "content-type",
                "application/javascript; charset=utf-8",
            );
            assets::push_header(
                &mut headers,
                "cache-control",
                "no-cache, no-store, must-revalidate",
            );
            assets::push_header(&mut headers, "service-worker-allowed", "/");
            proof {
                assert(assets::header_views(headers@) =~= sw_reply(Some(data@))->Found_headers);
            }
            Reply::Found { headers, body: data }
        },
        None => Reply::NotFound,
    }
}

/// A service worker that is stored is served as it is, as a script, for the whole site
/// and never out of a cache; where none is stored, none is found.
pub proof fn stored_service_worker_is_served(file: Option<Seq<u8>>)
    ensures
        match sw_reply(file) {
            ReplyView::Found { headers, body } => {
                &&& file == Some(body)
                &&& assets::only_value(
                    headers,
                    "content-type"@,
                    "application/javascript; charset=utf-8"@,
                )
                &&& assets::only_value(
                    headers,
                    "cache-control"@,
                    "no-cache, no-store, must-revalidate"@,
                )
                &&& assets::only_value(headers, "service-worker-allowed"@, "/"@)
            },
            ReplyView::NotFound => file is None,
        },
{
    reveal_strlit("content-type");
    reveal_strlit("cache-control");
    reveal_strlit("service-worker-allowed");
    assert("content-type"@.len() == 12 && "cache-control"@.len() == 13
        && "service-worker-allowed"@.len() == 22);
    if let Some(data) = file {
        let headers = sw_reply(file)->Found_headers;
        assert(headers[0].0 == "content-type"@);
        assert(headers[1].0 == "cache-control"@);
        assert(headers[2].0 == "service-worker-allowed"@);
        assert(headers[0] == ("content-type"@, "application/javascript; charset=utf-8"@));
        assert(headers[1] == ("cache-control"@, "no-cache, no-store, must-revalidate"@));
        assert(headers[2] == ("service-worker-allowed"@, "/"@));
    }
}

} // verus!
