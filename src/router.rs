//! The request router: ordered rules that send a request to the callback
//! route, to asset lookup, or to a 404, and the step the server takes for
//! each.
use vstd::prelude::*;

use crate::assets::{
    all_plain, asset_request, lemma_path_segments_plain, candidate_ok, candidates, kind_of_segments, not_found,
    path_segments, target_segments, AssetRequest, Body, Candidate, ContentKind, Response,
};
use crate::bytes::{has_prefix, starts_with, views};
use crate::config::ServerConfig;
use crate::query::{
    callback_payload, code_of, error_of, query_pairs, split_target, target_path, target_query,
    CallbackPayload,
};

verus! {

/// The request methods the router tells apart.
#[derive(Clone, Copy, Debug, PartialEq, Eq, Structural)]
pub enum Method {
    Get,
    Head,
    Other,
}

/// Where a request goes.
#[derive(Debug)]
pub enum Route {
    /// The OAuth callback, with its parameters.
    Callback(CallbackPayload),
    /// A static asset.
    Asset(AssetRequest),
    /// An asset path that would leave every root: answered as not found, but
    /// kept apart so that it can be logged as an attempt.
    Traversal,
    /// A request no rule serves, such as an unexpected method.
    Unmatched,
}

/// Whether a request target goes to the callback route.
pub open spec fn is_callback(prefix: Seq<u8>, t: Seq<u8>) -> bool {
    starts_with(target_path(t), prefix)
}

/// Whether a method may fetch an asset.
pub open spec fn reads_assets(m: Method) -> bool {
    m == Method::Get || m == Method::Head
}

/// Classifies a request, in this order: a path that starts with the
/// callback prefix is a callback whatever the method; a method other than
/// GET or HEAD is unmatched; a path that would leave the roots is a
/// traversal; any other path is an asset, the index document standing for
/// a path that names nothing.
pub fn route(config: &ServerConfig, method: Method, target: &[u8]) -> (r: Route)
    ensures
        is_callback(config.callback_prefix@, target@) <==> r is Callback,
        r matches Route::Callback(p) ==> p.code_view() == code_of(
            query_pairs(target_query(target@)),
        ) && p.error_view() == error_of(query_pairs(target_query(target@))),
        !is_callback(config.callback_prefix@, target@) && !reads_assets(method) ==> r is Unmatched,
        !is_callback(config.callback_prefix@, target@) && reads_assets(method) ==> (path_segments(
            target_path(target@),
        ) is None <==> r is Traversal),
        !is_callback(config.callback_prefix@, target@) && reads_assets(method) && path_segments(
            target_path(target@),
        ) is Some ==> r is Asset,
        r matches Route::Asset(a) ==> reads_assets(method) && a.segments_view()
            == target_segments(
            path_segments(target_path(target@))->Some_0,
            views(config.index_document@),
        ) && a.kind == kind_of_segments(a.segments_view()),
{
    let (path, query) = split_target(target);
    if has_prefix(path.as_slice(), config.callback_prefix.as_slice()) {
        return Route::Callback(callback_payload(query.as_slice()));
    }
    match method {
        Method::Get | Method::Head => {},
        Method::Other => {
            return Route::Unmatched;
        },
    }
    match asset_request(path.as_slice(), &config.index_document) {
        Some(a) => Route::Asset(a),
        None => Route::Traversal,
    }
}

/// The page served on the callback route.
///
/// Relay mechanism for the implicit flow: the provider puts the token in
/// the URL fragment, which the browser never sends; the page sends the
/// browser on to the application root with the fragment kept
/// (`/#access_token=...`), where the application reads it. No other relay
/// is used, and the page loads nothing from any other host.
pub open spec fn callback_page_spec() -> Seq<char> {
    "<!DOCTYPE html>
<html>
<head>
<meta charset=\"UTF-8\">
<title>Sign-in complete</title>
</head>
<body>
<p>Sign-in complete. Returning to the application...</p>
<script>
window.location.replace('/' + window.location.hash);
</script>
</body>
</html>
"@
}

/// The text of the callback page (see `callback_page_spec`).
pub fn callback_page() -> (r: &'static str)
    ensures
        r@ == callback_page_spec(),
{
    "<!DOCTYPE html>
<html>
<head>
<meta charset=\"UTF-8\">
<title>Sign-in complete</title>
</head>
<body>
<p>Sign-in complete. Returning to the application...</p>
<script>
window.location.replace('/' + window.location.hash);
</script>
</body>
</html>
"
}

/// The text of a 404 body.
pub fn not_found_text() -> (r: &'static str)
    ensures
        r@ == "Not Found"@,
{
    "Not Found"
}

/// The response on the callback route: 200, HTML, the callback page.
pub fn callback_response() -> (r: Response)
    ensures
        r.status == 200,
        r.kind == ContentKind::Html,
        r.body is CallbackPage,
{
    Response { status: 200, kind: ContentKind::Html, body: Body::CallbackPage }
}

/// What the server does with one request.
#[derive(Debug)]
pub enum Step {
    /// Send this response; nothing more.
    Reply(Response),
    /// Send this response first, then hand the payload to the host
    /// application, so that a slow hand-off never delays the browser.
    ReplyThenNotify(Response, CallbackPayload),
    /// Read these files in order, stopping at the first that can be read,
    /// and answer with `serve_asset`.
    Lookup(Vec<Candidate>),
}

/// Whether every candidate names a file strictly inside its root.
pub open spec fn all_inside(cs: Seq<Candidate>) -> bool {
    forall|k: int|
        0 <= k < cs.len() ==> views((#[trigger] cs[k]).segments@).len() > 0 && all_plain(
            views(cs[k].segments@),
        )
}

/// Decides what to do with a request (see `route`): a callback is answered
/// 200 with the callback page and its payload handed on, whatever the
/// payload holds; an unmatched request or a traversal is answered 404
/// without touching any file; an asset becomes the ordered list of files to
/// try, each strictly inside its root.
pub fn handle(config: &ServerConfig, method: Method, target: &[u8]) -> (r: Step)
    requires
        config.wf(),
    ensures
        is_callback(config.callback_prefix@, target@) <==> r is ReplyThenNotify,
        r matches Step::ReplyThenNotify(resp, p) ==> resp.status == 200 && resp.kind
            == ContentKind::Html && resp.body is CallbackPage && p.code_view() == code_of(
            query_pairs(target_query(target@)),
        ) && p.error_view() == error_of(query_pairs(target_query(target@))),
        !is_callback(config.callback_prefix@, target@) && (!reads_assets(method) || path_segments(
            target_path(target@),
        ) is None) ==> (r matches Step::Reply(resp) && resp.status == 404 && resp.body is NotFound),
        r is Lookup <==> (!is_callback(config.callback_prefix@, target@) && reads_assets(method)
            && path_segments(target_path(target@)) is Some),
        r matches Step::Lookup(cs) ==> {
            &&& cs@.len() == 2 * config.roots@.len()
            &&& forall|k: int|
                0 <= k < cs@.len() ==> candidate_ok(
                    #[trigger] cs@[k],
                    k,
                    config.roots@.len() as int,
                    target_segments(
                        path_segments(target_path(target@))->Some_0,
                        views(config.index_document@),
                    ),
                    views(config.index_document@),
                )
            &&& all_inside(cs@)
        },
{
    match route(config, method, target) {
        Route::Callback(p) => Step::ReplyThenNotify(callback_response(), p),
        Route::Asset(a) => {
            let cs = candidates(config.roots.len(), &a, &config.index_document);
            proof {
                lemma_path_segments_plain(target_path(target@));
                assert forall|k: int| 0 <= k < cs@.len() implies views(
                    (#[trigger] cs@[k]).segments@,
                ).len() > 0 && all_plain(views(cs@[k].segments@)) by {
                    assert(candidate_ok(
                        cs@[k],
                        k,
                        config.roots@.len() as int,
                        a.segments_view(),
                        views(config.index_document@),
                    ));
                }
            }
            Step::Lookup(cs)
        },
        Route::Traversal => Step::Reply(not_found()),
        Route::Unmatched => Step::Reply(not_found()),
    }
}

} // verus!
