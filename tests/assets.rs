use oauth_loopback::{
    content_kind, handle, normalize_path, not_found_text, route, serve_asset, Body, Candidate,
    ContentKind, Method, Response, Route, ServerConfig, Step,
};

fn config() -> ServerConfig {
    ServerConfig::new(1420, vec!["bundle".to_string(), ".".to_string(), "..".to_string()])
}

fn segs(parts: &[&str]) -> Vec<Vec<u8>> {
    parts.iter().map(|p| p.as_bytes().to_vec()).collect()
}

fn lookup(target: &[u8]) -> Vec<Candidate> {
    match handle(&config(), Method::Get, target) {
        Step::Lookup(cs) => cs,
        other => panic!("expected a lookup, got {:?}", other),
    }
}

fn assert_not_found(step: Step) {
    match step {
        Step::Reply(r) => {
            assert_eq!(r.status, 404);
            assert_eq!(r.kind, ContentKind::PlainText);
            assert_eq!(r.body, Body::NotFound);
        }
        other => panic!("expected a 404, got {:?}", other),
    }
}

#[test]
fn content_kinds_follow_the_extension() {
    let cases: Vec<(&str, ContentKind, &str)> = vec![
        ("index.html", ContentKind::Html, "text/html; charset=utf-8"),
        ("app.js", ContentKind::JavaScript, "application/javascript; charset=utf-8"),
        ("site.css", ContentKind::Css, "text/css; charset=utf-8"),
        ("data.json", ContentKind::Json, "application/json; charset=utf-8"),
        ("logo.png", ContentKind::Png, "image/png"),
        ("photo.jpg", ContentKind::Jpeg, "image/jpeg"),
        ("photo.jpeg", ContentKind::Jpeg, "image/jpeg"),
        ("icon.svg", ContentKind::Svg, "image/svg+xml"),
        ("font.woff", ContentKind::Woff, "font/woff"),
        ("font.woff2", ContentKind::Woff2, "font/woff2"),
        ("archive.zip", ContentKind::OctetStream, "application/octet-stream"),
        ("APP.JS", ContentKind::OctetStream, "application/octet-stream"),
        ("noext", ContentKind::OctetStream, "application/octet-stream"),
    ];
    for (name, kind, mime) in cases {
        assert_eq!(content_kind(name.as_bytes()), kind, "{}", name);
        assert_eq!(kind.mime(), mime);
    }
    assert_eq!(ContentKind::PlainText.mime(), "text/plain; charset=utf-8");
}

#[test]
fn paths_are_normalized_inside_the_root() {
    assert_eq!(normalize_path(b"/a/./b//c/../d.js"), Some(segs(&["a", "b", "d.js"])));
    assert_eq!(normalize_path(b"/"), Some(vec![]));
    assert_eq!(normalize_path(b""), Some(vec![]));
    assert_eq!(normalize_path(b"/a/.."), Some(vec![]));
    assert_eq!(normalize_path(b"/../etc/passwd"), None);
    assert_eq!(normalize_path(b"/a/../../x"), None);
    assert_eq!(normalize_path(b"/a/..\\..\\x"), None);
    assert_eq!(normalize_path(b"/C:/x"), None);
}

#[test]
fn asset_in_second_root_is_served_with_its_type() {
    let cs = lookup(b"/app.js");
    assert_eq!(cs.len(), 6);
    assert_eq!(cs[0], Candidate { root: 0, segments: segs(&["app.js"]), fallback: false });
    assert_eq!(cs[1], Candidate { root: 1, segments: segs(&["app.js"]), fallback: false });
    assert_eq!(cs[3], Candidate { root: 0, segments: segs(&["index.html"]), fallback: true });
    let content = b"console.log('second root');".to_vec();
    let r = serve_asset(&cs, vec![None, Some(content.clone())]);
    assert_eq!(r.status, 200);
    assert_eq!(r.kind, ContentKind::JavaScript);
    assert_eq!(r.kind.mime(), "application/javascript; charset=utf-8");
    assert_eq!(r.body, Body::File(content));
}

#[test]
fn unknown_route_gets_the_index_document() {
    let cs = lookup(b"/nonexistent/route");
    assert_eq!(cs[0].segments, segs(&["nonexistent", "route"]));
    let index = b"<html>app</html>".to_vec();
    let r = serve_asset(&cs, vec![None, None, None, Some(index.clone())]);
    assert_eq!(r, Response { status: 200, kind: ContentKind::Html, body: Body::File(index) });
}

#[test]
fn missing_asset_and_index_is_404() {
    let cs = lookup(b"/missing.png");
    let r = serve_asset(&cs, vec![None, None, None, None, None, None]);
    assert_eq!(r.status, 404);
    assert_eq!(r.body, Body::NotFound);
    assert_eq!(not_found_text(), "Not Found");
}

#[test]
fn missing_asset_never_gets_another_file() {
    let cs = lookup(b"/missing.png");
    for hit in 3..6 {
        let mut reads: Vec<Option<Vec<u8>>> = vec![None; hit];
        reads.push(Some(b"index".to_vec()));
        let r = serve_asset(&cs, reads);
        assert_eq!(r.status, 200);
        assert_eq!(r.kind, ContentKind::Html);
        assert_eq!(r.body, Body::File(b"index".to_vec()));
        assert!(cs[hit].fallback);
    }
}

#[test]
fn root_and_query_map_to_files() {
    let cs = lookup(b"/");
    assert_eq!(cs[0].segments, segs(&["index.html"]));
    let cs = lookup(b"/assets/app.js?v=3");
    assert_eq!(cs[2].segments, segs(&["assets", "app.js"]));
}

#[test]
fn traversal_is_refused_before_any_read() {
    assert_not_found(handle(&config(), Method::Get, b"/../secret.txt"));
    assert_not_found(handle(&config(), Method::Get, b"/assets/../../../etc/passwd"));
    match route(&config(), Method::Get, b"/../secret.txt") {
        Route::Traversal => {}
        other => panic!("expected a traversal, got {:?}", other),
    }
}

#[test]
fn unexpected_method_is_unmatched() {
    assert_not_found(handle(&config(), Method::Other, b"/app.js"));
    match route(&config(), Method::Other, b"/app.js") {
        Route::Unmatched => {}
        other => panic!("expected unmatched, got {:?}", other),
    }
}

#[test]
fn every_candidate_stays_inside_its_root() {
    let cs = lookup(b"/a/b/../c/./d.css");
    for c in &cs {
        assert!(!c.segments.is_empty());
        for s in &c.segments {
            assert!(!s.is_empty());
            assert_ne!(s.as_slice(), b"..");
            assert_ne!(s.as_slice(), b".");
            assert!(!s.contains(&b'/'));
        }
    }
    assert_eq!(cs[0].segments, segs(&["a", "c", "d.css"]));
}
