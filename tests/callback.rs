use oauth_loopback::{
    callback_page, callback_payload, extract, handle, parse_query, route, Body, CallbackPayload,
    ContentKind, Method, QueryPair, Route, ServerConfig, Step,
};

fn config() -> ServerConfig {
    ServerConfig::new(1420, vec!["res".to_string(), ".".to_string(), "..".to_string()])
}

fn pair(k: &str, v: &str) -> QueryPair {
    QueryPair { key: k.as_bytes().to_vec(), value: v.as_bytes().to_vec() }
}

fn expect_callback(step: Step) -> CallbackPayload {
    match step {
        Step::ReplyThenNotify(resp, payload) => {
            assert_eq!(resp.status, 200);
            assert_eq!(resp.kind, ContentKind::Html);
            assert_eq!(resp.body, Body::CallbackPage);
            payload
        }
        other => panic!("expected a callback step, got {:?}", other),
    }
}

#[test]
fn code_callback_is_answered_and_forwarded() {
    let p = expect_callback(handle(&config(), Method::Get, b"/callback?code=abc123"));
    assert_eq!(p.code, Some(b"abc123".to_vec()));
    assert_eq!(p.error, None);
    assert!(!p.is_failure());
    assert!(callback_page().contains("window.location"));
    assert!(callback_page().contains("<script>"));
}

#[test]
fn error_callback_is_answered_and_forwarded() {
    let p = expect_callback(handle(&config(), Method::Get, b"/callback?error=access_denied"));
    assert_eq!(p.code, None);
    assert_eq!(p.error, Some(b"access_denied".to_vec()));
    assert!(p.is_failure());
}

#[test]
fn callback_without_either_key_still_gets_200() {
    let p = expect_callback(handle(&config(), Method::Get, b"/callback?state=xyz&foo=1"));
    assert!(p.is_empty());
    let p = expect_callback(handle(&config(), Method::Get, b"/callback"));
    assert!(p.is_empty());
}

#[test]
fn error_decides_when_both_are_present() {
    let p = expect_callback(handle(&config(), Method::Get, b"/callback?code=stale&error=server_error"));
    assert_eq!(p.code, Some(b"stale".to_vec()));
    assert_eq!(p.error, Some(b"server_error".to_vec()));
    assert!(p.is_failure());
}

#[test]
fn callback_route_ignores_the_method() {
    let p = expect_callback(handle(&config(), Method::Other, b"/callback/extra?code=z"));
    assert_eq!(p.code, Some(b"z".to_vec()));
    match route(&config(), Method::Head, b"/callback") {
        Route::Callback(p) => assert!(p.is_empty()),
        other => panic!("expected a callback route, got {:?}", other),
    }
}

#[test]
fn callback_prefix_is_checked_before_files() {
    match route(&config(), Method::Get, b"/callback.html") {
        Route::Callback(_) => {}
        other => panic!("expected a callback route, got {:?}", other),
    }
}

#[test]
fn first_code_wins_and_values_are_decoded() {
    let p = callback_payload(b"code=a%2Fb&code=second&other=1");
    assert_eq!(p.code, Some(b"a/b".to_vec()));
    assert_eq!(p.error, None);
}

#[test]
fn extract_ignores_unknown_keys() {
    let pairs = vec![pair("state", "s"), pair("code", "X"), pair("scope", "identify")];
    let p = extract(&pairs);
    assert_eq!(p, CallbackPayload { code: Some(b"X".to_vec()), error: None });
    let pairs = vec![pair("error", "Y"), pair("code", "X")];
    let p = extract(&pairs);
    assert_eq!(p.error, Some(b"Y".to_vec()));
    assert_eq!(extract(&vec![pair("state", "s")]), CallbackPayload { code: None, error: None });
}

#[test]
fn query_pairs_are_split_in_order() {
    let pairs = parse_query(b"a=1&&b&c=x=y&d%20e=f+g");
    assert_eq!(
        pairs,
        vec![pair("a", "1"), pair("b", ""), pair("c", "x=y"), pair("d e", "f+g")]
    );
    assert_eq!(parse_query(b""), vec![]);
    assert_eq!(parse_query(b"&&"), vec![]);
}
