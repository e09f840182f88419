use oauth_loopback::{authorization_url, query_param, ResponseType, ServerConfig};

fn scopes(list: &[&str]) -> Vec<Vec<u8>> {
    list.iter().map(|s| s.as_bytes().to_vec()).collect()
}

#[test]
fn redirect_uri_matches_the_bound_address() {
    let cfg = ServerConfig::new(1420, vec![]);
    assert_eq!(cfg.bind_address(), b"127.0.0.1:1420".to_vec());
    assert_eq!(cfg.redirect_uri(), b"http://127.0.0.1:1420/callback".to_vec());
    assert_eq!(ServerConfig::new(0, vec![]).bind_address(), b"127.0.0.1:0".to_vec());
    assert_eq!(ServerConfig::new(65535, vec![]).bind_address(), b"127.0.0.1:65535".to_vec());
    assert_eq!(ServerConfig::new(9, vec![]).bind_address(), b"127.0.0.1:9".to_vec());
}

#[test]
fn authorization_url_is_built_exactly() {
    let url = authorization_url(
        b"https://discord.com/oauth2/authorize",
        b"123456",
        b"http://127.0.0.1:1420/callback",
        ResponseType::Token,
        &scopes(&["identify", "email"]),
    );
    assert_eq!(
        String::from_utf8(url).unwrap(),
        "https://discord.com/oauth2/authorize?client_id=123456&redirect_uri=http%3A%2F%2F127.0.0.1%3A1420%2Fcallback&response_type=token&scope=identify%20email"
    );
}

#[test]
fn endpoint_with_query_gets_an_ampersand() {
    let url = authorization_url(b"https://x.test/auth?prompt=none", b"c", b"r", ResponseType::Code, &scopes(&[]));
    assert_eq!(
        String::from_utf8(url).unwrap(),
        "https://x.test/auth?prompt=none&client_id=c&redirect_uri=r&response_type=code&scope="
    );
}

#[test]
fn authorization_url_parses_back() {
    let client = b"client id/with&odd=chars%".to_vec();
    let redirect = b"http://127.0.0.1:1420/callback".to_vec();
    let url = authorization_url(b"https://provider.test/authorize", &client, &redirect, ResponseType::Code, &scopes(&["a", "b"]));
    assert_eq!(query_param(&url, b"client_id"), Some(client));
    assert_eq!(query_param(&url, b"redirect_uri"), Some(redirect));
    assert_eq!(query_param(&url, b"scope"), Some(b"a b".to_vec()));
    assert_eq!(query_param(&url, b"response_type"), Some(b"code".to_vec()));
}

#[test]
fn config_builds_its_own_authorization_url() {
    let cfg = ServerConfig::new(1420, vec![]);
    let url = cfg.authorization_url(b"https://p.test/a", b"id", ResponseType::Code, &scopes(&["identify"]));
    assert_eq!(query_param(&url, b"redirect_uri"), Some(cfg.redirect_uri()));
}

#[test]
fn builders_check_their_input() {
    let cfg = ServerConfig::new(1420, vec![]);
    let cfg = cfg.with_callback_prefix(b"/oauth/done".to_vec()).unwrap();
    assert_eq!(cfg.redirect_uri(), b"http://127.0.0.1:1420/oauth/done".to_vec());
    assert!(ServerConfig::new(1, vec![]).with_callback_prefix(b"/".to_vec()).is_none());
    assert!(ServerConfig::new(1, vec![]).with_callback_prefix(b"cb".to_vec()).is_none());
    assert!(ServerConfig::new(1, vec![]).with_callback_prefix(b"/cb?x".to_vec()).is_none());
    let cfg = ServerConfig::new(1, vec![]).with_index_document(b"dist/./main.html").unwrap();
    assert_eq!(cfg.index_document, vec![b"dist".to_vec(), b"main.html".to_vec()]);
    assert!(ServerConfig::new(1, vec![]).with_index_document(b"../index.html").is_none());
    assert!(ServerConfig::new(1, vec![]).with_index_document(b"/").is_none());
}
