use wyrcan::auth::{after_response, bearer, token_url, token_url_from, Next};

#[test]
fn token_url_from_challenge() {
    let c = "Bearer realm=\"https://auth.docker.io/token\",service=\"registry.docker.io\",scope=\"repository:library/alpine:pull\"";
    assert_eq!(
        token_url(c),
        Some("https://auth.docker.io/token?service=registry.docker.io&scope=repository:library/alpine:pull".to_string())
    );
}

#[test]
fn token_url_needs_realm() {
    assert_eq!(token_url("Bearer service=\"x\""), None);
    assert_eq!(token_url("Basic"), None);
}

#[test]
fn token_url_from_pairs() {
    let pairs = vec![
        ("service".to_string(), "s".to_string()),
        ("realm".to_string(), "https://r".to_string()),
        ("scope".to_string(), "x".to_string()),
    ];
    assert_eq!(token_url_from(&pairs), Some("https://r?service=s&scope=x".to_string()));
    let only = vec![("realm".to_string(), "https://r".to_string())];
    assert_eq!(token_url_from(&only), Some("https://r?".to_string()));
}

#[test]
fn bearer_header() {
    assert_eq!(bearer("abc"), "Bearer abc");
}

#[test]
fn response_decisions() {
    assert_eq!(after_response(200, false, None), Next::Done);
    assert_eq!(after_response(401, false, Some("c".to_string())), Next::Authenticate("c".to_string()));
    assert_eq!(after_response(401, true, Some("c".to_string())), Next::Fail(401));
    assert_eq!(after_response(401, false, None), Next::Fail(401));
    assert_eq!(after_response(404, false, Some("c".to_string())), Next::Fail(404));
}
