use showcase::api::{hello_reply, HelloError, HelloResponse};
use showcase::origin::{
    origin_prefix, prefix_of_uri, rewrite_target, trim_trailing_slashes, worker_origin,
    worker_origin_of, worker_target, OriginError, UriSummary,
};

#[test]
fn origins_keep_their_path_prefix() {
    assert_eq!(origin_prefix("http://127.0.0.1:1").unwrap(), "http://127.0.0.1:1");
    assert_eq!(
        origin_prefix("http://127.0.0.1:8080/node/7/").unwrap(),
        "http://127.0.0.1:8080/node/7"
    );
    assert_eq!(origin_prefix("HTTP://Example.com//").unwrap(), "http://Example.com");
}

#[test]
fn origins_must_be_absolute_without_query() {
    assert_eq!(origin_prefix("/node/7"), Err(OriginError::NotAbsolute));
    assert_eq!(origin_prefix("http://host/x?page=2"), Err(OriginError::NotAbsolute));
    assert_eq!(origin_prefix("not a uri"), Err(OriginError::NotAbsolute));
}

#[test]
fn request_targets_append_the_path() {
    assert_eq!(
        rewrite_target("http://h:1/node/7", Some("/hello?x=1")),
        "http://h:1/node/7/hello?x=1"
    );
    assert_eq!(rewrite_target("http://h:1", None), "http://h:1/");
    assert_eq!(trim_trailing_slashes("a//b///"), "a//b");
    assert_eq!(trim_trailing_slashes("///"), "");
}

#[test]
fn replies_separate_api_and_protocol_errors() {
    let ok: Result<HelloResponse, HelloError<()>> = hello_reply(
        200,
        Ok(HelloResponse { message: "Hello, Ada!".to_owned() }),
    );
    assert_eq!(ok.unwrap().message, "Hello, Ada!");

    let unavailable: Result<HelloResponse, HelloError<()>> = hello_reply(
        503,
        Ok(HelloResponse { message: "ignored".to_owned() }),
    );
    assert!(matches!(unavailable, Err(HelloError::Api(503))));

    let malformed: Result<HelloResponse, HelloError<()>> =
        hello_reply(200, Err("expected value".to_owned()));
    assert!(matches!(malformed, Err(HelloError::Protocol(message)) if message == "expected value"));

    let redirect: Result<HelloResponse, HelloError<()>> = hello_reply(301, Err("x".to_owned()));
    assert!(matches!(redirect, Err(HelloError::Api(301))));
}

fn summary(scheme: Option<&str>, authority: Option<&str>, query: Option<&str>, text: &str) -> UriSummary {
    UriSummary {
        scheme: scheme.map(str::to_owned),
        authority: authority.map(str::to_owned),
        query: query.map(str::to_owned),
        text: text.to_owned(),
    }
}

#[test]
fn parsed_origins_need_scheme_and_authority_and_no_query() {
    let absolute = summary(Some("http"), Some("h:1"), None, "http://h:1/node//");
    assert_eq!(prefix_of_uri(&absolute).unwrap(), "http://h:1/node");

    let relative = summary(None, None, None, "/node");
    assert_eq!(prefix_of_uri(&relative), Err(OriginError::NotAbsolute));

    let no_authority = summary(Some("urn"), None, None, "urn:x");
    assert_eq!(prefix_of_uri(&no_authority), Err(OriginError::NotAbsolute));

    let with_query = summary(Some("http"), Some("h:1"), Some("a=1"), "http://h:1/?a=1");
    assert_eq!(prefix_of_uri(&with_query), Err(OriginError::NotAbsolute));
}

#[test]
fn worker_origins_need_scheme_then_authority() {
    let absolute = summary(Some("http"), Some("127.0.0.1:8080"), None, "http://127.0.0.1:8080/x");
    assert_eq!(
        worker_origin(&absolute),
        Ok(("http".to_owned(), "127.0.0.1:8080".to_owned()))
    );
    let relative = summary(None, None, None, "/x");
    assert_eq!(worker_origin(&relative), Err(OriginError::MissingScheme));
    let no_authority = summary(Some("urn"), None, None, "urn:x");
    assert_eq!(worker_origin(&no_authority), Err(OriginError::MissingAuthority));

    assert_eq!(
        worker_origin_of("http://127.0.0.1:8080/base?x=1"),
        Ok(("http".to_owned(), "127.0.0.1:8080".to_owned()))
    );
    assert_eq!(worker_origin_of("/render"), Err(OriginError::MissingScheme));
    assert_eq!(worker_origin_of("not a uri"), Err(OriginError::InvalidUri));
}

#[test]
fn worker_targets_join_origin_and_path() {
    assert_eq!(worker_target("http", "h:1", Some("/render")), "http://h:1/render");
    assert_eq!(worker_target("https", "h", None), "https://h/");
}
