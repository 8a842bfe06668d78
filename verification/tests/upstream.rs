use tlscope::proxy::http::ParsedRequest;
use tlscope::proxy::upstream::{
    parse_connect_authority, split_host_port, target_from_request, target_from_url, UrlParts,
};

#[test]
fn parses_absolute_url_target() {
    let request = ParsedRequest {
        method: "GET".to_string(),
        path: "http://example.com:8080/a?b=1".to_string(),
        version: "HTTP/1.1".to_string(),
        headers: Vec::new(),
        content_length: None,
        content_type: None,
        content_encoding: None,
        transfer_encoding: None,
    };
    let target = target_from_request(&request, None).expect("target");
    assert_eq!(target.host, "example.com");
    assert_eq!(target.port, 8080);
    assert_eq!(target.path, "/a?b=1");
}

#[test]
fn splits_host_and_port_with_default() {
    assert_eq!(
        split_host_port("example.com", 80),
        Ok(("example.com".to_string(), 80))
    );
    assert_eq!(
        split_host_port("example.com:8443", 80),
        Ok(("example.com".to_string(), 8443))
    );
    assert!(parse_connect_authority("example.com:notaport").is_err());
}

#[test]
fn targets_the_parts_of_an_absolute_url() {
    let parts = UrlParts {
        scheme: "https".to_string(),
        host: Some("example.test".to_string()),
        port: Some(443),
        path: String::new(),
        query: Some("q=1".to_string()),
    };
    let target = target_from_url(&parts).unwrap();
    assert_eq!(target.scheme, "https");
    assert_eq!(target.host, "example.test");
    assert_eq!(target.port, 443);
    assert_eq!(target.path, "/?q=1");

    let no_port = UrlParts { port: None, ..parts };
    assert_eq!(
        target_from_url(&no_port).err(),
        Some("absolute request URL has no port and no known default for scheme".to_string())
    );
    let no_host = UrlParts { host: None, ..no_port };
    assert_eq!(target_from_url(&no_host).err(), Some("absolute request URL has no host".to_string()));
}
