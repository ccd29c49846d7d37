use requeasy::{parse_resp, parse_response, parse_url, populate_get_request, ApiResponse,
    HttpError};

/// The value stored under `key`, if any.
fn header_value<'a>(resp: &'a ApiResponse, key: &str) -> Option<&'a str> {
    for (k, v) in resp.header.iter() {
        if k == key {
            return Some(v);
        }
    }
    None
}

#[test]
fn parse_url_explicit_port() {
    let p = parse_url("http://example.com:8080/index.html").unwrap();
    assert_eq!(p.host, "example.com");
    assert_eq!(p.path, "index.html");
    assert_eq!(p.socket_addr, "example.com:8080");
}

#[test]
fn parse_url_default_port_http() {
    let p = parse_url("http://example.com/index.html").unwrap();
    assert_eq!(p.host, "example.com");
    assert_eq!(p.path, "index.html");
    assert_eq!(p.socket_addr, "example.com:80");
}

#[test]
fn parse_url_default_port_tls() {
    let p = parse_url("https://example.com/products").unwrap();
    assert_eq!(p.host, "example.com");
    assert_eq!(p.path, "products");
    assert_eq!(p.socket_addr, "example.com:443");
}

#[test]
fn parse_url_empty_path() {
    let p = parse_url("https://example.com/").unwrap();
    assert_eq!(p.host, "example.com");
    assert_eq!(p.path, "");
    assert_eq!(p.socket_addr, "example.com:443");
}

#[test]
fn parse_url_missing_scheme_separator() {
    assert_eq!(
        parse_url("example.com/path").map(|p| p.host).unwrap_err(),
        HttpError::MissingSchemeSeparator
    );
}

#[test]
fn parse_url_missing_path_separator() {
    assert_eq!(
        parse_url("http://example.com").map(|p| p.host).unwrap_err(),
        HttpError::MissingPathSeparator
    );
}

#[test]
fn get_request_format() {
    let req = populate_get_request("example.com", "resource", None, None, Vec::new());
    assert!(req.starts_with("GET /resource HTTP/1.1\r\n"));
    assert!(req.contains("Host: example.com\r\n"));
    assert!(req.contains("Accept: */*\r\n"));
    assert!(req.contains("Connection: close\r\n"));
    // the header block ends in exactly one blank line
    assert!(req.ends_with("\r\n\r\n"));
    assert!(!req.ends_with("\r\n\r\n\r\n"));
}

#[test]
fn post_request_content_length() {
    let body = String::from("{\"a\":1}");
    let method = String::from("POST");
    let req = populate_get_request(
        "example.com",
        "items",
        Some(&body),
        Some(&method),
        Vec::new(),
    );
    assert!(req.starts_with("POST /items HTTP/1.1\r\n"));
    // Content-Length equals the byte length of the body, and the body stands
    // verbatim after the blank line that follows it
    assert!(req.ends_with("Content-Length: 7\r\n\r\n{\"a\":1}\r\n\r\n"));
    assert!(!req.ends_with("\r\n\r\n\r\n"));
    // a POST without caller headers still carries the default Content-Type
    assert!(req.contains("Content-Type: application/json\r\n"));
}

#[test]
fn post_request_extra_headers_replace_default() {
    let body = String::from("x");
    let method = String::from("PUT");
    let headers = vec!["X-One: 1\r\n", "X-Two: 2\r\n"];
    let req = populate_get_request("example.com", "u", Some(&body), Some(&method), headers);
    assert!(req.contains("X-One: 1\r\nX-Two: 2\r\n\r\n"));
    assert!(!req.contains("Content-Type: application/json\r\nContent-Length"));
    assert!(req.ends_with("Content-Length: 1\r\n\r\nx\r\n\r\n"));
}

#[test]
fn content_length_counts_bytes_not_chars() {
    // a two-byte UTF-8 character
    let body = String::from("é");
    let method = String::from("POST");
    let req = populate_get_request("example.com", "p", Some(&body), Some(&method), Vec::new());
    assert!(req.contains("Content-Length: 2\r\n\r\n"));
}

#[test]
fn parse_resp_splits_at_first_blank_line() {
    let split = parse_resp("HTTP/1.1 200 OK\r\nA: 1\r\n\r\nbody\r\n\r\nmore").unwrap();
    assert_eq!(split.0, "HTTP/1.1 200 OK\r\nA: 1");
    assert_eq!(split.1, "body\r\n\r\nmore");
}

#[test]
fn parse_response_last_duplicate_wins() {
    let resp = parse_response("HTTP/1.1 200 OK\r\nA: 1\r\nA: 2\r\nB: x\r\n\r\nhello").unwrap();
    assert_eq!(header_value(&resp, "A"), Some("2"));
    assert_eq!(header_value(&resp, "B"), Some("x"));
    assert_eq!(resp.body, "hello");
    // the status line never appears as a key
    assert_eq!(resp.header.len(), 2);
    assert_eq!(header_value(&resp, "HTTP/1.1 200 OK"), None);
}

#[test]
fn parse_response_trims_value_not_key() {
    let resp = parse_response("HTTP/1.1 200 OK\r\nA:  \t spaced \t \r\n\r\n").unwrap();
    assert_eq!(header_value(&resp, "A"), Some("spaced"));
    assert_eq!(resp.body, "");
}

#[test]
fn parse_response_value_keeps_inner_colon() {
    let resp = parse_response("HTTP/1.1 200 OK\r\nDate: 12:30:00\r\n\r\n").unwrap();
    assert_eq!(header_value(&resp, "Date"), Some("12:30:00"));
}

#[test]
fn parse_response_missing_blank_line() {
    assert_eq!(
        parse_response("HTTP/1.1 200 OK\r\nA: 1\r\n").map(|r| r.body),
        Err(HttpError::MissingBlankLine)
    );
}

#[test]
fn parse_response_missing_header_colon() {
    assert_eq!(
        parse_response("HTTP/1.1 200 OK\r\nBadHeader\r\n\r\nbody").map(|r| r.body),
        Err(HttpError::MissingHeaderColon)
    );
}

#[test]
fn parse_response_headers_only_status() {
    let resp = parse_response("HTTP/1.1 204 No Content\r\n\r\n").unwrap();
    assert!(resp.header.is_empty());
    assert_eq!(resp.body, "");
}

#[test]
fn get_scenario_end_to_end_pieces() {
    // what get("https://example.com/resource") does, short of the socket:
    let p = parse_url("https://example.com/resource").unwrap();
    assert_eq!(p.socket_addr, "example.com:443");
    let req = populate_get_request(&p.host, &p.path, None, None, Vec::new());
    assert!(req.starts_with("GET /resource HTTP/1.1\r\nHost: example.com\r\n"));
    let resp = parse_response("HTTP/1.1 200 OK\r\nContent-Type: text/plain\r\n\r\nOK").unwrap();
    assert_eq!(header_value(&resp, "Content-Type"), Some("text/plain"));
    assert_eq!(resp.body, "OK");
    assert_eq!(resp.header.len(), 1);
}

#[test]
fn post_scenario_request_shape() {
    // what post("http://example.com/items", "{\"a\":1}") writes to the wire:
    let p = parse_url("http://example.com/items").unwrap();
    assert_eq!(p.socket_addr, "example.com:80");
    let body = String::from("{\"a\":1}");
    let method = String::from("POST");
    let req = populate_get_request(&p.host, &p.path, Some(&body), Some(&method), Vec::new());
    let first_line = req.split("\r\n").next().unwrap();
    assert_eq!(first_line, "POST /items HTTP/1.1");
    let body_section = req.split("\r\n\r\n").nth(1).unwrap();
    assert_eq!(body_section, "{\"a\":1}");
}

#[test]
fn post_test() {
    // the POST path of the library on the original call's inputs, with the
    // socket replaced by a canned server reply
    let url = "https://reqres.in/api/users";
    let body = "{\"name\":\"morpheus\",\"job\":\"leader\"}";
    let p = parse_url(&url).unwrap();
    assert_eq!(p.socket_addr, "reqres.in:443");
    let data = String::from(body);
    let method = String::from("POST");
    let req = populate_get_request(&p.host, &p.path, Some(&data), Some(&method), Vec::new());
    assert!(req.starts_with("POST /api/users HTTP/1.1\r\n"));
    assert!(req.contains("Content-Length: 34\r\n\r\n{\"name\":\"morpheus\",\"job\":\"leader\"}\r\n"));
    let response = parse_response(
        "HTTP/1.1 201 Created\r\nContent-Type: application/json\r\n\r\n{\"id\":\"1\"}",
    )
    .unwrap();
    println!("{:?}", response);
    assert!(!response.body.is_empty());
    assert!(!response.header.is_empty());
}

#[test]
fn error_descriptions() {
    assert_eq!(
        HttpError::MissingSchemeSeparator.describe(),
        "url is missing the :// separator"
    );
    assert_eq!(
        HttpError::MissingPathSeparator.describe(),
        "url is missing a / after the authority"
    );
    assert_eq!(
        HttpError::MissingBlankLine.describe(),
        "response is missing the blank line before the body"
    );
    assert_eq!(
        HttpError::MissingHeaderColon.describe(),
        "response header line is missing a colon"
    );
}

#[test]
fn large_content_length() {
    let body = "x".repeat(10405);
    let method = String::from("POST");
    let req = populate_get_request("h", "p", Some(&body), Some(&method), Vec::new());
    assert!(req.contains("Content-Length: 10405\r\n\r\n"));
}
