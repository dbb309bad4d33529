use std::collections::HashMap;

use http::httprequest::{HttpRequest, Method, Resource, Version};

fn header_map(req: &HttpRequest) -> HashMap<String, String> {
    req.headers.iter().cloned().collect()
}

#[test]
fn test_method_into() {
    let m: Method = "Get".into();
    assert_eq!(m, Method::Get);
}

#[test]
fn test_method_into2() {
    let n: Version = "HTTP/1.1".into();
    assert_eq!(n, Version::V1_1);
}

#[test]
fn test_read_http() {
    let s: String = String::from(
        "Get /greeting HTTP/1.1\r\nHost: localhost:3000\r\nUser-Agent: curl/7.71.1\r\nAccept: */*\r\n\r\n",
    );
    let mut headers = HashMap::new();
    headers.insert("Host".to_string(), " localhost:3000".to_string());
    headers.insert("User-Agent".to_string(), " curl/7.71.1".to_string());
    headers.insert("Accept".to_string(), " */*".to_string());
    let req: HttpRequest = s.into();

    assert_eq!(Method::Get, req.method);
    assert_eq!(Version::V1_1, req.version);
    assert_eq!(Resource::Patch("/greeting".to_string()), req.resource);
    assert_eq!(headers, header_map(&req));
    assert_eq!(req.msg_body, "");
}

#[test]
fn method_is_case_sensitive() {
    assert_eq!(Method::from("Post"), Method::Post);
    assert_eq!(Method::from("get"), Method::Uninitialized);
    assert_eq!(Method::from("GET"), Method::Uninitialized);
    assert_eq!(Version::from("HTTP/2.0"), Version::Uninitialized);
    assert_eq!(Version::from(""), Version::Uninitialized);
}

#[test]
fn header_split_at_first_colon() {
    let req = HttpRequest::decode("X-Foo: a:b:c");
    assert_eq!(req.headers, vec![("X-Foo".to_string(), " a:b:c".to_string())]);
}

#[test]
fn header_edge_keys_and_values() {
    let req = HttpRequest::decode("Key:\r\n:value\r\n:other\r\n");
    assert_eq!(
        req.headers,
        vec![
            ("Key".to_string(), "".to_string()),
            ("".to_string(), "other".to_string()),
        ]
    );
}

#[test]
fn header_name_keeps_trailing_space() {
    let req = HttpRequest::decode("Name : v");
    assert_eq!(req.headers, vec![("Name ".to_string(), " v".to_string())]);
}

#[test]
fn duplicate_header_last_write_wins() {
    let req = HttpRequest::decode("A: 1\r\nB: 2\r\nA: 3\r\n");
    assert_eq!(
        req.headers,
        vec![("A".to_string(), " 3".to_string()), ("B".to_string(), " 2".to_string())]
    );
}

#[test]
fn last_body_line_wins() {
    let req = HttpRequest::decode("Get / HTTP/1.1\r\n\r\nfirst\r\nsecond\r\n");
    assert_eq!(req.msg_body, "second");
    assert_eq!(req.resource, Resource::Patch("/".to_string()));
}

#[test]
fn empty_input_gives_defaults() {
    let req = HttpRequest::decode("");
    assert_eq!(req.method, Method::Uninitialized);
    assert_eq!(req.version, Version::V1_1);
    assert_eq!(req.resource, Resource::Patch("".to_string()));
    assert!(req.headers.is_empty());
    assert_eq!(req.msg_body, "");
}

#[test]
fn short_request_line_reads_absent_tokens_as_empty() {
    let req = HttpRequest::decode("HTTP");
    assert_eq!(req.method, Method::Uninitialized);
    assert_eq!(req.resource, Resource::Patch("".to_string()));
    assert_eq!(req.version, Version::Uninitialized);
    let req = HttpRequest::decode("Post  \t/x");
    assert_eq!(req.msg_body, "Post  \t/x");
    let req = HttpRequest::decode("Post /HTTP");
    assert_eq!(req.method, Method::Post);
    assert_eq!(req.resource, Resource::Patch("/HTTP".to_string()));
    assert_eq!(req.version, Version::Uninitialized);
}

#[test]
fn bare_newlines_and_lone_carriage_return() {
    let req = HttpRequest::decode("Post /a HTTP/1.1\nbody\r");
    assert_eq!(req.method, Method::Post);
    assert_eq!(req.version, Version::V1_1);
    assert_eq!(req.msg_body, "body\r");
}

#[test]
fn well_formed_request_decodes_again_the_same() {
    let req = HttpRequest::decode("Post /p HTTP/1.1\r\nK: v\r\n\r\nhello\r\n");
    let text = format!(
        "Post {} HTTP/1.1\r\n{}:{}\r\n\r\n{}\r\n",
        match &req.resource {
            Resource::Patch(p) => p.clone(),
        },
        req.headers[0].0,
        req.headers[0].1,
        req.msg_body
    );
    let again = HttpRequest::decode(&text);
    assert_eq!(again.method, req.method);
    assert_eq!(again.version, req.version);
    assert_eq!(again.resource, req.resource);
    assert_eq!(again.headers, req.headers);
    assert_eq!(again.msg_body, req.msg_body);
}
