use http::httpresponse::HttpResponse;

#[test]
fn test_response_struct_creation_200() {
    let response_actual = HttpResponse::new("200", None, Some("xxxx".into()));
    let response_expected = HttpResponse {
        version: "HTTP/1.1",
        status_code: "200",
        status_text: "OK",
        headers: Some(vec![("Content-Type", "text/html")]),
        body: Some("xxxx".into()),
    };
    assert_eq!(response_actual, response_expected);
}

#[test]
fn test_response_struct_creation_404() {
    let response_actual = HttpResponse::new("404", None, Some("xxxx".into()));
    let response_expected = HttpResponse {
        version: "HTTP/1.1",
        status_code: "404",
        status_text: "Not Found",
        headers: Some(vec![("Content-Type", "text/html")]),
        body: Some("xxxx".into()),
    };
    assert_eq!(response_actual, response_expected);
}

#[test]
fn test_http_response_creation() {
    let response_expected = HttpResponse {
        version: "HTTP/1.1",
        status_code: "404",
        status_text: "Not Found",
        headers: Some(vec![("Content-Type", "text/html")]),
        body: Some("xxxx".into()),
    };
    let response_string: String = response_expected.into();
    let actual_string = "HTTP/1.1 404 Not Found\r\nContent-Type:text/html\r\nContent-Length: 4\r\n\r\nxxxx";
    assert_eq!(response_string, actual_string);
}

#[test]
fn build_404_then_serialize() {
    let r = HttpResponse::new("404", None, Some("xxxx".to_string()));
    assert_eq!(
        r.serialize(),
        "HTTP/1.1 404 Not Found\r\nContent-Type:text/html\r\nContent-Length: 4\r\n\r\nxxxx"
    );
}

#[test]
fn status_texts_from_table() {
    assert_eq!(HttpResponse::new("200", None, None).status_text(), "OK");
    assert_eq!(HttpResponse::new("400", None, None).status_text(), "Bad Request");
    assert_eq!(HttpResponse::new("404", None, None).status_text(), "Not Found");
    assert_eq!(HttpResponse::new("500", None, None).status_text(), "Internal Server Error");
}

#[test]
fn unknown_status_code_reads_not_found() {
    let r = HttpResponse::new("302", None, None);
    assert_eq!(r.status_code(), "302");
    assert_eq!(r.status_text(), "Not Found");
}

#[test]
fn status_line_scans_back() {
    for code in ["200", "400", "404", "500"] {
        let r = HttpResponse::new(code, None, Some("b".to_string()));
        let text = r.serialize();
        let line = text.split("\r\n").next().unwrap();
        let mut parts = line.splitn(3, ' ');
        assert_eq!(parts.next(), Some("HTTP/1.1"));
        assert_eq!(parts.next(), Some(code));
        assert_eq!(parts.next(), Some(r.status_text()));
    }
}

#[test]
fn content_length_counts_bytes() {
    let r = HttpResponse::new("200", Some(vec![]), Some("héllo wörld".to_string()));
    assert_eq!(r.serialize(), "HTTP/1.1 200 OK\r\nContent-Length: 13\r\n\r\nhéllo wörld");
    let long = "y".repeat(1234);
    let r = HttpResponse::new("200", Some(vec![]), Some(long.clone()));
    assert_eq!(r.serialize(), format!("HTTP/1.1 200 OK\r\nContent-Length: 1234\r\n\r\n{}", long));
}

#[test]
fn given_headers_replace_the_default_in_order() {
    let r = HttpResponse::new("500", Some(vec![("B", "2"), ("A", " 1")]), Some(String::new()));
    assert_eq!(r.headers(), "B:2\r\nA: 1\r\n");
    assert_eq!(
        r.serialize(),
        "HTTP/1.1 500 Internal Server Error\r\nB:2\r\nA: 1\r\nContent-Length: 0\r\n\r\n"
    );
}

#[test]
fn absent_body_and_headers_serialize_as_empty() {
    let r = HttpResponse {
        version: "HTTP/1.1",
        status_code: "200",
        status_text: "OK",
        headers: None,
        body: None,
    };
    assert_eq!(r.body(), "");
    assert_eq!(r.headers(), "");
    assert_eq!(r.serialize(), "HTTP/1.1 200 OK\r\nContent-Length: 0\r\n\r\n");
}

#[test]
fn send_writes_wire_text() {
    let r = HttpResponse::new("400", None, Some("no".to_string()));
    let mut sink: Vec<u8> = Vec::new();
    assert!(r.send_response(&mut sink).is_ok());
    assert_eq!(
        String::from_utf8(sink).unwrap(),
        "HTTP/1.1 400 Bad Request\r\nContent-Type:text/html\r\nContent-Length: 2\r\n\r\nno"
    );
    assert_eq!(r.version(), "HTTP/1.1");
}
