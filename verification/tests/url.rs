use browser_core::http::{read_http_response, ResponseError};
use browser_core::url::URL;

fn parts(url: &str) -> (String, String, String, String) {
    let url = URL::new(url);
    (url.scheme, url.host, url.port, url.path)
}

fn owned(scheme: &str, host: &str, port: &str, path: &str) -> (String, String, String, String) {
    (scheme.to_string(), host.to_string(), port.to_string(), path.to_string())
}

#[test]
fn http_url_with_path() {
    assert_eq!(parts("http://example.org/index.html"), owned("http", "example.org", "80", "/index.html"));
}

#[test]
fn https_has_its_own_port() {
    assert_eq!(parts("https://example.org/a/b?c=d"), owned("https", "example.org", "443", "/a/b?c=d"));
}

#[test]
fn a_url_without_a_path_has_the_root_path() {
    assert_eq!(parts("http://example.org"), owned("http", "example.org", "80", "/"));
    assert_eq!(parts("http://example.org/"), owned("http", "example.org", "80", "/"));
}

#[test]
fn a_port_in_the_host_is_taken() {
    assert_eq!(parts("http://localhost:8000/x"), owned("http", "localhost", "8000", "/x"));
    assert_eq!(parts("https://localhost:8443"), owned("https", "localhost", "8443", "/"));
    assert_eq!(parts("http://host:/x"), owned("http", "host", "", "/x"));
    assert_eq!(parts("http://a:b:c/x"), owned("http", "a", "b:c", "/x"));
}

#[test]
fn a_colon_in_the_path_is_no_port() {
    assert_eq!(parts("http://example.org/a:b"), owned("http", "example.org", "80", "/a:b"));
    assert_eq!(parts("http://example.org/x://y"), owned("http", "example.org", "80", "/x://y"));
}

#[test]
fn file_urls_have_an_empty_host() {
    assert_eq!(parts("file:///home/me/page.html"), owned("file", "", "443", "/home/me/page.html"));
}

#[test]
fn urls_without_a_known_scheme_are_refused() {
    for url in ["", "example.org", "http:/example.org", "ftp://example.org", "HTTP://example.org",
        "://example.org", "http//x", "httpx://example.org", " http://example.org", "http:", "ht"] {
        assert!(URL::parse(url).is_none(), "{:?}", url);
    }
}

#[test]
fn parse_and_new_agree() {
    for url in ["http://a", "https://b:1/c", "file:///d", "http://", "https://:9/"] {
        let parsed = URL::parse(url).unwrap();
        let made = URL::new(url);
        assert_eq!(
            (parsed.scheme, parsed.host, parsed.port, parsed.path),
            (made.scheme, made.host, made.port, made.path)
        );
    }
    assert_eq!(parts("http://"), owned("http", "", "80", "/"));
}

#[test]
fn the_request_names_path_and_host() {
    let url = URL::new("http://example.org:8080/a/b.html");
    assert_eq!(url.request(), "GET /a/b.html HTTP/1.0\r\nHost: example.org\r\n\r\n");
    assert_eq!(URL::new("https://x").request(), "GET / HTTP/1.0\r\nHost: x\r\n\r\n");
}

#[test]
fn the_document_follows_the_blank_line() {
    let response = "HTTP/1.0 200 OK\r\nContent-Type: text/html\r\nServer: x\r\n\r\n<b>Hi</b>\r\n\r\nthere";
    assert_eq!(read_http_response(response), Ok("<b>Hi</b>\r\n\r\nthere".to_string()));
    assert_eq!(read_http_response("HTTP/1.0 200 OK\r\n\r\n"), Ok(String::new()));
    assert_eq!(read_http_response("HTTP/1.0 404 Not Found\r\n\r\nnone"), Ok("none".to_string()));
}

#[test]
fn header_lines_need_no_colon() {
    assert_eq!(read_http_response("a b c\nnonsense\n\n\r\r\n\r\nbody"), Ok("body".to_string()));
}

#[test]
fn a_status_line_needs_three_parts() {
    for response in ["", "\r\n\r\n", "HTTP/1.0\r\n\r\nbody", "HTTP/1.0 200\r\n\r\n", "HTTP/1.0\r\n200 OK x\r\n\r\n"] {
        assert_eq!(read_http_response(response), Err(ResponseError::MalformedStatusLine), "{:?}", response);
    }
    assert_eq!(read_http_response("HTTP/1.0 200 \r\n\r\nx"), Ok("x".to_string()));
    assert_eq!(read_http_response("  \r\n\r\nx"), Ok("x".to_string()));
}

#[test]
fn a_header_without_its_end_is_truncated() {
    for response in ["HTTP/1.0 200 OK", "HTTP/1.0 200 OK\r\n", "HTTP/1.0 200 OK\r\nA: b\r\n", "HTTP/1.0 200 OK\r\nA: b\r\n\n",
        "HTTP/1.0 200 OK\r\nA: b\r\n\r", "HTTP/1.0 200 OK\nTransfer-Encoding: chunked\n\n"] {
        assert_eq!(read_http_response(response), Err(ResponseError::TruncatedHeader), "{:?}", response);
    }
}

#[test]
fn encoded_documents_are_refused() {
    for header in ["Transfer-Encoding: chunked", "transfer-encoding:chunked", "TRANSFER-ENCODING: x",
        "Content-Encoding: gzip", "content-encoding:", "cOnTeNt-EnCoDiNg: br"] {
        let response = format!("HTTP/1.0 200 OK\r\nA: b\r\n{}\r\nC: d\r\n\r\nbody", header);
        assert_eq!(read_http_response(&response), Err(ResponseError::UnsupportedEncoding), "{:?}", header);
    }
}

#[test]
fn only_the_two_field_names_count() {
    for header in ["Content-Encodings: gzip", "X-Content-Encoding: gzip", "Content_Encoding: gzip",
        " Content-Encoding: gzip", "Content-Encoding : gzip", "Content-Encoding gzip", "Accept: Content-Encoding:",
        "Content-Length: 4", "transfer\u{2d}encodin\u{47}\u{0}: x", "\u{212a}ontent-encoding: x"] {
        let response = format!("HTTP/1.0 200 OK\r\n{}\r\n\r\nbody", header);
        assert_eq!(read_http_response(&response), Ok("body".to_string()), "{:?}", header);
    }
}

#[test]
fn encodings_behind_the_header_do_not_count() {
    let response = "HTTP/1.0 200 OK\r\n\r\nTransfer-Encoding: chunked\r\n\r\n";
    assert_eq!(read_http_response(response), Ok("Transfer-Encoding: chunked\r\n\r\n".to_string()));
    let response = "Content-Encoding: a b\r\n\r\nx";
    assert_eq!(read_http_response(response), Ok("x".to_string()));
}
