use telemt::http::plain::{plain_target, request_text, target_of, HttpTarget};
use telemt::http::response::{
    accept_response, find_header_end, read_response, HttpError, HttpErrorKind,
};
use telemt::http::secure::{
    choose_resolved_addr, extract_host_port_path, host_port_path_of, https_disabled,
    https_host_header, https_route, HttpsRoute, ProxyError,
};
use telemt::http::status::parse_status;
use telemt::http::text::decimal_text;
use telemt::http::url::UrlParts;
use telemt::types::Endpoint;

fn reason<T>(result: Result<T, HttpError>) -> (HttpErrorKind, String) {
    match result {
        Ok(_) => panic!("a failure was expected"),
        Err(e) => (e.kind, e.message),
    }
}

fn parts(
    scheme: &str,
    host: Option<&str>,
    port: Option<u16>,
    path: &str,
    query: Option<&str>,
) -> UrlParts {
    UrlParts {
        scheme: scheme.to_string(),
        host: host.map(str::to_string),
        port,
        path: path.to_string(),
        query: query.map(str::to_string),
    }
}

fn proxy_reason<T>(result: Result<T, ProxyError>) -> String {
    match result {
        Ok(_) => panic!("a failure was expected"),
        Err(ProxyError::Proxy(message)) => message,
    }
}

#[test]
fn header_end_is_the_first_blank_line() {
    assert_eq!(find_header_end(b"a\r\n\r\nb\r\n\r\n"), Some(1));
    assert_eq!(find_header_end(b"\r\n\r\n"), Some(0));
    assert_eq!(find_header_end(b"\r\n\r"), None);
    assert_eq!(find_header_end(b""), None);
    assert_eq!(find_header_end(b"a\n\nb"), None);
    assert_eq!(find_header_end(b"\r\r\n\r\n"), Some(1));
}

#[test]
fn status_is_the_second_word_of_the_first_line() {
    assert_eq!(parse_status("HTTP/1.1 200 OK\r\nX: 1").ok(), Some(200));
    assert_eq!(parse_status("HTTP/1.1 404").ok(), Some(404));
    assert_eq!(parse_status("  HTTP/1.1\t\u{a0} 65535\u{3000}x").ok(), Some(65535));
    assert_eq!(parse_status("HTTP/1.1 +204").ok(), Some(204));
    assert_eq!(parse_status("HTTP/1.1 000200 OK").ok(), Some(200));
}

#[test]
fn missing_status_is_refused() {
    let missing = (HttpErrorKind::InvalidData, "HTTP status missing".to_string());
    assert_eq!(reason(parse_status("")), missing);
    assert_eq!(reason(parse_status("HTTP/1.1")), missing);
    assert_eq!(reason(parse_status("\r\nHTTP/1.1 200")), missing);
    assert_eq!(reason(parse_status("HTTP/1.1 \n200")), missing);
}

#[test]
fn status_that_is_no_number_is_refused() {
    let digit = (HttpErrorKind::InvalidData, "invalid digit found in string".to_string());
    let large = (HttpErrorKind::InvalidData, "number too large to fit in target type".to_string());
    for text in ["2x0", "+", "-1", "++1", "\u{663}"] {
        assert_eq!(reason(parse_status(&format!("HTTP/1.1 {text}"))), digit, "{text}");
        assert_eq!(text.parse::<u16>().unwrap_err().to_string(), digit.1);
    }
    for text in ["65536", "99999x", "100000", "+65536"] {
        assert_eq!(reason(parse_status(&format!("HTTP/1.1 {text}"))), large, "{text}");
        assert_eq!(text.parse::<u16>().unwrap_err().to_string(), large.1);
    }
    assert_eq!(reason(parse_status("HTTP/1.1 6553x")), digit);
    assert_eq!("6553x".parse::<u16>().unwrap_err().to_string(), digit.1);
    assert_eq!(reason(parse_status("HTTP/1.1 65535x")), digit);
    assert_eq!("65535x".parse::<u16>().unwrap_err().to_string(), digit.1);
}

#[test]
fn white_space_is_that_of_the_standard_library() {
    for code in 0..=0x10_ffff_u32 {
        let Some(c) = char::from_u32(code) else { continue };
        if code > 0x3100 && code % 977 != 0 {
            continue;
        }
        let second = if c == '\n' { None } else { parse_status(&format!("x{c}7")).ok() };
        assert_eq!(second.is_some(), c.is_whitespace() && c != '\n', "{code:x}");
    }
}

#[test]
fn numbers_are_written_in_decimal() {
    for n in [0, 7, 10, 99, 100, 443, 8080, 65535] {
        assert_eq!(decimal_text(n), n.to_string());
        assert_eq!(parse_status(&format!("x {}", decimal_text(n))).ok(), Some(n));
    }
}

#[test]
fn successful_response_gives_its_body() {
    let body = "203.0.113.7 \u{fc}\r\n\r\nmore";
    let response = format!("HTTP/1.1 200 OK\r\nA: b\r\n\r\n{body}").into_bytes();
    assert_eq!(read_response(&response).ok(), Some(body.to_string()));
    let empty = b"HTTP/1.1 204 No Content\r\n\r\n".to_vec();
    assert_eq!(read_response(&empty).ok(), Some(String::new()));
}

#[test]
fn broken_bytes_in_a_body_are_replaced() {
    let mut response = b"HTTP/1.1 200 OK\r\n\r\na".to_vec();
    response.extend([0xff, b'b']);
    assert_eq!(read_response(&response).ok(), Some("a\u{fffd}b".to_string()));
}

#[test]
fn responses_without_success_are_refused() {
    let other = |status: &str| (HttpErrorKind::Other, format!("HTTP status {status}"));
    for status in ["199", "300", "404", "500"] {
        let response = format!("HTTP/1.1 {status} X\r\n\r\nbody").into_bytes();
        assert_eq!(reason(read_response(&response)), other(status));
    }
    let edge = b"HTTP/1.1 299 X\r\n\r\nbody".to_vec();
    assert_eq!(read_response(&edge).ok(), Some("body".to_string()));
}

#[test]
fn broken_responses_are_refused() {
    assert_eq!(
        reason(read_response(&b"HTTP/1.1 200 OK\r\n".to_vec())),
        (HttpErrorKind::InvalidData, "HTTP headers incomplete".to_string())
    );
    let head = b"HTTP/1.1 200 \xff\xfe";
    let mut response = head.to_vec();
    response.extend(b"\r\n\r\n");
    let wording = std::str::from_utf8(head).unwrap_err().to_string();
    assert_eq!(reason(read_response(&response)), (HttpErrorKind::InvalidData, wording));
}

#[test]
fn response_parts_decide_the_outcome() {
    let accept = |headers: Result<&str, &str>| {
        accept_response(
            headers.map(str::to_string).map_err(str::to_string),
            "body".to_string(),
        )
    };
    assert_eq!(accept(Ok("HTTP/1.1 250 X")).ok(), Some("body".to_string()));
    assert_eq!(
        reason(accept(Err("broken"))),
        (HttpErrorKind::InvalidData, "broken".to_string())
    );
    assert_eq!(
        reason(accept(Ok("HTTP/1.1 302 X"))),
        (HttpErrorKind::Other, "HTTP status 302".to_string())
    );
}

#[test]
fn plain_addresses_are_taken_apart() {
    let apart = |url: &str| {
        let target = plain_target(url).unwrap();
        (target.host, target.port, target.path)
    };
    assert_eq!(
        apart("http://Example.org/a/b?c=d#e"),
        ("example.org".to_string(), 80, "/a/b?c=d".to_string())
    );
    assert_eq!(
        apart("http://127.0.0.1:8080"),
        ("127.0.0.1".to_string(), 8080, "/".to_string())
    );
}

#[test]
fn other_addresses_are_refused() {
    assert_eq!(
        reason(plain_target("https://example.org/")),
        (HttpErrorKind::Unsupported, "unsupported URL scheme 'https'".to_string())
    );
    assert_eq!(
        reason(plain_target("no address")),
        (HttpErrorKind::InvalidInput, url::ParseError::RelativeUrlWithoutBase.to_string())
    );
    assert_eq!(
        reason(target_of(Ok(parts("http", None, Some(80), "/", None)))),
        (HttpErrorKind::InvalidInput, "URL has no host".to_string())
    );
    assert_eq!(
        reason(target_of(Ok(parts("http", Some("h"), None, "/", None)))),
        (HttpErrorKind::InvalidInput, "URL has no known port".to_string())
    );
    let target = target_of(Ok(parts("http", Some("h"), Some(1), "", Some("q")))).unwrap();
    assert_eq!(target.path, "/?q");
}

#[test]
fn request_names_host_and_path() {
    let request = |port| {
        request_text(&HttpTarget { host: "h".to_string(), port, path: "/p?q".to_string() })
    };
    assert_eq!(
        request(80),
        "GET /p?q HTTP/1.1\r\nHost: h\r\nUser-Agent: telemt/1\r\nConnection: close\r\nAccept: text/plain,*/*;q=0.1\r\n\r\n"
    );
    assert_eq!(
        request(8080),
        "GET /p?q HTTP/1.1\r\nHost: h:8080\r\nUser-Agent: telemt/1\r\nConnection: close\r\nAccept: text/plain,*/*;q=0.1\r\n\r\n"
    );
}

#[test]
fn secure_addresses_are_taken_apart() {
    assert_eq!(
        extract_host_port_path("https://core.telegram.org/getProxySecret?x=1").ok(),
        Some(("core.telegram.org".to_string(), 443, "/getProxySecret?x=1".to_string()))
    );
    assert_eq!(
        extract_host_port_path("https://h:8443").ok(),
        Some(("h".to_string(), 8443, "/".to_string()))
    );
}

#[test]
fn insecure_addresses_are_refused() {
    assert_eq!(
        proxy_reason(extract_host_port_path("http://h/")),
        "unsupported URL scheme 'http': only https is supported"
    );
    assert_eq!(
        proxy_reason(extract_host_port_path("https://")),
        format!("invalid URL 'https://': {}", url::ParseError::EmptyHost)
    );
    assert_eq!(
        proxy_reason(host_port_path_of("u", Ok(parts("https", None, Some(443), "/", None)))),
        "URL has no host: u"
    );
    assert_eq!(
        proxy_reason(host_port_path_of("u", Ok(parts("https", Some("h"), None, "/", None)))),
        "URL has no known port: u"
    );
    assert_eq!(
        proxy_reason(host_port_path_of("u", Err("reason".to_string()))),
        "invalid URL 'u': reason"
    );
}

#[test]
fn usual_port_is_left_out_of_the_host_header() {
    assert_eq!(https_host_header("h", 443), "h");
    assert_eq!(https_host_header("h", 80), "h:80");
}

#[test]
fn version_4_addresses_are_preferred() {
    let v4 = |ip| Endpoint::V4 { ip, port: 443 };
    let v6 = |ip| Endpoint::V6 { ip, port: 443, flowinfo: 0, scope_id: 0 };
    let choose = |addrs: Vec<Endpoint>| choose_resolved_addr("h", 443, &addrs);
    assert_eq!(choose(vec![v6(1), v4(2), v4(3)]).ok(), Some(v4(2)));
    assert_eq!(choose(vec![v6(1), v6(2)]).ok(), Some(v6(1)));
    assert_eq!(proxy_reason(choose(vec![])), "DNS returned no addresses for h:443");
}

#[test]
fn route_depends_on_upstream_and_override() {
    let addr = Endpoint::V4 { ip: 1, port: 443 };
    assert_eq!(https_route(true, Some(addr)), HttpsRoute::Upstream);
    assert_eq!(https_route(true, None), HttpsRoute::Upstream);
    assert_eq!(https_route(false, Some(addr)), HttpsRoute::Direct(addr));
    assert_eq!(https_route(false, None), HttpsRoute::Client);
}

#[test]
fn disabled_requests_say_so() {
    let ProxyError::Proxy(message) = https_disabled("https://h/");
    assert_eq!(
        message,
        "HTTPS control-plane fetch is disabled in this build; use cached proxy-secret/proxy-config or enable the 'https-control-plane' feature for https://h/"
    );
}
