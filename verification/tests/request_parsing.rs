use http_server::headers::Headers;
use http_server::request::{Request, RequestError, RequestMethod};

#[test]
fn parses_a_full_request() {
    let text = "POST /files/a.txt HTTP/1.1\r\nHost: localhost:4221\r\nUser-Agent: curl/8.0\r\n\r\nhello";
    let request = Request::parse(text).unwrap();
    assert_eq!(*request.method(), RequestMethod::Post);
    assert_eq!(request.endpoint(), "/files/a.txt");
    assert_eq!(request.get_header("host").map(|v| v.as_str()), Some("localhost:4221"));
    assert_eq!(request.get_header("user-agent").map(|v| v.as_str()), Some("curl/8.0"));
    assert_eq!(request.headers().len(), 2);
    assert_eq!(request.body().as_deref(), Some("hello"));
}

#[test]
fn header_names_are_found_whatever_their_case() {
    let request = Request::parse("GET / HTTP/1.1\r\nAccept-Encoding: gzip\r\n\r\n").unwrap();
    assert_eq!(request.get_header("accept-encoding").map(|v| v.as_str()), Some("gzip"));
    assert_eq!(request.get_header("Accept-Encoding").map(|v| v.as_str()), Some("gzip"));
    assert_eq!(request.get_header("ACCEPT-ENCODING").map(|v| v.as_str()), Some("gzip"));
    assert_eq!(request.headers().name_at(0), "accept-encoding");
    assert!(request.get_header("accept").is_none());
}

#[test]
fn request_line_alone_has_no_headers_and_no_body() {
    let request = Request::parse("GET / HTTP/1.1").unwrap();
    assert_eq!(*request.method(), RequestMethod::Get);
    assert_eq!(request.endpoint(), "/");
    assert_eq!(request.headers().len(), 0);
    assert!(request.body().is_none());
}

#[test]
fn request_line_and_blank_line_have_no_headers_and_no_body() {
    let request = Request::parse("GET /index.html HTTP/1.1\r\n\r\n").unwrap();
    assert_eq!(request.endpoint(), "/index.html");
    assert_eq!(request.headers().len(), 0);
    assert!(request.body().is_none());
}

#[test]
fn method_is_matched_whatever_its_case() {
    assert_eq!(*Request::parse("get / HTTP/1.1\r\n\r\n").unwrap().method(), RequestMethod::Get);
    assert_eq!(*Request::parse("PoSt / HTTP/1.1\r\n\r\n").unwrap().method(), RequestMethod::Post);
    assert_eq!(RequestMethod::try_from("GET"), Ok(RequestMethod::Get));
    assert_eq!(RequestMethod::try_from("post"), Ok(RequestMethod::Post));
    assert_eq!(RequestMethod::try_from("PUT"), Err(RequestError::InvalidHttpMethod));
    assert_eq!(RequestMethod::try_from(""), Err(RequestError::InvalidHttpMethod));
}

#[test]
fn unknown_method_is_refused() {
    assert_eq!(Request::parse("DELETE / HTTP/1.1\r\n\r\n").err(), Some(RequestError::InvalidHttpMethod));
    assert_eq!(Request::parse("").err(), Some(RequestError::InvalidHttpMethod));
}

#[test]
fn missing_endpoint_is_refused() {
    assert_eq!(Request::parse("GET").err(), Some(RequestError::InvalidEndpoint));
    assert_eq!(Request::parse("GET\r\nHost: a\r\n\r\n").err(), Some(RequestError::InvalidEndpoint));
}

#[test]
fn method_is_checked_before_endpoint() {
    assert_eq!(Request::parse("FETCH").err(), Some(RequestError::InvalidHttpMethod));
}

#[test]
fn version_token_is_optional() {
    let request = Request::parse("GET /echo/abc\r\n\r\n").unwrap();
    assert_eq!(request.endpoint(), "/echo/abc");
}

#[test]
fn third_token_keeps_the_rest_of_the_line() {
    let request = Request::parse("GET /a b c d\r\n\r\n").unwrap();
    assert_eq!(request.endpoint(), "/a");
}

#[test]
fn empty_endpoint_between_two_spaces() {
    let request = Request::parse("GET  HTTP/1.1\r\n\r\n").unwrap();
    assert_eq!(request.endpoint(), "");
}

#[test]
fn malformed_header_line_ends_header_reading() {
    let text = "GET / HTTP/1.1\r\nHost: a\r\nbroken\r\nAccept: b\r\n\r\nbody";
    let request = Request::parse(text).unwrap();
    assert_eq!(request.headers().len(), 1);
    assert_eq!(request.get_header("host").map(|v| v.as_str()), Some("a"));
    assert!(request.get_header("accept").is_none());
    assert_eq!(request.body().as_deref(), Some("body"));
}

#[test]
fn header_is_cut_at_the_first_colon_space() {
    let request = Request::parse("GET / HTTP/1.1\r\nX-Note: a: b: c\r\n\r\n").unwrap();
    assert_eq!(request.get_header("x-note").map(|v| v.as_str()), Some("a: b: c"));
}

#[test]
fn later_header_of_the_same_name_wins() {
    let request = Request::parse("GET / HTTP/1.1\r\nX-A: 1\r\nx-a: 2\r\n\r\n").unwrap();
    assert_eq!(request.headers().len(), 1);
    assert_eq!(request.get_header("X-A").map(|v| v.as_str()), Some("2"));
}

#[test]
fn blank_trailing_line_is_no_body() {
    let request = Request::parse("GET / HTTP/1.1\r\nHost: a\r\n\r\n   \t").unwrap();
    assert!(request.body().is_none());
    let request = Request::parse("GET / HTTP/1.1\r\nHost: a\r\n\r\n x ").unwrap();
    assert_eq!(request.body().as_deref(), Some(" x "));
}

#[test]
fn last_line_is_the_body_even_without_blank_line() {
    let request = Request::parse("GET / HTTP/1.1\r\nHost: a\r\nAccept: b").unwrap();
    assert_eq!(request.headers().len(), 1);
    assert_eq!(request.body().as_deref(), Some("Accept: b"));
}

#[test]
fn try_from_reads_as_parse_does() {
    let request = Request::try_from("POST /x HTTP/1.1\r\nA: b\r\n\r\npayload").unwrap();
    assert_eq!(*request.method(), RequestMethod::Post);
    assert_eq!(request.endpoint(), "/x");
    assert_eq!(request.get_header("a").map(|v| v.as_str()), Some("b"));
    assert_eq!(request.body().as_deref(), Some("payload"));
    assert_eq!(Request::try_from("NOPE /").err(), Some(RequestError::InvalidHttpMethod));
}

#[test]
fn request_made_of_its_parts() {
    let mut headers = Headers::new();
    headers.insert("host".to_string(), "example".to_string());
    let request = Request::new(
        RequestMethod::Post,
        headers,
        "/files/x".to_string(),
        Some("data".to_string()),
    );
    assert_eq!(*request.method(), RequestMethod::Post);
    assert_eq!(request.endpoint(), "/files/x");
    assert_eq!(request.get_header("Host").map(|v| v.as_str()), Some("example"));
    assert_eq!(request.body().as_deref(), Some("data"));
}

#[test]
fn request_made_of_its_parts_holds_names_in_lower_case() {
    let mut headers = Headers::new();
    headers.insert("Host".to_string(), "a".to_string());
    headers.insert("X-Id".to_string(), "1".to_string());
    headers.insert("HOST".to_string(), "b".to_string());
    let request = Request::new(RequestMethod::Get, headers, "/".to_string(), None);
    let held = request.headers();
    assert_eq!(held.len(), 2);
    assert_eq!(held.name_at(0), "host");
    assert_eq!(held.value_at(0), "b");
    assert_eq!(held.name_at(1), "x-id");
    assert_eq!(request.get_header("host").map(|v| v.as_str()), Some("b"));
    assert_eq!(request.get_header("hOsT").map(|v| v.as_str()), Some("b"));
    assert_eq!(request.get_header("X-ID").map(|v| v.as_str()), Some("1"));
    assert!(request.body().is_none());
}

#[test]
fn copies_hold_the_same() {
    let request = Request::parse("POST /p HTTP/1.1\r\nA: b\r\n\r\nxyz").unwrap();
    let copy = request.clone();
    assert_eq!(*copy.method(), RequestMethod::Post);
    assert_eq!(copy.endpoint(), "/p");
    assert_eq!(copy.get_header("a").map(|v| v.as_str()), Some("b"));
    assert_eq!(copy.body().as_deref(), Some("xyz"));
}

#[test]
fn non_ascii_text_is_kept() {
    let text = "GET /echo/h\u{e9}llo HTTP/1.1\r\nX-N\u{c9}: \u{dc}\r\n\r\n\u{4e16}\u{754c}";
    let request = Request::parse(text).unwrap();
    assert_eq!(request.endpoint(), "/echo/h\u{e9}llo");
    assert_eq!(request.headers().name_at(0), "x-n\u{e9}");
    assert_eq!(request.get_header("x-n\u{e9}").map(|v| v.as_str()), Some("\u{dc}"));
    assert_eq!(request.get_header("X-N\u{c9}").map(|v| v.as_str()), Some("\u{dc}"));
    assert_eq!(request.body().as_deref(), Some("\u{4e16}\u{754c}"));
}

#[test]
fn names_with_other_letters_are_folded_as_unicode_maps_them() {
    let text = "GET / HTTP/1.1\r\n\u{212a}: kelvin\r\n\u{39b}\u{391}: greek\r\n\r\n";
    let request = Request::parse(text).unwrap();
    let held = request.headers();
    assert_eq!(held.len(), 2);
    assert_eq!(held.name_at(0), "k");
    assert_eq!(held.name_at(1), "\u{3bb}\u{3b1}");
    assert_eq!(request.get_header("K").map(|v| v.as_str()), Some("kelvin"));
    assert_eq!(request.get_header("\u{3bb}\u{391}").map(|v| v.as_str()), Some("greek"));
}

#[test]
fn method_with_other_letters_is_refused() {
    assert_eq!(
        Request::parse("\u{ff27}ET / HTTP/1.1\r\n\r\n").err(),
        Some(RequestError::InvalidHttpMethod)
    );
    assert_eq!(RequestMethod::try_from("g\u{eb}t"), Err(RequestError::InvalidHttpMethod));
}

#[test]
fn text_made_of_parts_is_read_as_those_parts() {
    let methods = ["GET", "get", "Post", "POST"];
    let paths = ["/", "/echo/abc", "/files/a.txt", "", "/a\rb\n", "\r"];
    let versions = ["HTTP/1.1", "", "HTTP/1.1 extra words", "HTTP\r", "\n"];
    let field_sets: [&[(&str, &str)]; 6] = [
        &[],
        &[("Host", "localhost:4221")],
        &[("Host", "a"), ("User-Agent", "curl/8.0: x"), ("Accept", "*/*")],
        &[("X-A", "1"), ("x-a", "2"), ("X-B", "")],
        &[("X:Y", "v\r"), ("\nk\r", "\n"), ("", ""), ("a:", " b")],
        &[("k ", ": "), ("K ", "\r")],
    ];
    let bodies = ["", "hello", "a: b", "  ", " two\nlines ", "\nfoo\r", "\r", "\n"];
    for method in methods {
        for path in paths {
            for version in versions {
                for fields in field_sets {
                    for body in bodies {
                        let mut text = format!("{} {} {}\r\n", method, path, version);
                        for (name, value) in fields {
                            text.push_str(&format!("{}: {}\r\n", name, value));
                        }
                        text.push_str("\r\n");
                        text.push_str(body);
                        let request = Request::parse(&text).unwrap();
                        let expected = if method.eq_ignore_ascii_case("get") {
                            RequestMethod::Get
                        } else {
                            RequestMethod::Post
                        };
                        assert_eq!(*request.method(), expected, "{:?}", text);
                        assert_eq!(request.endpoint(), path, "{:?}", text);
                        let mut wanted = Headers::new();
                        for (name, value) in fields {
                            wanted.insert(name.to_ascii_lowercase(), value.to_string());
                        }
                        let got = request.headers();
                        assert_eq!(got.len(), wanted.len(), "{:?}", text);
                        for i in 0..wanted.len() {
                            assert_eq!(got.name_at(i), wanted.name_at(i), "{:?}", text);
                            assert_eq!(got.value_at(i), wanted.value_at(i), "{:?}", text);
                        }
                        for (name, _) in fields {
                            assert_eq!(
                                request.get_header(name),
                                wanted.get(&name.to_ascii_lowercase()),
                                "{:?}",
                                text
                            );
                        }
                        if body.trim().is_empty() {
                            assert!(request.body().is_none(), "{:?}", text);
                        } else {
                            assert_eq!(request.body().as_deref(), Some(body), "{:?}", text);
                        }
                    }
                }
            }
        }
    }
}
