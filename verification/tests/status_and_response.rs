use http_server::response::Response;
use http_server::status::{HttpStatus, Status, StatusError};

#[test]
fn status_codes() {
    assert_eq!(Status::new(HttpStatus::Okay).status_code(), 200);
    assert_eq!(Status::new(HttpStatus::Created).status_code(), 201);
    assert_eq!(Status::new(HttpStatus::NotFound).status_code(), 404);
}

#[test]
fn status_lines() {
    assert_eq!(Status::new(HttpStatus::Okay).status_line(), "HTTP/1.1 200 OK");
    assert_eq!(Status::new(HttpStatus::Created).status_line(), "HTTP/1.1 201 Created");
    assert_eq!(Status::new(HttpStatus::NotFound).status_line(), "HTTP/1.1 404 Not Found");
}

#[test]
fn status_from_its_kind() {
    assert_eq!(Status::from(HttpStatus::Created), Status::new(HttpStatus::Created));
    let status: Status = HttpStatus::NotFound.into();
    assert_eq!(status.status_code(), 404);
}

#[test]
fn status_from_supported_codes() {
    assert_eq!(Status::try_from(200u16), Ok(Status::new(HttpStatus::Okay)));
    assert_eq!(Status::try_from(201u16), Ok(Status::new(HttpStatus::Created)));
    assert_eq!(Status::try_from(404u16), Ok(Status::new(HttpStatus::NotFound)));
    assert_eq!(HttpStatus::try_from(200u16), Ok(HttpStatus::Okay));
    assert_eq!(HttpStatus::try_from(201u16), Ok(HttpStatus::Created));
    assert_eq!(HttpStatus::try_from(404u16), Ok(HttpStatus::NotFound));
}

#[test]
fn status_from_unsupported_codes() {
    for code in [0u16, 100, 199, 202, 204, 301, 400, 403, 405, 500, 65535] {
        assert_eq!(Status::try_from(code), Err(StatusError::InvalidStatusCode));
        assert_eq!(HttpStatus::try_from(code), Err(StatusError::InvalidStatusCode));
    }
}

#[test]
fn status_code_round_trip() {
    for kind in [HttpStatus::Okay, HttpStatus::Created, HttpStatus::NotFound] {
        let code = Status::new(kind).status_code();
        assert_eq!(HttpStatus::try_from(code), Ok(kind));
    }
}

#[test]
fn empty_response_text() {
    let response = Response::new(HttpStatus::Okay, None);
    assert_eq!(response.http_string(), "HTTP/1.1 200 OK\r\n\r\n");
    let response = Response::new(HttpStatus::NotFound, None);
    assert_eq!(response.http_string(), "HTTP/1.1 404 Not Found\r\n\r\n");
    let response = Response::new(HttpStatus::Created, None);
    assert_eq!(response.http_string(), "HTTP/1.1 201 Created\r\n\r\n");
}

#[test]
fn response_text_with_headers_and_body() {
    let mut response = Response::new(HttpStatus::Okay, Some("abc".to_string()));
    response.set_headers("Content-Type".to_string(), "text/plain".to_string());
    response.set_headers("Content-Length".to_string(), "3".to_string());
    assert_eq!(
        response.http_string(),
        "HTTP/1.1 200 OK\r\nContent-Type: text/plain\r\nContent-Length: 3\r\n\r\nabc"
    );
}

#[test]
fn setting_a_header_twice_keeps_one_field() {
    let mut response = Response::new(HttpStatus::Okay, None);
    response.set_headers("A".to_string(), "1".to_string());
    response.set_headers("B".to_string(), "2".to_string());
    response.set_headers("A".to_string(), "3".to_string());
    assert_eq!(response.headers().len(), 2);
    assert_eq!(response.headers().get("A").map(|v| v.as_str()), Some("3"));
    assert_eq!(response.http_string(), "HTTP/1.1 200 OK\r\nA: 3\r\nB: 2\r\n\r\n");
}

#[test]
fn response_header_names_keep_their_case() {
    let mut response = Response::new(HttpStatus::Okay, None);
    response.set_headers("Content-Type".to_string(), "text/plain".to_string());
    assert!(response.headers().get("content-type").is_none());
    assert_eq!(response.headers().get("Content-Type").map(|v| v.as_str()), Some("text/plain"));
}

#[test]
fn set_body_replaces_the_body() {
    let mut response = Response::new(HttpStatus::Okay, Some("abc".to_string()));
    response.set_body(None);
    assert!(response.body().is_none());
    assert_eq!(response.http_string(), "HTTP/1.1 200 OK\r\n\r\n");
    response.set_body(Some("xyz".to_string()));
    assert_eq!(response.body().as_deref(), Some("xyz"));
    assert_eq!(response.status().status_code(), 200);
    assert_eq!(response.http_string(), "HTTP/1.1 200 OK\r\n\r\nxyz");
}

#[test]
fn copy_of_a_response_holds_the_same() {
    let mut response = Response::new(HttpStatus::Created, Some("abc".to_string()));
    response.set_headers("A".to_string(), "1".to_string());
    let copy = response.clone();
    response.set_body(None);
    assert_eq!(copy.http_string(), "HTTP/1.1 201 Created\r\nA: 1\r\n\r\nabc");
    assert_eq!(response.http_string(), "HTTP/1.1 201 Created\r\nA: 1\r\n\r\n");
}
