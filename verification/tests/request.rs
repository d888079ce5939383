use httpd::error::{HandleError, InternalError, ParseError};
use httpd::request::{ConnectionType, Method, RequestHeader};

fn format_error() -> Result<RequestHeader, HandleError> {
    Err(HandleError::Internal(InternalError::FormatError))
}

fn bare(method: Method, uri: &str) -> RequestHeader {
    RequestHeader {
        method,
        uri: uri.to_string(),
        user_agent: None,
        host: None,
        content_length: None,
        connection: ConnectionType::KeepAlive,
    }
}

#[test]
fn method_names() {
    assert_eq!(Method::from_str("GET"), Ok(Method::GET));
    assert_eq!(Method::from_str("POST"), Ok(Method::POST));
    assert_eq!(Method::from_str("get"), Err(ParseError::VariantNotFound));
    for method in Method::iter() {
        assert_eq!(Method::from_str(&method.to_string()), Ok(method));
    }
}

#[test]
fn connection_names() {
    assert_eq!(ConnectionType::from_str("keep-alive"), Ok(ConnectionType::KeepAlive));
    assert_eq!(ConnectionType::from_str("close"), Ok(ConnectionType::Close));
    assert_eq!(ConnectionType::from_str("Close"), Err(ParseError::VariantNotFound));
    assert_eq!(ConnectionType::from_str("KeepAlive"), Err(ParseError::VariantNotFound));
}

#[test]
fn full_header() {
    let raw = "POST /echo HTTP/1.1\r\nHost: localhost:8080\r\nUser-Agent: curl/8.0\r\n\
               Content-Length: 12\r\nConnection: close\r\n\r\n";
    assert_eq!(
        RequestHeader::parse(raw),
        Ok(RequestHeader {
            method: Method::POST,
            uri: "/echo".to_string(),
            user_agent: Some("curl/8.0".to_string()),
            host: Some("localhost:8080".to_string()),
            content_length: Some(12),
            connection: ConnectionType::Close,
        })
    );
}

#[test]
fn request_line_alone() {
    assert_eq!(RequestHeader::parse("GET /"), Ok(bare(Method::GET, "/")));
    assert_eq!(RequestHeader::parse("GET /a HTTP/1.1\r\n\r\n"), Ok(bare(Method::GET, "/a")));
    assert_eq!(RequestHeader::parse(" \tGET\t/a whatever else\r\n\r\n"), Ok(bare(Method::GET, "/a")));
}

#[test]
fn bad_request_lines() {
    for raw in ["", "\r\n\r\n", "GET", "GET \r\n\r\n", "PUT / HTTP/1.1\r\n\r\n", "get / x\r\n"] {
        assert_eq!(RequestHeader::parse(raw), format_error());
    }
}

#[test]
fn fields_without_a_value() {
    for key in ["Host", "User-Agent", "Content-Length", "Connection"] {
        assert_eq!(RequestHeader::parse(&format!("GET / x\r\n{}\r\n\r\n", key)), format_error());
        assert_eq!(
            RequestHeader::parse(&format!("GET / x\r\n{}:\r\n\r\n", key)),
            Ok(bare(Method::GET, "/"))
        );
    }
}

#[test]
fn empty_values() {
    let mut expected = bare(Method::GET, "/");
    expected.host = Some(String::new());
    assert_eq!(RequestHeader::parse("GET / x\r\nHost: \r\n\r\n"), Ok(expected));
    assert_eq!(RequestHeader::parse("GET / x\r\nContent-Length: \r\n\r\n"), format_error());
}

#[test]
fn bad_content_length() {
    for size in ["-1", "12a", " 12", "99999999999999999999999999"] {
        let raw = format!("GET / x\r\nContent-Length: {}\r\n\r\n", size);
        assert_eq!(RequestHeader::parse(&raw), format_error());
    }
}

#[test]
fn unknown_connection() {
    assert_eq!(
        RequestHeader::parse("GET / x\r\nConnection: upgrade\r\n\r\n"),
        format_error()
    );
}

#[test]
fn every_error_is_malformed() {
    for raw in [
        "",
        "\r\n\r\n",
        "GET\r\n\r\n",
        "PUT / x\r\n\r\n",
        "GET / x\r\nHost\r\n\r\n",
        "GET / x\r\nConnection\r\n\r\n",
        "GET / x\r\nConnection: \r\n\r\n",
        "GET / x\r\nConnection: Close\r\n\r\n",
        "GET / x\r\nConnection: Keep-Alive\r\n\r\n",
        "GET / x\r\nConnection: upgrade\r\nHost\r\n\r\n",
        "GET / x\r\nHost\r\nConnection: upgrade\r\n\r\n",
    ] {
        assert_eq!(RequestHeader::parse(raw), format_error());
    }
}

#[test]
fn unknown_methods() {
    for (raw, connection) in [
        ("PUT /x HTTP/1.1\r\n\r\n", ConnectionType::KeepAlive),
        ("get / x", ConnectionType::KeepAlive),
        ("  DELETE  /\r\nConnection: close\r\n\r\n", ConnectionType::Close),
        ("A B\r\nConnection: close\r\nConnection: keep-alive", ConnectionType::KeepAlive),
    ] {
        assert_eq!(RequestHeader::unknown_method(raw), Some(connection));
        assert_eq!(RequestHeader::parse(raw), format_error());
    }
    for raw in ["", "\r\n", "PUT", "GET", "GET /", "POST / x\r\nHost\r\n\r\n", "GET\r\nPUT /x"] {
        assert_eq!(RequestHeader::unknown_method(raw), None);
    }
    for field in ["Host", "Content-Length: x", "Connection: upgrade"] {
        let raw = format!("PUT / x\r\n{}\r\n\r\n", field);
        assert_eq!(RequestHeader::unknown_method(&raw), None);
    }
}

#[test]
fn unknown_last_line_is_ignored() {
    assert_eq!(RequestHeader::parse("GET / x\r\nAccept: y"), RequestHeader::parse("GET / x"));
    assert_eq!(RequestHeader::parse("GET / x\r\n"), RequestHeader::parse("GET / x"));
}

#[test]
fn unknown_fields_are_ignored() {
    let raw = "GET / x\r\nAccept: */*\r\nX\r\nhost: lower\r\nHost: a\r\n\r\n";
    let mut expected = bare(Method::GET, "/");
    expected.host = Some("a".to_string());
    assert_eq!(RequestHeader::parse(raw), Ok(expected));
}

#[test]
fn last_field_counts() {
    let raw = "GET / x\r\nHost: a\r\nConnection: close\r\nHost: b\r\nConnection: keep-alive\r\n\r\n";
    let mut expected = bare(Method::GET, "/");
    expected.host = Some("b".to_string());
    assert_eq!(RequestHeader::parse(raw), Ok(expected));
}

#[test]
fn value_ends_at_the_next_separator() {
    let mut expected = bare(Method::GET, "/");
    expected.user_agent = Some("a".to_string());
    assert_eq!(RequestHeader::parse("GET / x\r\nUser-Agent: a: b\r\n\r\n"), Ok(expected));
}

#[test]
fn single_line_feed_is_no_line_break() {
    let mut expected = bare(Method::GET, "/");
    expected.host = Some("a\nConnection".to_string());
    assert_eq!(RequestHeader::parse("GET / x\r\nHost: a\nConnection: close\r\n\r\n"), Ok(expected));
}

#[test]
fn error_texts() {
    assert_eq!(InternalError::FormatError.to_string(), "format error");
    assert_eq!(
        InternalError::RequiredHeaderField.to_string(),
        "required header field is not provided"
    );
    assert_eq!(InternalError::EOFReached.to_string(), "eof reached without expectation");
    assert_eq!(InternalError::Unknown.to_string(), "unknown error");
    assert_eq!(
        ParseError::VariantNotFound.to_string(),
        strum::ParseError::VariantNotFound.to_string()
    );
    assert_eq!(ParseError::VariantNotFound.to_string(), "Matching variant not found");
    assert_eq!(HandleError::Internal(InternalError::Unknown).to_string(), "unknown error");
}
