//! Header blocks, request lines, status lines and replies.
use herdr_remote_download::error::{ErrorKind, TransferError};
use herdr_remote_download::http::{
    field, head_text, parse_request_line, parse_status_line, read_headers, read_http_response,
    read_limited_line, response_length, HeaderReader, Headers, ResponseReader, Route,
    MAX_HEADER_BYTES,
};
use herdr_remote_download::json::{
    compact_reply, count_member, flag_member, parse_reply, text_member, write_object, JsonField,
};
use herdr_remote_download::protocol::{error_reply, write_json_response, Status};
use herdr_remote_download::text::split_lines;

fn block(text: &str) -> Result<(Headers, usize), TransferError> {
    read_headers(&split_lines(text), 0)
}

fn kind<T>(result: Result<T, TransferError>) -> ErrorKind {
    result.err().unwrap().kind
}

#[test]
fn header_blocks_are_read() {
    let (headers, next) =
        block("Host: a\r\n  X-Thing :  b:c \nhost:\u{a0}z\r\n\r\nbody: no\r\n").unwrap();
    assert_eq!(next, 4);
    assert_eq!(headers.get("host"), Some("z"));
    assert_eq!(headers.get("x-thing"), Some("b:c"));
    assert_eq!(headers.get("body"), None);
    assert!(block("\n").is_ok());
    assert_eq!(kind(block("")), ErrorKind::ConnectionEnded);
    assert_eq!(kind(block("Host: a\r\n")), ErrorKind::ConnectionEnded);
    assert_eq!(kind(block("Host a\r\n\r\n")), ErrorKind::InvalidHeader);
}

#[test]
fn header_blocks_are_limited() {
    let line = format!("a: {}\r\n", "x".repeat(MAX_HEADER_BYTES - 7));
    assert_eq!(line.len(), MAX_HEADER_BYTES - 2);
    assert!(block(&format!("{line}\r\n")).is_ok());
    assert_eq!(kind(block(&format!("{line}b\r\n\r\n"))), ErrorKind::HeadersTooLarge);
    let long = format!("a: {}\r\n", "x".repeat(MAX_HEADER_BYTES));
    let error = block(&long).err().unwrap();
    assert_eq!(error.message(), "HTTP header line is too large");
    assert_eq!(read_limited_line("abc", 3).unwrap(), 3);
    assert_eq!(read_limited_line("é", 2).unwrap(), 2);
    assert_eq!(kind(read_limited_line("abc", 2)), ErrorKind::LineTooLarge);
    assert_eq!(kind(read_limited_line("", 2)), ErrorKind::ConnectionEnded);
}

#[test]
fn written_blocks_are_read_back() {
    let fields = vec![field("Content-Length", "12"), field("X-Name", "a b: c")];
    let text = head_text("", &fields);
    assert_eq!(text, "Content-Length: 12\r\nX-Name: a b: c\r\n\r\n");
    let mut reader = HeaderReader::new();
    let mut complete = false;
    for line in split_lines(&text) {
        assert!(!complete);
        complete = reader.accept(&line).unwrap();
    }
    assert!(complete);
    let headers = reader.into_headers();
    assert_eq!(headers.get("content-length"), Some("12"));
    assert_eq!(headers.get("x-name"), Some("a b: c"));
}

#[test]
fn requests_are_routed() {
    let route = |line: &str| parse_request_line(line).map(|request| request.route());
    assert_eq!(route("GET /health HTTP/1.1\r\n").unwrap(), Route::Health);
    assert_eq!(route(" POST  /v1/files\tHTTP/1.0\n").unwrap(), Route::Upload);
    assert_eq!(route("POST /v1/choose-file HTTP/1.1\r\n").unwrap(), Route::ChooseFile);
    assert_eq!(route("GET /v1/files HTTP/1.1\r\n").unwrap(), Route::Unknown);
    assert_eq!(route("get /health HTTP/1.1\r\n").unwrap(), Route::Unknown);
    assert_eq!(kind(route("GET /health\r\n")), ErrorKind::InvalidRequestLine);
    assert_eq!(kind(route("GET /a b HTTP/1.1\r\n")), ErrorKind::InvalidRequestLine);
}

#[test]
fn responses_are_read() {
    let read = |text: &str| read_http_response(&split_lines(text), 10);
    assert_eq!(read("HTTP/1.1 200 OK\r\nContent-Length: 10\r\n\r\n").unwrap(), (200, 10));
    assert_eq!(
        read("HTTP/1.1 200 OK\r\nContent-Length: 11\r\n\r\n").err().unwrap().message(),
        "receiver response is too large"
    );
    assert_eq!(
        read("HTTP/1.1\r\n\r\n").err().unwrap().message(),
        "receiver returned an invalid HTTP status line"
    );
    assert_eq!(kind(read("HTTP/1.1 70000 OK\r\n\r\n")), ErrorKind::InvalidStatus);
    assert_eq!(
        read("HTTP/1.1 200 OK\r\n\r\n").err().unwrap().message(),
        "receiver response did not include Content-Length"
    );
    assert_eq!(
        kind(read("HTTP/1.1 200 OK\r\nContent-Length: x\r\n\r\n")),
        ErrorKind::InvalidContentLength
    );
    for (text, words) in [
        ("70000", "number too large to fit in target type"),
        ("2x0", "invalid digit found in string"),
        ("-1", "invalid digit found in string"),
        ("+", "invalid digit found in string"),
        ("99999x", "number too large to fit in target type"),
    ] {
        assert_eq!(text.parse::<u16>().err().unwrap().to_string(), words);
        assert_eq!(
            parse_status_line(&format!("HTTP/1.1 {text}\r\n")).err().unwrap().message(),
            format!("receiver returned an invalid HTTP status: {words}")
        );
    }
    assert_eq!(
        read("HTTP/1.1 200 OK\r\nContent-Length:\r\n\r\n").err().unwrap().message(),
        "receiver returned an invalid Content-Length: cannot parse integer from empty string"
    );
    assert_eq!(kind(read("")), ErrorKind::ConnectionEnded);
    assert_eq!(parse_status_line("HTTP/1.1 +404 Not Found\r\n").unwrap(), 404);
    let mut headers = Headers::new();
    headers.insert("content-length".to_string(), "3".to_string());
    assert_eq!(response_length(&headers, 3).unwrap(), 3);
}

#[test]
fn replies_are_spelled_out() {
    let bytes = write_json_response(&error_reply(Status::NotFound, "a\"b"));
    assert_eq!(
        String::from_utf8(bytes).unwrap(),
        "HTTP/1.1 404 Not Found\r\n\
         Content-Type: application/json; charset=utf-8\r\n\
         Content-Length: 16\r\n\
         Connection: close\r\n\r\n\
         {\"error\":\"a\\\"b\"}"
    );
    let statuses = [
        (Status::Done, 200, "OK"),
        (Status::Created, 201, "Created"),
        (Status::BadRequest, 400, "Bad Request"),
        (Status::Unauthorized, 401, "Unauthorized"),
        (Status::NotFound, 404, "Not Found"),
        (Status::LengthRequired, 411, "Length Required"),
        (Status::ContentTooLarge, 413, "Content Too Large"),
        (Status::Unprocessable, 422, "Unprocessable Content"),
        (Status::InternalError, 500, "Internal Server Error"),
    ];
    for (status, code, reason) in statuses {
        assert_eq!((status.code(), status.reason()), (code, reason));
    }
}

#[test]
fn written_objects_are_read_back() {
    let members = vec![
        text_member("text", "tab\t \"日\" \u{1f980}\0"),
        count_member("count", u64::MAX),
        flag_member("flag", true),
        text_member("text twice", "first"),
        text_member("text twice", "last"),
    ];
    let bytes = write_object(&members);
    let object = parse_reply(&bytes).unwrap();
    assert_eq!(object.text("text"), Some("tab\t \"日\" \u{1f980}\0"));
    assert!(matches!(object.get("count"), Some(JsonField::Number(Some(u64::MAX)))));
    assert_eq!(object.count("count"), Some(u64::MAX));
    assert_eq!(object.count("text"), None);
    assert_eq!(object.count("other"), None);
    assert!(matches!(object.get("flag"), Some(JsonField::Bool(true))));
    assert_eq!(object.text("text twice"), Some("last"));
    assert!(object.get("other").is_none());
    let kinds = parse_reply(br#"{"n": null, "a": [1], "o": {"x": 1}}"#).unwrap();
    assert!(matches!(kinds.get("n"), Some(JsonField::Null)));
    assert!(matches!(kinds.get("a"), Some(JsonField::Array)));
    assert!(matches!(kinds.get("o"), Some(JsonField::Object)));
    assert!(parse_reply(b"7").is_none());
    let numbers =
        parse_reply(br#"{"c": 19, "n": -1, "f": 1.0, "l": 18446744073709551616}"#).unwrap();
    assert_eq!(numbers.count("c"), Some(19));
    for name in ["n", "f", "l"] {
        assert!(matches!(numbers.get(name), Some(JsonField::Number(None))), "{name}");
        assert_eq!(numbers.count(name), None);
    }
}

#[test]
fn replies_are_printed_in_compact_form() {
    let body = b"{ \"path\" : \"/d/a.txt\",\n \"bytes\" : 19, \"list\" : [ 1.50, null ] }\n";
    assert_eq!(
        compact_reply(body).unwrap(),
        "{\"bytes\":19,\"list\":[1.5,null],\"path\":\"/d/a.txt\"}"
    );
    assert!(compact_reply(b"{").is_none());
}

#[test]
fn responses_are_read_line_by_line() {
    let mut reader = ResponseReader::new(10);
    assert!(reader.accept("HTTP/1.1 201 Created\r\n").unwrap().is_none());
    assert!(reader.accept("Content-Length: 7\r\n").unwrap().is_none());
    assert_eq!(reader.accept("\r\n").unwrap(), Some((201, 7)));

    assert_eq!(kind(ResponseReader::new(10).accept("")), ErrorKind::ConnectionEnded);
    assert_eq!(kind(ResponseReader::new(10).accept("HTTP/1.1\r\n")), ErrorKind::InvalidStatusLine);
    for (line, expected) in [
        ("no field\r\n", ErrorKind::InvalidHeader),
        ("", ErrorKind::ConnectionEnded),
        ("\r\n", ErrorKind::NoContentLength),
    ] {
        let mut reader = ResponseReader::new(10);
        reader.accept("HTTP/1.1 200 OK\r\n").unwrap();
        assert_eq!(kind(reader.accept(line)), expected);
    }
    let mut reader = ResponseReader::new(10);
    reader.accept("HTTP/1.1 200 OK\r\n").unwrap();
    reader.accept("content-length: 11\n").unwrap();
    assert_eq!(kind(reader.accept("\n")), ErrorKind::ResponseTooLarge);
}
