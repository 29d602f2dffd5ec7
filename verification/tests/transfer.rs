//! Putting responses together.
use http::header::{HeaderMap, HeaderName, HeaderValue};
use http_helper::outgoing::header_lines;
use http_helper::transfer::{process_header_line, Collector};
use http_helper::Error;

#[test]
fn lines_and_blocks_make_a_response() {
    let mut collector = Collector::new();
    assert!(collector.on_header(b"HTTP/1.1 302 Found\r\n"));
    assert!(collector.on_header(b"Location: http://elsewhere/\r\n"));
    assert!(collector.on_header(b"\r\n"));
    assert!(collector.on_header(b"HTTP/2 200\r\n"));
    assert!(collector.on_header(b"Set-Cookie: a=b\r\n"));
    assert!(collector.on_header(b"set-cookie:   c=d:e  \r\n"));
    assert!(collector.on_header(b"\r\n"));
    assert_eq!(collector.on_body(b"hello "), 6);
    assert_eq!(collector.on_body(b""), 0);
    assert_eq!(collector.on_body(b"world"), 5);
    let response = collector.finish(200).unwrap();
    assert_eq!(response.status_code, 200);
    assert_eq!(response.body, b"hello world".as_slice());
    assert_eq!(response.headers.len(), 2);
    let cookies: Vec<&HeaderValue> = response.headers.get_all("set-cookie").iter().collect();
    assert_eq!(cookies, vec!["a=b", "c=d:e"]);
}

#[test]
fn the_first_error_of_a_line_is_kept() {
    let mut collector = Collector::new();
    collector.on_header(b"a: 1\r\n");
    collector.on_header(b"b c: 2\r\n");
    collector.on_header(b"\xff: 3\r\n");
    collector.on_header(b"HTTP/1.1 200 OK\r\n");
    collector.on_body(b"body");
    assert!(matches!(collector.finish(200), Err(Error::InvalidHeaderName(_))));
}

#[test]
fn a_response_code_is_cut_to_its_lower_half() {
    assert_eq!(Collector::new().finish(65536 + 204).unwrap().status_code, 204);
    assert_eq!(Collector::new().finish(65535).unwrap().status_code, 65535);
}

#[test]
fn lines_are_refused() {
    let mut headers = HeaderMap::new();
    process_header_line(b"a: 1", &mut headers).unwrap();
    assert!(matches!(process_header_line(b"b: \xff", &mut headers), Err(Error::Utf8Error(_))));
    assert!(matches!(process_header_line(b": 2", &mut headers), Err(Error::InvalidHeaderName(_))));
    assert!(matches!(process_header_line(b"b: x\x00y", &mut headers), Err(Error::InvalidHeaderValue(_))));
    process_header_line(b"no header", &mut headers).unwrap();
    process_header_line(b"", &mut headers).unwrap();
    assert_eq!(headers.len(), 1);
    assert_eq!(headers.get("a").unwrap(), "1");
}

#[test]
fn a_full_header_map_takes_no_line() {
    let mut headers = HeaderMap::new();
    let mut i: u32 = 0;
    while i < 6000 {
        process_header_line(format!("x-{}: v\r\n", i).as_bytes(), &mut headers).unwrap();
        i += 1;
    }
    let refused = loop {
        if let Err(e) = process_header_line(format!("x-{}: v\r\n", i).as_bytes(), &mut headers) {
            break e;
        }
        i += 1;
    };
    assert!(matches!(refused, Error::TooManyHeaders(_)));
    assert_eq!(headers.len(), i as usize);
    process_header_line(b"HTTP/1.1 200 OK", &mut headers).unwrap();
    assert!(headers.is_empty());
}

#[test]
fn a_header_line_is_read_back() {
    let mut headers = HeaderMap::new();
    headers.insert("x-test", HeaderValue::from_static("a: b/c"));
    let lines = header_lines(&headers).unwrap();
    assert_eq!(lines, vec!["x-test: a: b/c"]);
    let mut again = HeaderMap::new();
    process_header_line(lines[0].as_bytes(), &mut again).unwrap();
    assert_eq!(again, headers);
}

#[test]
fn a_header_name_with_a_quote_is_written_out() {
    let mut headers = HeaderMap::new();
    headers.insert(HeaderName::from_static("x\"y"), HeaderValue::from_static("z"));
    assert_eq!(header_lines(&headers).unwrap(), vec!["x\"y: z"]);
    let map = http_helper::header_map_to_hash_map(&headers).unwrap();
    assert_eq!(map.get("x\"y").unwrap(), "z");
}
