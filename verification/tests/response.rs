//! Reading responses.
use bytes::Bytes;
use http::header::{HeaderMap, HeaderName, HeaderValue};
use http_helper::parts::Part;
use http_helper::request::RequestBody;
use http_helper::response::{form_parameters, parse_content, parse_part, parse_parts, Headers};
use http_helper::{
    header_map_to_hash_map, Client, Error, MediaType, Method, Parameter, ParameterType, RawResponse,
};
use mime::Mime;

fn media(text: &str) -> MediaType {
    MediaType::parse(text).unwrap()
}

fn header_map(lines: &[(&str, &str)]) -> HeaderMap {
    let mut headers = HeaderMap::new();
    for (name, value) in lines {
        headers.append(HeaderName::try_from(*name).unwrap(), HeaderValue::from_str(value).unwrap());
    }
    headers
}

fn read(lines: &[(&str, &str)], body: &[u8]) -> Result<Vec<Parameter>, Error> {
    parse_part(Headers::HeaderMap(header_map(lines)), Bytes::copy_from_slice(body))
}

fn assert_simple(parameter: &Parameter, expected_name: &str, expected_value: &str) {
    match parameter {
        Parameter::SimpleParameter { name, value, param_type } => {
            assert_eq!(name, expected_name);
            assert_eq!(value, expected_value);
            assert!(matches!(param_type, ParameterType::Body));
        }
        Parameter::ComplexParameter { .. } => panic!("expected a simple parameter"),
    }
}

fn assert_file(parameter: &Parameter, expected_name: &str, expected_type: &str, expected_content: &[u8]) {
    match parameter {
        Parameter::SimpleParameter { .. } => panic!("expected a complex parameter"),
        Parameter::ComplexParameter { name, mime_type, content } => {
            assert_eq!(name, expected_name);
            assert_eq!(mime_type.as_str(), expected_type);
            assert_eq!(*content, expected_content);
        }
    }
}

/// Documents the behavior of the third-party mime parser that media types
/// rely on.
#[test]
fn test_mime_parsing() {
    let test_type = "text/plain;charset=UTF-8";
    let parsed_mime = test_type.parse::<Mime>().unwrap();
    assert_eq!(parsed_mime.essence_str(), "text/plain");
    assert_eq!(parsed_mime.get_param("charset").unwrap(), "UTF-8");
    assert_eq!(parsed_mime, test_type);

    let media_type = media(test_type);
    assert_eq!(media_type.essence_str(), "text/plain");
    assert_eq!(media_type.type_(), "text");
    assert_eq!(media_type.as_str(), parsed_mime.as_ref());
    assert!(media_type.boundary().is_none());
}

#[test]
fn media_types_name_their_boundary() {
    let media_type = media("Multipart/Form-Data; Boundary=\"a b\"");
    assert_eq!(media_type.type_(), "multipart");
    assert_eq!(media_type.essence_str(), "multipart/form-data");
    assert_eq!(media_type.boundary().unwrap(), "a b");
    assert!(matches!(MediaType::parse("text"), Err(Error::MimeParseError(_))));
    assert!(matches!(MediaType::parse(""), Err(Error::MimeParseError(_))));
    assert_eq!(media("TEXT/Html").as_str(), "text/html");
}

#[test]
fn a_form_is_read_into_named_values() {
    let result =
        read(&[("content-type", "application/x-www-form-urlencoded; charset=utf-8")], b"simple_param_%20test=simple_value")
            .unwrap();
    assert_eq!(result.len(), 1);
    assert_simple(&result[0], "simple_param_ test", "simple_value");

    let result = read(&[("content-type", " application/x-www-form-urlencoded ")], b"&a+b=c%3Dd=e&&%C3%A4&=x&").unwrap();
    assert_eq!(result.len(), 3);
    assert_simple(&result[0], "a b", "c=d=e");
    assert_simple(&result[1], "\u{e4}", "");
    assert_simple(&result[2], "", "x");
}

#[test]
fn named_values_become_parameters() {
    let pairs = vec![("a".to_owned(), "b".to_owned()), (String::new(), String::new())];
    let result = form_parameters(pairs);
    assert_eq!(result.len(), 2);
    assert_simple(&result[0], "a", "b");
    assert_simple(&result[1], "", "");
    assert!(form_parameters(vec![]).is_empty());
}

#[test]
fn other_content_is_one_file() {
    let body = b"Jos\xe9\r\n".as_slice();
    let result = read(&[("content-type", "text/plain; charset=utf-8")], body).unwrap();
    assert_eq!(result.len(), 1);
    assert_file(&result[0], "result", "text/plain; charset=utf-8", body);

    let result = read(&[("content-id", " \"moon.jpg\" ")], body).unwrap();
    assert_file(&result[0], "moon.jpg", "application/octet-stream", body);
}

const TEXT_PARTS: &[u8] = b"--frontier\r\n\
Content-Disposition: form-data; name=\"simple_param_0test\"\r\n\
Content-Type: text/plain; charset=utf-8\r\n\r\n\
simple_value0\r\n\
--frontier\r\n\
Content-Disposition: form-data; name=\"simple_param_1test\"\r\n\
Content-Type: text/plain; charset=utf-8\r\n\r\n\
simple_value1\r\n\
--frontier\r\n\
Content-Disposition: form-data; name=\"\"\r\n\r\n\
simple_value2\r\n\
--frontier--\r\n";

#[test]
fn parts_are_read_into_files() {
    let result = read(&[("content-type", "multipart/form-data; boundary=frontier")], TEXT_PARTS).unwrap();
    assert_eq!(result.len(), 3);
    assert_file(&result[0], "simple_param_0test", "text/plain; charset=utf-8", b"simple_value0");
    assert_file(&result[1], "simple_param_1test", "text/plain; charset=utf-8", b"simple_value1");
    assert_file(&result[2], "result", "application/octet-stream", b"simple_value2");
}

#[test]
fn parts_within_parts_are_read() {
    let mut body = b"--outer\r\n\
Content-Disposition: form-data; name=\"deep\"\r\n\
Content-Type: multipart/mixed; boundary=frontier\r\n\r\n"
        .to_vec();
    body.extend_from_slice(TEXT_PARTS);
    body.extend_from_slice(
        b"\r\n--outer\r\n\
Content-Disposition: form-data; name=\"form\"\r\n\
Content-Type: application/x-www-form-urlencoded\r\n\r\n\
a=b&c=d\r\n\
--outer--\r\n",
    );
    let result = read(&[("content-type", "multipart/mixed; boundary=outer")], &body).unwrap();
    assert_eq!(result.len(), 5);
    assert_file(&result[0], "simple_param_0test", "text/plain; charset=utf-8", b"simple_value0");
    assert_file(&result[2], "result", "application/octet-stream", b"simple_value2");
    assert_simple(&result[3], "a", "b");
    assert_simple(&result[4], "c", "d");
}

#[test]
fn a_long_body_of_parts_is_read() {
    let file = vec![0x61u8; 100_000];
    let mut body = b"--frontier\r\nContent-Disposition: form-data; name=\"long\"\r\n\r\n".to_vec();
    body.extend_from_slice(&file);
    body.extend_from_slice(b"\r\n--frontier--\r\n");
    let result = read(&[("content-type", "multipart/form-data; boundary=frontier")], &body).unwrap();
    assert_eq!(result.len(), 1);
    assert_file(&result[0], "long", "application/octet-stream", &file);
}

#[test]
fn a_body_of_parts_that_breaks_off_is_refused() {
    let cut = &TEXT_PARTS[..TEXT_PARTS.len() - 20];
    let result = read(&[("content-type", "multipart/form-data; boundary=frontier")], cut);
    assert!(matches!(result, Err(Error::FileError(_))));
    let result = read(&[("content-type", "multipart/form-data; boundary=elsewhere")], TEXT_PARTS);
    assert!(matches!(result, Err(Error::FileError(_))));
}

#[test]
fn parts_are_taken_in_order_up_to_the_first_error() {
    let part = |name: &str, content_type: Option<&str>| Part {
        name: name.to_owned(),
        content_type: content_type.map(media),
        data: Bytes::copy_from_slice(b"data"),
    };
    let result = parse_parts(vec![part("a", None), part("", Some("text/csv"))], None).unwrap();
    assert_eq!(result.len(), 2);
    assert_file(&result[0], "a", "application/octet-stream", b"data");
    assert_file(&result[1], "result", "text/csv", b"data");

    let broken = std::io::Error::new(std::io::ErrorKind::Other, "broken");
    assert!(matches!(parse_parts(vec![part("a", None)], Some(broken)), Err(Error::FileError(_))));
    let broken = std::io::Error::new(std::io::ErrorKind::Other, "broken");
    let result = parse_parts(vec![part("a", Some("multipart/mixed"))], Some(broken));
    assert!(matches!(result, Err(Error::HeaderParseError(_))));
    assert!(parse_parts(vec![], None).unwrap().is_empty());
}

#[test]
fn content_made_of_parts_needs_a_boundary() {
    match parse_content("name", media("multipart/mixed"), Bytes::new()) {
        Err(Error::HeaderParseError(message)) => {
            assert_eq!(message, "Content type multipart misses boundary parameter")
        }
        _ => panic!("expected Error::HeaderParseError"),
    }
}

#[test]
fn headers_that_cannot_be_read_are_refused() {
    assert!(matches!(read(&[("content-type", "nonsense")], b""), Err(Error::MimeParseError(_))));
    assert!(matches!(read(&[("content-type", "\u{e9}")], b""), Err(Error::ToStringError(_))));
    assert!(matches!(read(&[("content-id", "\u{e9}"), ("content-type", "nonsense")], b""), Err(Error::ToStringError(_))));
}

#[test]
fn the_last_value_of_a_header_is_kept() {
    let headers = header_map(&[("A", "1"), ("b", "2"), ("a", "3")]);
    let map = header_map_to_hash_map(&headers).unwrap();
    assert_eq!(map.len(), 2);
    assert_eq!(map.get("a").unwrap(), "3");
    assert_eq!(map.get("b").unwrap(), "2");
    assert!(map.get("A").is_none());
    assert!(matches!(header_map_to_hash_map(&header_map(&[("a", "\u{e9}")])), Err(Error::ToStringError(_))));
}

#[test]
fn a_response_is_read() {
    let response = RawResponse {
        headers: header_map(&[("Content-Type", "text/plain"), ("x", "y")]),
        body: Bytes::from_static(b"hello"),
        status_code: 201,
    };
    let parsed = response.parse_response().unwrap();
    assert_eq!(parsed.status_code, 201);
    assert_eq!(parsed.raw, b"hello".as_slice());
    assert_eq!(parsed.headers.len(), 2);
    assert_eq!(parsed.headers.get("content-type").unwrap(), "text/plain");
    assert_eq!(parsed.content.len(), 1);
    assert_file(&parsed.content[0], "result", "text/plain", b"hello");
}

#[test]
fn a_response_with_opaque_headers_is_refused() {
    let response = RawResponse {
        headers: header_map(&[("x", "\u{e9}"), ("content-type", "nonsense")]),
        body: Bytes::new(),
        status_code: 200,
    };
    assert!(matches!(response.parse_response(), Err(Error::ToStringError(_))));
    let response = RawResponse {
        headers: header_map(&[("content-type", "nonsense")]),
        body: Bytes::new(),
        status_code: 200,
    };
    assert!(matches!(response.parse_response(), Err(Error::MimeParseError(_))));
}

#[test]
fn a_form_that_is_sent_is_read_back() {
    let pairs = [("a b", "c=d&e+f"), ("\u{e4}\u{20ac}", ""), ("", "only value"), ("100%", "%41")];
    let mut client = Client::new("http://test.org", Method::POST).unwrap();
    for (name, value) in pairs {
        client.add_parameter(Parameter::SimpleParameter {
            name: name.to_owned(),
            value: value.to_owned(),
            param_type: ParameterType::Body,
        });
    }
    let encoded = match client.generate_body().unwrap() {
        RequestBody::FormUrlEncoded(encoded) => encoded,
        _ => panic!("expected RequestBody::FormUrlEncoded"),
    };
    assert_eq!(encoded, "a%20b=c%3Dd%26e%2Bf&%C3%A4%E2%82%AC&=only%20value&100%25=%2541");
    let result = read(&[("content-type", "application/x-www-form-urlencoded")], encoded.as_bytes()).unwrap();
    assert_eq!(result.len(), pairs.len());
    for (parameter, (name, value)) in result.iter().zip(pairs) {
        assert_simple(parameter, name, value);
    }
}

#[test]
fn an_entry_without_name_and_value_is_lost() {
    let mut client = Client::new("http://test.org", Method::POST).unwrap();
    for name in ["a", "", "b"] {
        client.add_parameter(Parameter::SimpleParameter {
            name: name.to_owned(),
            value: String::new(),
            param_type: ParameterType::Body,
        });
    }
    let encoded = match client.generate_body().unwrap() {
        RequestBody::FormUrlEncoded(encoded) => encoded,
        _ => panic!("expected RequestBody::FormUrlEncoded"),
    };
    assert_eq!(encoded, "a&&b");
    let result = read(&[("content-type", "application/x-www-form-urlencoded")], encoded.as_bytes()).unwrap();
    assert_eq!(result.len(), 2);
}

#[test]
fn a_single_parameter_that_is_sent_is_read_back() {
    let mut client = Client::new("http://test.org", Method::POST).unwrap();
    client.add_complex_parameter("file", media("image/png"), b"\x89PNG").unwrap();
    match client.generate_body().unwrap() {
        RequestBody::Raw { data, content_type } => {
            let result = parse_content("found", media(&content_type.unwrap()), data).unwrap();
            assert_eq!(result.len(), 1);
            assert_file(&result[0], "found", "image/png", b"\x89PNG");
        }
        _ => panic!("expected RequestBody::Raw"),
    }
}

#[test]
fn long_parts_are_all_read() {
    let file = vec![0x62u8; 20_000];
    let mut body = Vec::new();
    for name in ["one", "two", "three"] {
        body.extend_from_slice(
            format!("--frontier\r\nContent-Disposition: form-data; name=\"{}\"\r\nContent-Type: text/csv\r\n\r\n", name)
                .as_bytes(),
        );
        body.extend_from_slice(&file);
        body.extend_from_slice(b"\r\n");
    }
    body.extend_from_slice(b"--frontier--\r\n");
    let result = read(&[("content-type", "multipart/form-data; boundary=frontier")], &body).unwrap();
    assert_eq!(result.len(), 3);
    assert_file(&result[0], "one", "text/csv", &file);
    assert_file(&result[1], "two", "text/csv", &file);
    assert_file(&result[2], "three", "text/csv", &file);
}
