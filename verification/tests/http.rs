use taps::framer::{Decoded, Framer};
use taps::http::decode::decode_message;
use taps::http::encode::encode_message;
use taps::http::message::{Header, Message, Method, Request, Response};
use taps::http::number::{read_decimal, write_decimal};
use taps::http::text::{find, trim_window};
use taps::http::{HttpClient, HttpServer};

fn header(name: &str, value: &str) -> Header {
    Header { name: name.as_bytes().to_vec(), value: value.as_bytes().to_vec() }
}

fn get(target: &str) -> Request {
    Request {
        method: Method::Get,
        target: target.as_bytes().to_vec(),
        headers: vec![header("host", "127.0.0.1")],
        body: Vec::new(),
    }
}

fn ok(body: &[u8]) -> Response {
    Response { status: 200, reason: b"OK".to_vec(), headers: Vec::new(), body: body.to_vec() }
}

#[test]
fn request_is_encoded_line_by_line() {
    let bytes = encode_message(&Message::Request(get("/Cargo.toml")));
    assert_eq!(
        bytes,
        b"GET /Cargo.toml HTTP/1.1\r\nhost: 127.0.0.1\r\nContent-Length: 0\r\n\r\n".to_vec()
    );
}

#[test]
fn response_is_encoded_with_its_body_length() {
    let mut response = ok(b"hello, world");
    response.headers.push(header("content-type", "text/plain"));
    let bytes = encode_message(&Message::Response(response));
    assert_eq!(
        bytes,
        b"HTTP/1.1 200 OK\r\ncontent-type: text/plain\r\nContent-Length: 12\r\n\r\nhello, world".to_vec()
    );
}

#[test]
fn status_is_written_with_three_digits() {
    let response = Response { status: 404, reason: b"Not Found".to_vec(), headers: Vec::new(), body: Vec::new() };
    assert_eq!(
        encode_message(&Message::Response(response)),
        b"HTTP/1.1 404 Not Found\r\nContent-Length: 0\r\n\r\n".to_vec()
    );
}

#[test]
fn decode_reads_a_response() {
    let bytes = b"HTTP/1.1 200 OK\r\nContent-Length: 5\r\n\r\nhello";
    assert_eq!(
        decode_message(bytes),
        Decoded::Message { message: Message::Response(ok(b"hello")), consumed: bytes.len() }
    );
}

#[test]
fn decode_reads_a_request_and_strips_blanks_around_values() {
    let bytes = b"POST /submit HTTP/1.1\r\nX-Trace: \t abc def \t\r\ncontent-LENGTH:3\r\nempty:\r\n\r\nxyz";
    let expected = Request {
        method: Method::Post,
        target: b"/submit".to_vec(),
        headers: vec![header("X-Trace", "abc def"), header("empty", "")],
        body: b"xyz".to_vec(),
    };
    assert_eq!(
        decode_message(bytes),
        Decoded::Message { message: Message::Request(expected), consumed: bytes.len() }
    );
}

#[test]
fn decode_without_a_stated_length_takes_no_body() {
    let bytes = b"GET / HTTP/1.1\r\n\r\nrest";
    let expected = Request { method: Method::Get, target: b"/".to_vec(), headers: Vec::new(), body: Vec::new() };
    assert_eq!(decode_message(bytes), Decoded::Message { message: Message::Request(expected), consumed: 18 });
}

#[test]
fn decode_consumes_one_message_of_two() {
    let first = encode_message(&Message::Response(ok(b"one")));
    let second = encode_message(&Message::Response(ok(b"second")));
    let mut both = first.clone();
    both.extend_from_slice(&second);
    assert_eq!(
        decode_message(&both),
        Decoded::Message { message: Message::Response(ok(b"one")), consumed: first.len() }
    );
    assert_eq!(
        decode_message(&both[first.len()..]),
        Decoded::Message { message: Message::Response(ok(b"second")), consumed: second.len() }
    );
}

#[test]
fn every_strict_front_part_needs_more_data() {
    let bytes = encode_message(&Message::Response(ok(b"body")));
    for cut in 0..bytes.len() {
        assert_eq!(decode_message(&bytes[..cut]), Decoded::NeedMoreData, "cut at {}", cut);
    }
}

#[test]
fn decode_twice_gives_the_same() {
    let bytes = encode_message(&Message::Request(get("/Cargo.toml")));
    let first = decode_message(&bytes);
    let second = decode_message(&bytes);
    assert_eq!(first, second);
    assert_eq!(
        first,
        Decoded::Message { message: Message::Request(get("/Cargo.toml")), consumed: bytes.len() }
    );
}

#[test]
fn round_trip_gives_the_message_back() {
    let mut request = get("http://127.0.0.1:8081/Cargo.toml");
    request.method = Method::Put;
    request.headers.push(header("x-empty", ""));
    request.headers.push(header("accept", "text/plain, */*"));
    request.body = vec![0, 13, 10, 255, 32];
    let messages = vec![
        Message::Request(request),
        Message::Request(get("/")),
        Message::Response(ok(b"")),
        Message::Response(Response {
            status: 999,
            reason: Vec::new(),
            headers: vec![header("server", "taps")],
            body: b"\r\n\r\n".to_vec(),
        }),
    ];
    for message in messages {
        let bytes = encode_message(&message);
        let consumed = bytes.len();
        assert_eq!(decode_message(&bytes), Decoded::Message { message, consumed });
    }
}

#[test]
fn every_method_round_trips() {
    let methods = [
        (Method::Get, "GET"),
        (Method::Head, "HEAD"),
        (Method::Post, "POST"),
        (Method::Put, "PUT"),
        (Method::Delete, "DELETE"),
        (Method::Options, "OPTIONS"),
        (Method::Patch, "PATCH"),
    ];
    for (method, name) in methods {
        assert_eq!(method.token(), name.as_bytes().to_vec());
        assert_eq!(Method::read(name.as_bytes(), 0, name.len()), Some(method));
        let mut request = get("/x");
        request.method = method;
        let bytes = encode_message(&Message::Request(request.clone()));
        assert_eq!(
            decode_message(&bytes),
            Decoded::Message { message: Message::Request(request), consumed: bytes.len() }
        );
    }
    assert_eq!(Method::read(b"get", 0, 3), None);
    assert_eq!(Method::read(b"GETS", 0, 4), None);
    assert_eq!(Method::read(b"GETS", 0, 3), Some(Method::Get));
}

#[test]
fn malformed_input_is_told_apart() {
    let malformed: Vec<&[u8]> = vec![
        b"GET  /x HTTP/1.1\r\n\r\n",
        b"GET /x HTTP/1.0\r\n\r\n",
        b"GET /x\r\n\r\n",
        b"FETCH /x HTTP/1.1\r\n\r\n",
        b"GET /x HTTP/1.1\n\r\n",
        b"GET /x HTTP/1.1\r\r\n",
        b"GET /x\t HTTP/1.1\r\n\r\n",
        b"\r\n",
        b"HTTP/1.1 20 OK\r\n\r\n",
        b"HTTP/1.1 099 Low\r\n\r\n",
        b"HTTP/1.1 2000 OK\r\n\r\n",
        b"HTTP/1.1 200\r\n\r\n",
        b"HTTP/2 200 OK\r\n\r\n",
        b"GET /x HTTP/1.1\r\nno colon\r\n\r\n",
        b"GET /x HTTP/1.1\r\n: value\r\n\r\n",
        b"GET /x HTTP/1.1\r\nbad name: value\r\n\r\n",
        b"GET /x HTTP/1.1\r\nContent-Length: 1\r\ncontent-length: 1\r\n\r\nx",
        b"GET /x HTTP/1.1\r\nContent-Length: one\r\n\r\n",
        b"GET /x HTTP/1.1\r\nContent-Length: \r\n\r\n",
        b"GET /x HTTP/1.1\r\nContent-Length: -1\r\n\r\n",
        b"GET /x HTTP/1.1\r\nContent-Length: 18446744073709551616\r\n\r\n",
    ];
    for bytes in malformed {
        assert_eq!(decode_message(bytes), Decoded::Malformed, "{:?}", String::from_utf8_lossy(bytes));
    }
}

#[test]
fn malformed_input_stays_malformed_when_more_arrives() {
    let more = encode_message(&Message::Response(ok(b"fine")));
    let malformed: Vec<&[u8]> = vec![
        b"GET /x HTTP/1.1\n",
        b"FETCH /x HTTP/1.1\r\n",
        b"GET /x HTTP/1.1\r\nno colon\r\n",
        b"HTTP/1.1 200 OK\r\nContent-Length: x\r\n",
        b"\rx",
    ];
    for bytes in malformed {
        assert_eq!(decode_message(bytes), Decoded::Malformed, "{:?}", String::from_utf8_lossy(bytes));
        let mut longer = bytes.to_vec();
        longer.extend_from_slice(&more);
        assert_eq!(decode_message(&longer), Decoded::Malformed, "{:?}", String::from_utf8_lossy(&longer));
    }
    let not_found = b"HTTP/1.1 404 Not Found\r\n\r\n".to_vec();
    let mut longer = not_found.clone();
    longer.extend_from_slice(&more);
    assert_eq!(HttpClient.decode(&not_found), Decoded::Malformed);
    assert_eq!(HttpClient.decode(&longer), Decoded::Malformed);
}

#[test]
fn a_stated_length_beyond_the_buffer_needs_more_data() {
    assert_eq!(
        decode_message(b"GET /x HTTP/1.1\r\nContent-Length: 18446744073709551615\r\n\r\nabc"),
        Decoded::NeedMoreData
    );
    assert_eq!(decode_message(b"HTTP/1.1 200 OK\r\nContent-Length: 4\r\n\r\nabc"), Decoded::NeedMoreData);
    assert_eq!(decode_message(b"HTTP/1.1 200 OK\r"), Decoded::NeedMoreData);
    assert_eq!(decode_message(b""), Decoded::NeedMoreData);
}

#[test]
fn client_takes_successful_responses_only() {
    let client = HttpClient::default();
    let good = encode_message(&Message::Response(ok(b"fine")));
    assert_eq!(
        client.decode(&good),
        Decoded::Message { message: Message::Response(ok(b"fine")), consumed: good.len() }
    );
    assert_eq!(client.decode(&good[..10]), Decoded::NeedMoreData);
    let missing = Response { status: 404, reason: b"Not Found".to_vec(), headers: Vec::new(), body: Vec::new() };
    assert_eq!(client.decode(&encode_message(&Message::Response(missing))), Decoded::Malformed);
    let moved = Response { status: 300, reason: Vec::new(), headers: Vec::new(), body: Vec::new() };
    assert_eq!(client.decode(&encode_message(&Message::Response(moved))), Decoded::Malformed);
    let last = Response { status: 299, reason: Vec::new(), headers: Vec::new(), body: Vec::new() };
    let bytes = encode_message(&Message::Response(last.clone()));
    assert_eq!(client.decode(&bytes), Decoded::Message { message: Message::Response(last), consumed: bytes.len() });
    assert_eq!(client.decode(&encode_message(&Message::Request(get("/")))), Decoded::Malformed);
    assert_eq!(client.decode(b"garbage\n"), Decoded::Malformed);
}

#[test]
fn server_takes_requests_only() {
    let server = HttpServer::default();
    let request = encode_message(&Message::Request(get("/Cargo.toml")));
    assert_eq!(
        server.decode(&request),
        Decoded::Message { message: Message::Request(get("/Cargo.toml")), consumed: request.len() }
    );
    assert_eq!(server.decode(&encode_message(&Message::Response(ok(b"")))), Decoded::Malformed);
    assert_eq!(server.encode(&Message::Response(ok(b"x"))), encode_message(&Message::Response(ok(b"x"))));
    assert_eq!(HttpClient.encode(&Message::Request(get("/"))), encode_message(&Message::Request(get("/"))));
}

#[test]
fn path_is_what_stands_behind_scheme_and_authority() {
    assert_eq!(get("/Cargo.toml").path(), b"/Cargo.toml".to_vec());
    assert_eq!(get("http://127.0.0.1:8081/Cargo.toml").path(), b"/Cargo.toml".to_vec());
    assert_eq!(get("http://example.org").path(), b"/".to_vec());
    assert_eq!(get("/search?q=1").path(), b"/search".to_vec());
    assert_eq!(get("https://example.org/a/b#top").path(), b"/a/b".to_vec());
    assert_eq!(get("*").path(), b"*".to_vec());
    assert_eq!(get("/a:b//c").path(), b"/a:b//c".to_vec());
}

#[test]
fn matches_asks_for_method_and_path() {
    let request = get("http://127.0.0.1:8081/Cargo.toml");
    assert!(request.matches(Method::Get, b"/Cargo.toml"));
    assert!(!request.matches(Method::Post, b"/Cargo.toml"));
    assert!(!request.matches(Method::Get, b"Cargo.toml"));
    assert!(!request.matches(Method::Get, b"/Cargo.tom"));
}

#[test]
fn is_success_is_the_2xx_class() {
    let mut response = ok(b"");
    for (status, success) in [(199, false), (200, true), (204, true), (299, true), (300, false), (500, false)] {
        response.status = status;
        assert_eq!(response.is_success(), success);
    }
}

#[test]
fn decimal_numbers_are_read_and_written() {
    let mut out = b"n=".to_vec();
    write_decimal(&mut out, 0);
    write_decimal(&mut out, 7);
    write_decimal(&mut out, 1234567890);
    write_decimal(&mut out, u64::MAX);
    assert_eq!(out, b"n=0712345678901844674407370955161518446744073709551615"[..2 + 1 + 1 + 10 + 20].to_vec());
    assert_eq!(read_decimal(b"0", 0, 1), Some(0));
    assert_eq!(read_decimal(b"007", 0, 3), Some(7));
    assert_eq!(read_decimal(b"x42y", 1, 3), Some(42));
    assert_eq!(read_decimal(b"18446744073709551615", 0, 20), Some(u64::MAX));
    assert_eq!(read_decimal(b"18446744073709551616", 0, 20), None);
    assert_eq!(read_decimal(b"99999999999999999999", 0, 20), None);
    assert_eq!(read_decimal(b"12a", 0, 3), None);
    assert_eq!(read_decimal(b"12", 1, 1), None);
    assert_eq!(read_decimal(b"+1", 0, 2), None);
}

#[test]
fn find_and_trim_work_within_the_window() {
    let text = b"ab:cd:ef";
    assert_eq!(find(text, 0, text.len(), b':', b':'), 2);
    assert_eq!(find(text, 3, text.len(), b':', b':'), 5);
    assert_eq!(find(text, 3, 5, b':', b':'), 5);
    assert_eq!(find(text, 0, text.len(), b'x', b'e'), 6);
    assert_eq!(find(text, 0, text.len(), b'x', b'y'), text.len());
    assert_eq!(trim_window(b" \ta b\t ", 0, 7), (2, 5));
    assert_eq!(trim_window(b"   ", 0, 3), (3, 3));
    assert_eq!(trim_window(b"abc", 1, 1), (1, 1));
    assert_eq!(trim_window(b" a ", 1, 2), (1, 2));
}
