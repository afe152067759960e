//! The wire format: what a message looks like as bytes, and what a buffer of
//! bytes decodes to.
//!
//! A message is a start line, header lines, an empty line and a body. Every
//! line ends with a carriage return and a line feed and holds neither
//! otherwise. The body's length stands in a `Content-Length` header; without
//! one the body is empty.

use vstd::prelude::*;
use crate::framer::Decoding;
use crate::http::message::{
    COLON,
    HeaderView,
    MessageView,
    Method,
    RequestView,
    ResponseView,
    all_visible,
    is_length_name,
};
use crate::http::number::{digits_of, is_digit, parse_decimal};
use crate::http::text::{CR, LF, SP, first_of, trim};

verus! {

/// The line at the front of a buffer.
pub enum Line {
    /// A whole line of `length` bytes, not counting the line end behind it.
    Whole { length: int },
    /// No line end yet.
    Partial,
    /// A carriage return or a line feed that is not part of a line end.
    Broken,
}

/// The first line of a message.
pub enum StartView {
    Request { method: Method, target: Seq<u8> },
    Response { status: u16, reason: Seq<u8> },
}

/// The header lines at the front of a buffer.
pub enum Fields {
    /// The header lines and the empty line behind them are all there: the
    /// headers in order, the body's length if a header stated it, and the
    /// place where the body begins.
    Done { headers: Seq<HeaderView>, length: Option<u64>, used: int },
    Partial,
    Broken,
}

/// A carriage return and a line feed.
pub open spec fn line_end() -> Seq<u8> {
    seq![CR, LF]
}

/// `HTTP/1.1`
pub open spec fn version() -> Seq<u8> {
    seq![72u8, 84u8, 84u8, 80u8, 47u8, 49u8, 46u8, 49u8]
}

/// `Content-Length`
pub open spec fn length_header() -> Seq<u8> {
    seq![67u8, 111u8, 110u8, 116u8, 101u8, 110u8, 116u8, 45u8, 76u8, 101u8, 110u8, 103u8, 116u8, 104u8]
}

/// A colon and a space.
pub open spec fn separator() -> Seq<u8> {
    seq![COLON, SP]
}

/// The last three digits of a status.
pub open spec fn status_digits(status: u16) -> Seq<u8> {
    seq![(48 + (status / 100) % 10) as u8, (48 + (status / 10) % 10) as u8, (48 + status % 10) as u8]
}

/// The number that three digits spell.
pub open spec fn status_value(digits: Seq<u8>) -> int {
    (digits[0] - 48) * 100 + (digits[1] - 48) * 10 + (digits[2] - 48)
}

/// The start line of a message, without its line end.
pub open spec fn start_line(start: StartView) -> Seq<u8> {
    match start {
        StartView::Request { method, target } => method.name() + seq![SP] + target + seq![SP] + version(),
        StartView::Response { status, reason } => version() + seq![SP] + status_digits(status) + seq![SP]
            + reason,
    }
}

/// A header line, without its line end.
pub open spec fn field_line(header: HeaderView) -> Seq<u8> {
    header.name + separator() + header.value
}

/// The header lines of a list of headers, each with its line end.
pub open spec fn wire_fields(headers: Seq<HeaderView>) -> Seq<u8>
    decreases headers.len(),
{
    if headers.len() == 0 {
        Seq::empty()
    } else {
        wire_fields(headers.drop_last()) + field_line(headers.last()) + line_end()
    }
}

/// The header that states a body of `length` bytes.
pub open spec fn length_field(length: nat) -> HeaderView {
    HeaderView { name: length_header(), value: digits_of(length) }
}

impl MessageView {
    /// What stands in the message's start line.
    pub open spec fn start(self) -> StartView {
        match self {
            MessageView::Request(request) => StartView::Request {
                method: request.method,
                target: request.target,
            },
            MessageView::Response(response) => StartView::Response {
                status: response.status,
                reason: response.reason,
            },
        }
    }

    pub open spec fn headers(self) -> Seq<HeaderView> {
        match self {
            MessageView::Request(request) => request.headers,
            MessageView::Response(response) => response.headers,
        }
    }

    pub open spec fn body(self) -> Seq<u8> {
        match self {
            MessageView::Request(request) => request.body,
            MessageView::Response(response) => response.body,
        }
    }

    /// The message with the given start line, headers and body.
    pub open spec fn assemble(start: StartView, headers: Seq<HeaderView>, body: Seq<u8>) -> MessageView {
        match start {
            StartView::Request { method, target } => MessageView::Request(
                RequestView { method, target, headers, body },
            ),
            StartView::Response { status, reason } => MessageView::Response(
                ResponseView { status, reason, headers, body },
            ),
        }
    }
}

/// The bytes that stand for `message`: the start line, the headers, the
/// header with the body's length, an empty line, the body.
pub open spec fn wire_message(message: MessageView) -> Seq<u8> {
    start_line(message.start()) + line_end() + wire_fields(message.headers()) + field_line(
        length_field(message.body().len()),
    ) + line_end() + line_end() + message.body()
}

/// The line at the front of `s`.
pub open spec fn line_of(s: Seq<u8>) -> Line {
    let at = first_of(s, CR, LF);
    if !(0 <= at < s.len()) {
        Line::Partial
    } else if s[at] == LF {
        Line::Broken
    } else if at + 1 >= s.len() {
        Line::Partial
    } else if s[at + 1] != LF {
        Line::Broken
    } else {
        Line::Whole { length: at }
    }
}

/// Reads `line` as a request line: a method, a target of visible bytes and
/// the version, with one space between them.
pub open spec fn parse_request_line(line: Seq<u8>) -> Option<StartView> {
    let first = first_of(line, SP, SP);
    let rest = line.skip(first + 1);
    let second = first_of(rest, SP, SP);
    let target = rest.take(second);
    if 0 <= first < line.len() && 0 < second < rest.len() && all_visible(target) && rest.skip(second + 1)
        == version() {
        match Method::named(line.take(first)) {
            Some(method) => Some(StartView::Request { method, target }),
            None => None,
        }
    } else {
        None
    }
}

/// Reads `line` as a status line: the version, a status of three digits
/// that is at least 100, and a reason, with one space between them.
pub open spec fn parse_status_line(line: Seq<u8>) -> Option<StartView> {
    let digits = line.subrange(9, 12);
    if line.len() >= 13 && line.take(8) == version() && line[8] == SP && line[12] == SP && is_digit(
        digits[0],
    ) && is_digit(digits[1]) && is_digit(digits[2]) && status_value(digits) >= 100 {
        Some(StartView::Response { status: status_value(digits) as u16, reason: line.skip(13) })
    } else {
        None
    }
}

/// A line that begins with `HT` is read as a status line, any other as a
/// request line.
pub open spec fn parse_start(line: Seq<u8>) -> Option<StartView> {
    if line.len() >= 2 && line[0] == 72 && line[1] == 84 {
        parse_status_line(line)
    } else {
        parse_request_line(line)
    }
}

/// Reads `line` as a header line: a name of visible bytes, a colon, and a
/// value that is stripped of the blanks around it.
pub open spec fn parse_field(line: Seq<u8>) -> Option<HeaderView> {
    let colon = first_of(line, COLON, COLON);
    let name = line.take(colon);
    if 0 < colon < line.len() && all_visible(name) {
        Some(HeaderView { name, value: trim(line.skip(colon + 1)) })
    } else {
        None
    }
}

/// Reads header lines from the front of `s` up to and with the empty line
/// that ends them.
///
/// `headers` and `length` are what the lines in front of `s` gave, and `used`
/// is how many bytes they took. A header that states the body's length is
/// not kept with the others; a second one, or one whose value is no number,
/// breaks the message.
pub open spec fn read_fields(s: Seq<u8>, headers: Seq<HeaderView>, length: Option<u64>, used: int) -> Fields
    decreases s.len(),
{
    match line_of(s) {
        Line::Partial => Fields::Partial,
        Line::Broken => Fields::Broken,
        Line::Whole { length: n } => {
            if n == 0 {
                Fields::Done { headers, length, used: used + 2 }
            } else {
                match parse_field(s.take(n)) {
                    None => Fields::Broken,
                    Some(field) => {
                        if !is_length_name(field.name) {
                            read_fields(s.skip(n + 2), headers.push(field), length, used + n + 2)
                        } else if length.is_some() {
                            Fields::Broken
                        } else {
                            match parse_decimal(field.value) {
                                None => Fields::Broken,
                                Some(stated) => read_fields(s.skip(n + 2), headers, Some(stated), used + n + 2),
                            }
                        }
                    },
                }
            }
        },
    }
}

/// What a buffer holding `s` decodes to: a message once the start line, the
/// headers and as many bytes of body as the headers state are there; the
/// wish for more data while they are not; malformed as soon as a line is
/// there that cannot be read.
pub open spec fn parse_message(s: Seq<u8>) -> Decoding<MessageView> {
    match line_of(s) {
        Line::Partial => Decoding::NeedMoreData,
        Line::Broken => Decoding::Malformed,
        Line::Whole { length: n } => match parse_start(s.take(n)) {
            None => Decoding::Malformed,
            Some(start) => match read_fields(s.skip(n + 2), Seq::empty(), None, n + 2) {
                Fields::Partial => Decoding::NeedMoreData,
                Fields::Broken => Decoding::Malformed,
                Fields::Done { headers, length, used } => {
                    let stated: int = match length {
                        Some(l) => l as int,
                        None => 0,
                    };
                    if s.len() - used < stated {
                        Decoding::NeedMoreData
                    } else {
                        Decoding::Message {
                            message: MessageView::assemble(start, headers, s.subrange(used, used + stated)),
                            consumed: (used + stated) as nat,
                        }
                    }
                },
            },
        },
    }
}

} // verus!
