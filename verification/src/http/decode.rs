//! Reading a message from the bytes received so far.

use vstd::prelude::*;
use crate::framer::Decoded;
use crate::http::codec::{
    Fields,
    Line,
    StartView,
    line_of,
    parse_field,
    parse_message,
    parse_request_line,
    parse_start,
    parse_status_line,
    read_fields,
};
use crate::http::encode::version_bytes;
use crate::http::message::{
    COLON,
    Header,
    HeaderView,
    Message,
    Method,
    Request,
    Response,
    all_visible,
    header_views,
    is_length_name,
    is_visible,
    length_name,
    lowered,
};
use crate::http::number::read_decimal;
use crate::http::text::{CR, LF, SP, copy_window, find, trim_window, window_is};

verus! {

/// Where the line that begins at some place of a buffer ends.
pub(crate) enum LineAt {
    /// The line's content ends in front of this index; its line end follows.
    Whole(usize),
    Partial,
    Broken,
}

/// A start line that was read.
pub(crate) enum Start {
    Request { method: Method, target: Vec<u8> },
    Response { status: u16, reason: Vec<u8> },
}

/// Header lines that were read.
pub(crate) enum Head {
    Done { headers: Vec<Header>, length: Option<u64>, used: usize },
    Partial,
    Broken,
}

impl View for Start {
    type V = StartView;

    closed spec fn view(&self) -> StartView {
        match self {
            Start::Request { method, target } => StartView::Request { method: *method, target: target@ },
            Start::Response { status, reason } => StartView::Response { status: *status, reason: reason@ },
        }
    }
}

impl View for Head {
    type V = Fields;

    closed spec fn view(&self) -> Fields {
        match self {
            Head::Done { headers, length, used } => Fields::Done {
                headers: header_views(headers@),
                length: *length,
                used: *used as int,
            },
            Head::Partial => Fields::Partial,
            Head::Broken => Fields::Broken,
        }
    }
}

/// Finds the end of the line that begins at `from`.
pub(crate) fn read_line(bytes: &[u8], from: usize) -> (line: LineAt)
    requires
        from <= bytes.len(),
    ensures
        match line {
            LineAt::Whole(end) => from <= end && end + 2 <= bytes.len() && line_of(bytes@.skip(from as int))
                == (Line::Whole { length: end - from }),
            LineAt::Partial => line_of(bytes@.skip(from as int)) == Line::Partial,
            LineAt::Broken => line_of(bytes@.skip(from as int)) == Line::Broken,
        },
{
    let at = find(bytes, from, bytes.len(), CR, LF);
    proof {
        let rest = bytes@.skip(from as int);
        assert(bytes@.subrange(from as int, bytes.len() as int) =~= rest);
        if at < bytes.len() {
            assert(rest[at - from] == bytes[at as int]);
            if at + 1 < bytes.len() {
                assert(rest[at - from + 1] == bytes[at + 1]);
            }
        }
    }
    if at >= bytes.len() {
        LineAt::Partial
    } else if bytes[at] == LF {
        LineAt::Broken
    } else if at + 1 >= bytes.len() {
        LineAt::Partial
    } else if bytes[at + 1] != LF {
        LineAt::Broken
    } else {
        LineAt::Whole(at)
    }
}

/// Tells whether every byte of the window `from..to` is visible.
pub(crate) fn window_visible(bytes: &[u8], from: usize, to: usize) -> (visible: bool)
    requires
        from <= to <= bytes.len(),
    ensures
        visible == all_visible(bytes@.subrange(from as int, to as int)),
{
    let ghost window = bytes@.subrange(from as int, to as int);
    let mut i: usize = from;
    while i < to
        invariant
            from <= i <= to <= bytes.len(),
            window == bytes@.subrange(from as int, to as int),
            forall|j: int| 0 <= j < i - from ==> is_visible(#[trigger] window[j]),
        decreases to - i,
    {
        if bytes[i] < 33 || bytes[i] > 126 {
            assert(!is_visible(window[i - from]));
            return false;
        }
        assert(window[i - from] == bytes[i as int]);
        i += 1;
    }
    true
}

/// Tells whether `name` names the header that carries the body's length.
pub(crate) fn is_length(name: &[u8]) -> (is: bool)
    ensures
        is == is_length_name(name@),
{
    let expected: Vec<u8> = vec![
        99u8,
        111u8,
        110u8,
        116u8,
        101u8,
        110u8,
        116u8,
        45u8,
        108u8,
        101u8,
        110u8,
        103u8,
        116u8,
        104u8,
    ];
    assert(expected@ =~= length_name());
    if name.len() != expected.len() {
        return false;
    }
    let mut i: usize = 0;
    while i < name.len()
        invariant
            i <= name.len(),
            name.len() == expected.len(),
            expected@ == length_name(),
            forall|j: int| 0 <= j < i ==> lowered(#[trigger] name@[j]) == length_name()[j],
        decreases name.len() - i,
    {
        let byte = name[i];
        let low: u8 = if 65 <= byte && byte <= 90 {
            byte + 32
        } else {
            byte
        };
        if low != expected[i] {
            assert(lowered(name@[i as int]) != length_name()[i as int]);
            return false;
        }
        i += 1;
    }
    true
}

/// Reads the window `from..to` as a request line.
pub(crate) fn read_request_line(bytes: &[u8], from: usize, to: usize) -> (start: Option<Start>)
    requires
        from <= to <= bytes.len(),
    ensures
        start.is_some() == parse_request_line(bytes@.subrange(from as int, to as int)).is_some(),
        start matches Some(read) ==> Some(read@) == parse_request_line(bytes@.subrange(from as int, to as int)),
{
    let ghost line = bytes@.subrange(from as int, to as int);
    let first = find(bytes, from, to, SP, SP);
    if first >= to {
        return None;
    }
    let second = find(bytes, first + 1, to, SP, SP);
    proof {
        let rest = line.skip(first - from + 1);
        assert(rest =~= bytes@.subrange(first + 1, to as int));
        assert(rest.take(second - (first + 1)) =~= bytes@.subrange(first + 1, second as int));
        assert(line.take(first - from) =~= bytes@.subrange(from as int, first as int));
        if second < to {
            assert(rest.skip(second - (first + 1) + 1) =~= bytes@.subrange(second + 1, to as int));
        }
    }
    if second >= to || second == first + 1 {
        return None;
    }
    if !window_visible(bytes, first + 1, second) {
        return None;
    }
    let version = version_bytes();
    if !window_is(bytes, second + 1, to, version.as_slice()) {
        return None;
    }
    match Method::read(bytes, from, first) {
        Some(method) => Some(Start::Request { method, target: copy_window(bytes, first + 1, second) }),
        None => None,
    }
}

/// Reads the window `from..to` as a status line.
pub(crate) fn read_status_line(bytes: &[u8], from: usize, to: usize) -> (start: Option<Start>)
    requires
        from <= to <= bytes.len(),
    ensures
        start.is_some() == parse_status_line(bytes@.subrange(from as int, to as int)).is_some(),
        start matches Some(read) ==> Some(read@) == parse_status_line(bytes@.subrange(from as int, to as int)),
{
    let ghost line = bytes@.subrange(from as int, to as int);
    if to - from < 13 {
        return None;
    }
    let version = version_bytes();
    proof {
        assert(line.take(8) =~= bytes@.subrange(from as int, from + 8));
        assert(line.skip(13) =~= bytes@.subrange(from + 13, to as int));
        assert(line[8] == bytes[from + 8]);
        assert(line[12] == bytes[from + 12]);
        let digits = line.subrange(9, 12);
        assert(digits[0] == bytes[from + 9]);
        assert(digits[1] == bytes[from + 10]);
        assert(digits[2] == bytes[from + 11]);
    }
    if !window_is(bytes, from, from + 8, version.as_slice()) {
        return None;
    }
    if bytes[from + 8] != SP || bytes[from + 12] != SP {
        return None;
    }
    let hundreds = bytes[from + 9];
    let tens = bytes[from + 10];
    let ones = bytes[from + 11];
    if hundreds < 48 || hundreds > 57 || tens < 48 || tens > 57 || ones < 48 || ones > 57 {
        return None;
    }
    let status: u16 = (hundreds - 48) as u16 * 100 + (tens - 48) as u16 * 10 + (ones - 48) as u16;
    if status < 100 {
        return None;
    }
    Some(Start::Response { status, reason: copy_window(bytes, from + 13, to) })
}

/// Reads the window `from..to` as a start line.
pub(crate) fn read_start(bytes: &[u8], from: usize, to: usize) -> (start: Option<Start>)
    requires
        from <= to <= bytes.len(),
    ensures
        start.is_some() == parse_start(bytes@.subrange(from as int, to as int)).is_some(),
        start matches Some(read) ==> Some(read@) == parse_start(bytes@.subrange(from as int, to as int)),
{
    let ghost line = bytes@.subrange(from as int, to as int);
    if to - from >= 2 && bytes[from] == 72 && bytes[from + 1] == 84 {
        assert(line[0] == bytes[from as int] && line[1] == bytes[from + 1]);
        read_status_line(bytes, from, to)
    } else {
        proof {
            if to - from >= 2 {
                assert(line[0] == bytes[from as int] && line[1] == bytes[from + 1]);
            }
        }
        read_request_line(bytes, from, to)
    }
}

/// Reads the window `from..to` as a header line.
pub(crate) fn read_field(bytes: &[u8], from: usize, to: usize) -> (field: Option<Header>)
    requires
        from <= to <= bytes.len(),
    ensures
        field.is_some() == parse_field(bytes@.subrange(from as int, to as int)).is_some(),
        field matches Some(read) ==> Some(read@) == parse_field(bytes@.subrange(from as int, to as int)),
{
    let ghost line = bytes@.subrange(from as int, to as int);
    let colon = find(bytes, from, to, COLON, COLON);
    proof {
        assert(line.take(colon - from) =~= bytes@.subrange(from as int, colon as int));
        if colon < to {
            assert(line.skip(colon - from + 1) =~= bytes@.subrange(colon + 1, to as int));
        }
    }
    if colon == from || colon >= to {
        return None;
    }
    if !window_visible(bytes, from, colon) {
        return None;
    }
    let (lo, hi) = trim_window(bytes, colon + 1, to);
    Some(Header { name: copy_window(bytes, from, colon), value: copy_window(bytes, lo, hi) })
}

/// Reads the header lines that begin at `from`, up to and with the empty
/// line that ends them.
pub(crate) fn read_head(bytes: &[u8], from: usize) -> (head: Head)
    requires
        from <= bytes.len(),
    ensures
        head@ == read_fields(bytes@.skip(from as int), Seq::empty(), None, from as int),
        head matches Head::Done { used, .. } ==> from < used <= bytes.len(),
{
    let ghost goal = read_fields(bytes@.skip(from as int), Seq::empty(), None, from as int);
    let mut headers: Vec<Header> = Vec::new();
    let mut length: Option<u64> = None;
    let mut at: usize = from;
    assert(header_views(headers@) =~= Seq::<HeaderView>::empty());
    loop
        invariant
            from <= at <= bytes.len(),
            goal == read_fields(bytes@.skip(from as int), Seq::empty(), None, from as int),
            goal == read_fields(bytes@.skip(at as int), header_views(headers@), length, at as int),
        decreases bytes.len() - at,
    {
        let ghost rest = bytes@.skip(at as int);
        match read_line(bytes, at) {
            LineAt::Partial => {
                return Head::Partial;
            },
            LineAt::Broken => {
                return Head::Broken;
            },
            LineAt::Whole(stop) => {
                if stop == at {
                    return Head::Done { headers, length, used: at + 2 };
                }
                proof {
                    assert(rest.take(stop - at) =~= bytes@.subrange(at as int, stop as int));
                    assert(rest.skip(stop - at + 2) =~= bytes@.skip(stop + 2));
                }
                match read_field(bytes, at, stop) {
                    None => {
                        return Head::Broken;
                    },
                    Some(field) => {
                        if is_length(field.name.as_slice()) {
                            if length.is_some() {
                                return Head::Broken;
                            }
                            assert(field.value@.subrange(0, field.value.len() as int) =~= field.value@);
                            match read_decimal(field.value.as_slice(), 0, field.value.len()) {
                                None => {
                                    return Head::Broken;
                                },
                                Some(stated) => {
                                    length = Some(stated);
                                },
                            }
                        } else {
                            let ghost before = header_views(headers@);
                            let ghost view = field@;
                            headers.push(field);
                            assert(header_views(headers@) =~= before.push(view));
                        }
                        at = stop + 2;
                    },
                }
            },
        }
    }
}

/// Decodes the front of `bytes`.
pub fn decode_message(bytes: &[u8]) -> (decoded: Decoded<Message>)
    ensures
        decoded@ == parse_message(bytes@),
{
    assert(bytes@.skip(0) =~= bytes@);
    let end = match read_line(bytes, 0) {
        LineAt::Partial => {
            return Decoded::NeedMoreData;
        },
        LineAt::Broken => {
            return Decoded::Malformed;
        },
        LineAt::Whole(end) => end,
    };
    assert(bytes@.take(end as int) =~= bytes@.subrange(0, end as int));
    let start = match read_start(bytes, 0, end) {
        None => {
            return Decoded::Malformed;
        },
        Some(start) => start,
    };
    match read_head(bytes, end + 2) {
        Head::Partial => Decoded::NeedMoreData,
        Head::Broken => Decoded::Malformed,
        Head::Done { headers, length, used } => {
            let stated: u64 = match length {
                Some(stated) => stated,
                None => 0,
            };
            if ((bytes.len() - used) as u64) < stated {
                return Decoded::NeedMoreData;
            }
            let stop: usize = used + stated as usize;
            let body = copy_window(bytes, used, stop);
            let message = match start {
                Start::Request { method, target } => Message::Request(
                    Request { method, target, headers, body },
                ),
                Start::Response { status, reason } => Message::Response(
                    Response { status, reason, headers, body },
                ),
            };
            Decoded::Message { message, consumed: stop }
        },
    }
}

} // verus!
