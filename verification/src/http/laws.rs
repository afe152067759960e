//! What holds of the wire format: a well-formed message reads back as
//! itself, only well-formed messages are read, and bytes behind a whole
//! message change nothing.

use vstd::prelude::*;
use crate::framer::Decoding;
use crate::http::codec::{
    Fields,
    Line,
    StartView,
    field_line,
    length_field,
    length_header,
    line_end,
    line_of,
    parse_field,
    parse_message,
    parse_start,
    read_fields,
    start_line,
    status_digits,
    status_value,
    version,
    wire_fields,
    wire_message,
};
use crate::http::message::{
    COLON,
    HeaderView,
    MessageView,
    Method,
    all_visible,
    all_well_formed,
    is_length_name,
    is_name_byte,
    is_visible,
    length_name,
    lowered,
    unbroken,
};
use crate::http::number::{digits_of, is_digit, lemma_digits_of, parse_decimal};
use crate::http::text::{
    CR,
    LF,
    SP,
    blank_before,
    blank_from,
    first_of,
    is_blank,
    lemma_first_of,
    lemma_first_of_stops,
    lemma_trim,
    lemma_trim_shape,
    trim,
};

verus! {

impl StartView {
    /// The start line can stand on the wire and be read back.
    pub open spec fn well_formed(self) -> bool {
        match self {
            StartView::Request { method, target } => target.len() > 0 && all_visible(target),
            StartView::Response { status, reason } => 100 <= status <= 999 && unbroken(reason),
        }
    }
}

/// A header that reads back as itself, whatever its name: the name is made
/// of name bytes, the value stands on one line and has no blanks at its ends.
pub open spec fn readable(header: HeaderView) -> bool {
    &&& header.name.len() > 0
    &&& forall|i: int| 0 <= i < header.name.len() ==> is_name_byte(#[trigger] header.name[i])
    &&& unbroken(header.value)
    &&& header.value.len() > 0 ==> !is_blank(header.value[0]) && !is_blank(header.value.last())
}

/// A line without a carriage return or line feed, followed by a line end,
/// is read as that line, whatever comes behind.
pub proof fn lemma_line(content: Seq<u8>, tail: Seq<u8>)
    requires
        unbroken(content),
    ensures
        line_of(content + line_end() + tail) == (Line::Whole { length: content.len() as int }),
        (content + line_end() + tail).take(content.len() as int) == content,
        (content + line_end() + tail).skip(content.len() as int + 2) == tail,
{
    let s = content + line_end() + tail;
    let n = content.len() as int;
    assert forall|i: int| 0 <= i < n implies s[i] != CR && s[i] != LF by {
        assert(s[i] == content[i]);
    }
    assert(s[n] == CR);
    assert(s[n + 1] == LF);
    lemma_first_of(s, n, CR, LF);
    assert(s.take(n) =~= content);
    assert(s.skip(n + 2) =~= tail);
}

/// A readable header's line holds no line end and is read as the header.
pub proof fn lemma_field_line(header: HeaderView)
    requires
        readable(header),
    ensures
        parse_field(field_line(header)) == Some(header),
        unbroken(field_line(header)),
        field_line(header).len() > 0,
{
    let line = field_line(header);
    let n = header.name.len() as int;
    assert forall|i: int| 0 <= i < n implies line[i] != COLON by {
        assert(line[i] == header.name[i]);
        assert(is_name_byte(header.name[i]));
    }
    assert(line[n] == COLON);
    lemma_first_of(line, n, COLON, COLON);
    assert(line.take(n) =~= header.name);
    assert(all_visible(header.name)) by {
        assert forall|i: int| 0 <= i < n implies is_visible(#[trigger] header.name[i]) by {
            assert(is_name_byte(header.name[i]));
        }
    }
    let rest = line.skip(n + 1);
    assert(rest =~= seq![SP] + header.value);
    if header.value.len() == 0 {
        assert(blank_before(rest, 1));
        assert(blank_from(rest, 0));
        lemma_trim(rest, 1, 0);
        assert(trim(rest) =~= header.value);
    } else {
        assert(rest[1] == header.value[0]);
        assert(rest[rest.len() - 1] == header.value.last());
        assert(blank_before(rest, 1));
        assert(blank_from(rest, rest.len() as int));
        lemma_trim(rest, 1, rest.len() as int);
        assert(rest.subrange(1, rest.len() as int) =~= header.value);
    }
    assert forall|i: int| 0 <= i < line.len() implies #[trigger] line[i] != CR && line[i] != LF by {
        if i < n {
            assert(line[i] == header.name[i]);
            assert(is_name_byte(header.name[i]));
        } else if i >= n + 2 {
            assert(line[i] == header.value[i - n - 2]);
        }
    }
}

/// The header that states a body's length is readable, bears the name that
/// marks it, and its value reads as the length.
pub proof fn lemma_length_field(length: nat)
    requires
        length <= u64::MAX,
    ensures
        readable(length_field(length)),
        is_length_name(length_field(length).name),
        parse_decimal(length_field(length).value) == Some(length as u64),
{
    let field = length_field(length);
    let name = length_header();
    let low = length_name();
    assert(name.len() == 14 && low.len() == 14);
    assert(name[0] == 67 && name[1] == 111 && name[2] == 110 && name[3] == 116 && name[4] == 101 && name[5]
        == 110 && name[6] == 116 && name[7] == 45 && name[8] == 76 && name[9] == 101 && name[10] == 110
        && name[11] == 103 && name[12] == 116 && name[13] == 104);
    assert(low[0] == 99 && low[1] == 111 && low[2] == 110 && low[3] == 116 && low[4] == 101 && low[5] == 110
        && low[6] == 116 && low[7] == 45 && low[8] == 108 && low[9] == 101 && low[10] == 110 && low[11]
        == 103 && low[12] == 116 && low[13] == 104);
    assert forall|i: int| 0 <= i < name.len() implies is_name_byte(#[trigger] name[i]) && lowered(name[i])
        == low[i] by {}
    lemma_digits_of(length);
    let digits = digits_of(length);
    assert forall|i: int| 0 <= i < digits.len() implies #[trigger] digits[i] != CR && digits[i] != LF by {
        assert(is_digit(digits[i]));
    }
    assert(is_digit(digits[0]));
    assert(is_digit(digits.last()));
}

/// `HTTP/1.1` byte by byte.
pub proof fn lemma_version()
    ensures
        version().len() == 8,
        version()[0] == 72,
        version()[1] == 84,
        unbroken(version()),
{
    let v = version();
    assert(v[0] == 72 && v[1] == 84 && v[2] == 84 && v[3] == 80 && v[4] == 47 && v[5] == 49 && v[6] == 46
        && v[7] == 49);
}

/// No method name begins like a status line.
pub proof fn lemma_method_start(method: Method)
    ensures
        method.name().len() >= 3,
        !(method.name()[0] == 72 && method.name()[1] == 84),
{
    let name = method.name();
    match method {
        Method::Get => {
            assert(name[0] == 71);
        },
        Method::Head => {
            assert(name[1] == 69);
        },
        Method::Post => {
            assert(name[0] == 80);
        },
        Method::Put => {
            assert(name[0] == 80);
        },
        Method::Delete => {
            assert(name[0] == 68);
        },
        Method::Options => {
            assert(name[0] == 79);
        },
        Method::Patch => {
            assert(name[0] == 80);
        },
    }
}

/// Three words with a space between them: the first space stands behind the
/// first word, the next behind the second, and no line end is in the line.
pub proof fn lemma_three_words(first: Seq<u8>, second: Seq<u8>, third: Seq<u8>)
    requires
        all_visible(first),
        all_visible(second),
        unbroken(third),
    ensures
        ({
            let line = first + seq![SP] + second + seq![SP] + third;
            let rest = line.skip(first.len() as int + 1);
            &&& first_of(line, SP, SP) == first.len()
            &&& line.take(first.len() as int) == first
            &&& first_of(rest, SP, SP) == second.len()
            &&& rest.take(second.len() as int) == second
            &&& rest.skip(second.len() as int + 1) == third
            &&& rest.len() == second.len() + 1 + third.len()
            &&& line.len() == first.len() + 1 + rest.len()
            &&& unbroken(line)
        }),
{
    let line = first + seq![SP] + second + seq![SP] + third;
    let n = first.len() as int;
    let t = second.len() as int;
    assert forall|i: int| 0 <= i < n implies line[i] != SP by {
        assert(line[i] == first[i]);
        assert(is_visible(first[i]));
    }
    assert(line[n] == SP);
    lemma_first_of(line, n, SP, SP);
    assert(line.take(n) =~= first);
    let rest = line.skip(n + 1);
    assert(rest =~= second + seq![SP] + third);
    assert forall|i: int| 0 <= i < t implies rest[i] != SP by {
        assert(rest[i] == second[i]);
        assert(is_visible(second[i]));
    }
    assert(rest[t] == SP);
    lemma_first_of(rest, t, SP, SP);
    assert(rest.take(t) =~= second);
    assert(rest.skip(t + 1) =~= third);
    assert forall|i: int| 0 <= i < line.len() implies #[trigger] line[i] != CR && line[i] != LF by {
        if i < n {
            assert(line[i] == first[i]);
            assert(is_visible(first[i]));
        } else if n < i <= n + t {
            assert(line[i] == second[i - n - 1]);
            assert(is_visible(second[i - n - 1]));
        } else if i > n + t + 1 {
            assert(line[i] == third[i - n - t - 2]);
        }
    }
}

/// A status line byte by byte.
pub proof fn lemma_status_shape(status: u16, reason: Seq<u8>)
    requires
        unbroken(reason),
    ensures
        ({
            let line = version() + seq![SP] + status_digits(status) + seq![SP] + reason;
            &&& line.len() == 13 + reason.len()
            &&& line[0] == 72
            &&& line[1] == 84
            &&& line.take(8) == version()
            &&& line[8] == SP
            &&& line[12] == SP
            &&& line.subrange(9, 12) == status_digits(status)
            &&& line.skip(13) == reason
            &&& unbroken(line)
        }),
{
    lemma_version();
    let v = version();
    let d = status_digits(status);
    let line = v + seq![SP] + d + seq![SP] + reason;
    assert(d.len() == 3);
    assert(line.len() == 13 + reason.len());
    assert(line[0] == v[0] && line[1] == v[1]);
    assert(line.take(8) =~= v);
    assert(line.subrange(9, 12) =~= d);
    assert(line.skip(13) =~= reason);
    assert(is_digit(d[0]) && is_digit(d[1]) && is_digit(d[2]));
    assert forall|i: int| 0 <= i < line.len() implies #[trigger] line[i] != CR && line[i] != LF by {
        if i < 8 {
            assert(line[i] == v[i]);
        } else if 9 <= i < 12 {
            assert(line[i] == d[i - 9]);
        } else if i >= 13 {
            assert(line[i] == reason[i - 13]);
        }
    }
}

/// A well-formed start line holds no line end and is read as itself.
pub proof fn lemma_start_line(start: StartView)
    requires
        start.well_formed(),
    ensures
        parse_start(start_line(start)) == Some(start),
        unbroken(start_line(start)),
{
    let line = start_line(start);
    match start {
        StartView::Request { method, target } => {
            let name = method.name();
            method.lemma_named();
            lemma_method_start(method);
            lemma_version();
            lemma_three_words(name, target, version());
            assert(line[0] == name[0] && line[1] == name[1]);
        },
        StartView::Response { status, reason } => {
            lemma_status_shape(status, reason);
            let d = status_digits(status);
            assert(d[0] == 48 + (status / 100) % 10);
            assert(d[1] == 48 + (status / 10) % 10);
            assert(d[2] == 48 + status % 10);
            assert(status_value(d) == status);
        },
    }
}

/// Reading the lines of well-formed headers gathers the headers.
pub proof fn lemma_read_wire_fields(
    headers: Seq<HeaderView>,
    tail: Seq<u8>,
    gathered: Seq<HeaderView>,
    length: Option<u64>,
    used: int,
)
    requires
        all_well_formed(headers),
    ensures
        read_fields(wire_fields(headers) + tail, gathered, length, used) == read_fields(
            tail,
            gathered + headers,
            length,
            used + wire_fields(headers).len(),
        ),
    decreases headers.len(),
{
    if headers.len() == 0 {
        assert(wire_fields(headers) + tail =~= tail);
        assert(gathered + headers =~= gathered);
    } else {
        let front = headers.drop_last();
        let last = headers.last();
        let line = field_line(last);
        let behind = line + line_end() + tail;
        assert(wire_fields(headers) + tail =~= wire_fields(front) + behind);
        assert(all_well_formed(front)) by {
            assert forall|i: int| 0 <= i < front.len() implies (#[trigger] front[i]).well_formed() by {
                assert(front[i] == headers[i]);
            }
        }
        lemma_read_wire_fields(front, behind, gathered, length, used);
        assert(last.well_formed());
        lemma_field_line(last);
        lemma_line(line, tail);
        assert((gathered + front).push(last) =~= gathered + headers);
    }
}

/// Encoding a well-formed message and decoding the bytes gives the message
/// back and consumes all of them.
pub proof fn lemma_round_trip(message: MessageView)
    requires
        message.well_formed(),
    ensures
        parse_message(wire_message(message)) == (Decoding::Message {
            message,
            consumed: wire_message(message).len(),
        }),
{
    let start = message.start();
    let first = start_line(start);
    let headers = message.headers();
    let body = message.body();
    let field = length_field(body.len());
    let wire = wire_message(message);
    lemma_start_line(start);
    lemma_length_field(body.len());
    lemma_field_line(field);

    let closing = line_end() + body;
    let stated = field_line(field) + line_end() + closing;
    let fields = wire_fields(headers) + stated;
    assert(wire =~= first + line_end() + fields);
    lemma_line(first, fields);

    let used: int = first.len() as int + 2;
    lemma_read_wire_fields(headers, stated, Seq::empty(), None, used);
    assert(Seq::<HeaderView>::empty() + headers =~= headers);
    lemma_line(field_line(field), closing);
    let used_stated: int = used + wire_fields(headers).len() as int + field_line(field).len() as int + 2;
    assert(read_fields(stated, headers, None, used + wire_fields(headers).len()) == read_fields(
        closing,
        headers,
        Some(body.len() as u64),
        used_stated,
    ));
    assert(closing =~= Seq::<u8>::empty() + line_end() + body);
    lemma_line(Seq::empty(), body);
    assert(read_fields(closing, headers, Some(body.len() as u64), used_stated) == (Fields::Done {
        headers,
        length: Some(body.len() as u64),
        used: used_stated + 2,
    }));
    assert(wire.len() == used_stated + 2 + body.len());
    assert(wire.subrange(used_stated + 2, used_stated + 2 + body.len()) =~= body);
    assert(MessageView::assemble(start, headers, body) == message);
}

/// A whole line stands in the buffer with its line end, and holds no
/// carriage return or line feed.
pub proof fn lemma_whole_line(s: Seq<u8>)
    ensures
        line_of(s) matches Line::Whole { length } ==> {
            &&& 0 <= length
            &&& length + 2 <= s.len()
            &&& unbroken(s.take(length))
            &&& s[length] == CR
            &&& s[length + 1] == LF
        },
{
    lemma_first_of_stops(s, CR, LF);
    if let Line::Whole { length } = line_of(s) {
        let line = s.take(length);
        assert forall|i: int| 0 <= i < line.len() implies #[trigger] line[i] != CR && line[i] != LF by {
            assert(line[i] == s[i]);
        }
    }
}

/// A start line that was read is well formed.
pub proof fn lemma_parsed_start(line: Seq<u8>)
    requires
        unbroken(line),
    ensures
        parse_start(line) matches Some(start) ==> start.well_formed(),
{
    if let Some(start) = parse_start(line) {
        match start {
            StartView::Request { method, target } => {},
            StartView::Response { status, reason } => {
                let digits = line.subrange(9, 12);
                assert(status == status_value(digits));
                assert forall|i: int| 0 <= i < reason.len() implies #[trigger] reason[i] != CR && reason[i]
                    != LF by {
                    assert(reason[i] == line[i + 13]);
                }
            },
        }
    }
}

/// A header that was read is readable.
pub proof fn lemma_parsed_field(line: Seq<u8>)
    requires
        unbroken(line),
    ensures
        parse_field(line) matches Some(header) ==> readable(header),
{
    if let Some(header) = parse_field(line) {
        let colon = first_of(line, COLON, COLON);
        lemma_first_of_stops(line, COLON, COLON);
        assert forall|i: int| 0 <= i < header.name.len() implies is_name_byte(#[trigger] header.name[i]) by {
            assert(header.name[i] == line[i]);
            assert(is_visible(header.name[i]));
        }
        let rest = line.skip(colon + 1);
        lemma_trim_shape(rest);
        let (lo, hi) = choose|lo: int, hi: int|
            0 <= lo <= hi <= rest.len() && trim(rest) == #[trigger] rest.subrange(lo, hi);
        assert forall|i: int| 0 <= i < header.value.len() implies #[trigger] header.value[i] != CR
            && header.value[i] != LF by {
            assert(header.value[i] == line[colon + 1 + lo + i]);
        }
    }
}

/// Header lines that were read gave well-formed headers, and a place for
/// the body that lies behind them and within the buffer.
pub proof fn lemma_fields_read(s: Seq<u8>, gathered: Seq<HeaderView>, length: Option<u64>, used: int)
    requires
        all_well_formed(gathered),
    ensures
        read_fields(s, gathered, length, used) matches Fields::Done { headers, used: behind, .. } ==> {
            &&& all_well_formed(headers)
            &&& used < behind <= used + s.len()
        },
    decreases s.len(),
{
    lemma_whole_line(s);
    if let Line::Whole { length: n } = line_of(s) {
        if n > 0 {
            lemma_parsed_field(s.take(n));
            if let Some(field) = parse_field(s.take(n)) {
                if !is_length_name(field.name) {
                    let grown = gathered.push(field);
                    assert(field.well_formed());
                    assert(all_well_formed(grown)) by {
                        assert forall|i: int| 0 <= i < grown.len() implies (#[trigger] grown[i]).well_formed() by {
                            if i < gathered.len() {
                                assert(grown[i] == gathered[i]);
                            }
                        }
                    }
                    lemma_fields_read(s.skip(n + 2), grown, length, used + n + 2);
                } else if length.is_none() {
                    if let Some(stated) = parse_decimal(field.value) {
                        lemma_fields_read(s.skip(n + 2), gathered, Some(stated), used + n + 2);
                    }
                }
            }
        }
    }
}

/// A message that was decoded is well formed, and stands in a non-empty
/// front part of the buffer.
pub proof fn lemma_decoded(s: Seq<u8>)
    ensures
        parse_message(s) matches Decoding::Message { message, consumed } ==> message.well_formed() && 0
            < consumed <= s.len(),
{
    lemma_whole_line(s);
    if let Line::Whole { length: n } = line_of(s) {
        lemma_parsed_start(s.take(n));
        if let Some(start) = parse_start(s.take(n)) {
            lemma_fields_read(s.skip(n + 2), Seq::empty(), None, n + 2);
        }
    }
}

/// Bytes behind a whole line do not change it.
pub proof fn lemma_line_settled(s: Seq<u8>, more: Seq<u8>)
    ensures
        line_of(s) matches Line::Whole { length } ==> {
            &&& line_of(s + more) == line_of(s)
            &&& (s + more).take(length) == s.take(length)
            &&& (s + more).skip(length + 2) == s.skip(length + 2) + more
        },
{
    lemma_whole_line(s);
    lemma_first_of_stops(s, CR, LF);
    if let Line::Whole { length } = line_of(s) {
        let longer = s + more;
        assert forall|i: int| 0 <= i < length implies longer[i] != CR && longer[i] != LF by {
            assert(longer[i] == s[i]);
        }
        assert(longer[length] == s[length]);
        assert(longer[length + 1] == s[length + 1]);
        lemma_first_of(longer, length, CR, LF);
        assert(longer.take(length) =~= s.take(length));
        assert(longer.skip(length + 2) =~= s.skip(length + 2) + more);
    }
}

/// Bytes behind header lines that are all there do not change what the
/// lines are read as.
pub proof fn lemma_fields_settled(
    s: Seq<u8>,
    more: Seq<u8>,
    gathered: Seq<HeaderView>,
    length: Option<u64>,
    used: int,
)
    ensures
        read_fields(s, gathered, length, used) is Done ==> read_fields(s + more, gathered, length, used)
            == read_fields(s, gathered, length, used),
    decreases s.len(),
{
    lemma_whole_line(s);
    lemma_line_settled(s, more);
    if let Line::Whole { length: n } = line_of(s) {
        if n > 0 {
            if let Some(field) = parse_field(s.take(n)) {
                if !is_length_name(field.name) {
                    lemma_fields_settled(s.skip(n + 2), more, gathered.push(field), length, used + n + 2);
                } else if length.is_none() {
                    if let Some(stated) = parse_decimal(field.value) {
                        lemma_fields_settled(s.skip(n + 2), more, gathered, Some(stated), used + n + 2);
                    }
                }
            }
        }
    }
}

/// Bytes that arrive behind a whole message do not change what the buffer
/// decodes to.
pub proof fn lemma_settled(s: Seq<u8>, more: Seq<u8>)
    ensures
        parse_message(s) is Message ==> parse_message(s + more) == parse_message(s),
{
    lemma_whole_line(s);
    lemma_line_settled(s, more);
    if let Line::Whole { length: n } = line_of(s) {
        if let Some(start) = parse_start(s.take(n)) {
            lemma_fields_settled(s.skip(n + 2), more, Seq::empty(), None, n + 2);
            lemma_fields_read(s.skip(n + 2), Seq::empty(), None, n + 2);
            if let Fields::Done { headers, length, used } = read_fields(s.skip(n + 2), Seq::empty(), None, n + 2) {
                let stated: int = match length {
                    Some(l) => l as int,
                    None => 0,
                };
                if s.len() - used >= stated {
                    assert((s + more).subrange(used, used + stated) =~= s.subrange(used, used + stated));
                }
            }
        }
    }
}

/// Bytes behind a broken line do not mend it.
pub proof fn lemma_line_broken(s: Seq<u8>, more: Seq<u8>)
    ensures
        line_of(s) is Broken ==> line_of(s + more) is Broken,
{
    lemma_first_of_stops(s, CR, LF);
    if line_of(s) is Broken {
        let at = first_of(s, CR, LF);
        let longer = s + more;
        assert forall|i: int| 0 <= i < at implies longer[i] != CR && longer[i] != LF by {
            assert(longer[i] == s[i]);
        }
        assert(longer[at] == s[at]);
        lemma_first_of(longer, at, CR, LF);
        if s[at] != LF {
            assert(longer[at + 1] == s[at + 1]);
        }
    }
}

/// Bytes behind header lines of which one cannot be read do not mend them.
pub proof fn lemma_fields_broken(
    s: Seq<u8>,
    more: Seq<u8>,
    gathered: Seq<HeaderView>,
    length: Option<u64>,
    used: int,
)
    ensures
        read_fields(s, gathered, length, used) is Broken ==> read_fields(s + more, gathered, length, used)
            is Broken,
    decreases s.len(),
{
    lemma_whole_line(s);
    lemma_line_settled(s, more);
    lemma_line_broken(s, more);
    if let Line::Whole { length: n } = line_of(s) {
        if n > 0 {
            if let Some(field) = parse_field(s.take(n)) {
                if !is_length_name(field.name) {
                    lemma_fields_broken(s.skip(n + 2), more, gathered.push(field), length, used + n + 2);
                } else if length.is_none() {
                    if let Some(stated) = parse_decimal(field.value) {
                        lemma_fields_broken(s.skip(n + 2), more, gathered, Some(stated), used + n + 2);
                    }
                }
            }
        }
    }
}

/// Malformed input stays malformed, whatever arrives behind it.
pub proof fn lemma_malformed(s: Seq<u8>, more: Seq<u8>)
    ensures
        parse_message(s) is Malformed ==> parse_message(s + more) is Malformed,
{
    lemma_whole_line(s);
    lemma_line_settled(s, more);
    lemma_line_broken(s, more);
    if let Line::Whole { length: n } = line_of(s) {
        if let Some(start) = parse_start(s.take(n)) {
            lemma_fields_broken(s.skip(n + 2), more, Seq::empty(), None, n + 2);
        }
    }
}

} // verus!
