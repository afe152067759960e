//! Writing a message as bytes.

use vstd::prelude::*;
use crate::http::codec::{
    field_line,
    length_field,
    length_header,
    line_end,
    start_line,
    version,
    wire_fields,
    wire_message,
};
use crate::http::message::{COLON, Header, HeaderView, Message, header_views};
use crate::http::number::{digits_of, write_decimal};
use crate::http::text::{CR, LF, SP, append};

verus! {

/// `HTTP/1.1` as bytes.
pub fn version_bytes() -> (bytes: Vec<u8>)
    ensures
        bytes@ == version(),
{
    let bytes: Vec<u8> = vec![72u8, 84u8, 84u8, 80u8, 47u8, 49u8, 46u8, 49u8];
    assert(bytes@ =~= version());
    bytes
}

/// `Content-Length` as bytes.
pub fn length_header_bytes() -> (bytes: Vec<u8>)
    ensures
        bytes@ == length_header(),
{
    let bytes: Vec<u8> = vec![
        67u8,
        111u8,
        110u8,
        116u8,
        101u8,
        110u8,
        116u8,
        45u8,
        76u8,
        101u8,
        110u8,
        103u8,
        116u8,
        104u8,
    ];
    assert(bytes@ =~= length_header());
    bytes
}

/// Appends one header line and its line end.
fn write_field(out: &mut Vec<u8>, name: &[u8], value: &[u8])
    ensures
        final(out)@ == old(out)@ + field_line(HeaderView { name: name@, value: value@ }) + line_end(),
{
    append(out, name);
    out.push(COLON);
    out.push(SP);
    append(out, value);
    out.push(CR);
    out.push(LF);
    assert(out@ =~= old(out)@ + field_line(HeaderView { name: name@, value: value@ }) + line_end());
}

/// Appends the header lines of `headers`.
fn write_fields(out: &mut Vec<u8>, headers: &Vec<Header>)
    ensures
        final(out)@ == old(out)@ + wire_fields(header_views(headers@)),
{
    let ghost views = header_views(headers@);
    let mut i: usize = 0;
    assert(out@ =~= old(out)@ + wire_fields(views.take(0)));
    while i < headers.len()
        invariant
            i <= headers.len(),
            views == header_views(headers@),
            out@ == old(out)@ + wire_fields(views.take(i as int)),
        decreases headers.len() - i,
    {
        let ghost before = out@;
        write_field(out, headers[i].name.as_slice(), headers[i].value.as_slice());
        proof {
            let grown = views.take(i as int + 1);
            assert(grown.drop_last() =~= views.take(i as int));
            assert(grown.last() == headers[i as int]@);
            assert(out@ =~= old(out)@ + wire_fields(grown));
        }
        i += 1;
    }
    assert(views.take(i as int) =~= views);
}

/// Appends the header that states the body's length, the empty line and
/// the body.
fn write_body(out: &mut Vec<u8>, body: &Vec<u8>)
    ensures
        final(out)@ == old(out)@ + field_line(length_field(body@.len())) + line_end() + line_end() + body@,
{
    let mut digits: Vec<u8> = Vec::new();
    write_decimal(&mut digits, body.len() as u64);
    assert(digits@ =~= digits_of(body@.len()));
    let name = length_header_bytes();
    write_field(out, name.as_slice(), digits.as_slice());
    out.push(CR);
    out.push(LF);
    append(out, body.as_slice());
    assert(out@ =~= old(out)@ + field_line(length_field(body@.len())) + line_end() + line_end() + body@);
}

/// Encodes a message.
pub fn encode_message(message: &Message) -> (bytes: Vec<u8>)
    ensures
        bytes@ == wire_message(message@),
{
    let mut out: Vec<u8> = Vec::new();
    let version = version_bytes();
    match message {
        Message::Request(request) => {
            let method = request.method.token();
            append(&mut out, method.as_slice());
            out.push(SP);
            append(&mut out, request.target.as_slice());
            out.push(SP);
            append(&mut out, version.as_slice());
            assert(out@ =~= start_line(message@.start()));
            out.push(CR);
            out.push(LF);
            assert(out@ =~= start_line(message@.start()) + line_end());
            write_fields(&mut out, &request.headers);
            write_body(&mut out, &request.body);
        },
        Message::Response(response) => {
            let status = response.status;
            append(&mut out, version.as_slice());
            out.push(SP);
            out.push(48 + ((status / 100) % 10) as u8);
            out.push(48 + ((status / 10) % 10) as u8);
            out.push(48 + (status % 10) as u8);
            out.push(SP);
            append(&mut out, response.reason.as_slice());
            assert(out@ =~= start_line(message@.start()));
            out.push(CR);
            out.push(LF);
            assert(out@ =~= start_line(message@.start()) + line_end());
            write_fields(&mut out, &response.headers);
            write_body(&mut out, &response.body);
        },
    }
    out
}

} // verus!
