//! An HTTP/1.1-style request and response framing, and the two framers that
//! speak it: one for the side that asks, one for the side that answers.

pub mod codec;
pub mod decode;
pub mod encode;
pub mod laws;
pub mod message;
pub mod number;
pub mod text;

use vstd::prelude::*;
use crate::framer::{Decoded, Decoding, Framer};
use crate::http::codec::{parse_message, wire_message};
use crate::http::decode::decode_message;
use crate::http::encode::encode_message;
use crate::http::laws::{lemma_decoded, lemma_malformed, lemma_round_trip, lemma_settled};
use crate::http::message::{Message, MessageView};

verus! {

/// The framer of a client: it takes responses of the 2xx class from the
/// stream and nothing else.
#[derive(Clone, Copy, Debug, PartialEq, Eq)]
pub struct HttpClient;

/// The framer of a server: it takes requests from the stream and nothing
/// else.
#[derive(Clone, Copy, Debug, PartialEq, Eq)]
pub struct HttpServer;

/// A message that a client takes: a response whose status is of the 2xx
/// class.
pub open spec fn client_takes(message: MessageView) -> bool {
    message matches MessageView::Response(response) && response.is_success()
}

/// A message that a server takes: a request.
pub open spec fn server_takes(message: MessageView) -> bool {
    message is Request
}

/// What a client makes of a buffer: a message it does not take is malformed
/// input.
pub open spec fn client_parse(bytes: Seq<u8>) -> Decoding<MessageView> {
    match parse_message(bytes) {
        Decoding::Message { message, consumed } => if client_takes(message) {
            Decoding::Message { message, consumed }
        } else {
            Decoding::Malformed
        },
        other => other,
    }
}

/// What a server makes of a buffer: a message it does not take is malformed
/// input.
pub open spec fn server_parse(bytes: Seq<u8>) -> Decoding<MessageView> {
    match parse_message(bytes) {
        Decoding::Message { message, consumed } => if server_takes(message) {
            Decoding::Message { message, consumed }
        } else {
            Decoding::Malformed
        },
        other => other,
    }
}

impl Default for HttpClient {
    fn default() -> (framer: HttpClient) {
        HttpClient
    }
}

impl Default for HttpServer {
    fn default() -> (framer: HttpServer) {
        HttpServer
    }
}

impl Framer for HttpClient {
    type Message = Message;

    open spec fn wire(&self, message: MessageView) -> Seq<u8> {
        wire_message(message)
    }

    open spec fn parse(&self, bytes: Seq<u8>) -> Decoding<MessageView> {
        client_parse(bytes)
    }

    open spec fn producible(&self, message: MessageView) -> bool {
        message.well_formed() && client_takes(message)
    }

    fn encode(&self, message: &Message) -> (bytes: Vec<u8>) {
        encode_message(message)
    }

    fn decode(&self, bytes: &[u8]) -> (decoded: Decoded<Message>) {
        match decode_message(bytes) {
            Decoded::Message { message, consumed } => {
                let taken = match &message {
                    Message::Response(response) => response.is_success(),
                    Message::Request(_) => false,
                };
                if taken {
                    Decoded::Message { message, consumed }
                } else {
                    Decoded::Malformed
                }
            },
            Decoded::NeedMoreData => Decoded::NeedMoreData,
            Decoded::Malformed => Decoded::Malformed,
        }
    }

    proof fn law_round_trip(&self, message: MessageView) {
        lemma_round_trip(message);
    }

    proof fn law_decoded(&self, bytes: Seq<u8>) {
        lemma_decoded(bytes);
    }

    proof fn law_settled(&self, bytes: Seq<u8>, more: Seq<u8>) {
        lemma_settled(bytes, more);
    }

    proof fn law_malformed(&self, bytes: Seq<u8>, more: Seq<u8>) {
        lemma_malformed(bytes, more);
        lemma_settled(bytes, more);
    }
}

impl Framer for HttpServer {
    type Message = Message;

    open spec fn wire(&self, message: MessageView) -> Seq<u8> {
        wire_message(message)
    }

    open spec fn parse(&self, bytes: Seq<u8>) -> Decoding<MessageView> {
        server_parse(bytes)
    }

    open spec fn producible(&self, message: MessageView) -> bool {
        message.well_formed() && server_takes(message)
    }

    fn encode(&self, message: &Message) -> (bytes: Vec<u8>) {
        encode_message(message)
    }

    fn decode(&self, bytes: &[u8]) -> (decoded: Decoded<Message>) {
        match decode_message(bytes) {
            Decoded::Message { message, consumed } => {
                let taken = match &message {
                    Message::Request(_) => true,
                    Message::Response(_) => false,
                };
                if taken {
                    Decoded::Message { message, consumed }
                } else {
                    Decoded::Malformed
                }
            },
            Decoded::NeedMoreData => Decoded::NeedMoreData,
            Decoded::Malformed => Decoded::Malformed,
        }
    }

    proof fn law_round_trip(&self, message: MessageView) {
        lemma_round_trip(message);
    }

    proof fn law_decoded(&self, bytes: Seq<u8>) {
        lemma_decoded(bytes);
    }

    proof fn law_settled(&self, bytes: Seq<u8>, more: Seq<u8>) {
        lemma_settled(bytes, more);
    }

    proof fn law_malformed(&self, bytes: Seq<u8>, more: Seq<u8>) {
        lemma_malformed(bytes, more);
        lemma_settled(bytes, more);
    }
}

} // verus!
