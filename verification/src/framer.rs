//! The pluggable encoder and decoder that stand between application
//! messages and the byte stream of a connection.

use vstd::prelude::*;

verus! {

/// What decoding the bytes received so far gives.
#[derive(Debug, PartialEq, Eq)]
pub enum Decoded<M> {
    /// The buffer starts with a whole message, `consumed` bytes long.
    Message { message: M, consumed: usize },
    /// No whole message is there yet, and nothing that is there is wrong.
    NeedMoreData,
    /// The buffer does not begin with a message, whatever may follow.
    Malformed,
}

/// The mathematical counterpart of `Decoded`.
pub enum Decoding<V> {
    Message { message: V, consumed: nat },
    NeedMoreData,
    Malformed,
}

impl<M: View> View for Decoded<M> {
    type V = Decoding<M::V>;

    open spec fn view(&self) -> Decoding<M::V> {
        match self {
            Decoded::Message { message, consumed } => Decoding::Message {
                message: message@,
                consumed: *consumed as nat,
            },
            Decoded::NeedMoreData => Decoding::NeedMoreData,
            Decoded::Malformed => Decoding::Malformed,
        }
    }
}

/// An encoder and decoder for one application protocol.
///
/// A framer carries no stream state: `decode` is handed every byte that has
/// arrived and not been consumed yet, and is called again with a longer
/// buffer after it answered `NeedMoreData`.
pub trait Framer: Sized {
    /// The application's message type.
    type Message: View;

    /// The bytes that stand for `message` on the wire.
    spec fn wire(&self, message: <Self::Message as View>::V) -> Seq<u8>;

    /// What a buffer holding `bytes` decodes to.
    spec fn parse(&self, bytes: Seq<u8>) -> Decoding<<Self::Message as View>::V>;

    /// `message` is one that decoding can give.
    spec fn producible(&self, message: <Self::Message as View>::V) -> bool;

    /// Encodes a message.
    fn encode(&self, message: &Self::Message) -> (bytes: Vec<u8>)
        ensures
            bytes@ == self.wire(message@),
    ;

    /// Decodes the start of `bytes`.
    fn decode(&self, bytes: &[u8]) -> (decoded: Decoded<Self::Message>)
        ensures
            decoded@ == self.parse(bytes@),
    ;

    /// Encoding a producible message and decoding the bytes gives the
    /// message back and consumes all of them.
    proof fn law_round_trip(&self, message: <Self::Message as View>::V)
        requires
            self.producible(message),
        ensures
            self.parse(self.wire(message)) == (Decoding::Message {
                message,
                consumed: self.wire(message).len(),
            }),
    ;

    /// A decoded message is producible, and stands in a non-empty front
    /// part of the buffer.
    proof fn law_decoded(&self, bytes: Seq<u8>)
        ensures
            self.parse(bytes) matches Decoding::Message { message, consumed } ==> self.producible(message)
                && 0 < consumed <= bytes.len(),
    ;

    /// Bytes that arrive behind a whole message do not change what the
    /// buffer decodes to.
    proof fn law_settled(&self, bytes: Seq<u8>, more: Seq<u8>)
        ensures
            self.parse(bytes) is Message ==> self.parse(bytes + more) == self.parse(bytes),
    ;

    /// Malformed input stays malformed, whatever arrives behind it.
    proof fn law_malformed(&self, bytes: Seq<u8>, more: Seq<u8>)
        ensures
            self.parse(bytes) is Malformed ==> self.parse(bytes + more) is Malformed,
    ;
}

/// Decoding one buffer twice gives the same message and the same consumed
/// length: whatever two calls of `decode` return for equal bytes is equal.
pub proof fn lemma_decode_repeatable<F: Framer>(
    framer: &F,
    bytes: Seq<u8>,
    first: Decoding<<F::Message as View>::V>,
    second: Decoding<<F::Message as View>::V>,
)
    requires
        first == framer.parse(bytes),
        second == framer.parse(bytes),
    ensures
        first == second,
        first matches Decoding::Message { message, consumed } ==> second == (Decoding::Message {
            message,
            consumed,
        }),
{
}

} // verus!
