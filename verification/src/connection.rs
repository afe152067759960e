//! The life cycle of a connection and the framing of what travels over it.
//!
//! A `Connection` does no input or output. It holds the bytes that arrived
//! and were not decoded yet and the bytes that were encoded and not written
//! yet; whoever drives it moves bytes between these and the real stream and
//! reports what the stream did.

use vstd::prelude::*;
use crate::endpoint::SocketAddress;
use crate::framer::{Decoded, Decoding, Framer};

verus! {

/// Where a connection is in its life.
#[derive(Clone, Copy, Debug, PartialEq, Eq, Structural)]
pub enum ConnectionState {
    Establishing,
    Open,
    Closing,
    Closed,
    Failed,
}

/// What happens to a connection.
#[derive(Clone, Copy, Debug, PartialEq, Eq, Structural)]
pub enum ConnectionEvent {
    /// The transport below is connected.
    Established,
    /// The owner asked for the connection to be closed.
    CloseRequested,
    /// Every pending write is on the stream and the stream is released.
    Released,
    /// The peer closed the stream while a message was awaited.
    PeerClosed,
    /// The transport or the framing failed.
    Failure,
}

/// Why a call on a connection failed.
#[derive(Clone, Copy, Debug, PartialEq, Eq, Structural)]
pub enum ConnectionError {
    /// The connection is not in the `Open` state.
    NotOpen,
    /// An earlier message is not fully written yet.
    Busy,
    /// The bytes received are no message of the framer.
    Protocol,
    /// The peer closed the stream.
    Closed,
    /// The transport reported an error.
    Io,
}

/// What the driver of a connection has to do next.
#[derive(Clone, Copy, Debug, PartialEq, Eq, Structural)]
pub enum Directive {
    /// Write the pending bytes to the stream.
    Write,
    /// Read from the stream when the owner asks for a message.
    Read,
    /// Release the stream, then report `Released`.
    Release,
    /// Nothing: the stream is not there yet, or not any more.
    Idle,
}

impl ConnectionState {
    /// `Closed` and `Failed` are final.
    pub open spec fn is_terminal(self) -> bool {
        self == ConnectionState::Closed || self == ConnectionState::Failed
    }

    /// The state that follows `self` on `event`. An event that has no
    /// meaning in a state leaves the state as it is.
    pub open spec fn after(self, event: ConnectionEvent) -> ConnectionState {
        match (self, event) {
            (ConnectionState::Closed, _) => ConnectionState::Closed,
            (ConnectionState::Failed, _) => ConnectionState::Failed,
            (_, ConnectionEvent::Failure) => ConnectionState::Failed,
            (ConnectionState::Establishing, ConnectionEvent::Established) => ConnectionState::Open,
            (ConnectionState::Establishing, ConnectionEvent::CloseRequested) => ConnectionState::Closing,
            (ConnectionState::Open, ConnectionEvent::CloseRequested) => ConnectionState::Closing,
            (ConnectionState::Open, ConnectionEvent::PeerClosed) => ConnectionState::Closed,
            (ConnectionState::Closing, ConnectionEvent::Released) => ConnectionState::Closed,
            (state, _) => state,
        }
    }

    /// Computes the state that follows on `event`.
    pub fn step(self, event: ConnectionEvent) -> (next: ConnectionState)
        ensures
            next == self.after(event),
    {
        match (self, event) {
            (ConnectionState::Closed, _) => ConnectionState::Closed,
            (ConnectionState::Failed, _) => ConnectionState::Failed,
            (_, ConnectionEvent::Failure) => ConnectionState::Failed,
            (ConnectionState::Establishing, ConnectionEvent::Established) => ConnectionState::Open,
            (ConnectionState::Establishing, ConnectionEvent::CloseRequested) => ConnectionState::Closing,
            (ConnectionState::Open, ConnectionEvent::CloseRequested) => ConnectionState::Closing,
            (ConnectionState::Open, ConnectionEvent::PeerClosed) => ConnectionState::Closed,
            (ConnectionState::Closing, ConnectionEvent::Released) => ConnectionState::Closed,
            (state, _) => state,
        }
    }

    /// How far a state is along the life cycle.
    pub open spec fn stage(self) -> nat {
        match self {
            ConnectionState::Establishing => 0,
            ConnectionState::Open => 1,
            ConnectionState::Closing => 2,
            ConnectionState::Closed => 3,
            ConnectionState::Failed => 3,
        }
    }
}

/// A final state is never left, every other state fails on a failure, no
/// event leads back in the life cycle, and `Closed` is entered only from
/// `Closing` by the release of the stream or from `Open` when the peer
/// closed.
pub proof fn lemma_life_cycle(state: ConnectionState, event: ConnectionEvent)
    ensures
        state.is_terminal() ==> state.after(event) == state,
        !state.is_terminal() ==> state.after(ConnectionEvent::Failure) == ConnectionState::Failed,
        state.stage() <= state.after(event).stage(),
        state.after(event) == ConnectionState::Closed && state != ConnectionState::Closed ==> (state
            == ConnectionState::Closing && event == ConnectionEvent::Released) || (state
            == ConnectionState::Open && event == ConnectionEvent::PeerClosed),
        state.after(event) == ConnectionState::Open && state != ConnectionState::Open ==> state
            == ConnectionState::Establishing && event == ConnectionEvent::Established,
{
}

/// A framed channel to a peer.
pub struct Connection<F: Framer> {
    framer: F,
    state: ConnectionState,
    local: SocketAddress,
    remote: SocketAddress,
    inbound: Vec<u8>,
    outbound: Vec<u8>,
    peer_closed: bool,
}

/// All of a connection but its framer.
pub struct ConnectionView {
    pub state: ConnectionState,
    pub local: SocketAddress,
    pub remote: SocketAddress,
    /// The bytes that arrived and were not decoded yet, in arrival order.
    pub inbound: Seq<u8>,
    /// The bytes that were encoded and not written yet, in sending order.
    pub outbound: Seq<u8>,
    /// The peer has closed its side of the stream.
    pub peer_closed: bool,
}

impl<F: Framer> View for Connection<F> {
    type V = ConnectionView;

    closed spec fn view(&self) -> ConnectionView {
        ConnectionView {
            state: self.state,
            local: self.local,
            remote: self.remote,
            inbound: self.inbound@,
            outbound: self.outbound@,
            peer_closed: self.peer_closed,
        }
    }
}

impl<F: Framer> Connection<F> {
    /// The framer bound to the connection.
    pub closed spec fn framing(&self) -> F {
        self.framer
    }

    /// A connection whose transport is being set up.
    pub fn new(framer: F, local: SocketAddress, remote: SocketAddress) -> (connection: Connection<F>)
        ensures
            connection.framing() == framer,
            connection@ == (ConnectionView {
                state: ConnectionState::Establishing,
                local,
                remote,
                inbound: Seq::empty(),
                outbound: Seq::empty(),
                peer_closed: false,
            }),
    {
        Connection {
            framer,
            state: ConnectionState::Establishing,
            local,
            remote,
            inbound: Vec::new(),
            outbound: Vec::new(),
            peer_closed: false,
        }
    }

    /// A connection over a transport that is connected already.
    pub fn open(framer: F, local: SocketAddress, remote: SocketAddress) -> (connection: Connection<F>)
        ensures
            connection.framing() == framer,
            connection@ == (ConnectionView {
                state: ConnectionState::Open,
                local,
                remote,
                inbound: Seq::empty(),
                outbound: Seq::empty(),
                peer_closed: false,
            }),
    {
        Connection {
            framer,
            state: ConnectionState::Open,
            local,
            remote,
            inbound: Vec::new(),
            outbound: Vec::new(),
            peer_closed: false,
        }
    }

    /// The connection's state.
    pub fn state(&self) -> (state: ConnectionState)
        ensures
            state == self@.state,
    {
        self.state
    }

    /// The address of the peer.
    pub fn remote_endpoint(&self) -> (remote: SocketAddress)
        ensures
            remote == self@.remote,
    {
        self.remote
    }

    /// The address on this side.
    pub fn local_endpoint(&self) -> (local: SocketAddress)
        ensures
            local == self@.local,
    {
        self.local
    }

    /// The framer bound to the connection.
    pub fn framer(&self) -> (framer: &F)
        ensures
            *framer == self.framing(),
    {
        &self.framer
    }

    /// The bytes that wait to be written.
    pub fn pending(&self) -> (bytes: &[u8])
        ensures
            bytes@ == self@.outbound,
    {
        self.outbound.as_slice()
    }

    /// Reports that the transport below is connected.
    pub fn established(&mut self)
        ensures
            final(self).framing() == old(self).framing(),
            final(self)@ == (ConnectionView {
                state: old(self)@.state.after(ConnectionEvent::Established),
                ..old(self)@
            }),
    {
        self.state = self.state.step(ConnectionEvent::Established);
    }

    /// Encodes `message` and queues the bytes for writing.
    ///
    /// Fails with `NotOpen` unless the connection is open, and with `Busy`
    /// while bytes of an earlier message wait to be written. A failed call
    /// changes nothing.
    pub fn send(&mut self, message: &F::Message) -> (sent: Result<(), ConnectionError>)
        ensures
            final(self).framing() == old(self).framing(),
            old(self)@.state != ConnectionState::Open ==> sent == Err::<(), ConnectionError>(
                ConnectionError::NotOpen,
            ) && final(self)@ == old(self)@,
            old(self)@.state == ConnectionState::Open && old(self)@.outbound.len() > 0 ==> sent == Err::<
                (),
                ConnectionError,
            >(ConnectionError::Busy) && final(self)@ == old(self)@,
            old(self)@.state == ConnectionState::Open && old(self)@.outbound.len() == 0 ==> sent.is_ok()
                && final(self)@ == (ConnectionView {
                outbound: old(self).framing().wire(message@),
                ..old(self)@
            }),
    {
        if self.state != ConnectionState::Open {
            return Err(ConnectionError::NotOpen);
        }
        if self.outbound.len() > 0 {
            return Err(ConnectionError::Busy);
        }
        self.outbound = self.framer.encode(message);
        Ok(())
    }

    /// Reports that the first `count` pending bytes are on the stream.
    /// A count beyond what is pending counts as all of it.
    pub fn wrote(&mut self, count: usize)
        ensures
            final(self).framing() == old(self).framing(),
            final(self)@ == (ConnectionView {
                outbound: if count <= old(self)@.outbound.len() {
                    old(self)@.outbound.skip(count as int)
                } else {
                    Seq::empty()
                },
                ..old(self)@
            }),
    {
        if count >= self.outbound.len() {
            self.outbound = Vec::new();
            assert(old(self)@.outbound.skip(old(self)@.outbound.len() as int) =~= Seq::<u8>::empty());
        } else {
            let rest = self.outbound.split_off(count);
            self.outbound = rest;
            assert(self.outbound@ =~= old(self)@.outbound.skip(count as int));
        }
    }

    /// Takes in bytes that arrived on the stream. They are kept only while
    /// the connection is open.
    pub fn deliver(&mut self, bytes: &[u8])
        ensures
            final(self).framing() == old(self).framing(),
            final(self)@ == (ConnectionView {
                inbound: if old(self)@.state == ConnectionState::Open {
                    old(self)@.inbound + bytes@
                } else {
                    old(self)@.inbound
                },
                ..old(self)@
            }),
    {
        if self.state == ConnectionState::Open {
            let mut i: usize = 0;
            while i < bytes.len()
                invariant
                    i <= bytes.len(),
                    self.framer == old(self).framer,
                    self.state == old(self).state,
                    self.local == old(self).local,
                    self.remote == old(self).remote,
                    self.outbound == old(self).outbound,
                    self.peer_closed == old(self).peer_closed,
                    self.inbound@ == old(self).inbound@ + bytes@.take(i as int),
                decreases bytes.len() - i,
            {
                self.inbound.push(bytes[i]);
                i += 1;
                assert(self.inbound@ =~= old(self).inbound@ + bytes@.take(i as int));
            }
            assert(bytes@.take(i as int) =~= bytes@);
        }
    }

    /// Reports that the peer closed its side of the stream.
    pub fn peer_closed(&mut self)
        ensures
            final(self).framing() == old(self).framing(),
            final(self)@ == (ConnectionView { peer_closed: true, ..old(self)@ }),
    {
        self.peer_closed = true;
    }

    /// Decodes the next message from the bytes that arrived.
    ///
    /// Fails with `NotOpen` unless the connection is open. Otherwise the
    /// framer decides on the bytes that arrived and were not consumed:
    /// - a whole message is returned and its bytes are consumed;
    /// - where more data is needed, `None` asks the driver to read and
    ///   deliver more, unless the peer has closed: then the call fails with
    ///   `Closed` and the connection is closed;
    /// - malformed input fails the call with `Protocol` and the connection
    ///   with it.
    pub fn receive(&mut self) -> (received: Result<Option<F::Message>, ConnectionError>)
        ensures
            final(self).framing() == old(self).framing(),
            old(self)@.state != ConnectionState::Open ==> received == Err::<
                Option<F::Message>,
                ConnectionError,
            >(ConnectionError::NotOpen) && final(self)@ == old(self)@,
            old(self)@.state == ConnectionState::Open ==> match old(self).framing().parse(
                old(self)@.inbound,
            ) {
                Decoding::Message { message, consumed } => {
                    &&& received matches Ok(Some(got))
                    &&& got@ == message
                    &&& consumed <= old(self)@.inbound.len()
                    &&& final(self)@ == (ConnectionView {
                        inbound: old(self)@.inbound.skip(consumed as int),
                        ..old(self)@
                    })
                },
                Decoding::NeedMoreData => if old(self)@.peer_closed {
                    &&& received == Err::<Option<F::Message>, ConnectionError>(ConnectionError::Closed)
                    &&& final(self)@ == (ConnectionView {
                        state: ConnectionState::Open.after(ConnectionEvent::PeerClosed),
                        ..old(self)@
                    })
                } else {
                    &&& received == Ok::<Option<F::Message>, ConnectionError>(None)
                    &&& final(self)@ == old(self)@
                },
                Decoding::Malformed => {
                    &&& received == Err::<Option<F::Message>, ConnectionError>(ConnectionError::Protocol)
                    &&& final(self)@ == (ConnectionView {
                        state: ConnectionState::Open.after(ConnectionEvent::Failure),
                        ..old(self)@
                    })
                },
            },
    {
        if self.state != ConnectionState::Open {
            return Err(ConnectionError::NotOpen);
        }
        proof {
            self.framer.law_decoded(self.inbound@);
        }
        match self.framer.decode(self.inbound.as_slice()) {
            Decoded::Message { message, consumed } => {
                let rest = self.inbound.split_off(consumed);
                self.inbound = rest;
                assert(self.inbound@ =~= old(self)@.inbound.skip(consumed as int));
                Ok(Some(message))
            },
            Decoded::NeedMoreData => {
                if self.peer_closed {
                    self.state = self.state.step(ConnectionEvent::PeerClosed);
                    Err(ConnectionError::Closed)
                } else {
                    Ok(None)
                }
            },
            Decoded::Malformed => {
                self.state = self.state.step(ConnectionEvent::Failure);
                Err(ConnectionError::Protocol)
            },
        }
    }

    /// Asks for the connection to be closed. Pending writes stay pending:
    /// the driver flushes them before it releases the stream.
    pub fn close(&mut self)
        ensures
            final(self).framing() == old(self).framing(),
            final(self)@ == (ConnectionView {
                state: old(self)@.state.after(ConnectionEvent::CloseRequested),
                ..old(self)@
            }),
    {
        self.state = self.state.step(ConnectionEvent::CloseRequested);
    }

    /// Reports that the stream is released. This closes a closing
    /// connection once nothing is pending; before that it changes nothing.
    pub fn released(&mut self)
        ensures
            final(self).framing() == old(self).framing(),
            final(self)@ == (ConnectionView {
                state: if old(self)@.outbound.len() == 0 {
                    old(self)@.state.after(ConnectionEvent::Released)
                } else {
                    old(self)@.state
                },
                ..old(self)@
            }),
    {
        if self.outbound.len() == 0 {
            self.state = self.state.step(ConnectionEvent::Released);
        }
    }

    /// Reports an error of the transport. The connection fails, what was
    /// pending is dropped, and the error to hand to the owner is returned.
    pub fn fail(&mut self) -> (error: ConnectionError)
        ensures
            error == ConnectionError::Io,
            final(self).framing() == old(self).framing(),
            final(self)@ == (ConnectionView {
                state: old(self)@.state.after(ConnectionEvent::Failure),
                outbound: Seq::empty(),
                ..old(self)@
            }),
    {
        self.state = self.state.step(ConnectionEvent::Failure);
        self.outbound = Vec::new();
        ConnectionError::Io
    }

    /// What the driver has to do next: write while bytes are pending on an
    /// open or closing connection, release the stream of a closing
    /// connection once nothing is pending, read for an open one, and
    /// nothing otherwise.
    pub fn directive(&self) -> (directive: Directive)
        ensures
            directive == match self@.state {
                ConnectionState::Open => if self@.outbound.len() > 0 {
                    Directive::Write
                } else {
                    Directive::Read
                },
                ConnectionState::Closing => if self@.outbound.len() > 0 {
                    Directive::Write
                } else {
                    Directive::Release
                },
                _ => Directive::Idle,
            },
    {
        match self.state {
            ConnectionState::Open => if self.outbound.len() > 0 {
                Directive::Write
            } else {
                Directive::Read
            },
            ConnectionState::Closing => if self.outbound.len() > 0 {
                Directive::Write
            } else {
                Directive::Release
            },
            _ => Directive::Idle,
        }
    }
}

} // verus!
