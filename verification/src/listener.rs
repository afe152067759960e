//! The life cycle of a listener and the sequence of connections it yields.
//!
//! A `Listener` holds no socket and no queue of its own: incoming
//! connections wait in the backlog of the transport until the driver
//! accepts one and hands it over.

use vstd::prelude::*;
use crate::connection::{Connection, ConnectionState, ConnectionView};
use crate::endpoint::SocketAddress;
use crate::framer::Framer;

verus! {

/// Why a local endpoint could not be claimed.
#[derive(Clone, Copy, Debug, PartialEq, Eq, Structural)]
pub enum BindError {
    /// The preconnection names no local endpoint.
    NoLocalEndpoint,
    /// The address is taken.
    AddressInUse,
    /// The endpoint names no address that can be bound here.
    InvalidAddress,
}

/// Why the transport did not let an address be bound.
#[derive(Clone, Copy, Debug, PartialEq, Eq, Structural)]
pub enum Refusal {
    InUse,
    Unavailable,
}

/// Where a listener is in its life.
#[derive(Clone, Copy, Debug, PartialEq, Eq, Structural)]
pub enum ListenerState {
    /// The address is being claimed.
    Binding,
    /// Incoming connections are accepted.
    Listening,
    /// The listener was shut down.
    Stopped,
    /// The address could not be claimed, or the socket broke.
    Failed,
}

/// What the transport reports for one step of accepting.
#[derive(Clone, Copy, Debug, PartialEq, Eq, Structural)]
pub enum Incoming {
    /// A stream from `remote` was accepted.
    Stream { remote: SocketAddress },
    /// One incoming attempt went wrong; the socket still listens.
    Aborted,
    /// The listening socket broke.
    Broken,
}

/// An error in the sequence that a listener yields.
#[derive(Clone, Copy, Debug, PartialEq, Eq, Structural)]
pub enum AcceptError {
    /// One incoming attempt went wrong. The sequence goes on.
    Attempt,
    /// The listening socket broke. The sequence ends behind this item.
    Socket,
}

/// A bound local endpoint that yields connections.
pub struct Listener<F: Framer> {
    framer: F,
    local: SocketAddress,
    state: ListenerState,
}

impl<F: Framer> Listener<F> {
    /// The framer that every accepted connection is bound to.
    pub closed spec fn framing(&self) -> F {
        self.framer
    }

    /// The address the listener claims or holds.
    pub closed spec fn address(&self) -> SocketAddress {
        self.local
    }

    /// The listener's state.
    pub closed spec fn phase(&self) -> ListenerState {
        self.state
    }

    /// A listener that is about to claim `local`.
    pub fn new(framer: F, local: SocketAddress) -> (listener: Listener<F>)
        ensures
            listener.framing() == framer,
            listener.address() == local,
            listener.phase() == ListenerState::Binding,
    {
        Listener { framer, local, state: ListenerState::Binding }
    }

    /// The listener's state.
    pub fn state(&self) -> (state: ListenerState)
        ensures
            state == self.phase(),
    {
        self.state
    }

    /// The address the listener claims or holds.
    pub fn local_endpoint(&self) -> (local: SocketAddress)
        ensures
            local == self.address(),
    {
        self.local
    }

    /// Reports that the transport bound the socket, at `actual`. A listener
    /// that is binding listens from now on; any other is left as it is.
    pub fn bound(&mut self, actual: SocketAddress)
        ensures
            final(self).framing() == old(self).framing(),
            old(self).phase() == ListenerState::Binding ==> final(self).phase() == ListenerState::Listening
                && final(self).address() == actual,
            old(self).phase() != ListenerState::Binding ==> final(self).phase() == old(self).phase()
                && final(self).address() == old(self).address(),
    {
        if self.state == ListenerState::Binding {
            self.state = ListenerState::Listening;
            self.local = actual;
        }
    }

    /// Reports that the transport did not bind the socket. A listener that
    /// is binding fails; the error to hand to the owner is returned.
    pub fn refused(&mut self, refusal: Refusal) -> (error: BindError)
        ensures
            final(self).framing() == old(self).framing(),
            final(self).address() == old(self).address(),
            error == match refusal {
                Refusal::InUse => BindError::AddressInUse,
                Refusal::Unavailable => BindError::InvalidAddress,
            },
            final(self).phase() == if old(self).phase() == ListenerState::Binding {
                ListenerState::Failed
            } else {
                old(self).phase()
            },
    {
        if self.state == ListenerState::Binding {
            self.state = ListenerState::Failed;
        }
        match refusal {
            Refusal::InUse => BindError::AddressInUse,
            Refusal::Unavailable => BindError::InvalidAddress,
        }
    }

    /// Shuts the listener down. A listener that is binding or listening
    /// stops; one that failed stays failed.
    pub fn shutdown(&mut self)
        ensures
            final(self).framing() == old(self).framing(),
            final(self).address() == old(self).address(),
            final(self).phase() == if old(self).phase() == ListenerState::Failed {
                ListenerState::Failed
            } else {
                ListenerState::Stopped
            },
    {
        if self.state != ListenerState::Failed {
            self.state = ListenerState::Stopped;
        }
    }
}

impl<F: Framer + Copy> Listener<F> {
    /// Turns one report of the transport into the next item of the
    /// sequence.
    ///
    /// While the listener listens, an accepted stream gives an open
    /// connection bound to the listener's framer, an aborted attempt gives
    /// an error and leaves the listener listening, and a broken socket gives
    /// an error and fails the listener. A listener that does not listen
    /// yields nothing: the sequence has ended.
    pub fn accept(&mut self, incoming: Incoming) -> (item: Option<Result<Connection<F>, AcceptError>>)
        ensures
            final(self).framing() == old(self).framing(),
            final(self).address() == old(self).address(),
            old(self).phase() != ListenerState::Listening ==> item is None && final(self).phase() == old(
                self,
            ).phase(),
            old(self).phase() == ListenerState::Listening ==> match incoming {
                Incoming::Stream { remote } => {
                    &&& final(self).phase() == ListenerState::Listening
                    &&& item matches Some(Ok(connection))
                    &&& connection.framing() == old(self).framing()
                    &&& connection@ == (ConnectionView {
                        state: ConnectionState::Open,
                        local: old(self).address(),
                        remote,
                        inbound: Seq::empty(),
                        outbound: Seq::empty(),
                        peer_closed: false,
                    })
                },
                Incoming::Aborted => {
                    &&& final(self).phase() == ListenerState::Listening
                    &&& item matches Some(Err(AcceptError::Attempt))
                },
                Incoming::Broken => {
                    &&& final(self).phase() == ListenerState::Failed
                    &&& item matches Some(Err(AcceptError::Socket))
                },
            },
    {
        if self.state != ListenerState::Listening {
            return None;
        }
        match incoming {
            Incoming::Stream { remote } => Some(Ok(Connection::open(self.framer, self.local, remote))),
            Incoming::Aborted => Some(Err(AcceptError::Attempt)),
            Incoming::Broken => {
                self.state = ListenerState::Failed;
                Some(Err(AcceptError::Socket))
            },
        }
    }
}

} // verus!
