//! What an application states before a connection exists, and the steps
//! from there to a connection or a listener.

use vstd::prelude::*;
use crate::connection::{Connection, ConnectionState, ConnectionView};
use crate::endpoint::{Endpoint, IpAddress, ResolutionError, SocketAddress};
use crate::establishment::{
    Claim,
    EstablishmentError,
    FailureReason,
    Progress,
    Race,
    RaceView,
    candidates,
    cancels,
    crossed,
};
use crate::framer::Framer;
use crate::listener::{BindError, Listener, ListenerState};
use crate::properties::{CandidateStack, ProtocolStackCapability, TransportProperties, is_ranking, rank};

verus! {

/// The transport an application intends: what it wants of it, how its
/// messages are framed, and the endpoints on either side.
pub struct Preconnection<F: Framer> {
    properties: TransportProperties,
    framer: F,
    local: Option<Endpoint>,
    remote: Option<Endpoint>,
    concurrency: usize,
}

/// An establishment that waits for the addresses of its remote endpoint.
pub struct Initiation<F: Framer> {
    framer: F,
    remote: Endpoint,
    ranked: Vec<CandidateStack>,
    concurrency: usize,
}

/// A listener in the making that waits for the addresses of its local
/// endpoint.
pub struct Binding<F: Framer> {
    framer: F,
    local: Endpoint,
}

/// An establishment whose race is under way.
pub struct Racing<F: Framer> {
    framer: F,
    race: Race,
}

/// What became of a report that an attempt is connected.
pub enum Settlement<F: Framer> {
    /// The attempt won: here is the connection over its socket. The
    /// attempts in `cancel` are to be cancelled and their sockets released.
    Won { connection: Connection<F>, cancel: Vec<usize> },
    /// The attempt was not in flight any more. Its socket is to be
    /// released, and the race stands as it was.
    Discard { racing: Racing<F> },
}

impl<F: Framer> Preconnection<F> {
    pub closed spec fn properties(&self) -> TransportProperties {
        self.properties
    }

    pub closed spec fn framing(&self) -> F {
        self.framer
    }

    pub closed spec fn local(&self) -> Option<Endpoint> {
        self.local
    }

    pub closed spec fn remote(&self) -> Option<Endpoint> {
        self.remote
    }

    /// How many attempts race together; 0 stands for all.
    pub closed spec fn batch(&self) -> usize {
        self.concurrency
    }

    /// A preconnection without endpoints, whose attempts will all race at
    /// once.
    pub fn new(properties: TransportProperties, framer: F) -> (preconnection: Preconnection<F>)
        ensures
            preconnection.properties() == properties,
            preconnection.framing() == framer,
            preconnection.local() is None,
            preconnection.remote() is None,
            preconnection.batch() == 0,
    {
        Preconnection { properties, framer, local: None, remote: None, concurrency: 0 }
    }

    /// Sets the endpoint to listen at.
    pub fn local_endpoint(self, endpoint: Endpoint) -> (preconnection: Preconnection<F>)
        ensures
            preconnection.properties() == self.properties(),
            preconnection.framing() == self.framing(),
            preconnection.local() == Some(endpoint),
            preconnection.remote() == self.remote(),
            preconnection.batch() == self.batch(),
    {
        Preconnection {
            properties: self.properties,
            framer: self.framer,
            local: Some(endpoint),
            remote: self.remote,
            concurrency: self.concurrency,
        }
    }

    /// Sets the endpoint to connect to.
    pub fn remote_endpoint(self, endpoint: Endpoint) -> (preconnection: Preconnection<F>)
        ensures
            preconnection.properties() == self.properties(),
            preconnection.framing() == self.framing(),
            preconnection.local() == self.local(),
            preconnection.remote() == Some(endpoint),
            preconnection.batch() == self.batch(),
    {
        Preconnection {
            properties: self.properties,
            framer: self.framer,
            local: self.local,
            remote: Some(endpoint),
            concurrency: self.concurrency,
        }
    }

    /// Sets how many attempts race together; 0 stands for all.
    pub fn concurrency(self, concurrency: usize) -> (preconnection: Preconnection<F>)
        ensures
            preconnection.properties() == self.properties(),
            preconnection.framing() == self.framing(),
            preconnection.local() == self.local(),
            preconnection.remote() == self.remote(),
            preconnection.batch() == concurrency,
    {
        Preconnection {
            properties: self.properties,
            framer: self.framer,
            local: self.local,
            remote: self.remote,
            concurrency,
        }
    }

    /// Begins to establish a connection to the remote endpoint over the
    /// stacks in `stacks`, which stand in the order they were registered in.
    ///
    /// Fails with `NoRemoteEndpoint` if no remote endpoint is set, and
    /// with `NoViableStack` if the properties admit none of the stacks; in
    /// both cases nothing was asked of the network and nothing can be.
    /// Otherwise the stacks are ranked, and the establishment waits for the
    /// addresses of the remote endpoint.
    pub fn initiate(self, stacks: &[ProtocolStackCapability]) -> (begun: Result<
        Initiation<F>,
        EstablishmentError,
    >)
        ensures
            self.remote() is None ==> begun matches Err(EstablishmentError::NoRemoteEndpoint),
            self.remote() is Some && (forall|k: int|
                0 <= k < stacks.len() ==> !self.properties().admits(#[trigger] stacks[k])) ==> begun matches Err(
                EstablishmentError::NoViableStack,
            ),
            self.remote() is Some && (exists|k: int|
                0 <= k < stacks.len() && self.properties().admits(#[trigger] stacks[k])) ==> ({
                &&& begun matches Ok(initiation)
                &&& initiation.framing() == self.framing()
                &&& Some(initiation.target()) == self.remote()
                &&& initiation.batch() == self.batch()
                &&& initiation.ranking().len() > 0
                &&& is_ranking(self.properties(), stacks@, initiation.ranking())
            }),
    {
        let remote = match self.remote {
            None => {
                return Err(EstablishmentError::NoRemoteEndpoint);
            },
            Some(remote) => remote,
        };
        let ranked = rank(&self.properties, stacks);
        if ranked.len() == 0 {
            return Err(EstablishmentError::NoViableStack);
        }
        proof {
            assert(ranked[0].stands_for(self.properties, stacks@));
            assert(self.properties.admits(stacks[ranked[0].index as int]));
        }
        Ok(Initiation { framer: self.framer, remote, ranked, concurrency: self.concurrency })
    }

    /// Begins to listen at the local endpoint.
    ///
    /// Fails with `NoLocalEndpoint` if no local endpoint is set. Otherwise
    /// the binding waits for the addresses of the local endpoint.
    pub fn listen(self) -> (begun: Result<Binding<F>, BindError>)
        ensures
            match self.local() {
                None => begun matches Err(BindError::NoLocalEndpoint),
                Some(local) => {
                    &&& begun matches Ok(binding)
                    &&& binding.framing() == self.framing()
                    &&& binding.target() == local
                },
            },
    {
        match self.local {
            None => Err(BindError::NoLocalEndpoint),
            Some(local) => Ok(Binding { framer: self.framer, local }),
        }
    }
}

impl<F: Framer> Binding<F> {
    pub closed spec fn framing(&self) -> F {
        self.framer
    }

    /// The endpoint to listen at.
    pub closed spec fn target(&self) -> Endpoint {
        self.local
    }

    /// The endpoint whose addresses the binding waits for.
    pub fn local_endpoint(&self) -> (local: &Endpoint)
        ensures
            *local == self.target(),
    {
        &self.local
    }

    /// Goes on with what a lookup of the local endpoint's name found.
    ///
    /// Fails with `InvalidAddress` if the endpoint has no address.
    /// Otherwise the listener is about to claim the endpoint's first
    /// address.
    pub fn resolved(self, found: &[IpAddress]) -> (listening: Result<Listener<F>, BindError>)
        ensures
            if self.target().addresses(found@).len() == 0 {
                listening matches Err(BindError::InvalidAddress)
            } else {
                &&& listening matches Ok(listener)
                &&& listener.framing() == self.framing()
                &&& listener.address() == self.target().addresses(found@)[0]
                &&& listener.phase() == ListenerState::Binding
            },
    {
        match self.local.resolve(found) {
            Err(_) => Err(BindError::InvalidAddress),
            Ok(addresses) => Ok(Listener::new(self.framer, addresses[0])),
        }
    }
}

impl<F: Framer> Initiation<F> {
    pub closed spec fn framing(&self) -> F {
        self.framer
    }

    /// The endpoint to connect to.
    pub closed spec fn target(&self) -> Endpoint {
        self.remote
    }

    /// The admitted stacks, ranked.
    pub closed spec fn ranking(&self) -> Seq<CandidateStack> {
        self.ranked@
    }

    pub closed spec fn batch(&self) -> usize {
        self.concurrency
    }

    /// The endpoint whose addresses the establishment waits for.
    pub fn remote_endpoint(&self) -> (remote: &Endpoint)
        ensures
            *remote == self.target(),
    {
        &self.remote
    }

    /// The admitted stacks, ranked.
    pub fn stacks(&self) -> (ranked: &[CandidateStack])
        ensures
            ranked@ == self.ranking(),
    {
        self.ranked.as_slice()
    }

    /// Goes on with what a lookup of the remote endpoint's name found.
    ///
    /// Fails with `Unresolved` if the endpoint has no address. Otherwise
    /// the race over every ranked stack and every address begins, stack by
    /// stack and for each stack address by address.
    pub fn resolved(self, found: &[IpAddress]) -> (begun: Result<Racing<F>, EstablishmentError>)
        ensures
            self.target().addresses(found@).len() == 0 ==> begun matches Err(
                EstablishmentError::Unresolved(ResolutionError::NoAddress),
            ),
            self.target().addresses(found@).len() > 0 && self.ranking().len() == 0 ==> begun matches Err(
                EstablishmentError::NoViableStack,
            ),
            self.target().addresses(found@).len() > 0 && self.ranking().len() > 0 ==> ({
                &&& begun matches Ok(racing)
                &&& racing.framing() == self.framing()
                &&& racing.course() == RaceView::initial(
                    crossed(self.ranking(), self.target().addresses(found@)),
                    self.batch() as nat,
                )
                &&& racing.course().well_formed()
            }),
    {
        let addresses = match self.remote.resolve(found) {
            Err(error) => {
                return Err(EstablishmentError::Unresolved(error));
            },
            Ok(addresses) => addresses,
        };
        let paths = candidates(self.ranked.as_slice(), addresses.as_slice());
        proof {
            if self.ranked.len() > 0 {
                assert(self.ranked.len() * addresses.len() > 0) by (nonlinear_arith)
                    requires
                        self.ranked.len() > 0,
                        addresses.len() > 0,
                ;
            } else {
                assert(self.ranked.len() * addresses.len() == 0) by (nonlinear_arith)
                    requires
                        self.ranked.len() == 0,
                ;
            }
        }
        match Race::begin(paths.as_slice(), self.concurrency) {
            Err(_) => Err(EstablishmentError::NoViableStack),
            Ok(race) => Ok(Racing { framer: self.framer, race }),
        }
    }
}

impl<F: Framer> Racing<F> {
    pub closed spec fn framing(&self) -> F {
        self.framer
    }

    /// The race as it stands.
    pub closed spec fn course(&self) -> RaceView {
        self.race@
    }

    /// The race, to look at.
    pub fn race(&self) -> (race: &Race)
        ensures
            race@ == self.course(),
    {
        &self.race
    }

    /// Takes the report that attempt `i` failed for `reason`, as
    /// `Race::failed` does.
    pub fn failed(&mut self, i: usize, reason: FailureReason) -> (progress: Progress)
        ensures
            final(self).framing() == old(self).framing(),
            final(self).course() == old(self).course().failed(i as int, reason),
            final(self).course().well_formed(),
            match progress {
                Progress::Wait => !old(self).course().in_flight(i as int) || old(self).course().marked(
                    i as int,
                    reason,
                ).any_in_flight(),
                Progress::Launch { from, to } => {
                    &&& old(self).course().in_flight(i as int)
                    &&& !old(self).course().marked(i as int, reason).any_in_flight()
                    &&& from == old(self).course().launched
                    &&& to == final(self).course().launched
                    &&& from < to
                },
                Progress::Lost(error) => {
                    &&& old(self).course().in_flight(i as int)
                    &&& final(self).course().lost()
                    &&& error matches EstablishmentError::AllFailed(failures)
                    &&& failures@ == final(self).course().failures()
                },
            },
    {
        self.race.failed(i, reason)
    }

    /// Takes the report that attempt `i` is connected, from the local
    /// address `local`.
    ///
    /// An attempt in flight wins, and the establishment ends with an open
    /// connection to the address of the attempt's path, bound to the
    /// framer; the other attempts in flight are listed to be cancelled.
    /// For any other attempt nothing changes, and the race is handed back.
    pub fn connected(self, i: usize, local: SocketAddress) -> (settlement: Settlement<F>)
        ensures
            match settlement {
                Settlement::Won { connection, cancel } => {
                    &&& self.course().in_flight(i as int)
                    &&& self.course().connected(i as int).is_winner(i as int)
                    &&& self.course().connected(i as int).well_formed()
                    &&& forall|k: int|
                        0 <= k < self.course().attempts.len() && k != i ==> self.course().connected(
                            i as int,
                        ).is_closed(k)
                    &&& cancels(self.course().attempts, i as int, cancel@)
                    &&& connection.framing() == self.framing()
                    &&& connection@ == (ConnectionView {
                        state: ConnectionState::Open,
                        local,
                        remote: self.course().attempts[i as int].path.address,
                        inbound: Seq::empty(),
                        outbound: Seq::empty(),
                        peer_closed: false,
                    })
                },
                Settlement::Discard { racing } => {
                    &&& !self.course().in_flight(i as int)
                    &&& racing.framing() == self.framing()
                    &&& racing.course() == self.course()
                },
            },
    {
        let Racing { framer, race } = self;
        let mut race = race;
        let remote = match race.attempt(i) {
            Some(attempt) => attempt.path.address,
            None => {
                return Settlement::Discard { racing: Racing { framer, race } };
            },
        };
        match race.connected(i) {
            Claim::Discard => Settlement::Discard { racing: Racing { framer, race } },
            Claim::Won { cancel } => Settlement::Won { connection: Connection::open(framer, local, remote), cancel },
        }
    }
}

} // verus!
