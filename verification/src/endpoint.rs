//! Endpoints as an application names them, and the concrete addresses they
//! resolve to.

use vstd::prelude::*;

verus! {

/// An internet address of either family.
#[derive(Clone, Copy, Debug, PartialEq, Eq, Structural)]
pub enum IpAddress {
    /// The four octets, most significant first.
    V4(u32),
    /// The sixteen octets, most significant first.
    V6(u128),
}

/// An address a transport can connect to or bind.
#[derive(Clone, Copy, Debug, PartialEq, Eq, Structural)]
pub struct SocketAddress {
    pub ip: IpAddress,
    pub port: u16,
}

/// The host part of an endpoint.
#[derive(Clone, Debug, PartialEq, Eq)]
pub enum Host {
    /// A name that has to be looked up.
    Name(String),
    /// A literal address.
    Address(IpAddress),
}

/// Where to connect to or listen at, as the application describes it.
#[derive(Clone, Debug, PartialEq, Eq)]
pub struct Endpoint {
    pub host: Host,
    pub port: u16,
    pub interface: Option<String>,
}

/// No address could be produced for an endpoint.
#[derive(Clone, Copy, Debug, PartialEq, Eq, Structural)]
pub enum ResolutionError {
    NoAddress,
}

impl Endpoint {
    /// The addresses `self` stands for when a lookup of its name gave
    /// `found`: a literal address stands for itself, a name for what was
    /// found, in the order it was found. Every address carries the
    /// endpoint's port.
    pub open spec fn addresses(self, found: Seq<IpAddress>) -> Seq<SocketAddress> {
        match self.host {
            Host::Address(ip) => seq![SocketAddress { ip, port: self.port }],
            Host::Name(_) => Seq::new(found.len(), |i: int| SocketAddress { ip: found[i], port: self.port }),
        }
    }

    /// An endpoint at a name, on any interface.
    pub fn named(name: String, port: u16) -> (endpoint: Endpoint)
        ensures
            endpoint == (Endpoint { host: Host::Name(name), port, interface: None }),
    {
        Endpoint { host: Host::Name(name), port, interface: None }
    }

    /// An endpoint at a literal address, on any interface.
    pub fn at(address: SocketAddress) -> (endpoint: Endpoint)
        ensures
            endpoint == (Endpoint { host: Host::Address(address.ip), port: address.port, interface: None }),
    {
        Endpoint { host: Host::Address(address.ip), port: address.port, interface: None }
    }

    /// Restricts the endpoint to one interface.
    pub fn on_interface(self, interface: String) -> (endpoint: Endpoint)
        ensures
            endpoint == (Endpoint { interface: Some(interface), ..self }),
    {
        Endpoint { host: self.host, port: self.port, interface: Some(interface) }
    }

    /// Tells whether the host is a name, so that resolving takes a lookup.
    pub fn needs_lookup(&self) -> (needed: bool)
        ensures
            needed == (self.host is Name),
    {
        match &self.host {
            Host::Name(_) => true,
            Host::Address(_) => false,
        }
    }

    /// Turns the endpoint into candidate addresses, given what a lookup of
    /// its name found (ignored for a literal address).
    ///
    /// Succeeds with `self.addresses(found)` unless that is empty.
    pub fn resolve(&self, found: &[IpAddress]) -> (resolved: Result<Vec<SocketAddress>, ResolutionError>)
        ensures
            match resolved {
                Ok(addresses) => addresses@ == self.addresses(found@) && addresses.len() > 0,
                Err(e) => e == ResolutionError::NoAddress && self.addresses(found@).len() == 0,
            },
    {
        let mut addresses: Vec<SocketAddress> = Vec::new();
        match &self.host {
            Host::Address(ip) => {
                addresses.push(SocketAddress { ip: *ip, port: self.port });
                assert(addresses@ =~= self.addresses(found@));
                Ok(addresses)
            },
            Host::Name(_) => {
                if found.len() == 0 {
                    return Err(ResolutionError::NoAddress);
                }
                let mut i: usize = 0;
                while i < found.len()
                    invariant
                        i <= found.len(),
                        self.host is Name,
                        addresses@ == self.addresses(found@.take(i as int)),
                    decreases found.len() - i,
                {
                    addresses.push(SocketAddress { ip: found[i], port: self.port });
                    i += 1;
                    assert(addresses@ =~= self.addresses(found@.take(i as int)));
                }
                assert(found@.take(i as int) =~= found@);
                Ok(addresses)
            },
        }
    }
}

} // verus!
