use taps::connection::{Connection, ConnectionState};
use taps::endpoint::{Endpoint, IpAddress, ResolutionError, SocketAddress};
use taps::establishment::{AttemptState, EstablishmentError, FailureReason, Progress};
use taps::http::message::{Header, Message, Method, Request, Response};
use taps::http::{HttpClient, HttpServer};
use taps::listener::Incoming;
use taps::preconnection::{Racing, Settlement};
use taps::properties::{Preference, Property, ProtocolStackCapability, StackId, TransportProperties};
use taps::Preconnection;

const SERVER: SocketAddress = SocketAddress { ip: IpAddress::V4(0x7f00_0001), port: 8081 };
const CLIENT: SocketAddress = SocketAddress { ip: IpAddress::V4(0x7f00_0001), port: 51234 };

fn tcp_only() -> Vec<ProtocolStackCapability> {
    vec![ProtocolStackCapability::of(StackId::Tcp)]
}

fn shuttle<A: taps::framer::Framer, B: taps::framer::Framer>(from: &mut Connection<A>, to: &mut Connection<B>) {
    let bytes = from.pending().to_vec();
    from.wrote(bytes.len());
    to.deliver(&bytes);
}

fn win(racing: Racing<HttpClient>, attempt: usize) -> (Connection<HttpClient>, Vec<usize>) {
    match racing.connected(attempt, CLIENT) {
        Settlement::Won { connection, cancel } => (connection, cancel),
        Settlement::Discard { .. } => panic!("attempt {} should have won", attempt),
    }
}

#[test]
fn client_gets_the_file_the_server_holds() {
    let content = b"[package]\nname = \"taps\"\nversion = \"0.1.0\"\n".to_vec();

    let mut listener = Preconnection::new(TransportProperties::default(), HttpServer::default())
        .local_endpoint(Endpoint::at(SERVER))
        .listen()
        .ok()
        .unwrap()
        .resolved(&[])
        .ok()
        .unwrap();
    listener.bound(SERVER);

    let initiation = Preconnection::new(TransportProperties::default(), HttpClient::default())
        .remote_endpoint(Endpoint::at(SERVER))
        .initiate(&tcp_only())
        .ok()
        .unwrap();
    assert!(!initiation.remote_endpoint().needs_lookup());
    let racing = initiation.resolved(&[]).ok().unwrap();
    assert_eq!(racing.race().len(), 1);
    assert_eq!(racing.race().attempt(0).unwrap().path.address, SERVER);
    let (mut client, cancel) = win(racing, 0);
    assert!(cancel.is_empty());
    assert_eq!(client.state(), ConnectionState::Open);
    assert_eq!(client.remote_endpoint(), SERVER);

    let mut server = listener.accept(Incoming::Stream { remote: CLIENT }).unwrap().ok().unwrap();

    let request = Request {
        method: Method::Get,
        target: b"http://127.0.0.1:8081/Cargo.toml".to_vec(),
        headers: vec![Header { name: b"host".to_vec(), value: b"127.0.0.1".to_vec() }],
        body: Vec::new(),
    };
    assert_eq!(client.send(&Message::Request(request.clone())), Ok(()));
    shuttle(&mut client, &mut server);

    let received = match server.receive() {
        Ok(Some(Message::Request(received))) => received,
        other => panic!("the server should have a request, not {:?}", other),
    };
    assert_eq!(received, request);
    assert!(received.matches(Method::Get, b"/Cargo.toml"));
    let response = Response { status: 200, reason: b"OK".to_vec(), headers: Vec::new(), body: content.clone() };
    assert_eq!(server.send(&Message::Response(response)), Ok(()));
    shuttle(&mut server, &mut client);

    match client.receive() {
        Ok(Some(Message::Response(response))) => assert_eq!(response.body, content),
        other => panic!("the client should have a response, not {:?}", other),
    }
    assert_eq!(client.receive(), Ok(None));
    assert_eq!(server.receive(), Ok(None));
}

#[test]
fn two_unreachable_addresses_give_two_failures_and_no_connection() {
    let unreachable = [
        SocketAddress { ip: IpAddress::V4(0xc000_0201), port: 80 },
        SocketAddress { ip: IpAddress::V4(0xc633_6401), port: 80 },
    ];
    let mut reports = Vec::new();
    for address in unreachable {
        let racing = Preconnection::new(TransportProperties::default(), HttpClient::default())
            .remote_endpoint(Endpoint::at(address))
            .initiate(&tcp_only())
            .and_then(|initiation| initiation.resolved(&[]));
        let mut racing = racing.ok().unwrap();
        assert_eq!(racing.race().launched(), 1);
        match racing.failed(0, FailureReason::Unreachable) {
            Progress::Lost(error) => reports.push(error),
            other => panic!("the race should be lost, not {:?}", other),
        }
        assert_eq!(racing.race().winner(), None);
        assert_eq!(racing.race().attempt(0).unwrap().state, AttemptState::Failed(FailureReason::Unreachable));
    }
    assert_eq!(reports.len(), 2);
    for (report, address) in reports.iter().zip(unreachable) {
        let failure = report.primary_failure().unwrap();
        assert_eq!(failure.path.address, address);
        assert_eq!(failure.reason, FailureReason::Unreachable);
    }
    assert_ne!(reports[0], reports[1]);
}

#[test]
fn no_stack_means_no_attempt() {
    let begun = Preconnection::new(TransportProperties::default(), HttpClient::default())
        .remote_endpoint(Endpoint::at(SERVER))
        .initiate(&[]);
    assert!(matches!(begun, Err(EstablishmentError::NoViableStack)));

    let mut properties = TransportProperties::new();
    properties.set(Property::CongestionControl, Preference::Prohibited);
    let begun = Preconnection::new(properties, HttpClient::default())
        .remote_endpoint(Endpoint::at(SERVER))
        .initiate(&tcp_only());
    assert!(matches!(begun, Err(EstablishmentError::NoViableStack)));
}

#[test]
fn initiate_needs_a_remote_endpoint() {
    let begun = Preconnection::new(TransportProperties::default(), HttpClient::default())
        .local_endpoint(Endpoint::at(CLIENT))
        .initiate(&tcp_only());
    assert!(matches!(begun, Err(EstablishmentError::NoRemoteEndpoint)));
}

#[test]
fn a_name_without_address_is_unresolved() {
    let initiation = Preconnection::new(TransportProperties::default(), HttpClient::default())
        .remote_endpoint(Endpoint::named(String::from("nowhere.invalid"), 80))
        .initiate(&ProtocolStackCapability::registry())
        .ok()
        .unwrap();
    assert!(initiation.remote_endpoint().needs_lookup());
    assert_eq!(initiation.stacks().len(), 4);
    assert!(matches!(
        initiation.resolved(&[]),
        Err(EstablishmentError::Unresolved(ResolutionError::NoAddress))
    ));
}

#[test]
fn a_race_over_stacks_and_addresses_has_one_winner() {
    let mut properties = TransportProperties::new();
    properties.set(Property::Reliability, Preference::Required);
    properties.set(Property::Multipath, Preference::Preferred);
    properties.set(Property::PreserveOrder, Preference::Prohibited);
    let stacks = vec![
        ProtocolStackCapability { stack: StackId::Udp, reliability: false, preserve_order: false, multipath: false, congestion_control: false },
        ProtocolStackCapability { stack: StackId::Quic, reliability: true, preserve_order: false, multipath: true, congestion_control: true },
        ProtocolStackCapability::of(StackId::Tcp),
    ];
    let found = [IpAddress::V6(0xfe80 << 112 | 1), IpAddress::V4(0x0a00_0001)];
    let mut racing = Preconnection::new(properties, HttpClient::default())
        .remote_endpoint(Endpoint::named(String::from("example.org"), 443))
        .concurrency(3)
        .initiate(&stacks)
        .ok()
        .unwrap()
        .resolved(&found)
        .ok()
        .unwrap();
    let race = racing.race();
    assert_eq!(race.len(), 4);
    assert_eq!(race.launched(), 3);
    let order: Vec<(StackId, IpAddress)> = (0..4)
        .map(|i| race.attempt(i).unwrap().path)
        .map(|path| (path.stack, path.address.ip))
        .collect();
    assert_eq!(
        order,
        vec![
            (StackId::Quic, found[0]),
            (StackId::Quic, found[1]),
            (StackId::Udp, found[0]),
            (StackId::Udp, found[1]),
        ]
    );
    assert_eq!(racing.failed(0, FailureReason::TimedOut), Progress::Wait);
    let racing = match racing.connected(0, CLIENT) {
        Settlement::Discard { racing } => racing,
        Settlement::Won { .. } => panic!("a failed attempt cannot win"),
    };
    let (connection, cancel) = win(racing, 2);
    assert_eq!(cancel, vec![1]);
    assert_eq!(connection.remote_endpoint(), SocketAddress { ip: found[0], port: 443 });
    assert_eq!(connection.local_endpoint(), CLIENT);
    assert_eq!(connection.state(), ConnectionState::Open);
}
