use taps::connection::ConnectionEvent::{CloseRequested, Established, Failure, PeerClosed, Released};
use taps::connection::ConnectionState::{Closed, Closing, Establishing, Failed, Open};
use taps::connection::{Connection, ConnectionError, ConnectionState, Directive};
use taps::endpoint::{IpAddress, SocketAddress};
use taps::http::encode::encode_message;
use taps::http::message::{Message, Method, Request, Response};
use taps::http::{HttpClient, HttpServer};

const LOCAL: SocketAddress = SocketAddress { ip: IpAddress::V4(0x7f00_0001), port: 50000 };
const REMOTE: SocketAddress = SocketAddress { ip: IpAddress::V4(0x7f00_0001), port: 8081 };

fn request() -> Message {
    Message::Request(Request {
        method: Method::Get,
        target: b"/Cargo.toml".to_vec(),
        headers: Vec::new(),
        body: Vec::new(),
    })
}

fn response(body: &[u8]) -> Message {
    Message::Response(Response { status: 200, reason: b"OK".to_vec(), headers: Vec::new(), body: body.to_vec() })
}

#[test]
fn a_new_connection_is_establishing_and_opens_once() {
    let mut connection = Connection::new(HttpClient, LOCAL, REMOTE);
    assert_eq!(connection.state(), ConnectionState::Establishing);
    assert_eq!(connection.remote_endpoint(), REMOTE);
    assert_eq!(connection.local_endpoint(), LOCAL);
    assert_eq!(connection.directive(), Directive::Idle);
    assert_eq!(connection.send(&request()), Err(ConnectionError::NotOpen));
    assert_eq!(connection.receive(), Err(ConnectionError::NotOpen));
    connection.established();
    assert_eq!(connection.state(), ConnectionState::Open);
    assert_eq!(*connection.framer(), HttpClient);
}

#[test]
fn send_queues_the_encoded_message() {
    let mut connection = Connection::open(HttpClient, LOCAL, REMOTE);
    assert_eq!(connection.directive(), Directive::Read);
    assert_eq!(connection.send(&request()), Ok(()));
    assert_eq!(connection.pending(), encode_message(&request()).as_slice());
    assert_eq!(connection.directive(), Directive::Write);
    assert_eq!(connection.state(), ConnectionState::Open);
}

#[test]
fn send_is_refused_while_an_earlier_message_is_pending() {
    let mut connection = Connection::open(HttpClient, LOCAL, REMOTE);
    assert_eq!(connection.send(&request()), Ok(()));
    let pending = connection.pending().to_vec();
    assert_eq!(connection.send(&request()), Err(ConnectionError::Busy));
    assert_eq!(connection.pending(), pending.as_slice());
    connection.wrote(4);
    assert_eq!(connection.pending(), &pending[4..]);
    assert_eq!(connection.send(&request()), Err(ConnectionError::Busy));
    connection.wrote(pending.len());
    assert!(connection.pending().is_empty());
    assert_eq!(connection.send(&request()), Ok(()));
    assert_eq!(connection.pending(), pending.as_slice());
}

#[test]
fn receive_waits_for_a_whole_message() {
    let mut connection = Connection::open(HttpClient, LOCAL, REMOTE);
    let bytes = encode_message(&response(b"content"));
    assert_eq!(connection.receive(), Ok(None));
    connection.deliver(&bytes[..10]);
    assert_eq!(connection.receive(), Ok(None));
    connection.deliver(&bytes[10..]);
    assert_eq!(connection.receive(), Ok(Some(response(b"content"))));
    assert_eq!(connection.receive(), Ok(None));
    assert_eq!(connection.state(), ConnectionState::Open);
}

#[test]
fn receive_hands_out_messages_in_arrival_order() {
    let mut connection = Connection::open(HttpClient, LOCAL, REMOTE);
    let mut bytes = encode_message(&response(b"first"));
    bytes.extend_from_slice(&encode_message(&response(b"second")));
    bytes.extend_from_slice(b"HTTP/1.1 2");
    connection.deliver(&bytes);
    assert_eq!(connection.receive(), Ok(Some(response(b"first"))));
    assert_eq!(connection.receive(), Ok(Some(response(b"second"))));
    assert_eq!(connection.receive(), Ok(None));
}

#[test]
fn malformed_input_fails_the_connection() {
    let mut connection = Connection::open(HttpClient, LOCAL, REMOTE);
    connection.deliver(b"HTTP/1.1 500 Oops\r\n\r\n");
    assert_eq!(connection.receive(), Err(ConnectionError::Protocol));
    assert_eq!(connection.state(), ConnectionState::Failed);
    assert_eq!(connection.receive(), Err(ConnectionError::NotOpen));
    assert_eq!(connection.send(&request()), Err(ConnectionError::NotOpen));
    assert_eq!(connection.directive(), Directive::Idle);
}

#[test]
fn a_peer_that_closes_mid_message_closes_the_connection() {
    let mut connection = Connection::open(HttpServer, LOCAL, REMOTE);
    let bytes = encode_message(&request());
    connection.deliver(&bytes[..bytes.len() - 1]);
    connection.peer_closed();
    assert_eq!(connection.receive(), Err(ConnectionError::Closed));
    assert_eq!(connection.state(), ConnectionState::Closed);
}

#[test]
fn a_message_that_arrived_whole_is_received_after_the_peer_closed() {
    let mut connection = Connection::open(HttpServer, LOCAL, REMOTE);
    connection.deliver(&encode_message(&request()));
    connection.peer_closed();
    assert_eq!(connection.receive(), Ok(Some(request())));
    assert_eq!(connection.state(), ConnectionState::Open);
    assert_eq!(connection.receive(), Err(ConnectionError::Closed));
    assert_eq!(connection.state(), ConnectionState::Closed);
}

#[test]
fn close_flushes_before_it_releases() {
    let mut connection = Connection::open(HttpClient, LOCAL, REMOTE);
    assert_eq!(connection.send(&request()), Ok(()));
    let pending = connection.pending().len();
    connection.close();
    assert_eq!(connection.state(), ConnectionState::Closing);
    assert_eq!(connection.directive(), Directive::Write);
    assert_eq!(connection.send(&request()), Err(ConnectionError::NotOpen));
    connection.released();
    assert_eq!(connection.state(), ConnectionState::Closing);
    connection.wrote(pending);
    assert_eq!(connection.directive(), Directive::Release);
    connection.released();
    assert_eq!(connection.state(), ConnectionState::Closed);
    assert_eq!(connection.directive(), Directive::Idle);
    connection.close();
    assert_eq!(connection.state(), ConnectionState::Closed);
}

#[test]
fn a_transport_error_fails_the_connection_and_drops_what_was_pending() {
    let mut connection = Connection::open(HttpClient, LOCAL, REMOTE);
    assert_eq!(connection.send(&request()), Ok(()));
    assert_eq!(connection.fail(), ConnectionError::Io);
    assert_eq!(connection.state(), ConnectionState::Failed);
    assert!(connection.pending().is_empty());
    connection.established();
    connection.close();
    connection.released();
    assert_eq!(connection.state(), ConnectionState::Failed);
}

#[test]
fn bytes_are_kept_only_while_open() {
    let mut connection = Connection::new(HttpClient, LOCAL, REMOTE);
    connection.deliver(&encode_message(&response(b"early")));
    connection.established();
    assert_eq!(connection.receive(), Ok(None));
}

#[test]
fn the_life_cycle_moves_forward_only() {
    let table = [
        (Establishing, Established, Open),
        (Establishing, CloseRequested, Closing),
        (Establishing, Released, Establishing),
        (Establishing, PeerClosed, Establishing),
        (Establishing, Failure, Failed),
        (Open, Established, Open),
        (Open, CloseRequested, Closing),
        (Open, Released, Open),
        (Open, PeerClosed, Closed),
        (Open, Failure, Failed),
        (Closing, Established, Closing),
        (Closing, CloseRequested, Closing),
        (Closing, Released, Closed),
        (Closing, PeerClosed, Closing),
        (Closing, Failure, Failed),
        (Closed, Established, Closed),
        (Closed, Failure, Closed),
        (Closed, Released, Closed),
        (Failed, Established, Failed),
        (Failed, CloseRequested, Failed),
        (Failed, Released, Failed),
    ];
    for (state, event, next) in table {
        assert_eq!(state.step(event), next, "{:?} on {:?}", state, event);
    }
}
