use taps::endpoint::{Endpoint, Host, IpAddress, ResolutionError, SocketAddress};

const LOOPBACK: IpAddress = IpAddress::V4(0x7f00_0001);

#[test]
fn literal_address_resolves_to_itself() {
    let endpoint = Endpoint::at(SocketAddress { ip: LOOPBACK, port: 8081 });
    assert!(!endpoint.needs_lookup());
    assert_eq!(endpoint.resolve(&[]), Ok(vec![SocketAddress { ip: LOOPBACK, port: 8081 }]));
    assert_eq!(
        endpoint.resolve(&[IpAddress::V6(1)]),
        Ok(vec![SocketAddress { ip: LOOPBACK, port: 8081 }])
    );
}

#[test]
fn name_resolves_to_what_was_found_in_order() {
    let endpoint = Endpoint::named(String::from("example.org"), 80);
    assert!(endpoint.needs_lookup());
    let found = [IpAddress::V6(0x2001_0db8 << 96), IpAddress::V4(0x5db8_d822), IpAddress::V4(1)];
    assert_eq!(
        endpoint.resolve(&found),
        Ok(vec![
            SocketAddress { ip: found[0], port: 80 },
            SocketAddress { ip: found[1], port: 80 },
            SocketAddress { ip: found[2], port: 80 },
        ])
    );
}

#[test]
fn name_without_address_fails() {
    let endpoint = Endpoint::named(String::from("nowhere.invalid"), 80);
    assert_eq!(endpoint.resolve(&[]), Err(ResolutionError::NoAddress));
}

#[test]
fn interface_hint_is_kept() {
    let endpoint = Endpoint::named(String::from("example.org"), 443).on_interface(String::from("eth0"));
    assert_eq!(endpoint.host, Host::Name(String::from("example.org")));
    assert_eq!(endpoint.port, 443);
    assert_eq!(endpoint.interface, Some(String::from("eth0")));
}
