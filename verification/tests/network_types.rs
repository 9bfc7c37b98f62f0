use wormhole::network::{Connectedness, Direction, Protocol, ProtocolId, CONNECTEDNESS_MASK};
use wormhole::text::u64_to_decimal;

#[test]
fn connectedness_codes_fit_the_mask_and_come_back() {
    let all = [
        Connectedness::NotConnected,
        Connectedness::CanConnect,
        Connectedness::Connected,
        Connectedness::CannotConnect,
        Connectedness::Connecting,
    ];
    let codes: Vec<usize> = all.iter().map(|c| c.to_usize()).collect();
    assert_eq!(codes, vec![0, 2, 4, 6, 8]);
    for c in all.iter() {
        let code = c.to_usize();
        assert_eq!(code & CONNECTEDNESS_MASK, code);
        assert_eq!(Connectedness::from_usize(code), *c);
        assert_eq!(usize::from(*c), code);
    }
}

#[test]
fn connectedness_and_direction_labels() {
    assert_eq!(Connectedness::NotConnected.label(), "not connected");
    assert_eq!(Connectedness::CanConnect.label(), "can connect");
    assert_eq!(Connectedness::Connected.label(), "connected");
    assert_eq!(Connectedness::CannotConnect.label(), "unconnectable");
    assert_eq!(Connectedness::Connecting.label(), "connecting");
    assert_eq!(Direction::Inbound.label(), "inbound");
    assert_eq!(Direction::Outbound.label(), "outbound");
}

#[test]
fn protocol_text_shows_id_and_name() {
    let p = Protocol::new(42, "/bootstrap/1.0");
    assert_eq!(p.to_text(), "protocol 42 => /bootstrap/1.0");
    assert_eq!(p.id().value(), 42);
    assert_eq!(p.name(), "/bootstrap/1.0");
    assert_eq!(ProtocolId::new(7).to_text(), "7");
    assert_eq!(ProtocolId::from(9u64).value(), 9);
}

#[test]
fn decimal_text_of_integers() {
    assert_eq!(u64_to_decimal(0), "0");
    assert_eq!(u64_to_decimal(10), "10");
    assert_eq!(u64_to_decimal(u64::MAX), "18446744073709551615");
}

#[test]
fn protocols_compare_by_identity_and_name() {
    assert_eq!(Protocol::new(1, "/a"), Protocol::new(1, "/a"));
    assert_ne!(Protocol::new(1, "/a"), Protocol::new(2, "/a"));
    assert_ne!(Protocol::new(1, "/a"), Protocol::new(1, "/b"));
}
