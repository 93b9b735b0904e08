use packet::buffer::{Buffer, Dynamic, Fixed};
use packet::builder::Patch;
use packet::error::ErrorKind;
use packet::ip;
use packet::ip::v6::{Address, Builder, Packet};
use packet::udp;

fn source() -> Address {
    Address::new(0x2001, 0xdb8, 0, 0, 0, 0, 0, 1)
}

fn destination() -> Address {
    Address::new(0x2001, 0xdb8, 1, 0, 0, 0, 0, 1)
}

#[test]
fn udp6() {
    let packet = ip::v6::Builder::default()
        .hop_limit(64).unwrap()
        .source(ip::v6::Address::new(0x2001, 0xdb8, 0, 0, 0, 0, 0, 1)).unwrap()
        .destination(ip::v6::Address::new(0x2001, 0xdb8, 1, 0, 0, 0, 0, 1)).unwrap()
        .udp().unwrap()
            .source(1234).unwrap()
            .destination(5678).unwrap()
            .payload(b"test").unwrap()
            .build().unwrap();

    let packet = ip::v6::Packet::new(packet).unwrap();

    assert_eq!(packet.hop_limit(), 64);
    assert_eq!(packet.next_header(), ip::Protocol::Udp);
    assert_eq!(packet.payload_length(), 12);
    assert_eq!(packet.source(), ip::v6::Address::new(0x2001, 0xdb8, 0, 0, 0, 0, 0, 1));
    assert_eq!(packet.destination(), ip::v6::Address::new(0x2001, 0xdb8, 1, 0, 0, 0, 0, 1));
}

#[test]
fn udp6_bytes_are_exact() {
    let bytes = Builder::default()
        .hop_limit(64).unwrap()
        .source(source()).unwrap()
        .destination(destination()).unwrap()
        .udp().unwrap()
        .source(1234).unwrap()
        .destination(5678).unwrap()
        .payload(b"test").unwrap()
        .build().unwrap();

    let expected: Vec<u8> = vec![
        96, 0, 0, 0, 0, 12, 17, 64,
        32, 1, 13, 184, 0, 0, 0, 0, 0, 0, 0, 0, 0, 0, 0, 1,
        32, 1, 13, 184, 0, 1, 0, 0, 0, 0, 0, 0, 0, 0, 0, 1,
        4, 210, 22, 46, 0, 12, 161, 135,
        116, 101, 115, 116,
    ];
    assert_eq!(bytes, expected);
}

#[test]
fn udp6_with_odd_payload() {
    let bytes = Builder::default()
        .hop_limit(255).unwrap()
        .source(Address::new(0xfe80, 0, 0, 0, 0, 0, 0, 1)).unwrap()
        .destination(Address::new(0xff02, 0, 0, 0, 0, 0, 0, 2)).unwrap()
        .udp().unwrap()
        .source(53).unwrap()
        .destination(53).unwrap()
        .payload(&[1, 2, 3]).unwrap()
        .build().unwrap();

    assert_eq!(bytes.len(), 51);
    assert_eq!(&bytes[..8], &[96, 0, 0, 0, 0, 11, 17, 255]);
    assert_eq!(&bytes[40..], &[0, 53, 0, 53, 0, 11, 253, 229, 1, 2, 3]);
}

#[test]
fn udp6_without_payload() {
    let bytes = Builder::default().udp().unwrap().build().unwrap();

    assert_eq!(bytes.len(), 48);
    assert_eq!(&bytes[..8], &[96, 0, 0, 0, 0, 8, 17, 0]);
    assert_eq!(&bytes[40..], &[0, 0, 0, 0, 0, 8, 255, 222]);
}

#[test]
fn fresh_builder_builds_an_empty_packet() {
    let bytes = Builder::default().build().unwrap();

    let mut expected = vec![0u8; 40];
    expected[0] = 0x60;
    assert_eq!(bytes, expected);

    let packet = Packet::new(bytes).unwrap();
    assert_eq!(packet.version(), 6);
    assert_eq!(packet.header_length(), 40);
    assert_eq!(packet.payload_length(), 0);
    assert_eq!(packet.length(), 40);
    assert_eq!(packet.payload(), &[] as &[u8]);
}

#[test]
fn fields_round_trip() {
    let bytes = Builder::default()
        .hop_limit(7).unwrap()
        .source(source()).unwrap()
        .destination(destination()).unwrap()
        .next_header(ip::Protocol::Ipv6NoNxt).unwrap()
        .payload(&[]).unwrap()
        .build().unwrap();

    let packet = Packet::new(bytes).unwrap();
    assert_eq!(packet.version(), 6);
    assert_eq!(packet.hop_limit(), 7);
    assert_eq!(packet.source(), source());
    assert_eq!(packet.destination(), destination());
    assert_eq!(packet.next_header(), ip::Protocol::Ipv6NoNxt);
    assert_eq!(packet.payload_length(), 0);
    assert_eq!(packet.payload(), &[] as &[u8]);
    assert_eq!(packet.header_length(), 40);
}

#[test]
fn setters_may_come_in_any_order() {
    let one = Builder::default()
        .next_header(ip::Protocol::Tcp).unwrap()
        .destination(destination()).unwrap()
        .source(source()).unwrap()
        .hop_limit(9).unwrap()
        .build().unwrap();
    let other = Builder::default()
        .hop_limit(9).unwrap()
        .source(source()).unwrap()
        .destination(destination()).unwrap()
        .next_header(ip::Protocol::Tcp).unwrap()
        .build().unwrap();

    assert_eq!(one, other);
    assert_eq!(one[6], 6);
    assert_eq!(one[7], 9);
}

#[test]
fn payload_follows_the_header() {
    let bytes = Builder::default()
        .hop_limit(1).unwrap()
        .next_header(ip::Protocol::Tcp).unwrap()
        .payload(&[9, 8, 7]).unwrap()
        .build().unwrap();

    assert_eq!(bytes.len(), 43);
    assert_eq!(&bytes[40..], &[9, 8, 7]);

    // The header was committed after the payload was written, and nothing
    // was written after that.
    let packet = Packet::new(bytes).unwrap();
    assert_eq!(packet.version(), 6);
    assert_eq!(packet.hop_limit(), 1);
    assert_eq!(packet.next_header(), ip::Protocol::Tcp);
    assert_eq!(packet.payload_length(), 0);
}

#[test]
fn payload_twice_is_refused() {
    let builder = Builder::default().payload(&[1, 2]).unwrap();
    assert_eq!(builder.payload(&[3]).err(), Some(ErrorKind::AlreadyDefined));
}

#[test]
fn first_payload_is_kept() {
    let bytes = Builder::default().payload(&[1, 2]).unwrap().build().unwrap();
    assert_eq!(&bytes[40..], &[1, 2]);
}

#[test]
fn udp_after_payload_is_refused() {
    let builder = Builder::default().payload(&[1, 2]).unwrap();
    assert_eq!(builder.udp().err(), Some(ErrorKind::AlreadyDefined));
}

#[test]
fn empty_payload_counts_as_a_payload() {
    let builder = Builder::default().payload(&[]).unwrap();
    assert_eq!(builder.payload(&[]).err(), Some(ErrorKind::AlreadyDefined));
}

#[test]
fn udp_payload_twice_is_refused() {
    let builder = Builder::default().udp().unwrap().payload(b"a").unwrap();
    assert_eq!(builder.payload(b"b").err(), Some(ErrorKind::AlreadyDefined));
}

#[test]
fn fixed_buffer_too_small_for_the_header() {
    assert_eq!(Builder::with(Fixed::new(39)).err(), Some(ErrorKind::SmallBuffer));
    assert!(Builder::with(Fixed::new(40)).is_ok());
}

#[test]
fn fixed_buffer_too_small_for_the_payload() {
    let builder = Builder::with(Fixed::new(42)).unwrap();
    assert_eq!(builder.payload(&[1, 2, 3]).err(), Some(ErrorKind::SmallBuffer));

    let builder = Builder::with(Fixed::new(42)).unwrap();
    let bytes = builder.payload(&[1, 2]).unwrap().build().unwrap();
    assert_eq!(bytes.len(), 42);
}

#[test]
fn fixed_buffer_too_small_for_the_datagram() {
    let builder = Builder::with(Fixed::new(47)).unwrap();
    assert_eq!(builder.udp().err(), Some(ErrorKind::SmallBuffer));

    let builder = Builder::with(Fixed::new(48)).unwrap().udp().unwrap();
    assert_eq!(builder.payload(&[1]).err(), Some(ErrorKind::SmallBuffer));
}

#[test]
fn fixed_buffer_builds_the_same_bytes() {
    let fixed = Builder::with(Fixed::new(52)).unwrap()
        .hop_limit(64).unwrap()
        .udp().unwrap()
        .source(1).unwrap()
        .payload(b"test").unwrap()
        .build().unwrap();
    let dynamic = Builder::with(Dynamic::new()).unwrap()
        .hop_limit(64).unwrap()
        .udp().unwrap()
        .source(1).unwrap()
        .payload(b"test").unwrap()
        .build().unwrap();

    assert_eq!(fixed, dynamic);
}

#[test]
fn datagram_without_an_ip_header_is_refused() {
    let builder = udp::Builder::with(Dynamic::new()).unwrap();
    assert_eq!(builder.build().err(), Some(ErrorKind::InvalidPacket));
}

#[test]
fn built_packets_have_version_6() {
    let direct = Builder::default().payload(&[0xff; 5]).unwrap().build().unwrap();
    assert_eq!(direct[0] >> 4, 6);
    assert_eq!(Packet::new(direct).unwrap().version(), 6);

    let layered = Builder::default().udp().unwrap().payload(&[0xff; 5]).unwrap().build().unwrap();
    assert_eq!(Packet::new(layered).unwrap().version(), 6);
}

#[test]
fn version_survives_a_patch_that_wrote_over_it() {
    // A patch registered by hand writes a length field over the first octet
    // of the header; the header's own patch runs after it.
    let mut buffer = Dynamic::new();
    buffer.next(4).unwrap();
    let mut builder = Builder::with(buffer).unwrap();
    builder.finalizer().add(Patch::Ipv6 { offset: 0, length: 44 });
    let bytes = builder.payload(&vec![0u8; 0x8000]).unwrap().build().unwrap();

    assert_eq!(bytes.len(), 44 + 0x8000);
    assert_eq!(&bytes[..4], &[0x60, 0, 0, 0]);
    assert_eq!(bytes[4], 0x60);
    assert_eq!(bytes[5], 0);
    let packet = Packet::new(&bytes[4..]).unwrap();
    assert_eq!(packet.version(), 6);
    assert_eq!(packet.payload_length(), 0);
}

#[test]
fn header_declares_what_the_inner_layer_wrote() {
    for size in [0usize, 1, 2, 255, 1000] {
        let payload = vec![0xabu8; size];
        let bytes = Builder::default()
            .udp().unwrap()
            .payload(&payload).unwrap()
            .build().unwrap();

        let packet = Packet::new(bytes).unwrap();
        assert_eq!(packet.header_length(), 40);
        assert_eq!(packet.payload_length() as usize, 8 + size);
        assert_eq!(packet.payload().len(), 8 + size);
        assert_eq!(&packet.payload()[8..], &payload[..]);
        assert_eq!(&packet.payload()[4..6], &[((8 + size) >> 8) as u8, (8 + size) as u8]);
    }
}

#[test]
fn patches_can_be_added_through_the_builder() {
    let mut builder = Builder::default();
    builder.finalizer().add(Patch::Ipv6 { offset: 0, length: 41 });
    assert_eq!(builder.build().err(), Some(ErrorKind::SmallBuffer));
}
