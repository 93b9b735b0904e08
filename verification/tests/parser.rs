use packet::error::ErrorKind;
use packet::ip::v6::{Address, Packet};
use packet::ip::Protocol;

fn sample() -> Vec<u8> {
    let mut bytes = vec![0u8; 45];
    bytes[0] = 0x6a;
    bytes[4] = 0x00;
    bytes[5] = 0x03;
    bytes[6] = 58;
    bytes[7] = 33;
    for i in 0..16 {
        bytes[8 + i] = 0x10 + i as u8;
        bytes[24 + i] = 0xa0 + i as u8;
    }
    bytes[40] = 1;
    bytes[41] = 2;
    bytes[42] = 3;
    bytes[43] = 4;
    bytes[44] = 5;
    bytes
}

#[test]
fn reads_every_field() {
    let packet = Packet::new(sample()).unwrap();

    assert_eq!(packet.version(), 6);
    assert_eq!(packet.header_length(), 40);
    assert_eq!(packet.payload_length(), 3);
    assert_eq!(packet.length(), 43);
    assert_eq!(packet.next_header(), Protocol::Ipv6Icmp);
    assert_eq!(packet.hop_limit(), 33);
    assert_eq!(
        packet.source(),
        Address::new(0x1011, 0x1213, 0x1415, 0x1617, 0x1819, 0x1a1b, 0x1c1d, 0x1e1f)
    );
    assert_eq!(
        packet.destination(),
        Address::new(0xa0a1, 0xa2a3, 0xa4a5, 0xa6a7, 0xa8a9, 0xaaab, 0xacad, 0xaeaf)
    );
    assert_eq!(packet.payload(), &[1, 2, 3]);
    assert_eq!(packet.header(), &sample()[..40]);
    assert_eq!(packet.as_ref(), &sample()[..43]);
}

#[test]
fn payload_length_is_big_endian() {
    let mut bytes = vec![0u8; 40];
    bytes[0] = 0x60;
    bytes[4] = 0x12;
    bytes[5] = 0x34;
    let packet = Packet::no_payload(bytes).unwrap();
    assert_eq!(packet.payload_length(), 0x1234);
    assert_eq!(packet.length(), 40 + 0x1234);
}

#[test]
fn short_buffer_is_refused() {
    for size in [0usize, 1, 39] {
        let mut bytes = vec![0u8; size];
        if size > 0 {
            bytes[0] = 0x60;
        }
        assert_eq!(Packet::new(bytes.clone()).err(), Some(ErrorKind::SmallBuffer));
        assert_eq!(Packet::no_payload(bytes).err(), Some(ErrorKind::SmallBuffer));
    }
}

#[test]
fn short_buffer_is_refused_before_the_version_is_read() {
    let bytes = vec![0x40u8; 10];
    assert_eq!(Packet::new(bytes).err(), Some(ErrorKind::SmallBuffer));
}

#[test]
fn missing_payload_is_refused() {
    let mut bytes = sample();
    bytes.truncate(42);
    assert_eq!(Packet::new(bytes.clone()).err(), Some(ErrorKind::SmallBuffer));
    assert!(Packet::no_payload(bytes).is_ok());

    let mut bytes = sample();
    bytes.truncate(43);
    assert!(Packet::new(bytes).is_ok());
}

#[test]
fn wrong_version_is_refused() {
    for first in [0x00u8, 0x45, 0x50, 0x70, 0xf6] {
        let mut bytes = sample();
        bytes[0] = first;
        assert_eq!(Packet::new(bytes.clone()).err(), Some(ErrorKind::InvalidPacket));
        assert_eq!(Packet::no_payload(bytes).err(), Some(ErrorKind::InvalidPacket));
    }
}

#[test]
fn wrong_version_comes_before_missing_payload() {
    let mut bytes = sample();
    bytes[0] = 0x40;
    bytes.truncate(41);
    assert_eq!(Packet::new(bytes).err(), Some(ErrorKind::InvalidPacket));
}

#[test]
fn unchecked_accepts_anything() {
    let packet = Packet::unchecked(vec![0x45u8, 0, 0, 0, 0, 9, 6, 1]);
    assert_eq!(packet.version(), 4);
    assert_eq!(packet.payload_length(), 9);
    assert_eq!(packet.next_header(), Protocol::Tcp);
    assert_eq!(packet.hop_limit(), 1);
}

#[test]
fn borrowed_buffer_can_be_parsed() {
    let bytes = sample();
    let packet = Packet::new(&bytes[..]).unwrap();
    assert_eq!(packet.hop_limit(), 33);
    let owned = packet.to_owned();
    assert_eq!(owned.hop_limit(), 33);
    assert_eq!(owned.payload(), &[1, 2, 3]);
    assert_eq!(owned.as_ref(), &bytes[..43]);
}

#[test]
fn split_clips_the_payload_to_the_buffer() {
    let mut bytes = sample();
    bytes[5] = 200;
    let packet = Packet::unchecked(bytes);
    let (header, payload) = packet.split();
    assert_eq!(header.len(), 40);
    assert_eq!(payload, &[1, 2, 3, 4, 5]);
}

#[test]
fn split_stops_at_the_declared_length() {
    let packet = Packet::unchecked(sample());
    let (header, payload) = packet.split();
    assert_eq!(header, &sample()[..40]);
    assert_eq!(payload, &[1, 2, 3]);
}

#[test]
fn split_mut_writes_through() {
    let mut packet = Packet::unchecked(sample());
    {
        let (header, payload) = packet.split_mut();
        assert_eq!(header.len(), 40);
        assert_eq!(payload.len(), 3);
        header[7] = 99;
        payload[2] = 77;
    }
    assert_eq!(packet.hop_limit(), 99);
    assert_eq!(packet.payload(), &[1, 2, 77]);

    packet.header_mut()[6] = 17;
    packet.payload_mut()[0] = 11;
    packet.as_mut()[41] = 12;
    assert_eq!(packet.next_header(), Protocol::Udp);
    assert_eq!(packet.payload(), &[11, 12, 77]);
}

#[test]
fn setters_write_their_field_only() {
    let source = Address::new(1, 2, 3, 4, 5, 6, 7, 8);
    let destination = Address::new(0xffff, 0, 0, 0, 0, 0, 0, 0x00ff);

    let mut packet = Packet::unchecked(sample());
    packet
        .set_hop_limit(5).unwrap()
        .set_source(source).unwrap()
        .set_destination(destination).unwrap()
        .set_next_header(Protocol::Unknown(200)).unwrap();

    assert_eq!(packet.hop_limit(), 5);
    assert_eq!(packet.source(), source);
    assert_eq!(packet.destination(), destination);
    assert_eq!(packet.next_header(), Protocol::Unknown(200));

    let mut expected = sample();
    expected[6] = 200;
    expected[7] = 5;
    expected[8..24].copy_from_slice(&[0, 1, 0, 2, 0, 3, 0, 4, 0, 5, 0, 6, 0, 7, 0, 8]);
    expected[24..40].copy_from_slice(&[0xff, 0xff, 0, 0, 0, 0, 0, 0, 0, 0, 0, 0, 0, 0, 0, 0xff]);
    assert_eq!(packet.as_ref(), &expected[..43]);
    assert_eq!(packet.version(), 6);
    assert_eq!(packet.payload_length(), 3);
}

#[test]
fn setters_work_on_a_borrowed_buffer() {
    let mut bytes = sample();
    {
        let mut packet = Packet::unchecked(&mut bytes[..]);
        packet.set_hop_limit(1).unwrap();
    }
    assert_eq!(bytes[7], 1);
}

#[test]
fn address_groups_and_octets() {
    let address = Address::new(0x2001, 0x0db8, 0, 0, 0, 0, 0, 1);
    assert_eq!(address.octets(), [0x20, 0x01, 0x0d, 0xb8, 0, 0, 0, 0, 0, 0, 0, 0, 0, 0, 0, 1]);
    assert_eq!(address.segments(), [0x2001, 0x0db8, 0, 0, 0, 0, 0, 1]);
    assert_eq!(Address { octets: address.octets() }, address);
}

#[test]
fn protocol_numbers() {
    assert_eq!(Protocol::from(17u8), Protocol::Udp);
    assert_eq!(Protocol::from(6u8), Protocol::Tcp);
    assert_eq!(Protocol::from(58u8), Protocol::Ipv6Icmp);
    assert_eq!(Protocol::from(0u8), Protocol::Hopopt);
    assert_eq!(Protocol::from(3u8), Protocol::Unknown(3));
    assert_eq!(u8::from(Protocol::Udp), 17);
    assert_eq!(u8::from(Protocol::Ipv6), 41);
    assert_eq!(u8::from(Protocol::Unknown(250)), 250);
    for number in 0..=255u8 {
        assert_eq!(u8::from(Protocol::from(number)), number);
    }
}
