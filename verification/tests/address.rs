use nym_client::address::{
    encode_address, pack_address, parse_socket_address, unpack_address, CodecError, Ipv4Socket,
};

#[test]
fn encode_address_lays_out_octets_port_and_zeros() {
    let bytes = encode_address("10.0.0.1:9000").unwrap();
    assert_eq!(bytes.len(), 32);
    assert_eq!(&bytes[0..4], &[10u8, 0, 0, 1]);
    assert_eq!(&bytes[4..6], &9000u16.to_be_bytes());
    assert_eq!(&bytes[4..6], &[0x23u8, 0x28]);
    assert!(bytes[6..].iter().all(|b| *b == 0));
}

#[test]
fn encode_address_takes_the_largest_values() {
    let bytes = encode_address("255.255.255.255:65535").unwrap();
    assert_eq!(&bytes[0..6], &[255u8, 255, 255, 255, 255, 255]);
    assert!(bytes[6..].iter().all(|b| *b == 0));
}

#[test]
fn encode_address_takes_zero_octets_and_port_zero() {
    let bytes = encode_address("0.0.0.0:0").unwrap();
    assert_eq!(bytes, [0u8; 32]);
}

#[test]
fn port_may_have_leading_zeros() {
    let sock = parse_socket_address(b"127.0.0.1:0080").unwrap();
    assert_eq!(sock, Ipv4Socket { a: 127, b: 0, c: 0, d: 1, port: 80 });
}

#[test]
fn encode_address_rejects_what_is_no_ip_and_port() {
    let bad = [
        "",
        "10.0.0.1",
        "10.0.0.1:",
        ":9000",
        "10.0.0:9000",
        "10.0.0.0.1:9000",
        "256.0.0.1:9000",
        "10.0.0.1:65536",
        "10.0.0.1:99999999999999999999",
        "01.0.0.1:9000",
        "10.00.0.1:9000",
        "1000.0.0.1:9000",
        "10.0.0.1:9000 ",
        " 10.0.0.1:9000",
        "10.0.0.1:90a0",
        "10.0.0.1;9000",
        "10..0.1:9000",
        "localhost:9000",
        "10.0.0.1:-1",
        "10.0.0.\u{661}:9000",
    ];
    for text in bad.iter() {
        assert_eq!(encode_address(text), Err(CodecError::AddressFormatError), "{}", text);
    }
}

#[test]
fn parse_socket_address_reads_each_field() {
    assert_eq!(
        parse_socket_address(b"192.168.1.77:1789"),
        Some(Ipv4Socket { a: 192, b: 168, c: 1, d: 77, port: 1789 })
    );
    assert_eq!(parse_socket_address(b"192.168.1.77"), None);
}

#[test]
fn pack_address_puts_the_high_byte_of_the_port_first() {
    let bytes = pack_address(Ipv4Socket { a: 1, b: 2, c: 3, d: 4, port: 0x0102 });
    let mut expected = [0u8; 32];
    expected[0] = 1;
    expected[1] = 2;
    expected[2] = 3;
    expected[3] = 4;
    expected[4] = 1;
    expected[5] = 2;
    assert_eq!(bytes, expected);
}

#[test]
fn unpack_address_reads_back_what_was_packed() {
    let sock = Ipv4Socket { a: 172, b: 16, c: 254, d: 3, port: 40001 };
    assert_eq!(unpack_address(&pack_address(sock)), Some(sock));
    let bytes = encode_address("10.0.0.1:9000").unwrap();
    assert_eq!(unpack_address(&bytes), Some(Ipv4Socket { a: 10, b: 0, c: 0, d: 1, port: 9000 }));
    assert_eq!(unpack_address(&[0u8; 32]), Some(Ipv4Socket { a: 0, b: 0, c: 0, d: 0, port: 0 }));
}

#[test]
fn unpack_address_rejects_a_field_with_a_tail() {
    let mut bytes = encode_address("10.0.0.1:9000").unwrap();
    bytes[31] = 1;
    assert_eq!(unpack_address(&bytes), None);
    let mut bytes = encode_address("10.0.0.1:9000").unwrap();
    bytes[6] = 255;
    assert_eq!(unpack_address(&bytes), None);
}
