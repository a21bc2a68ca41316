use psutils::address::{decode_address_bytes, vec_to_s, Address, Socket, Target};
use psutils::connections::Connections;
use psutils::number::{parse_digits, parse_u16, parse_u64, render_decimal};

#[test]
fn it_decodes_ipv4() {
    // "0500000A:0016" -> ("10.0.0.5", 22)
    let input = "0500000A:0016";
    let family = Socket::AF_INET;

    let expected = Target { addr: Address::V4(10, 0, 0, 5), port: 22 };
    assert_eq!(Connections::decode_address(input, &family), Some(expected));
    assert_eq!(expected.addr.to_text(), "10.0.0.5");
}

#[test]
fn decodes_every_byte_position() {
    let t = Connections::decode_address("04030201:FFFF", &Socket::AF_INET).unwrap();
    assert_eq!(t.addr, Address::V4(1, 2, 3, 4));
    assert_eq!(t.port, 65535);
    assert_eq!(t.addr.to_text(), "1.2.3.4");
}

#[test]
fn decodes_loopback_and_any() {
    let t = Connections::decode_address("0100007F:0035", &Socket::AF_INET).unwrap();
    assert_eq!(t, Target { addr: Address::V4(127, 0, 0, 1), port: 53 });
    let t = Connections::decode_address("00000000:0000", &Socket::AF_INET).unwrap();
    assert_eq!(t, Target { addr: Address::V4(0, 0, 0, 0), port: 0 });
    let t = Connections::decode_address("FEDCBA98:ABCD", &Socket::AF_INET).unwrap();
    assert_eq!(t, Target { addr: Address::V4(0x98, 0xBA, 0xDC, 0xFE), port: 0xABCD });
}

#[test]
fn round_trip_on_chosen_values() {
    let cases: Vec<([u8; 4], u16)> =
        vec![([10, 0, 0, 5], 22), ([192, 168, 1, 254], 8080), ([255, 255, 255, 255], 65535)];
    for (bytes, port) in cases {
        let field = format!(
            "{:02X}{:02X}{:02X}{:02X}:{:04X}",
            bytes[3], bytes[2], bytes[1], bytes[0], port
        );
        let t = Connections::decode_address(&field, &Socket::AF_INET).unwrap();
        assert_eq!(t.addr, Address::V4(bytes[0], bytes[1], bytes[2], bytes[3]));
        assert_eq!(t.port, port);
        assert_eq!(
            t.addr.to_text(),
            format!("{}.{}.{}.{}", bytes[0], bytes[1], bytes[2], bytes[3])
        );
    }
}

#[test]
fn rejects_a_port_that_is_not_hexadecimal() {
    assert_eq!(Connections::decode_address("0500000A:00ZZ", &Socket::AF_INET), None);
    assert_eq!(Connections::decode_address("0500000A:+016", &Socket::AF_INET), None);
    assert_eq!(Connections::decode_address("0500000A:-016", &Socket::AF_INET), None);
    assert_eq!(Connections::decode_address("0500000A: 016", &Socket::AF_INET), None);
    assert_eq!(Connections::decode_address("0500000A:", &Socket::AF_INET), None);
}

#[test]
fn rejects_a_port_that_is_not_four_digits_long() {
    assert_eq!(Connections::decode_address("0500000A:10000", &Socket::AF_INET), None);
    assert_eq!(Connections::decode_address("0500000A:0FFFF", &Socket::AF_INET), None);
    assert_eq!(Connections::decode_address("0500000A:00016", &Socket::AF_INET), None);
    assert_eq!(Connections::decode_address("0500000A:016", &Socket::AF_INET), None);
    assert_eq!(Connections::decode_address("0500000A:16", &Socket::AF_INET), None);
    assert_eq!(Connections::decode_address("0500000A:6", &Socket::AF_INET), None);
    let t = Connections::decode_address("0500000A:FFFF", &Socket::AF_INET).unwrap();
    assert_eq!(t.port, 65535);
}

#[test]
fn reads_a_port_of_either_case() {
    let t = Connections::decode_address("0500000A:abcd", &Socket::AF_INET).unwrap();
    assert_eq!(t.port, 0xABCD);
    let t = Connections::decode_address("0500000A:AbCd", &Socket::AF_INET).unwrap();
    assert_eq!(t.port, 0xABCD);
}

#[test]
fn rejects_an_address_of_the_wrong_width() {
    assert_eq!(Connections::decode_address("00000A:0016", &Socket::AF_INET), None);
    assert_eq!(Connections::decode_address("000500000A:0016", &Socket::AF_INET), None);
    assert_eq!(Connections::decode_address("0500000:0016", &Socket::AF_INET), None);
    assert_eq!(Connections::decode_address(":0016", &Socket::AF_INET), None);
    assert_eq!(
        Connections::decode_address("0000000000000000FFFF00000100007F:9E49", &Socket::AF_INET),
        None
    );
}

#[test]
fn rejects_an_address_that_is_not_base16() {
    assert_eq!(Connections::decode_address("0500000a:0016", &Socket::AF_INET), None);
    assert_eq!(Connections::decode_address("0500000G:0016", &Socket::AF_INET), None);
    assert_eq!(Connections::decode_address("05 0000A:0016", &Socket::AF_INET), None);
}

#[test]
fn rejects_a_field_without_a_colon() {
    assert_eq!(Connections::decode_address("0500000A0016", &Socket::AF_INET), None);
    assert_eq!(Connections::decode_address("", &Socket::AF_INET), None);
}

#[test]
fn the_port_ends_the_field() {
    assert_eq!(Connections::decode_address("0500000A:0016:zz", &Socket::AF_INET), None);
    assert_eq!(Connections::decode_address("0500000A:0016:FFFF", &Socket::AF_INET), None);
    assert_eq!(Connections::decode_address("0500000A:0016:", &Socket::AF_INET), None);
    assert_eq!(Connections::decode_address("0500000A:0016 ", &Socket::AF_INET), None);
    assert_eq!(Connections::decode_address("0500000A::0016", &Socket::AF_INET), None);
    assert_eq!(Connections::decode_address(" 0500000A:0016", &Socket::AF_INET), None);
    let t = Connections::decode_address("0500000A:0016", &Socket::AF_INET).unwrap();
    assert_eq!(t, Target { addr: Address::V4(10, 0, 0, 5), port: 22 });
}

#[test]
fn other_families_decode_to_nothing() {
    assert_eq!(Connections::decode_address("0500000A:0016", &Socket::AF_INET6), None);
    assert_eq!(
        Connections::decode_address("0000000000000000FFFF00000100007F:9E49", &Socket::AF_INET6),
        None
    );
    assert_eq!(Connections::decode_address("0500000A:0016", &Socket::AF_UNIX), None);
    assert_eq!(Connections::decode_address("0500000A:0016", &Socket::SOCK_STREAM), None);
    assert_eq!(Connections::decode_address("0500000A:0016", &Socket::SOCK_DGRAM), None);
}

#[test]
fn bytes_and_text_decode_alike() {
    assert_eq!(
        decode_address_bytes(b"0500000A:0016", &Socket::AF_INET),
        Connections::decode_address("0500000A:0016", &Socket::AF_INET)
    );
    assert_eq!(decode_address_bytes(b"\xFF500000A:0016", &Socket::AF_INET), None);
}

#[test]
fn joins_numbers_in_decimal() {
    assert_eq!(vec_to_s(vec![10, 0, 0, 5], "."), "10.0.0.5");
    assert_eq!(vec_to_s(vec![], "."), "");
    assert_eq!(vec_to_s(vec![255], "."), "255");
    assert_eq!(vec_to_s(vec![0, 7, 100], "::"), "0::7::100");
    assert_eq!(vec_to_s(vec![1, 2], ""), "12");
}

#[test]
fn reads_decimal_numbers() {
    assert_eq!(parse_u16(b"0"), Some(0));
    assert_eq!(parse_u16(b"65535"), Some(65535));
    assert_eq!(parse_u16(b"65536"), None);
    assert_eq!(parse_u16(b"007"), Some(7));
    assert_eq!(parse_u16(b"+7"), Some(7));
    assert_eq!(parse_u16(b"+"), None);
    assert_eq!(parse_u16(b""), None);
    assert_eq!(parse_u16(b"-1"), None);
    assert_eq!(parse_u16(b"12a"), None);
    assert_eq!(parse_u16(b"++1"), None);
    assert_eq!(parse_u64(b"18446744073709551615"), Some(u64::MAX));
    assert_eq!(parse_u64(b"18446744073709551616"), None);
    assert_eq!(parse_u64(b"99999999999999999999999"), None);
}

#[test]
fn reads_numbers_of_any_radix() {
    assert_eq!(parse_digits(b"ff", 16, 255), Some(255));
    assert_eq!(parse_digits(b"FF", 16, 254), None);
    assert_eq!(parse_digits(b"101", 2, 10), Some(5));
    assert_eq!(parse_digits(b"102", 2, 10), None);
    assert_eq!(parse_digits(b"zz", 36, 2000), Some(35 * 36 + 35));
    assert_eq!(parse_digits(b"", 10, 10), None);
}

#[test]
fn renders_decimal_numbers() {
    assert_eq!(render_decimal(0), b"0".to_vec());
    assert_eq!(render_decimal(9), b"9".to_vec());
    assert_eq!(render_decimal(10), b"10".to_vec());
    assert_eq!(render_decimal(65535), b"65535".to_vec());
    assert_eq!(render_decimal(u64::MAX), b"18446744073709551615".to_vec());
}

#[test]
fn reading_what_was_rendered_gives_the_number_back() {
    for n in [0u64, 1, 9, 10, 99, 100, 4242, 65535, 65536, u64::MAX] {
        assert_eq!(parse_u64(&render_decimal(n)), Some(n));
    }
    assert_eq!(parse_u16(&render_decimal(65535)), Some(65535));
    assert_eq!(parse_u16(&render_decimal(65536)), None);
}
