use loradb::address::{parse_plain_number, parse_socket_address, IpAddress, SocketAddress};

fn v4(a: u8, b: u8, c: u8, d: u8, port: u16) -> Option<SocketAddress> {
    Some(SocketAddress { ip: IpAddress::V4(a, b, c, d), port })
}

fn v6(groups: [u16; 8], scope: u32, port: u16) -> Option<SocketAddress> {
    Some(SocketAddress { ip: IpAddress::V6(groups.to_vec(), scope), port })
}

#[test]
fn ipv4_socket_addresses() {
    assert_eq!(parse_socket_address("0.0.0.0:8080"), v4(0, 0, 0, 0, 8080));
    assert_eq!(parse_socket_address("127.0.0.1:9000"), v4(127, 0, 0, 1, 9000));
    assert_eq!(parse_socket_address("255.255.255.255:65535"), v4(255, 255, 255, 255, 65535));
    assert_eq!(parse_socket_address("10.0.0.1:0080"), v4(10, 0, 0, 1, 80));
    for bad in [
        "abc", "", "0.0.0.0", "0.0.0.0:", "0.0.0.0:65536", "0.0.0.0:+80", "256.0.0.1:80", "01.0.0.1:80",
        "1.2.3:80", "1.2.3.4.5:80", "1.2.3.4:80:1", " 1.2.3.4:80", "1.2.3.4:80 ", "localhost:80", "0000.0.0.1:80",
    ] {
        assert_eq!(parse_socket_address(bad), None, "{:?}", bad);
    }
}

#[test]
fn ipv6_socket_addresses() {
    assert_eq!(parse_socket_address("[::1]:80"), v6([0, 0, 0, 0, 0, 0, 0, 1], 0, 80));
    assert_eq!(parse_socket_address("[::]:8080"), v6([0; 8], 0, 8080));
    assert_eq!(parse_socket_address("[1:2:3:4:5:6:7:8]:1"), v6([1, 2, 3, 4, 5, 6, 7, 8], 0, 1));
    assert_eq!(parse_socket_address("[fe80::1%2]:443"), v6([0xfe80, 0, 0, 0, 0, 0, 0, 1], 2, 443));
    assert_eq!(
        parse_socket_address("[::ffff:192.168.0.1]:80"),
        v6([0, 0, 0, 0, 0, 0xffff, 0xc0a8, 0x0001], 0, 80)
    );
    assert_eq!(parse_socket_address("[1:2:3:4:5:6:1.2.3.4]:80"), v6([1, 2, 3, 4, 5, 6, 0x0102, 0x0304], 0, 80));
    assert_eq!(parse_socket_address("[1:2:3:4:5:6:7::]:80"), v6([1, 2, 3, 4, 5, 6, 7, 0], 0, 80));
    assert_eq!(parse_socket_address("[ABCD::Ef]:80"), v6([0xabcd, 0, 0, 0, 0, 0, 0, 0xef], 0, 80));
    for bad in [
        "[::1]", "[::1]:", "::1:80", "[1:2:3:4:5:6:7:8:9]:80", "[1::2::3]:80", "[1:::2]:80", "[12345::]:80",
        "[1:2:3:4:5:6:7:8::]:80", "[1.2.3.4::]:80", "[::1%]:80", "[::1%1%2]:80", "[1:2:3:4:5:6:7]:80",
        "[1:2:3:4:5:6::1.2.3.4]:80", "[]:80", "[::1]:65536", "[g::]:80",
    ] {
        assert_eq!(parse_socket_address(bad), None, "{:?}", bad);
    }
}

#[test]
fn plain_numbers_take_no_sign() {
    assert_eq!(parse_plain_number("0080", 65535), Some(80));
    assert_eq!(parse_plain_number("+80", 65535), None);
    assert_eq!(parse_plain_number("", 65535), None);
    assert_eq!(parse_plain_number("65536", 65535), None);
}
