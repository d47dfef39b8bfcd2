use weylus::address::IpAddress;
use weylus::ip_parse::parse_ip_address;

fn v6(s: [u16; 8]) -> Option<IpAddress> {
    Some(IpAddress::V6(s[0], s[1], s[2], s[3], s[4], s[5], s[6], s[7]))
}

#[test]
fn ipv4_addresses() {
    assert_eq!(parse_ip_address("0.0.0.0"), Some(IpAddress::V4(0, 0, 0, 0)));
    assert_eq!(parse_ip_address("127.0.0.1"), Some(IpAddress::V4(127, 0, 0, 1)));
    assert_eq!(parse_ip_address("255.255.255.255"), Some(IpAddress::V4(255, 255, 255, 255)));
    assert_eq!(parse_ip_address("192.168.1.20"), Some(IpAddress::V4(192, 168, 1, 20)));
}

#[test]
fn bad_ipv4_addresses() {
    for text in [
        "", "256.0.0.1", "01.2.3.4", "1.2.3", "1.2.3.4.5", "1.2.3.4 ", " 1.2.3.4", "1..2.3",
        "1.2.3.0004", "a.b.c.d", "1.2.3.4::", "1.2.3.-4", "localhost", "1.2.3.4:80",
    ] {
        assert_eq!(parse_ip_address(text), None, "input {:?}", text);
    }
}

#[test]
fn ipv6_addresses() {
    assert_eq!(parse_ip_address("::"), v6([0; 8]));
    assert_eq!(parse_ip_address("::1"), v6([0, 0, 0, 0, 0, 0, 0, 1]));
    assert_eq!(parse_ip_address("fe80::1"), v6([0xfe80, 0, 0, 0, 0, 0, 0, 1]));
    assert_eq!(parse_ip_address("FE80::A:b"), v6([0xfe80, 0, 0, 0, 0, 0, 0xa, 0xb]));
    assert_eq!(parse_ip_address("1:2:3:4:5:6:7:8"), v6([1, 2, 3, 4, 5, 6, 7, 8]));
    assert_eq!(parse_ip_address("1:2:3:4:5:6:7::"), v6([1, 2, 3, 4, 5, 6, 7, 0]));
    assert_eq!(parse_ip_address("::2:3:4:5:6:7:8"), v6([0, 2, 3, 4, 5, 6, 7, 8]));
    assert_eq!(parse_ip_address("0001:0:0::00ff"), v6([1, 0, 0, 0, 0, 0, 0, 0xff]));
    assert_eq!(parse_ip_address("::ffff:192.168.1.1"), v6([0, 0, 0, 0, 0, 0xffff, 0xc0a8, 0x0101]));
    assert_eq!(parse_ip_address("::1.2.3.4"), v6([0, 0, 0, 0, 0, 0, 0x0102, 0x0304]));
    assert_eq!(parse_ip_address("1:2:3:4:5:6:1.2.3.4"), v6([1, 2, 3, 4, 5, 6, 0x0102, 0x0304]));
}

#[test]
fn bad_ipv6_addresses() {
    for text in [
        ":", ":::", "1::2::3", "12345::1", "1:2:3:4:5:6:7:8:9", "1:2:3:4:5:6:7", ":1::2",
        "1:2:3:4:5:6:7:1.2.3.4", "1.2.3.4::1", "::1.2.3.4:5", "g::1", "[::1]", "::1 ",
        "1:2:3:4:5:6:7:8::", "::1:2:3:4:5:6:7:8",
    ] {
        assert_eq!(parse_ip_address(text), None, "input {:?}", text);
    }
}
