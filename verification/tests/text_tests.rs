use weylus::address::{IpAddress, SocketAddress};
use weylus::text::{ip_address_text, socket_address_text};

fn v6(s: [u16; 8]) -> IpAddress {
    IpAddress::V6(s[0], s[1], s[2], s[3], s[4], s[5], s[6], s[7])
}

#[test]
fn ipv4_text() {
    assert_eq!(ip_address_text(&IpAddress::V4(0, 0, 0, 0)), "0.0.0.0");
    assert_eq!(ip_address_text(&IpAddress::V4(127, 0, 0, 1)), "127.0.0.1");
    assert_eq!(ip_address_text(&IpAddress::V4(192, 168, 1, 20)), "192.168.1.20");
    assert_eq!(ip_address_text(&IpAddress::V4(255, 255, 255, 255)), "255.255.255.255");
    assert_eq!(ip_address_text(&IpAddress::V4(10, 9, 100, 99)), "10.9.100.99");
}

#[test]
fn ipv6_text() {
    let cases: [([u16; 8], &str); 12] = [
        ([0; 8], "::"),
        ([0, 0, 0, 0, 0, 0, 0, 1], "::1"),
        ([1, 0, 0, 0, 0, 0, 0, 0], "1::"),
        ([0xfe80, 0, 0, 0, 0, 0, 0, 1], "fe80::1"),
        ([0x2001, 0xdb8, 0, 0, 1, 0, 0, 1], "2001:db8::1:0:0:1"),
        ([1, 0, 0, 1, 0, 0, 0, 1], "1:0:0:1::1"),
        ([1, 2, 3, 4, 5, 6, 7, 8], "1:2:3:4:5:6:7:8"),
        ([1, 0, 3, 0, 5, 0, 7, 0], "1:0:3:0:5:0:7:0"),
        ([0, 0, 0, 0, 0, 0xffff, 0xc0a8, 0x0101], "::ffff:192.168.1.1"),
        ([0, 0, 0, 0, 0, 0xffff, 0, 0], "::ffff:0.0.0.0"),
        ([0, 0, 0, 0, 0, 0xfffe, 1, 2], "::fffe:1:2"),
        ([0xabcd, 0xef01, 0, 0, 0xffff, 0, 0, 0x10], "abcd:ef01::ffff:0:0:10"),
    ];
    for (segs, text) in cases {
        assert_eq!(ip_address_text(&v6(segs)), text, "segments {:?}", segs);
    }
}

#[test]
fn socket_text() {
    assert_eq!(socket_address_text(&SocketAddress { ip: IpAddress::V4(10, 0, 0, 2), port: 1701 }), "10.0.0.2:1701");
    assert_eq!(socket_address_text(&SocketAddress { ip: IpAddress::V4(0, 0, 0, 0), port: 0 }), "0.0.0.0:0");
    assert_eq!(socket_address_text(&SocketAddress { ip: v6([0xfe80, 0, 0, 0, 0, 0, 0, 1]), port: 9001 }), "[fe80::1]:9001");
    assert_eq!(socket_address_text(&SocketAddress { ip: v6([0; 8]), port: 65535 }), "[::]:65535");
}
