use weylus::address::{IpAddress, SocketAddress};
use weylus::form::Platform;
use weylus::link::{address_label, connect_url, encode_password, server_url};

fn decode(s: &str) -> Vec<u8> {
    let b = s.as_bytes();
    let mut out = Vec::new();
    let mut i = 0;
    while i < b.len() {
        if b[i] == b'%' {
            out.push(u8::from_str_radix(&s[i + 1..i + 3], 16).unwrap());
            i += 3;
        } else {
            out.push(b[i]);
            i += 1;
        }
    }
    out
}

#[test]
fn password_is_percent_encoded() {
    assert_eq!(encode_password("foo bar?"), "foo%20bar%3F");
    assert_eq!(encode_password("Ab9-_.~"), "Ab9%2D%5F%2E%7E");
    assert_eq!(encode_password("é"), "%C3%A9");
    assert_eq!(encode_password(""), "");
}

#[test]
fn law_link_carries_password() {
    for pw in ["s3cr3t", "p@ss word/ü", "100%", "🎨&x=y"] {
        let enc = encode_password(pw);
        assert!(enc.chars().all(|c| c.is_ascii_alphanumeric() || c == '%'));
        assert_eq!(decode(&enc), pw.as_bytes());
    }
}

#[test]
fn urls() {
    let addr = SocketAddress { ip: IpAddress::V4(192, 168, 1, 5), port: 1701 };
    assert_eq!(server_url(&addr), "http://192.168.1.5:1701");
    assert_eq!(connect_url(&addr, &None), "http://192.168.1.5:1701");
    assert_eq!(
        connect_url(&addr, &Some("p-w&x y".to_string())),
        "http://192.168.1.5:1701?password=p%2Dw%26x%20y"
    );
    let v6 = SocketAddress { ip: IpAddress::V6(0xfe80, 0, 0, 0, 0, 0, 0, 2), port: 1701 };
    assert_eq!(server_url(&v6), "http://[fe80::2]:1701");
}

#[test]
fn address_labels() {
    let any = SocketAddress { ip: IpAddress::V4(0, 0, 0, 0), port: 1701 };
    let lan = SocketAddress { ip: IpAddress::V4(10, 0, 0, 2), port: 1701 };
    assert_eq!(address_label(Platform::Windows, &any), "http://<your ip address>");
    assert_eq!(address_label(Platform::Windows, &lan), "http://10.0.0.2:1701");
    assert_eq!(address_label(Platform::Linux, &any), "http://0.0.0.0:1701");
}
