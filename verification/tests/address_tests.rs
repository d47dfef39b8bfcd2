use weylus::address::{advertise, advertise_on, candidates, Interface, IpAddress, SocketAddress};
use weylus::form::Platform;

fn v4(a: u8, b: u8, c: u8, d: u8) -> IpAddress {
    IpAddress::V4(a, b, c, d)
}

fn v6(last: u16) -> IpAddress {
    IpAddress::V6(0xfe80, 0, 0, 0, 0, 0, 0, last)
}

fn sample_interfaces() -> Vec<Interface> {
    vec![
        Interface { up: true, loopback: true, addresses: vec![v4(127, 0, 0, 1), IpAddress::V6(0, 0, 0, 0, 0, 0, 0, 1)] },
        Interface { up: false, loopback: false, addresses: vec![v4(10, 0, 0, 7)] },
        Interface { up: true, loopback: false, addresses: vec![v6(1), v4(192, 168, 1, 20)] },
        Interface { up: true, loopback: false, addresses: vec![v4(172, 17, 0, 1), v6(2)] },
    ]
}

#[test]
fn unspecified_and_family() {
    assert!(v4(0, 0, 0, 0).is_unspecified());
    assert!(IpAddress::V6(0, 0, 0, 0, 0, 0, 0, 0).is_unspecified());
    assert!(!v4(0, 0, 0, 1).is_unspecified());
    assert!(v4(1, 2, 3, 4).is_ipv4());
    assert!(v6(1).is_ipv6());
    assert!(!v6(1).is_ipv4());
}

#[test]
fn candidates_keep_family_and_skip_down_and_loopback() {
    let ifs = sample_interfaces();
    assert_eq!(candidates(&ifs, &v4(0, 0, 0, 0)), vec![v4(192, 168, 1, 20), v4(172, 17, 0, 1)]);
    assert_eq!(candidates(&ifs, &IpAddress::V6(0, 0, 0, 0, 0, 0, 0, 0)), vec![v6(1), v6(2)]);
}

#[test]
fn any_address_is_replaced_by_first_candidate() {
    let ifs = sample_interfaces();
    let adv = advertise(SocketAddress { ip: v4(0, 0, 0, 0), port: 1701 }, &ifs);
    assert_eq!(adv.address, SocketAddress { ip: v4(192, 168, 1, 20), port: 1701 });
    assert_eq!(adv.others, vec![v4(172, 17, 0, 1)]);
}

#[test]
fn any_address_without_candidates_is_kept() {
    let ifs = vec![Interface { up: true, loopback: true, addresses: vec![v4(127, 0, 0, 1)] }];
    let web = SocketAddress { ip: v4(0, 0, 0, 0), port: 80 };
    let adv = advertise(web, &ifs);
    assert_eq!(adv.address, web);
    assert!(adv.others.is_empty());
}

#[test]
fn law_definite_address_is_kept() {
    let ifs = sample_interfaces();
    let web = SocketAddress { ip: v4(10, 1, 2, 3), port: 8080 };
    let adv = advertise(web, &ifs);
    assert_eq!(adv.address, web);
    assert!(adv.others.is_empty());
}

#[test]
fn law_advertised_address_is_reachable() {
    let ifs = sample_interfaces();
    let web = SocketAddress { ip: IpAddress::V6(0, 0, 0, 0, 0, 0, 0, 0), port: 1701 };
    let adv = advertise(web, &ifs);
    assert_eq!(adv.address.port, 1701);
    assert!(adv.address.ip.is_ipv6());
    for ip in std::iter::once(adv.address.ip).chain(adv.others.iter().copied()) {
        assert!(ifs.iter().any(|i| i.up && !i.loopback && i.addresses.contains(&ip)));
    }
}

#[test]
fn windows_does_not_guess() {
    let ifs = sample_interfaces();
    let web = SocketAddress { ip: v4(0, 0, 0, 0), port: 1701 };
    let adv = advertise_on(Platform::Windows, web, &ifs);
    assert_eq!(adv.address, web);
    assert!(adv.others.is_empty());
    let adv = advertise_on(Platform::Linux, web, &ifs);
    assert_eq!(adv.address.ip, v4(192, 168, 1, 20));
}
