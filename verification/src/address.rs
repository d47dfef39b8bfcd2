use vstd::prelude::*;
use crate::form::Platform;

verus! {

/// An IP address: four octets, or eight 16-bit segments.
#[derive(Debug, Clone, Copy, PartialEq, Eq, Structural)]
pub enum IpAddress {
    V4(u8, u8, u8, u8),
    V6(u16, u16, u16, u16, u16, u16, u16, u16),
}

/// An IP address with a port.
#[derive(Debug, Clone, Copy, PartialEq, Eq, Structural)]
pub struct SocketAddress {
    pub ip: IpAddress,
    pub port: u16,
}

/// A network interface of this machine, as far as choosing an address goes.
#[derive(Debug)]
pub struct Interface {
    /// The interface is up.
    pub up: bool,
    /// The interface is a loopback interface.
    pub loopback: bool,
    /// The addresses of the networks configured on it, in order.
    pub addresses: Vec<IpAddress>,
}

/// The address is the "any" address of its family (`0.0.0.0` or `::`).
pub open spec fn spec_is_unspecified(ip: IpAddress) -> bool {
    match ip {
        IpAddress::V4(a, b, c, d) => a == 0 && b == 0 && c == 0 && d == 0,
        IpAddress::V6(a, b, c, d, e, f, g, h) => a == 0 && b == 0 && c == 0 && d == 0 && e == 0
            && f == 0 && g == 0 && h == 0,
    }
}

/// Both addresses are IPv4, or both are IPv6.
pub open spec fn same_family(x: IpAddress, y: IpAddress) -> bool {
    (x is V4) == (y is V4)
}

impl IpAddress {
    /// Whether this is the "any" address of its family.
    pub fn is_unspecified(&self) -> (res: bool)
        ensures
            res == spec_is_unspecified(*self),
    {
        match *self {
            IpAddress::V4(a, b, c, d) => a == 0 && b == 0 && c == 0 && d == 0,
            IpAddress::V6(a, b, c, d, e, f, g, h) => a == 0 && b == 0 && c == 0 && d == 0 && e
                == 0 && f == 0 && g == 0 && h == 0,
        }
    }

    /// Whether this is an IPv4 address.
    pub fn is_ipv4(&self) -> (res: bool)
        ensures
            res == (*self is V4),
    {
        match *self {
            IpAddress::V4(..) => true,
            IpAddress::V6(..) => false,
        }
    }

    /// Whether this is an IPv6 address.
    pub fn is_ipv6(&self) -> (res: bool)
        ensures
            res == (*self is V6),
    {
        match *self {
            IpAddress::V4(..) => false,
            IpAddress::V6(..) => true,
        }
    }
}

/// The addresses among `addrs` of the same family as `bind`, in order.
pub open spec fn same_family_addresses(addrs: Seq<IpAddress>, bind: IpAddress) -> Seq<IpAddress>
    decreases addrs.len(),
{
    if addrs.len() == 0 {
        Seq::empty()
    } else {
        let rest = same_family_addresses(addrs.drop_last(), bind);
        if same_family(addrs.last(), bind) {
            rest.push(addrs.last())
        } else {
            rest
        }
    }
}

/// The addresses a browser could reach this machine at, when the server
/// listens on every address of `bind`'s family: those of that family on the
/// interfaces that are up and are no loopback, interface by interface, in order.
pub open spec fn candidate_addresses(interfaces: Seq<Interface>, bind: IpAddress) -> Seq<IpAddress>
    decreases interfaces.len(),
{
    if interfaces.len() == 0 {
        Seq::empty()
    } else {
        let rest = candidate_addresses(interfaces.drop_last(), bind);
        let last = interfaces.last();
        if last.up && !last.loopback {
            rest + same_family_addresses(last.addresses@, bind)
        } else {
            rest
        }
    }
}

/// The address shown to the user, and the other addresses worth mentioning.
pub struct Advertised {
    /// The address browsers are told to connect to.
    pub address: SocketAddress,
    /// Further addresses the server can be reached at.
    pub others: Vec<IpAddress>,
}

/// What the server advertises when it listens on `web`: where `web` is the
/// "any" address and a candidate exists, the first candidate with the same
/// port, the remaining candidates as the others; else `web` itself and no others.
pub open spec fn advertised(web: SocketAddress, interfaces: Seq<Interface>) -> (SocketAddress, Seq<
    IpAddress,
>) {
    let c = candidate_addresses(interfaces, web.ip);
    if spec_is_unspecified(web.ip) && c.len() > 0 {
        (SocketAddress { ip: c[0], port: web.port }, c.drop_first())
    } else {
        (web, Seq::empty())
    }
}

/// Collects the candidate addresses of `interfaces` for a server bound to `bind`.
pub fn candidates(interfaces: &Vec<Interface>, bind: &IpAddress) -> (res: Vec<IpAddress>)
    ensures
        res@ == candidate_addresses(interfaces@, *bind),
{
    let mut res: Vec<IpAddress> = Vec::new();
    let bind_v4 = bind.is_ipv4();
    let n = interfaces.len();
    let mut i: usize = 0;
    proof {
        assert(interfaces@.take(0) =~= Seq::<Interface>::empty());
    }
    while i < n
        invariant
            n == interfaces@.len(),
            0 <= i <= n,
            bind_v4 == (*bind is V4),
            res@ == candidate_addresses(interfaces@.take(i as int), *bind),
        decreases n - i,
    {
        let iface = &interfaces[i];
        proof {
            assert(interfaces@.take(i + 1).drop_last() =~= interfaces@.take(i as int));
            assert(interfaces@.take(i + 1).last() == *iface);
        }
        if iface.up && !iface.loopback {
            let ghost before = res@;
            let m = iface.addresses.len();
            let mut j: usize = 0;
            proof {
                assert(iface.addresses@.take(0) =~= Seq::<IpAddress>::empty());
                assert(before =~= before + same_family_addresses(
                    iface.addresses@.take(0),
                    *bind,
                ));
            }
            while j < m
                invariant
                    m == iface.addresses@.len(),
                    0 <= j <= m,
                    bind_v4 == (*bind is V4),
                    res@ == before + same_family_addresses(iface.addresses@.take(j as int), *bind),
                decreases m - j,
            {
                let a = iface.addresses[j];
                proof {
                    assert(iface.addresses@.take(j + 1).drop_last() =~= iface.addresses@.take(
                        j as int,
                    ));
                }
                if a.is_ipv4() == bind_v4 {
                    res.push(a);
                    proof {
                        assert(res@ =~= before + same_family_addresses(
                            iface.addresses@.take(j + 1),
                            *bind,
                        ));
                    }
                }
                j = j + 1;
            }
            proof {
                assert(iface.addresses@.take(m as int) =~= iface.addresses@);
            }
        }
        i = i + 1;
    }
    proof {
        assert(interfaces@.take(n as int) =~= interfaces@);
    }
    res
}

/// Chooses the address that browsers are told to connect to when the web
/// server listens on `web`, as `advertised` says.
pub fn advertise(web: SocketAddress, interfaces: &Vec<Interface>) -> (res: Advertised)
    ensures
        (res.address, res.others@) == advertised(web, interfaces@),
{
    if web.ip.is_unspecified() {
        let mut c = candidates(interfaces, &web.ip);
        if c.len() > 0 {
            let first = c.remove(0);
            proof {
                assert(c@ =~= candidate_addresses(interfaces@, web.ip).drop_first());
            }
            return Advertised { address: SocketAddress { ip: first, port: web.port }, others: c };
        }
    }
    Advertised { address: web, others: Vec::new() }
}

/// Every address that `same_family_addresses` keeps is of `bind`'s family and
/// is one of `addrs`.
proof fn lemma_same_family_addresses(addrs: Seq<IpAddress>, bind: IpAddress)
    ensures
        forall|k: int|
            0 <= k < same_family_addresses(addrs, bind).len() ==> same_family(
                #[trigger] same_family_addresses(addrs, bind)[k],
                bind,
            ) && addrs.contains(same_family_addresses(addrs, bind)[k]),
    decreases addrs.len(),
{
    if addrs.len() > 0 {
        lemma_same_family_addresses(addrs.drop_last(), bind);
        let rest = same_family_addresses(addrs.drop_last(), bind);
        assert forall|k: int|
            0 <= k < same_family_addresses(addrs, bind).len() implies same_family(
            #[trigger] same_family_addresses(addrs, bind)[k],
            bind,
        ) && addrs.contains(same_family_addresses(addrs, bind)[k]) by {
            if k < rest.len() {
                let j = choose|j: int| 0 <= j < addrs.drop_last().len() && addrs.drop_last()[j] == rest[k];
                assert(addrs[j] == rest[k]);
            } else {
                assert(addrs[addrs.len() - 1] == addrs.last());
            }
        }
    }
}

/// Every candidate address is of `bind`'s family and belongs to an interface
/// that is up and no loopback.
proof fn lemma_candidate_addresses(interfaces: Seq<Interface>, bind: IpAddress)
    ensures
        forall|k: int|
            0 <= k < candidate_addresses(interfaces, bind).len() ==> {
                let a = #[trigger] candidate_addresses(interfaces, bind)[k];
                &&& same_family(a, bind)
                &&& exists|j: int|
                    0 <= j < interfaces.len() && interfaces[j].up && !interfaces[j].loopback
                        && interfaces[j].addresses@.contains(a)
            },
    decreases interfaces.len(),
{
    if interfaces.len() > 0 {
        let init = interfaces.drop_last();
        let last = interfaces.last();
        lemma_candidate_addresses(init, bind);
        lemma_same_family_addresses(last.addresses@, bind);
        let rest = candidate_addresses(init, bind);
        assert forall|k: int| 0 <= k < candidate_addresses(interfaces, bind).len() implies {
            let a = #[trigger] candidate_addresses(interfaces, bind)[k];
            &&& same_family(a, bind)
            &&& exists|j: int|
                0 <= j < interfaces.len() && interfaces[j].up && !interfaces[j].loopback
                    && interfaces[j].addresses@.contains(a)
        } by {
            let a = candidate_addresses(interfaces, bind)[k];
            if k < rest.len() {
                assert(a == rest[k]);
                let j = choose|j: int|
                    0 <= j < init.len() && init[j].up && !init[j].loopback
                        && init[j].addresses@.contains(rest[k]);
                assert(interfaces[j] == init[j]);
            } else {
                let fam = same_family_addresses(last.addresses@, bind);
                assert(a == fam[k - rest.len()]);
                assert(interfaces[interfaces.len() - 1] == last);
            }
        }
    }
}

/// Where the server listens on a definite address, that address is the one
/// advertised, and nothing else is.
pub proof fn law_definite_address_is_kept(web: SocketAddress, interfaces: Seq<Interface>)
    requires
        !spec_is_unspecified(web.ip),
    ensures
        advertised(web, interfaces) == (web, Seq::<IpAddress>::empty()),
{
}

/// The advertised address keeps the web server's port and its address family;
/// where it differs from the address listened on, it is an address of an
/// interface that is up and no loopback, and the server listened on the "any"
/// address; the other addresses are such addresses too.
pub proof fn law_advertised_address_is_reachable(web: SocketAddress, interfaces: Seq<Interface>)
    ensures
        advertised(web, interfaces).0.port == web.port,
        same_family(advertised(web, interfaces).0.ip, web.ip),
        advertised(web, interfaces).0 != web ==> spec_is_unspecified(web.ip) && exists|j: int|
            0 <= j < interfaces.len() && interfaces[j].up && !interfaces[j].loopback
                && interfaces[j].addresses@.contains(advertised(web, interfaces).0.ip),
        forall|k: int|
            0 <= k < advertised(web, interfaces).1.len() ==> exists|j: int|
                0 <= j < interfaces.len() && interfaces[j].up && !interfaces[j].loopback
                    && interfaces[j].addresses@.contains(#[trigger] advertised(web, interfaces).1[k]),
{
    lemma_candidate_addresses(interfaces, web.ip);
    let c = candidate_addresses(interfaces, web.ip);
    if spec_is_unspecified(web.ip) && c.len() > 0 {
        assert(c[0] == c[0]);
        assert forall|k: int| 0 <= k < advertised(web, interfaces).1.len() implies exists|j: int|
            0 <= j < interfaces.len() && interfaces[j].up && !interfaces[j].loopback
                && interfaces[j].addresses@.contains(#[trigger] advertised(web, interfaces).1[k]) by {
            assert(advertised(web, interfaces).1[k] == c[k + 1]);
        }
    }
}

/// What the window advertises on `platform`: on Windows, where the
/// interfaces are not looked at, the address listened on and nothing else;
/// elsewhere what `advertised` says.
pub fn advertise_on(platform: Platform, web: SocketAddress, interfaces: &Vec<Interface>) -> (res:
    Advertised)
    ensures
        platform == Platform::Windows ==> res.address == web && res.others@.len() == 0,
        platform != Platform::Windows ==> (res.address, res.others@) == advertised(web, interfaces@),
{
    match platform {
        Platform::Windows => Advertised { address: web, others: Vec::new() },
        _ => advertise(web, interfaces),
    }
}

/// The "any" address is `0.0.0.0` for IPv4 and `::` for IPv6, and no other
/// address is.
pub proof fn law_unspecified_is_all_zero(ip: IpAddress)
    ensures
        spec_is_unspecified(ip) <==> (ip == IpAddress::V4(0, 0, 0, 0) || ip == IpAddress::V6(
            0,
            0,
            0,
            0,
            0,
            0,
            0,
            0,
        )),
{
}

/// The `k`-th address of the `j`-th interface is one a browser could reach:
/// the interface is up and no loopback, and the address is of `bind`'s family.
pub open spec fn is_reachable_at(interfaces: Seq<Interface>, bind: IpAddress, j: int, k: int) -> bool {
    &&& 0 <= j < interfaces.len()
    &&& interfaces[j].up
    &&& !interfaces[j].loopback
    &&& 0 <= k < interfaces[j].addresses@.len()
    &&& same_family(interfaces[j].addresses@[k], bind)
}

/// The first address of `addrs` of `bind`'s family is the first one kept.
proof fn lemma_first_same_family(addrs: Seq<IpAddress>, bind: IpAddress)
    ensures
        same_family_addresses(addrs, bind).len() == 0 <==> forall|k: int|
            0 <= k < addrs.len() ==> !same_family(#[trigger] addrs[k], bind),
        same_family_addresses(addrs, bind).len() > 0 ==> exists|k: int|
            0 <= k < addrs.len() && same_family(addrs[k], bind) && same_family_addresses(addrs, bind)[0]
                == addrs[k] && forall|k2: int| 0 <= k2 < k ==> !same_family(#[trigger] addrs[k2], bind),
    decreases addrs.len(),
{
    if addrs.len() > 0 {
        let init = addrs.drop_last();
        lemma_first_same_family(init, bind);
        let rest = same_family_addresses(init, bind);
        if rest.len() > 0 {
            let k = choose|k: int|
                0 <= k < init.len() && same_family(init[k], bind) && rest[0] == init[k] && forall|k2: int|
                    0 <= k2 < k ==> !same_family(#[trigger] init[k2], bind);
            assert(addrs[k] == init[k]);
            assert forall|k2: int| 0 <= k2 < k implies !same_family(#[trigger] addrs[k2], bind) by {
                assert(addrs[k2] == init[k2]);
            }
            assert(same_family_addresses(addrs, bind)[0] == rest[0]);
        } else {
            assert forall|k2: int| 0 <= k2 < addrs.len() - 1 implies !same_family(#[trigger] addrs[k2], bind) by {
                assert(addrs[k2] == init[k2]);
            }
            if same_family(addrs.last(), bind) {
                assert(same_family_addresses(addrs, bind)[0] == addrs[addrs.len() - 1]);
            } else {
                assert forall|k2: int| 0 <= k2 < addrs.len() implies !same_family(#[trigger] addrs[k2], bind) by {
                    if k2 < addrs.len() - 1 {
                        assert(addrs[k2] == init[k2]);
                    }
                }
            }
        }
    }
}

/// The first candidate address is the first reachable address, interface by
/// interface and address by address; there is none where no address is
/// reachable.
proof fn lemma_first_candidate(interfaces: Seq<Interface>, bind: IpAddress)
    ensures
        candidate_addresses(interfaces, bind).len() == 0 <==> forall|j: int, k: int|
            !#[trigger] is_reachable_at(interfaces, bind, j, k),
        candidate_addresses(interfaces, bind).len() > 0 ==> exists|j: int, k: int|
            #[trigger] is_reachable_at(interfaces, bind, j, k) && candidate_addresses(interfaces, bind)[0]
                == interfaces[j].addresses@[k] && forall|j2: int, k2: int|
                (j2 < j || (j2 == j && k2 < k)) ==> !#[trigger] is_reachable_at(interfaces, bind, j2, k2),
    decreases interfaces.len(),
{
    if interfaces.len() > 0 {
        let init = interfaces.drop_last();
        let last = interfaces.last();
        let n = interfaces.len() - 1;
        lemma_first_candidate(init, bind);
        lemma_first_same_family(last.addresses@, bind);
        let rest = candidate_addresses(init, bind);
        assert forall|j: int, k: int| j < n implies #[trigger] is_reachable_at(interfaces, bind, j, k)
            == is_reachable_at(init, bind, j, k) by {
            if 0 <= j {
                assert(interfaces[j] == init[j]);
            }
        }
        assert(interfaces[n] == last);
        if rest.len() > 0 {
            let (j, k) = choose|j: int, k: int|
                #[trigger] is_reachable_at(init, bind, j, k) && rest[0] == init[j].addresses@[k] && forall|
                    j2: int,
                    k2: int,
                | (j2 < j || (j2 == j && k2 < k)) ==> !#[trigger] is_reachable_at(init, bind, j2, k2);
            assert(is_reachable_at(interfaces, bind, j, k));
            assert(candidate_addresses(interfaces, bind)[0] == rest[0]);
            assert(interfaces[j] == init[j]);
            assert forall|j2: int, k2: int| (j2 < j || (j2 == j && k2 < k)) implies !#[trigger] is_reachable_at(
                interfaces,
                bind,
                j2,
                k2,
            ) by {
                assert(!is_reachable_at(init, bind, j2, k2));
            }
            assert(candidate_addresses(interfaces, bind).len() > 0);
        } else {
            let fam = same_family_addresses(last.addresses@, bind);
            if last.up && !last.loopback && fam.len() > 0 {
                let k = choose|k: int|
                    0 <= k < last.addresses@.len() && same_family(last.addresses@[k], bind) && fam[0]
                        == last.addresses@[k] && forall|k2: int|
                        0 <= k2 < k ==> !same_family(#[trigger] last.addresses@[k2], bind);
                assert(is_reachable_at(interfaces, bind, n, k));
                assert(candidate_addresses(interfaces, bind) =~= rest + fam);
                assert(candidate_addresses(interfaces, bind)[0] == fam[0]);
                assert forall|j2: int, k2: int| (j2 < n || (j2 == n && k2 < k)) implies !#[trigger] is_reachable_at(
                    interfaces,
                    bind,
                    j2,
                    k2,
                ) by {
                    if j2 < n {
                        assert(!is_reachable_at(init, bind, j2, k2));
                    } else if is_reachable_at(interfaces, bind, j2, k2) {
                        assert(!same_family(last.addresses@[k2], bind));
                    }
                }
            } else {
                assert(candidate_addresses(interfaces, bind) =~= rest + fam || candidate_addresses(
                    interfaces,
                    bind,
                ) == rest);
                assert forall|j2: int, k2: int| !#[trigger] is_reachable_at(interfaces, bind, j2, k2) by {
                    if j2 < n {
                        assert(!is_reachable_at(init, bind, j2, k2));
                    } else if j2 == n && is_reachable_at(interfaces, bind, j2, k2) {
                        assert(!same_family(last.addresses@[k2], bind));
                    }
                }
                assert(candidate_addresses(interfaces, bind).len() == 0);
            }
        }
    }
}

/// Where the server listens on the "any" address, the address advertised is
/// the first reachable address of the interfaces, interface by interface and
/// address by address, with the web server's port; where no address is
/// reachable, the "any" address itself.
pub proof fn law_any_address_becomes_first_reachable(web: SocketAddress, interfaces: Seq<Interface>)
    requires
        spec_is_unspecified(web.ip),
    ensures
        (forall|j: int, k: int| !#[trigger] is_reachable_at(interfaces, web.ip, j, k)) ==> advertised(
            web,
            interfaces,
        ).0 == web,
        (exists|j: int, k: int| #[trigger] is_reachable_at(interfaces, web.ip, j, k)) ==> exists|
            j: int,
            k: int,
        |
            #[trigger] is_reachable_at(interfaces, web.ip, j, k) && advertised(web, interfaces).0 == (
            SocketAddress { ip: interfaces[j].addresses@[k], port: web.port }) && forall|
                j2: int,
                k2: int,
            | (j2 < j || (j2 == j && k2 < k)) ==> !#[trigger] is_reachable_at(interfaces, web.ip, j2, k2),
{
    lemma_first_candidate(interfaces, web.ip);
}

} // verus!
