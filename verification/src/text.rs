use vstd::prelude::*;
use crate::address::{IpAddress, SocketAddress};
use crate::labels::push_char;

verus! {

/// The character of the decimal digit `d`.
pub open spec fn decimal_digit(d: int) -> char {
    (d + 0x30) as char
}

/// The character of the lower-case hexadecimal digit `d`.
pub open spec fn hex_digit_lower(d: int) -> char {
    if d < 10 {
        (d + 0x30) as char
    } else {
        (d - 10 + 0x61) as char
    }
}

/// `n` in decimal, without leading zeros.
pub open spec fn decimal_text(n: nat) -> Seq<char>
    decreases n,
{
    if n < 10 {
        seq![decimal_digit(n as int)]
    } else {
        decimal_text(n / 10).push(decimal_digit((n % 10) as int))
    }
}

/// `n` in lower-case hexadecimal, without leading zeros.
pub open spec fn hex_text(n: nat) -> Seq<char>
    decreases n,
{
    if n < 16 {
        seq![hex_digit_lower(n as int)]
    } else {
        hex_text(n / 16).push(hex_digit_lower((n % 16) as int))
    }
}

/// An IPv4 address in dotted decimal.
pub open spec fn ipv4_text(a: u8, b: u8, c: u8, d: u8) -> Seq<char> {
    decimal_text(a as nat) + seq!['.'] + decimal_text(b as nat) + seq!['.'] + decimal_text(
        c as nat,
    ) + seq!['.'] + decimal_text(d as nat)
}

/// Segments in hexadecimal, separated by colons.
pub open spec fn groups_text(segs: Seq<u16>) -> Seq<char>
    decreases segs.len(),
{
    if segs.len() == 0 {
        Seq::empty()
    } else if segs.len() == 1 {
        hex_text(segs[0] as nat)
    } else {
        groups_text(segs.drop_last()) + seq![':'] + hex_text(segs.last() as nat)
    }
}

/// The `len` segments from `start` on are all zero.
pub open spec fn is_zero_run(segs: Seq<u16>, start: int, len: int) -> bool {
    &&& 0 <= start
    &&& 0 <= len
    &&& start + len <= segs.len()
    &&& forall|i: int| start <= i < start + len ==> segs[i] == 0
}

/// (`start`, `len`) is the longest run of zero segments, the first one
/// where several are longest.
pub open spec fn is_first_longest_zero_run(segs: Seq<u16>, start: int, len: int) -> bool {
    &&& is_zero_run(segs, start, len)
    &&& forall|s: int, l: int| #[trigger] is_zero_run(segs, s, l) ==> l <= len
    &&& forall|s: int| #[trigger] is_zero_run(segs, s, len) ==> start <= s
}

/// The first longest run of zero segments.
pub open spec fn longest_zero_run(segs: Seq<u16>) -> (int, int) {
    choose|r: (int, int)| is_first_longest_zero_run(segs, r.0, r.1)
}

/// The address is an IPv4 address mapped into IPv6 (`::ffff:a.b.c.d`).
pub open spec fn is_ipv4_mapped(segs: Seq<u16>) -> bool {
    segs[0] == 0 && segs[1] == 0 && segs[2] == 0 && segs[3] == 0 && segs[4] == 0 && segs[5]
        == 0xffff
}

/// An IPv6 address of eight segments as `std` writes it: an IPv4-mapped
/// address as `::ffff:` and the dotted IPv4 address; otherwise the segments
/// in lower-case hexadecimal with the first longest run of two or more zero
/// segments written as `::`.
pub open spec fn ipv6_text(segs: Seq<u16>) -> Seq<char> {
    if is_ipv4_mapped(segs) {
        seq![':', ':', 'f', 'f', 'f', 'f', ':'] + ipv4_text(
            (segs[6] / 256) as u8,
            (segs[6] % 256) as u8,
            (segs[7] / 256) as u8,
            (segs[7] % 256) as u8,
        )
    } else {
        let (start, len) = longest_zero_run(segs);
        if len > 1 {
            groups_text(segs.take(start)) + seq![':', ':'] + groups_text(segs.skip(start + len))
        } else {
            groups_text(segs)
        }
    }
}

/// The segments of an IPv6 address.
pub open spec fn segments(a: u16, b: u16, c: u16, d: u16, e: u16, f: u16, g: u16, h: u16) -> Seq<
    u16,
> {
    seq![a, b, c, d, e, f, g, h]
}

/// An IP address as `std` writes it.
pub open spec fn ip_text(ip: IpAddress) -> Seq<char> {
    match ip {
        IpAddress::V4(a, b, c, d) => ipv4_text(a, b, c, d),
        IpAddress::V6(a, b, c, d, e, f, g, h) => ipv6_text(segments(a, b, c, d, e, f, g, h)),
    }
}

/// A socket address as `std` writes it: `ip:port`, the IPv6 address in
/// square brackets.
pub open spec fn socket_text(addr: SocketAddress) -> Seq<char> {
    match addr.ip {
        IpAddress::V4(..) => ip_text(addr.ip) + seq![':'] + decimal_text(addr.port as nat),
        IpAddress::V6(..) => seq!['['] + ip_text(addr.ip) + seq![']', ':'] + decimal_text(
            addr.port as nat,
        ),
    }
}

/// Appends `n` in decimal.
fn push_decimal(s: &mut String, n: u16)
    ensures
        final(s)@ == old(s)@ + decimal_text(n as nat),
    decreases n,
{
    if n >= 10 {
        push_decimal(s, n / 10);
    }
    let d = (n % 10) as u8;
    push_char(s, (d + 0x30) as char);
    proof {
        assert(decimal_digit(d as int) == (d + 0x30) as char);
    }
}

/// Appends `n` in lower-case hexadecimal.
fn push_hex(s: &mut String, n: u16)
    ensures
        final(s)@ == old(s)@ + hex_text(n as nat),
    decreases n,
{
    if n >= 16 {
        push_hex(s, n / 16);
    }
    let d = (n % 16) as u8;
    let c = if d < 10 {
        (d + 0x30) as char
    } else {
        (d - 10 + 0x61) as char
    };
    push_char(s, c);
}

/// Appends an IPv4 address in dotted decimal.
fn push_ipv4(s: &mut String, a: u8, b: u8, c: u8, d: u8)
    ensures
        final(s)@ == old(s)@ + ipv4_text(a, b, c, d),
{
    push_decimal(s, a as u16);
    push_char(s, '.');
    push_decimal(s, b as u16);
    push_char(s, '.');
    push_decimal(s, c as u16);
    push_char(s, '.');
    push_decimal(s, d as u16);
    proof {
        assert(final(s)@ =~= old(s)@ + ipv4_text(a, b, c, d));
    }
}

/// Appends the segments `segs[from..to]` separated by colons.
fn push_groups(s: &mut String, segs: &Vec<u16>, from: usize, to: usize)
    requires
        from <= to <= segs@.len(),
    ensures
        final(s)@ == old(s)@ + groups_text(segs@.subrange(from as int, to as int)),
{
    let mut i = from;
    proof {
        assert(segs@.subrange(from as int, from as int) =~= Seq::<u16>::empty());
    }
    while i < to
        invariant
            from <= i <= to <= segs@.len(),
            s@ == old(s)@ + groups_text(segs@.subrange(from as int, i as int)),
        decreases to - i,
    {
        let ghost before = s@;
        let ghost part = segs@.subrange(from as int, i + 1);
        proof {
            assert(part.drop_last() =~= segs@.subrange(from as int, i as int));
            assert(part.last() == segs@[i as int]);
        }
        if i > from {
            push_char(s, ':');
        }
        push_hex(s, segs[i]);
        proof {
            if i == from {
                assert(part.len() == 1);
                assert(groups_text(segs@.subrange(from as int, i as int)) =~= Seq::<char>::empty());
            }
            assert(s@ =~= old(s)@ + groups_text(part));
        }
        i = i + 1;
    }
}

/// The number of zero segments starting at `start`.
pub open spec fn zeros_from(segs: Seq<u16>, start: int) -> int
    decreases segs.len() - start,
{
    if start < 0 || start >= segs.len() || segs[start] != 0 {
        0
    } else {
        1 + zeros_from(segs, start + 1)
    }
}

/// A run of zeros starting at `start` is exactly a length up to `zeros_from`.
pub(crate) proof fn lemma_zeros_from(segs: Seq<u16>, start: int, len: int)
    requires
        0 <= start <= segs.len(),
        0 <= len,
    ensures
        is_zero_run(segs, start, len) <==> len <= zeros_from(segs, start),
        start + zeros_from(segs, start) <= segs.len(),
        zeros_from(segs, start) >= 0,
    decreases segs.len() - start,
{
    if start < segs.len() {
        if segs[start] == 0 {
            if len > 0 {
                lemma_zeros_from(segs, start + 1, len - 1);
                if is_zero_run(segs, start, len) {
                    assert(is_zero_run(segs, start + 1, len - 1));
                }
                if len <= zeros_from(segs, start) {
                    assert forall|i: int| start <= i < start + len implies segs[i] == 0 by {
                        if i > start {
                            assert(is_zero_run(segs, start + 1, len - 1));
                        }
                    }
                }
            } else {
                lemma_zeros_from(segs, start + 1, 0);
            }
        } else {
            if len > 0 {
                assert(!is_zero_run(segs, start, len)) by {
                    assert(segs[start] != 0);
                }
            }
        }
    }
}

/// Counts the zero segments from `start` on.
fn count_zeros(segs: &Vec<u16>, start: usize) -> (res: usize)
    requires
        start <= segs@.len(),
    ensures
        res == zeros_from(segs@, start as int),
{
    proof {
        lemma_zeros_from(segs@, start as int, 0);
    }
    let mut j = start;
    while j < segs.len() && segs[j] == 0
        invariant
            start <= j <= segs@.len(),
            zeros_from(segs@, start as int) == (j - start) + zeros_from(segs@, j as int),
        decreases segs@.len() - j,
    {
        j = j + 1;
    }
    j - start
}

/// Finds the first longest run of zero segments.
fn find_longest_zero_run(segs: &Vec<u16>) -> (res: (usize, usize))
    ensures
        is_first_longest_zero_run(segs@, res.0 as int, res.1 as int),
{
    let n = segs.len();
    let mut best_start: usize = 0;
    let mut best_len: usize = count_zeros(segs, 0);
    let mut s: usize = 1;
    proof {
        lemma_zeros_from(segs@, 0, 0);
    }
    while s < n
        invariant
            n == segs@.len(),
            1 <= s || n == 0,
            s <= n || n == 0,
            best_start < s || (n == 0 && best_start == 0),
            best_len == zeros_from(segs@, best_start as int),
            best_start + best_len <= n,
            forall|k: int| 0 <= k < s && k < n ==> zeros_from(segs@, k) <= best_len,
            forall|k: int| 0 <= k < best_start ==> zeros_from(segs@, k) < best_len,
        decreases n - s,
    {
        let r = count_zeros(segs, s);
        proof {
            lemma_zeros_from(segs@, s as int, 0);
        }
        if r > best_len {
            best_start = s;
            best_len = r;
        }
        s = s + 1;
    }
    proof {
        let ss = segs@;
        lemma_zeros_from(ss, best_start as int, best_len as int);
        assert forall|st: int, l: int| #[trigger] is_zero_run(ss, st, l) implies l <= best_len by {
            if l > 0 {
                lemma_zeros_from(ss, st, l);
            }
        }
        assert forall|st: int| #[trigger] is_zero_run(ss, st, best_len as int) implies best_start
            <= st by {
            if st < best_start {
                if best_len > 0 {
                    lemma_zeros_from(ss, st, best_len as int);
                }
            }
        }
    }
    (best_start, best_len)
}

/// Two first longest zero runs are the same run.
proof fn lemma_first_longest_unique(segs: Seq<u16>, s1: int, l1: int, s2: int, l2: int)
    requires
        is_first_longest_zero_run(segs, s1, l1),
        is_first_longest_zero_run(segs, s2, l2),
    ensures
        s1 == s2 && l1 == l2,
{
    assert(is_zero_run(segs, s2, l2));
    assert(is_zero_run(segs, s1, l1));
    assert(l1 == l2);
    assert(is_zero_run(segs, s2, l1));
    assert(is_zero_run(segs, s1, l2));
}

/// Appends an IPv6 address as `std` writes it.
fn push_ipv6(s: &mut String, segs: &Vec<u16>)
    requires
        segs@.len() == 8,
    ensures
        final(s)@ == old(s)@ + ipv6_text(segs@),
{
    if segs[0] == 0 && segs[1] == 0 && segs[2] == 0 && segs[3] == 0 && segs[4] == 0 && segs[5]
        == 0xffff {
        push_char(s, ':');
        push_char(s, ':');
        push_char(s, 'f');
        push_char(s, 'f');
        push_char(s, 'f');
        push_char(s, 'f');
        push_char(s, ':');
        push_ipv4(
            s,
            (segs[6] / 256) as u8,
            (segs[6] % 256) as u8,
            (segs[7] / 256) as u8,
            (segs[7] % 256) as u8,
        );
        proof {
            assert(final(s)@ =~= old(s)@ + ipv6_text(segs@));
        }
    } else {
        let (start, len) = find_longest_zero_run(segs);
        proof {
            let r = longest_zero_run(segs@);
            assert(is_first_longest_zero_run(segs@, r.0, r.1));
            lemma_first_longest_unique(segs@, r.0, r.1, start as int, len as int);
        }
        if len > 1 {
            push_groups(s, segs, 0, start);
            push_char(s, ':');
            push_char(s, ':');
            push_groups(s, segs, start + len, 8);
            proof {
                assert(segs@.subrange(0, start as int) =~= segs@.take(start as int));
                assert(segs@.subrange((start + len) as int, 8) =~= segs@.skip((start + len) as int));
                assert(final(s)@ =~= old(s)@ + ipv6_text(segs@));
            }
        } else {
            push_groups(s, segs, 0, 8);
            proof {
                assert(segs@.subrange(0, 8) =~= segs@);
            }
        }
    }
}

/// The text of an IP address, as `std` writes it.
pub fn ip_address_text(ip: &IpAddress) -> (res: String)
    ensures
        res@ == ip_text(*ip),
{
    let mut s = String::new();
    match *ip {
        IpAddress::V4(a, b, c, d) => push_ipv4(&mut s, a, b, c, d),
        IpAddress::V6(a, b, c, d, e, f, g, h) => {
            let segs = vec![a, b, c, d, e, f, g, h];
            proof {
                assert(segs@ =~= segments(a, b, c, d, e, f, g, h));
            }
            push_ipv6(&mut s, &segs);
        },
    }
    proof {
        assert(s@ =~= ip_text(*ip));
    }
    s
}

/// The text of a socket address, as `std` writes it: `ip:port`, an IPv6
/// address in square brackets.
pub fn socket_address_text(addr: &SocketAddress) -> (res: String)
    ensures
        res@ == socket_text(*addr),
{
    let mut s = String::new();
    let v6 = addr.ip.is_ipv6();
    if v6 {
        push_char(&mut s, '[');
    }
    let ip = ip_address_text(&addr.ip);
    s.append(ip.as_str());
    if v6 {
        push_char(&mut s, ']');
    }
    push_char(&mut s, ':');
    push_decimal(&mut s, addr.port);
    proof {
        assert(s@ =~= socket_text(*addr));
    }
    s
}

/// An IPv4 address mapped into IPv6 (`::ffff:a.b.c.d`) is written as
/// `::ffff:` followed by the text of the IPv4 address, whose octets are the
/// last two segments in network byte order (high byte first).
pub proof fn law_mapped_text_embeds_ipv4(g: u16, h: u16)
    ensures
        ip_text(IpAddress::V6(0, 0, 0, 0, 0, 0xffff, g, h)) == seq![':', ':', 'f', 'f', 'f', 'f', ':']
            + ip_text(IpAddress::V4((g / 256) as u8, (g % 256) as u8, (h / 256) as u8, (h % 256) as u8)),
{
    let segs = segments(0, 0, 0, 0, 0, 0xffff, g, h);
    assert(is_ipv4_mapped(segs));
    assert(segs[6] == g && segs[7] == h);
}

} // verus!
