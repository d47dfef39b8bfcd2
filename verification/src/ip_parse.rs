use vstd::prelude::*;
use crate::address::IpAddress;

verus! {

/// The value of `c` as a digit in base `radix` (10, or 16 with letters of
/// either case).
pub open spec fn digit_of(c: char, radix: int) -> Option<int> {
    if '0' <= c && c <= '9' {
        Some(c as int - 0x30)
    } else if radix == 16 && 'a' <= c && c <= 'f' {
        Some(c as int - 0x61 + 10)
    } else if radix == 16 && 'A' <= c && c <= 'F' {
        Some(c as int - 0x41 + 10)
    } else {
        None
    }
}

/// The number of digits in base `radix` in a row from `pos` on.
pub open spec fn digit_run(s: Seq<char>, pos: int, radix: int) -> int
    decreases s.len() - pos,
{
    if pos < 0 || pos >= s.len() || digit_of(s[pos], radix) is None {
        0
    } else {
        1 + digit_run(s, pos + 1, radix)
    }
}

/// The value of the `count` digits from `pos` on.
pub open spec fn digits_value(s: Seq<char>, pos: int, count: int, radix: int) -> int
    decreases count,
{
    if count <= 0 {
        0
    } else {
        digits_value(s, pos, count - 1, radix) * radix + digit_of(s[pos + count - 1], radix)->0
    }
}

/// Reads a number at `pos`: all the digits in a row, at least one and at
/// most `max_digits`, whose value is at most `max`; where `zero_prefix_ok`
/// does not hold, a number of several digits may not begin with `0`. Gives
/// the value and the position after the digits.
pub open spec fn read_number(
    s: Seq<char>,
    pos: int,
    radix: int,
    max_digits: int,
    zero_prefix_ok: bool,
    max: int,
) -> Option<(int, int)> {
    let k = digit_run(s, pos, radix);
    if k == 0 || k > max_digits || digits_value(s, pos, k, radix) > max || (!zero_prefix_ok
        && s[pos] == '0' && k > 1) {
        None
    } else {
        Some((digits_value(s, pos, k, radix), pos + k))
    }
}

/// A decimal part of an IPv4 address at `pos`: one to three digits, at most
/// 255, no leading zero.
pub open spec fn read_octet(s: Seq<char>, pos: int) -> Option<(int, int)> {
    read_number(s, pos, 10, 3, false, 255)
}

/// The character `c` at `pos`, then what `read_octet` reads after it.
pub open spec fn read_char_then_octet(s: Seq<char>, pos: int, c: char) -> Option<(int, int)> {
    if 0 <= pos < s.len() && s[pos] == c {
        read_octet(s, pos + 1)
    } else {
        None
    }
}

/// Reads an IPv4 address at `pos`: four octets separated by dots. Gives the
/// octets and the position after them.
pub open spec fn read_ipv4(s: Seq<char>, pos: int) -> Option<(Seq<int>, int)> {
    match read_octet(s, pos) {
        None => None,
        Some((a, p1)) => match read_char_then_octet(s, p1, '.') {
            None => None,
            Some((b, p2)) => match read_char_then_octet(s, p2, '.') {
                None => None,
                Some((c, p3)) => match read_char_then_octet(s, p3, '.') {
                    None => None,
                    Some((d, p4)) => Some((seq![a, b, c, d], p4)),
                },
            },
        },
    }
}

/// The `i`-th group of a list: a colon first unless it is the first one.
pub open spec fn after_separator(s: Seq<char>, pos: int, i: int) -> Option<int> {
    if i == 0 {
        Some(pos)
    } else if 0 <= pos < s.len() && s[pos] == ':' {
        Some(pos + 1)
    } else {
        None
    }
}

/// Reads up to `limit - i` more groups of an IPv6 address at `pos` after
/// the groups `acc`: hexadecimal numbers of one to four digits separated by
/// colons, where a group that leaves room for two more may be an IPv4
/// address, which counts as two groups and ends the list. Stops before the
/// first group that does not read. Gives the groups, the position after
/// them, and whether they end in an IPv4 address.
pub open spec fn read_groups(s: Seq<char>, pos: int, i: int, limit: int, acc: Seq<u16>) -> (
    Seq<u16>,
    int,
    bool,
)
    decreases limit - i,
{
    if i >= limit {
        (acc, pos, false)
    } else {
        let v4 = if i + 1 < limit {
            match after_separator(s, pos, i) {
                None => None,
                Some(p) => read_ipv4(s, p),
            }
        } else {
            None
        };
        match v4 {
            Some((o, p2)) => (
                acc.push((o[0] * 256 + o[1]) as u16).push((o[2] * 256 + o[3]) as u16),
                p2,
                true,
            ),
            None => match after_separator(s, pos, i) {
                None => (acc, pos, false),
                Some(p) => match read_number(s, p, 16, 4, true, 0xffff) {
                    None => (acc, pos, false),
                    Some((g, p2)) => read_groups(s, p2, i + 1, limit, acc.push(g as u16)),
                },
            },
        }
    }
}

/// Reads an IPv6 address from the start: eight groups, or fewer groups,
/// `::`, and fewer groups again, the `::` standing for as many zero groups
/// as are missing (at least one); an IPv4 address may end the groups, but
/// not before `::`. Gives the eight groups and the position after them.
pub open spec fn read_ipv6(s: Seq<char>) -> Option<(Seq<u16>, int)> {
    let (head, p, v4) = read_groups(s, 0, 0, 8, Seq::empty());
    if head.len() == 8 {
        Some((head, p))
    } else if v4 {
        None
    } else if 0 <= p && p + 1 < s.len() && s[p] == ':' && s[p + 1] == ':' {
        let (tail, p2, _) = read_groups(s, p + 2, 0, 7 - head.len(), Seq::empty());
        Some((head + Seq::new((8 - head.len() - tail.len()) as nat, |i: int| 0u16) + tail, p2))
    } else {
        None
    }
}

/// How a text is read as an IP address, the way `str::parse::<IpAddr>`
/// does: as an IPv4 address if it begins with one, else as an IPv6 address;
/// either way the address must take up the whole text.
pub open spec fn parse_ip(s: Seq<char>) -> Option<IpAddress> {
    match read_ipv4(s, 0) {
        Some((o, p)) => if p == s.len() {
            Some(IpAddress::V4(o[0] as u8, o[1] as u8, o[2] as u8, o[3] as u8))
        } else {
            None
        },
        None => match read_ipv6(s) {
            Some((g, p)) => if p == s.len() {
                Some(IpAddress::V6(g[0], g[1], g[2], g[3], g[4], g[5], g[6], g[7]))
            } else {
                None
            },
            None => None,
        },
    }
}

/// Where the digit run is, and that it stays within the text.
pub(crate) proof fn lemma_digit_run(s: Seq<char>, pos: int, radix: int)
    requires
        0 <= pos <= s.len(),
    ensures
        0 <= digit_run(s, pos, radix),
        pos + digit_run(s, pos, radix) <= s.len(),
        forall|j: int| 0 <= j < digit_run(s, pos, radix) ==> #[trigger] digit_of(s[pos + j], radix) is Some,
        pos + digit_run(s, pos, radix) < s.len() ==> digit_of(
            s[pos + digit_run(s, pos, radix)],
            radix,
        ) is None,
    decreases s.len() - pos,
{
    if pos < s.len() && digit_of(s[pos], radix) is Some {
        lemma_digit_run(s, pos + 1, radix);
        assert forall|j: int| 0 <= j < digit_run(s, pos, radix) implies #[trigger] digit_of(
            s[pos + j],
            radix,
        ) is Some by {
            if j > 0 {
                assert(digit_of(s[(pos + 1) + (j - 1)], radix) is Some);
            }
        }
    }
}

/// The value of more digits is no smaller.
proof fn lemma_digits_value_grows(s: Seq<char>, pos: int, j1: int, j2: int, radix: int)
    requires
        0 <= j1 <= j2,
        radix == 10 || radix == 16,
        forall|j: int| 0 <= j < j2 ==> #[trigger] digit_of(s[pos + j], radix) is Some,
    ensures
        0 <= digits_value(s, pos, j1, radix) <= digits_value(s, pos, j2, radix),
    decreases j2,
{
    if j2 > 0 {
        if j1 < j2 {
            lemma_digits_value_grows(s, pos, j1, j2 - 1, radix);
        } else {
            lemma_digits_value_grows(s, pos, j1 - 1, j2 - 1, radix);
        }
        let v = digits_value(s, pos, j2 - 1, radix);
        assert(digit_of(s[pos + (j2 - 1)], radix) is Some);
        let d = digit_of(s[pos + j2 - 1], radix)->0;
        assert(d >= 0);
        assert(v * radix + d >= v) by (nonlinear_arith)
            requires
                v >= 0,
                radix >= 1,
                d >= 0,
        ;
    }
}

/// The digit value of a character, as `digit_of` says.
fn digit_exec(c: char, radix: u32) -> (res: Option<u32>)
    ensures
        match digit_of(c, radix as int) {
            None => res is None,
            Some(d) => res == Some(d as u32),
        },
{
    if '0' <= c && c <= '9' {
        Some((c as u32) - 0x30)
    } else if radix == 16 && 'a' <= c && c <= 'f' {
        Some((c as u32) - 0x61 + 10)
    } else if radix == 16 && 'A' <= c && c <= 'F' {
        Some((c as u32) - 0x41 + 10)
    } else {
        None
    }
}

/// Reads a number as `read_number` says.
fn read_number_exec(
    cs: &Vec<char>,
    pos: usize,
    radix: u32,
    max_digits: usize,
    zero_prefix_ok: bool,
    max: u32,
) -> (res: Option<(u32, usize)>)
    requires
        pos <= cs@.len(),
        radix == 10 || radix == 16,
        max_digits <= 4,
        max <= 0xffff,
    ensures
        match read_number(cs@, pos as int, radix as int, max_digits as int, zero_prefix_ok, max as int) {
            None => res is None,
            Some((v, p)) => res matches Some((rv, rp)) && rv == v && rp == p,
        },
        res matches Some((v, p)) ==> v <= max && pos < p <= cs@.len(),
{
    let ghost s = cs@;
    let n = cs.len();
    proof {
        lemma_digit_run(s, pos as int, radix as int);
    }
    let mut k: usize = 0;
    while k < n - pos && digit_exec(cs[pos + k], radix).is_some()
        invariant
            n == cs@.len(),
            pos <= cs@.len(),
            s == cs@,
            0 <= k <= digit_run(s, pos as int, radix as int),
            pos + digit_run(s, pos as int, radix as int) <= s.len(),
            forall|j: int| 0 <= j < digit_run(s, pos as int, radix as int) ==> #[trigger] digit_of(s[pos + j], radix as int) is Some,
            pos + digit_run(s, pos as int, radix as int) < s.len() ==> digit_of(
                s[pos + digit_run(s, pos as int, radix as int)],
                radix as int,
            ) is None,
        decreases cs@.len() - k,
    {
        k = k + 1;
    }
    assert(k == digit_run(s, pos as int, radix as int));
    if k == 0 || k > max_digits {
        return None;
    }
    assert(pos + k <= n);
    let mut val: u32 = 0;
    let mut j: usize = 0;
    while j < k
        invariant
            s == cs@,
            n == cs@.len(),
            k == digit_run(s, pos as int, radix as int),
            pos + k <= s.len(),
            1 <= k <= max_digits <= 4,
            radix == 10 || radix == 16,
            max <= 0xffff,
            0 <= j <= k,
            forall|i: int| 0 <= i < k ==> #[trigger] digit_of(s[pos + i], radix as int) is Some,
            val == digits_value(s, pos as int, j as int, radix as int),
            val <= max,
        decreases k - j,
    {
        assert(digit_of(s[pos + j as int], radix as int) is Some);
        let d = digit_exec(cs[pos + j], radix).unwrap();
        let next = val * radix + d;
        proof {
            assert(next == digits_value(s, pos as int, j + 1, radix as int));
        }
        if next > max {
            proof {
                lemma_digits_value_grows(s, pos as int, j + 1, k as int, radix as int);
            }
            return None;
        }
        val = next;
        j = j + 1;
    }
    if !zero_prefix_ok && cs[pos] == '0' && k > 1 {
        return None;
    }
    Some((val, pos + k))
}

/// Reads an octet after the character `c`, as `read_char_then_octet` says.
fn read_char_then_octet_exec(cs: &Vec<char>, pos: usize, c: char) -> (res: Option<(u32, usize)>)
    requires
        pos <= cs@.len(),
    ensures
        match read_char_then_octet(cs@, pos as int, c) {
            None => res is None,
            Some((v, p)) => res matches Some((rv, rp)) && rv == v && rp == p,
        },
        res matches Some((v, p)) ==> v <= 255 && p <= cs@.len(),
{
    if pos < cs.len() && cs[pos] == c {
        read_number_exec(cs, pos + 1, 10, 3, false, 255)
    } else {
        None
    }
}

/// Reads an IPv4 address, as `read_ipv4` says.
fn read_ipv4_exec(cs: &Vec<char>, pos: usize) -> (res: Option<(u8, u8, u8, u8, usize)>)
    requires
        pos <= cs@.len(),
    ensures
        match read_ipv4(cs@, pos as int) {
            None => res is None,
            Some((o, p)) => res matches Some((a, b, c, d, q)) && q == p && a == o[0] && b == o[1]
                && c == o[2] && d == o[3],
        },
        res matches Some((_, _, _, _, q)) ==> q <= cs@.len(),
{
    let (a, p1) = match read_number_exec(cs, pos, 10, 3, false, 255) {
        None => return None,
        Some(r) => r,
    };
    let (b, p2) = match read_char_then_octet_exec(cs, p1, '.') {
        None => return None,
        Some(r) => r,
    };
    let (c, p3) = match read_char_then_octet_exec(cs, p2, '.') {
        None => return None,
        Some(r) => r,
    };
    let (d, p4) = match read_char_then_octet_exec(cs, p3, '.') {
        None => return None,
        Some(r) => r,
    };
    Some((a as u8, b as u8, c as u8, d as u8, p4))
}

/// Where a separator is read, as `after_separator` says.
fn after_separator_exec(cs: &Vec<char>, pos: usize, i: usize) -> (res: Option<usize>)
    requires
        pos <= cs@.len(),
    ensures
        match after_separator(cs@, pos as int, i as int) {
            None => res is None,
            Some(p) => res matches Some(q) && q == p,
        },
{
    if i == 0 {
        Some(pos)
    } else if pos < cs.len() && cs[pos] == ':' {
        Some(pos + 1)
    } else {
        None
    }
}

/// Reads groups, as `read_groups` says.
fn read_groups_exec(cs: &Vec<char>, pos: usize, i: usize, limit: usize, acc: Vec<u16>) -> (res: (
    Vec<u16>,
    usize,
    bool,
))
    requires
        pos <= cs@.len(),
        i <= limit <= 8,
    ensures
        (res.0@, res.1 as int, res.2) == read_groups(cs@, pos as int, i as int, limit as int, acc@),
        res.1 <= cs@.len(),
    decreases limit - i,
{
    if i >= limit {
        return (acc, pos, false);
    }
    if i + 1 < limit {
        if let Some(p) = after_separator_exec(cs, pos, i) {
            if let Some((a, b, c, d, p2)) = read_ipv4_exec(cs, p) {
                let mut acc = acc;
                let hi = (a as u16) * 256 + (b as u16);
                let lo = (c as u16) * 256 + (d as u16);
                acc.push(hi);
                acc.push(lo);
                return (acc, p2, true);
            }
        }
    }
    match after_separator_exec(cs, pos, i) {
        None => (acc, pos, false),
        Some(p) => match read_number_exec(cs, p, 16, 4, true, 0xffff) {
            None => (acc, pos, false),
            Some((g, p2)) => {
                proof {
                    lemma_digit_run(cs@, p as int, 16);
                }
                let mut acc = acc;
                acc.push(g as u16);
                read_groups_exec(cs, p2, i + 1, limit, acc)
            },
        },
    }
}

/// `read_groups` gives at most `limit` groups in all.
proof fn lemma_read_groups_len(s: Seq<char>, pos: int, i: int, limit: int, acc: Seq<u16>)
    requires
        i <= limit,
        acc.len() == i,
    ensures
        acc.len() <= read_groups(s, pos, i, limit, acc).0.len() <= limit,
    decreases limit - i,
{
    if i < limit {
        match after_separator(s, pos, i) {
            None => {},
            Some(p) => match read_number(s, p, 16, 4, true, 0xffff) {
                None => {},
                Some((g, p2)) => lemma_read_groups_len(s, p2, i + 1, limit, acc.push(g as u16)),
            },
        }
    }
}

/// Reads an IPv6 address, as `read_ipv6` says.
fn read_ipv6_exec(cs: &Vec<char>) -> (res: Option<(Vec<u16>, usize)>)
    ensures
        match read_ipv6(cs@) {
            None => res is None,
            Some((g, p)) => res matches Some((v, q)) && v@ == g && q == p,
        },
        res matches Some((v, _)) ==> v@.len() == 8,
{
    proof {
        lemma_read_groups_len(cs@, 0, 0, 8, Seq::empty());
    }
    let (head, p, v4) = read_groups_exec(cs, 0, 0, 8, Vec::new());
    if head.len() == 8 {
        return Some((head, p));
    }
    if v4 {
        return None;
    }
    if p < cs.len() && p + 1 < cs.len() && cs[p] == ':' && cs[p + 1] == ':' {
        let hl = head.len();
        proof {
            lemma_read_groups_len(cs@, p + 2, 0, 7 - hl, Seq::empty());
        }
        let (tail, p2, _) = read_groups_exec(cs, p + 2, 0, 7 - hl, Vec::new());
        let mut groups = head;
        let fill = 8 - hl - tail.len();
        let mut k: usize = 0;
        while k < fill
            invariant
                groups@.len() == hl + k,
                0 <= k <= fill,
                groups@.subrange(0, hl as int) == read_groups(cs@, 0, 0, 8, Seq::empty()).0,
                forall|i: int| hl <= i < hl + k ==> groups@[i] == 0u16,
            decreases fill - k,
        {
            groups.push(0);
            k = k + 1;
        }
        let mut t: usize = 0;
        while t < tail.len()
            invariant
                groups@.len() == hl + fill + t,
                0 <= t <= tail@.len(),
                groups@.subrange(0, hl as int) == read_groups(cs@, 0, 0, 8, Seq::empty()).0,
                forall|i: int| hl <= i < hl + fill ==> groups@[i] == 0u16,
                forall|i: int| 0 <= i < t ==> groups@[hl + fill + i] == tail@[i],
            decreases tail@.len() - t,
        {
            groups.push(tail[t]);
            t = t + 1;
        }
        proof {
            let h = read_groups(cs@, 0, 0, 8, Seq::empty()).0;
            let tl = read_groups(cs@, (p + 2) as int, 0, 7 - h.len(), Seq::empty()).0;
            assert(groups@ =~= h + Seq::new((8 - h.len() - tl.len()) as nat, |i: int| 0u16) + tl);
        }
        Some((groups, p2))
    } else {
        None
    }
}

/// The characters of a text.
fn chars_of(s: &str) -> (res: Vec<char>)
    ensures
        res@ == s@,
{
    let n = s.unicode_len();
    let mut res: Vec<char> = Vec::new();
    let mut i: usize = 0;
    while i < n
        invariant
            n == s@.len(),
            0 <= i <= n,
            res@ == s@.take(i as int),
        decreases n - i,
    {
        res.push(s.get_char(i));
        proof {
            assert(res@ =~= s@.take(i + 1));
        }
        i = i + 1;
    }
    proof {
        assert(s@.take(n as int) =~= s@);
    }
    res
}

/// Reads a text as an IP address, the way `str::parse::<IpAddr>` does; none
/// where it is no IP address.
pub fn parse_ip_address(text: &str) -> (res: Option<IpAddress>)
    ensures
        res == parse_ip(text@),
{
    let cs = chars_of(text);
    match read_ipv4_exec(&cs, 0) {
        Some((a, b, c, d, p)) => {
            if p == cs.len() {
                Some(IpAddress::V4(a, b, c, d))
            } else {
                None
            }
        },
        None => match read_ipv6_exec(&cs) {
            Some((g, p)) => {
                if p == cs.len() && g.len() == 8 {
                    Some(IpAddress::V6(g[0], g[1], g[2], g[3], g[4], g[5], g[6], g[7]))
                } else {
                    None
                }
            },
            None => None,
        },
    }
}

/// `0.0.0.0` reads as the IPv4 "any" address.
pub proof fn lemma_parse_any_ipv4()
    ensures
        parse_ip("0.0.0.0"@) == Some(IpAddress::V4(0, 0, 0, 0)),
{
    reveal_strlit("0.0.0.0");
    let s = "0.0.0.0"@;
    reveal_with_fuel(digit_run, 2);
    reveal_with_fuel(digits_value, 2);
    assert(digit_run(s, 0, 10) == 1);
    assert(digit_run(s, 2, 10) == 1);
    assert(digit_run(s, 4, 10) == 1);
    assert(digit_run(s, 6, 10) == 1);
    assert(read_octet(s, 0) == Some((0int, 1int)));
    assert(read_char_then_octet(s, 1, '.') == Some((0int, 3int)));
    assert(read_char_then_octet(s, 3, '.') == Some((0int, 5int)));
    assert(read_char_then_octet(s, 5, '.') == Some((0int, 7int)));
}

} // verus!
