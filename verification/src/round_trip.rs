use vstd::prelude::*;
use crate::address::IpAddress;
use crate::ip_parse::{
    after_separator, digit_of, digit_run, digits_value, lemma_digit_run, parse_ip, read_char_then_octet,
    read_groups, read_ipv4, read_ipv6, read_number, read_octet,
};
use crate::text::{
    decimal_digit, decimal_text, groups_text, hex_digit_lower, hex_text, ip_text, ipv4_text,
    ipv6_text, is_first_longest_zero_run, is_ipv4_mapped, is_zero_run, lemma_zeros_from,
    longest_zero_run, segments, zeros_from,
};

verus! {

/// `t` stands in `s` from `p` on.
pub open spec fn occurs(s: Seq<char>, p: int, t: Seq<char>) -> bool {
    &&& 0 <= p
    &&& p + t.len() <= s.len()
    &&& forall|j: int| 0 <= j < t.len() ==> s[p + j] == #[trigger] t[j]
}

/// Where `x + y` stands, `x` stands and `y` right after it.
proof fn lemma_occurs_split(s: Seq<char>, p: int, x: Seq<char>, y: Seq<char>)
    requires
        occurs(s, p, x + y),
    ensures
        occurs(s, p, x),
        occurs(s, p + x.len(), y),
{
    assert forall|j: int| 0 <= j < x.len() implies s[p + j] == #[trigger] x[j] by {
        assert((x + y)[j] == x[j]);
    }
    assert forall|j: int| 0 <= j < y.len() implies s[p + x.len() + j] == #[trigger] y[j] by {
        assert((x + y)[x.len() + j] == y[j]);
    }
}

/// A digit run of exactly `k` characters.
proof fn lemma_digit_run_exact(s: Seq<char>, p: int, k: int, radix: int)
    requires
        0 <= p,
        0 <= k,
        p + k <= s.len(),
        forall|j: int| 0 <= j < k ==> #[trigger] digit_of(s[p + j], radix) is Some,
        p + k == s.len() || digit_of(s[p + k], radix) is None,
    ensures
        digit_run(s, p, radix) == k,
    decreases k,
{
    if k > 0 {
        assert(digit_of(s[p + 0], radix) is Some);
        assert forall|j: int| 0 <= j < k - 1 implies #[trigger] digit_of(s[(p + 1) + j], radix) is Some by {
            assert(digit_of(s[p + (j + 1)], radix) is Some);
        }
        lemma_digit_run_exact(s, p + 1, k - 1, radix);
    }
}

/// The value of digits depends only on the digits themselves.
proof fn lemma_digits_value_window(s: Seq<char>, p: int, t: Seq<char>, count: int, radix: int)
    requires
        0 <= count <= t.len(),
        forall|j: int| 0 <= j < count ==> s[p + j] == #[trigger] t[j],
    ensures
        digits_value(s, p, count, radix) == digits_value(t, 0, count, radix),
    decreases count,
{
    if count > 0 {
        lemma_digits_value_window(s, p, t, count - 1, radix);
        assert(s[p + (count - 1)] == t[count - 1]);
    }
}

/// Each hexadecimal digit that is written reads back as its value.
proof fn lemma_hex_digit(d: int)
    requires
        0 <= d < 16,
    ensures
        digit_of(hex_digit_lower(d), 16) == Some(d),
        digit_of(hex_digit_lower(d), 10) is None || d < 10,
{
}

/// Each decimal digit that is written reads back as its value.
proof fn lemma_decimal_digit(d: int)
    requires
        0 <= d < 10,
    ensures
        digit_of(decimal_digit(d), 10) == Some(d),
        digit_of(decimal_digit(d), 16) == Some(d),
        d > 0 ==> decimal_digit(d) != '0',
{
}


/// What `hex_text` writes: one to four hexadecimal digits for a 16-bit
/// number, reading back as the number.
proof fn lemma_hex_text(n: nat)
    ensures
        1 <= hex_text(n).len(),
        n < 16 ==> hex_text(n).len() == 1,
        n < 0x100 ==> hex_text(n).len() <= 2,
        n < 0x1000 ==> hex_text(n).len() <= 3,
        n < 0x10000 ==> hex_text(n).len() <= 4,
        forall|j: int| 0 <= j < hex_text(n).len() ==> #[trigger] digit_of(hex_text(n)[j], 16) is Some,
        forall|j: int| 0 <= j < hex_text(n).len() ==> #[trigger] hex_text(n)[j] != ':',
        digits_value(hex_text(n), 0, hex_text(n).len() as int, 16) == n,
    decreases n,
{
    let t = hex_text(n);
    if n < 16 {
        lemma_hex_digit(n as int);
        assert(t[0] == hex_digit_lower(n as int));
        assert(digits_value(t, 0, 0, 16) == 0);
    } else {
        let u = hex_text(n / 16);
        lemma_hex_text(n / 16);
        lemma_hex_digit((n % 16) as int);
        assert(t == u.push(hex_digit_lower((n % 16) as int)));
        assert forall|j: int| 0 <= j < t.len() implies #[trigger] digit_of(t[j], 16) is Some && t[j] != ':' by {
            if j < u.len() {
                assert(t[j] == u[j]);
                assert(digit_of(u[j], 16) is Some);
                assert(u[j] != ':');
            }
        }
        assert forall|j: int| 0 <= j < u.len() implies t[0 + j] == #[trigger] u[j] by {}
        lemma_digits_value_window(t, 0, u, u.len() as int, 16);
        assert(t[t.len() - 1] == hex_digit_lower((n % 16) as int));
        assert(digits_value(t, 0, t.len() as int, 16) == digits_value(t, 0, u.len() as int, 16) * 16
            + (n % 16));
    }
}

/// What `decimal_text` writes: one to three decimal digits for a number
/// below 1000, reading back as the number, with no leading zero.
proof fn lemma_decimal_text(n: nat)
    ensures
        1 <= decimal_text(n).len(),
        n < 10 ==> decimal_text(n).len() == 1,
        n < 100 ==> decimal_text(n).len() <= 2,
        n < 1000 ==> decimal_text(n).len() <= 3,
        n >= 1 ==> decimal_text(n)[0] != '0',
        forall|j: int| 0 <= j < decimal_text(n).len() ==> #[trigger] digit_of(decimal_text(n)[j], 10) is Some,
        forall|j: int| 0 <= j < decimal_text(n).len() ==> #[trigger] decimal_text(n)[j] != '.',
        forall|j: int| 0 <= j < decimal_text(n).len() ==> #[trigger] decimal_text(n)[j] != ':',
        digits_value(decimal_text(n), 0, decimal_text(n).len() as int, 10) == n,
    decreases n,
{
    let t = decimal_text(n);
    if n < 10 {
        lemma_decimal_digit(n as int);
        assert(t[0] == decimal_digit(n as int));
        assert(digits_value(t, 0, 0, 10) == 0);
    } else {
        let u = decimal_text(n / 10);
        lemma_decimal_text(n / 10);
        lemma_decimal_digit((n % 10) as int);
        assert(t == u.push(decimal_digit((n % 10) as int)));
        assert(t[0] == u[0]);
        assert forall|j: int| 0 <= j < t.len() implies #[trigger] digit_of(t[j], 10) is Some && t[j] != '.'
            && t[j] != ':' by {
            if j < u.len() {
                assert(t[j] == u[j]);
                assert(digit_of(u[j], 10) is Some);
                assert(u[j] != '.');
                assert(u[j] != ':');
            }
        }
        assert forall|j: int| 0 <= j < u.len() implies t[0 + j] == #[trigger] u[j] by {}
        lemma_digits_value_window(t, 0, u, u.len() as int, 10);
        assert(t[t.len() - 1] == decimal_digit((n % 10) as int));
        assert(digits_value(t, 0, t.len() as int, 10) == digits_value(t, 0, u.len() as int, 10) * 10
            + (n % 10));
    }
}

/// A group written in hexadecimal, and not followed by another hexadecimal
/// digit, reads back as the group.
proof fn lemma_read_hex_group(s: Seq<char>, p: int, n: nat)
    requires
        n < 0x10000,
        occurs(s, p, hex_text(n)),
        p + hex_text(n).len() == s.len() || digit_of(s[p + hex_text(n).len()], 16) is None,
    ensures
        read_number(s, p, 16, 4, true, 0xffff) == Some((n as int, p + hex_text(n).len())),
{
    let t = hex_text(n);
    lemma_hex_text(n);
    assert forall|j: int| 0 <= j < t.len() implies #[trigger] digit_of(s[p + j], 16) is Some by {
        assert(s[p + j] == t[j]);
    }
    lemma_digit_run_exact(s, p, t.len() as int, 16);
    lemma_digits_value_window(s, p, t, t.len() as int, 16);
}

/// A number below 256 written in decimal, and not followed by another
/// decimal digit, reads back as an octet.
proof fn lemma_read_decimal_octet(s: Seq<char>, p: int, n: nat)
    requires
        n < 256,
        occurs(s, p, decimal_text(n)),
        p + decimal_text(n).len() == s.len() || digit_of(s[p + decimal_text(n).len()], 10) is None,
    ensures
        read_octet(s, p) == Some((n as int, p + decimal_text(n).len())),
{
    let t = decimal_text(n);
    lemma_decimal_text(n);
    assert forall|j: int| 0 <= j < t.len() implies #[trigger] digit_of(s[p + j], 10) is Some by {
        assert(s[p + j] == t[j]);
    }
    lemma_digit_run_exact(s, p, t.len() as int, 10);
    lemma_digits_value_window(s, p, t, t.len() as int, 10);
    assert(s[p + 0] == t[0]);
}

/// An IPv4 address written in dotted decimal, up to the end of the text,
/// reads back as its four octets.
proof fn lemma_read_ipv4_text(s: Seq<char>, p: int, a: u8, b: u8, c: u8, d: u8)
    requires
        occurs(s, p, ipv4_text(a, b, c, d)),
        p + ipv4_text(a, b, c, d).len() == s.len(),
    ensures
        read_ipv4(s, p) == Some((seq![a as int, b as int, c as int, d as int], s.len() as int)),
{
    let ta = decimal_text(a as nat);
    let tb = decimal_text(b as nat);
    let tc = decimal_text(c as nat);
    let td = decimal_text(d as nat);
    let dot = seq!['.'];
    let x1 = ta + dot;
    let x2 = x1 + tb;
    let x3 = x2 + dot;
    let x4 = x3 + tc;
    let x5 = x4 + dot;
    assert(ipv4_text(a, b, c, d) == x5 + td);
    lemma_occurs_split(s, p, x5, td);
    lemma_occurs_split(s, p, x4, dot);
    lemma_occurs_split(s, p, x3, tc);
    lemma_occurs_split(s, p, x2, dot);
    lemma_occurs_split(s, p, x1, tb);
    lemma_occurs_split(s, p, ta, dot);
    let p1 = p + ta.len();
    let p2 = p1 + 1 + tb.len();
    let p3 = p2 + 1 + tc.len();
    let p4 = p3 + 1 + td.len();
    assert(dot[0] == '.');
    assert(s[p1] == '.') by { assert(s[p1 + 0] == dot[0]); }
    assert(s[p2] == '.') by { assert(s[p2 + 0] == dot[0]); }
    assert(s[p3] == '.') by { assert(s[p3 + 0] == dot[0]); }
    lemma_read_decimal_octet(s, p, a as nat);
    lemma_read_decimal_octet(s, p1 + 1, b as nat);
    lemma_read_decimal_octet(s, p2 + 1, c as nat);
    lemma_read_decimal_octet(s, p3 + 1, d as nat);
    assert(read_char_then_octet(s, p1, '.') == Some((b as int, p2)));
    assert(read_char_then_octet(s, p2, '.') == Some((c as int, p3)));
    assert(read_char_then_octet(s, p3, '.') == Some((d as int, p4)));
}

/// A text without a dot holds no IPv4 address.
proof fn lemma_no_dot_no_ipv4(s: Seq<char>, p: int)
    requires
        forall|j: int| 0 <= j < s.len() ==> #[trigger] s[j] != '.',
    ensures
        read_ipv4(s, p) is None,
{
    match read_octet(s, p) {
        None => {},
        Some((v, p1)) => {
            assert(read_char_then_octet(s, p1, '.') is None);
        },
    }
}

/// Groups that follow earlier ones: each written after a colon.
pub open spec fn colon_groups(segs: Seq<u16>) -> Seq<char> {
    if segs.len() == 0 {
        Seq::empty()
    } else {
        seq![':'] + groups_text(segs)
    }
}

/// The text of groups read from the `i`-th on: after a colon unless they
/// come first.
pub open spec fn groups_from(i: int, segs: Seq<u16>) -> Seq<char> {
    if i == 0 {
        groups_text(segs)
    } else {
        colon_groups(segs)
    }
}

/// Where a list of groups may end: at the end of the text or at `::`.
pub open spec fn ends_groups(s: Seq<char>, q: int) -> bool {
    q == s.len() || (0 <= q && q + 1 < s.len() && s[q] == ':' && s[q + 1] == ':')
}

/// Groups written one after the other: the first group, then the others
/// each after a colon.
proof fn lemma_groups_text_front(segs: Seq<u16>)
    requires
        segs.len() >= 1,
    ensures
        groups_text(segs) =~= hex_text(segs[0] as nat) + colon_groups(segs.drop_first()),
    decreases segs.len(),
{
    if segs.len() >= 2 {
        let dl = segs.drop_last();
        lemma_groups_text_front(dl);
        assert(dl[0] == segs[0]);
        let df = segs.drop_first();
        if segs.len() == 2 {
            assert(dl.drop_first().len() == 0);
            assert(df =~= seq![segs[1]]);
            assert(groups_text(df) == hex_text(segs[1] as nat));
        } else {
            assert(dl.drop_first() =~= df.drop_last());
            assert(df.last() == segs.last());
            assert(groups_text(df) == groups_text(df.drop_last()) + seq![':'] + hex_text(
                df.last() as nat,
            ));
        }
    }
}

/// Groups are written with hexadecimal digits and colons only.
proof fn lemma_groups_text_chars(segs: Seq<u16>)
    ensures
        forall|j: int| 0 <= j < groups_text(segs).len() ==> #[trigger] groups_text(segs)[j] != '.',
    decreases segs.len(),
{
    let t = groups_text(segs);
    if segs.len() == 1 {
        lemma_hex_text(segs[0] as nat);
        assert forall|j: int| 0 <= j < t.len() implies #[trigger] t[j] != '.' by {
            assert(digit_of(hex_text(segs[0] as nat)[j], 16) is Some);
        }
    } else if segs.len() >= 2 {
        let u = groups_text(segs.drop_last());
        let h = hex_text(segs.last() as nat);
        lemma_groups_text_chars(segs.drop_last());
        lemma_hex_text(segs.last() as nat);
        assert forall|j: int| 0 <= j < t.len() implies #[trigger] t[j] != '.' by {
            if j < u.len() {
                assert(t[j] == u[j]);
            } else if j == u.len() {
                assert(t[j] == ':');
            } else {
                assert(t[j] == h[j - u.len() - 1]);
                assert(digit_of(h[j - u.len() - 1], 16) is Some);
            }
        }
    }
}

/// Reading groups over their written text gives them back, and stops where
/// their text ends.
proof fn lemma_read_groups_text(
    s: Seq<char>,
    pos: int,
    i: int,
    limit: int,
    acc: Seq<u16>,
    segs: Seq<u16>,
)
    requires
        forall|j: int| 0 <= j < s.len() ==> #[trigger] s[j] != '.',
        0 <= i,
        i + segs.len() <= limit,
        occurs(s, pos, groups_from(i, segs)),
        ends_groups(s, pos + groups_from(i, segs).len()),
    ensures
        read_groups(s, pos, i, limit, acc) == (acc + segs, pos + groups_from(i, segs).len(), false),
    decreases segs.len(),
{
    let t = groups_from(i, segs);
    let q = pos + t.len();
    if i < limit {
        match after_separator(s, pos, i) {
            None => {},
            Some(p) => lemma_no_dot_no_ipv4(s, p),
        }
    }
    if segs.len() == 0 {
        assert(t.len() == 0);
        assert(acc + segs =~= acc);
        if i < limit {
            match after_separator(s, pos, i) {
                None => {},
                Some(p) => {
                    assert(digit_run(s, p, 16) == 0);
                },
            }
        }
    } else {
        let s0 = segs[0];
        let df = segs.drop_first();
        let h = hex_text(s0 as nat);
        lemma_groups_text_front(segs);
        let p = if i == 0 {
            pos
        } else {
            pos + 1
        };
        if i == 0 {
            assert(t == h + colon_groups(df));
        } else {
            assert(t == seq![':'] + groups_text(segs));
            assert(s[pos + 0] == t[0]);
            assert(t =~= seq![':'] + (h + colon_groups(df)));
            lemma_occurs_split(s, pos, seq![':'], h + colon_groups(df));
        }
        assert(occurs(s, p, h + colon_groups(df)));
        lemma_occurs_split(s, p, h, colon_groups(df));
        assert(after_separator(s, pos, i) == Some(p));
        let e = p + h.len();
        if df.len() > 0 {
            assert(colon_groups(df)[0] == ':');
            assert(s[e + 0] == colon_groups(df)[0]);
        }
        lemma_read_hex_group(s, p, s0 as nat);
        assert(groups_from(i + 1, df) == colon_groups(df));
        lemma_read_groups_text(s, e, i + 1, limit, acc.push(s0), df);
        assert(acc.push(s0) + df =~= acc + segs);
    }
}

/// Scans the starts from `s` on for the first longest run of zero
/// segments, `(bs, bl)` being the best one before `s`.
proof fn scan_longest_zero_run(segs: Seq<u16>, s: int, bs: int, bl: int) -> (r: (int, int))
    requires
        1 <= s <= segs.len(),
        0 <= bs < s,
        bl == zeros_from(segs, bs),
        forall|k: int| 0 <= k < s ==> zeros_from(segs, k) <= bl,
        forall|k: int| 0 <= k < bs ==> zeros_from(segs, k) < bl,
    ensures
        is_first_longest_zero_run(segs, r.0, r.1),
    decreases segs.len() - s,
{
    lemma_zeros_from(segs, bs, 0);
    if s < segs.len() {
        lemma_zeros_from(segs, s, 0);
        if zeros_from(segs, s) > bl {
            scan_longest_zero_run(segs, s + 1, s, zeros_from(segs, s))
        } else {
            scan_longest_zero_run(segs, s + 1, bs, bl)
        }
    } else {
        lemma_zeros_from(segs, bs, bl);
        assert forall|st: int, l: int| #[trigger] is_zero_run(segs, st, l) implies l <= bl by {
            if l > 0 {
                lemma_zeros_from(segs, st, l);
            }
        }
        assert forall|st: int| #[trigger] is_zero_run(segs, st, bl) implies bs <= st by {
            if st < bs {
                lemma_zeros_from(segs, st, bl);
                lemma_zeros_from(segs, st, 0);
            }
        }
        (bs, bl)
    }
}

/// Every address of eight segments has a first longest run of zeros.
proof fn lemma_longest_zero_run(segs: Seq<u16>)
    requires
        segs.len() == 8,
    ensures
        is_first_longest_zero_run(segs, longest_zero_run(segs).0, longest_zero_run(segs).1),
{
    lemma_zeros_from(segs, 0, 0);
    let r = scan_longest_zero_run(segs, 1, 0, zeros_from(segs, 0));
    assert(is_first_longest_zero_run(segs, r.0, r.1));
}

/// The text of an IPv4-mapped IPv6 address reads back as the address.
proof fn lemma_mapped_text_reads_back(segs: Seq<u16>, s: Seq<char>)
    requires
        segs.len() == 8,
        is_ipv4_mapped(segs),
        s == seq![':', ':', 'f', 'f', 'f', 'f', ':'] + ipv4_text(
            (segs[6] / 256) as u8,
            (segs[6] % 256) as u8,
            (segs[7] / 256) as u8,
            (segs[7] % 256) as u8,
        ),
    ensures
        read_ipv4(s, 0) is None,
        read_ipv6(s) == Some((segs, s.len() as int)),
{
    let a = (segs[6] / 256) as u8;
    let b = (segs[6] % 256) as u8;
    let c = (segs[7] / 256) as u8;
    let d = (segs[7] % 256) as u8;
    let m = seq![':', ':', 'f', 'f', 'f', 'f', ':'];
    let v = ipv4_text(a, b, c, d);
    assert(s[0] == ':' && s[1] == ':' && s[2] == 'f' && s[3] == 'f' && s[4] == 'f' && s[5] == 'f'
        && s[6] == ':') by {
        assert(s[0] == m[0] && s[1] == m[1] && s[2] == m[2] && s[3] == m[3]);
        assert(s[4] == m[4] && s[5] == m[5] && s[6] == m[6]);
    }
    assert(digit_run(s, 0, 10) == 0);
    assert(digit_run(s, 0, 16) == 0);
    assert(digit_run(s, 2, 10) == 0);
    assert(read_ipv4(s, 0) is None);
    assert(read_ipv4(s, 2) is None);
    assert(read_number(s, 0, 16, 4, true, 0xffff) is None);
    assert(read_groups(s, 0, 0, 8, Seq::empty()) == (Seq::<u16>::empty(), 0int, false));
    assert forall|j: int| 0 <= j < 4 implies #[trigger] digit_of(s[2 + j], 16) is Some by {
        assert(s[2 + j] == 'f');
    }
    lemma_digit_run_exact(s, 2, 4, 16);
    assert(digits_value(s, 2, 4, 16) == 0xffff) by {
        reveal_with_fuel(digits_value, 5);
    }
    assert(read_number(s, 2, 16, 4, true, 0xffff) == Some((0xffffint, 6int)));
    assert forall|j: int| 0 <= j < v.len() implies s[7 + j] == #[trigger] v[j] by {
        assert(s[7 + j] == (m + v)[7 + j]);
    }
    lemma_read_ipv4_text(s, 7, a, b, c, d);
    let o = seq![a as int, b as int, c as int, d as int];
    assert((o[0] * 256 + o[1]) as u16 == segs[6]);
    assert((o[2] * 256 + o[3]) as u16 == segs[7]);
    assert(after_separator(s, 6, 1) == Some(7int));
    let tail = seq![0xffffu16].push(segs[6]).push(segs[7]);
    assert(read_groups(s, 6, 1, 7, seq![0xffffu16]) == (tail, s.len() as int, true));
    assert(Seq::<u16>::empty().push(0xffffu16) =~= seq![0xffffu16]);
    assert(read_groups(s, 2, 0, 7, Seq::empty()) == (tail, s.len() as int, true));
    assert(Seq::<u16>::empty() + Seq::new(5, |i: int| 0u16) + tail =~= segs);
}

/// What `parse_ip` gives for a text that is no IPv4 address and reads as
/// an IPv6 address up to its end.
proof fn lemma_parse_as_v6(s: Seq<char>, segs: Seq<u16>)
    requires
        segs.len() == 8,
        read_ipv4(s, 0) is None,
        read_ipv6(s) == Some((segs, s.len() as int)),
    ensures
        parse_ip(s) == Some(
            IpAddress::V6(segs[0], segs[1], segs[2], segs[3], segs[4], segs[5], segs[6], segs[7]),
        ),
{
}

/// The text of an IPv6 address that is not IPv4-mapped reads back as the
/// address.
proof fn lemma_plain_v6_text_reads_back(segs: Seq<u16>)
    requires
        segs.len() == 8,
        !is_ipv4_mapped(segs),
    ensures
        read_ipv4(ipv6_text(segs), 0) is None,
        read_ipv6(ipv6_text(segs)) == Some((segs, ipv6_text(segs).len() as int)),
{
    let s = ipv6_text(segs);
    lemma_longest_zero_run(segs);
    let (start, len) = longest_zero_run(segs);
    if len > 1 {
        let h = segs.take(start);
        let t = segs.skip(start + len);
        let gh = groups_text(h);
        let gt = groups_text(t);
        let cc = seq![':', ':'];
        assert(s == gh + cc + gt);
        lemma_groups_text_chars(h);
        lemma_groups_text_chars(t);
        assert forall|j: int| 0 <= j < s.len() implies #[trigger] s[j] != '.' by {
            if j < gh.len() {
                assert(s[j] == gh[j]);
            } else if j < gh.len() + 2 {
                assert(s[j] == cc[j - gh.len()]);
            } else {
                assert(s[j] == gt[j - gh.len() - 2]);
            }
        }
        lemma_no_dot_no_ipv4(s, 0);
        assert(s[gh.len() as int] == ':' && s[gh.len() + 1int] == ':');
        assert forall|j: int| 0 <= j < gh.len() implies s[0 + j] == #[trigger] gh[j] by {
            assert(s[j] == gh[j]);
        }
        assert(groups_from(0, h) == gh);
        lemma_read_groups_text(s, 0, 0, 8, Seq::empty(), h);
        assert(Seq::<u16>::empty() + h =~= h);
        let p = gh.len() as int;
        assert forall|j: int| 0 <= j < gt.len() implies s[(p + 2) + j] == #[trigger] gt[j] by {
            assert(s[p + 2 + j] == gt[j]);
        }
        assert(groups_from(0, t) == gt);
        lemma_read_groups_text(s, p + 2, 0, 7 - h.len(), Seq::empty(), t);
        assert(Seq::<u16>::empty() + t =~= t);
        assert(h + Seq::new((8 - h.len() - t.len()) as nat, |i: int| 0u16) + t =~= segs);
    } else {
        assert(s == groups_text(segs));
        lemma_groups_text_chars(segs);
        lemma_no_dot_no_ipv4(s, 0);
        assert forall|j: int| 0 <= j < s.len() implies s[0 + j] == #[trigger] s[j] by {}
        assert(groups_from(0, segs) == s);
        lemma_read_groups_text(s, 0, 0, 8, Seq::empty(), segs);
        assert(Seq::<u16>::empty() + segs =~= segs);
    }
}

/// The dotted text of an IPv4 address reads back as the address.
proof fn lemma_v4_text_reads_back(a: u8, b: u8, c: u8, d: u8)
    ensures
        parse_ip(ipv4_text(a, b, c, d)) == Some(IpAddress::V4(a, b, c, d)),
{
    let s = ipv4_text(a, b, c, d);
    assert(occurs(s, 0, s)) by {
        assert forall|j: int| 0 <= j < s.len() implies s[0 + j] == #[trigger] s[j] by {}
    }
    lemma_read_ipv4_text(s, 0, a, b, c, d);
    lemma_parse_as_v4(s, seq![a as int, b as int, c as int, d as int]);
}

/// What `parse_ip` gives for a text that reads as an IPv4 address up to
/// its end.
proof fn lemma_parse_as_v4(s: Seq<char>, o: Seq<int>)
    requires
        read_ipv4(s, 0) == Some((o, s.len() as int)),
    ensures
        parse_ip(s) == Some(IpAddress::V4(o[0] as u8, o[1] as u8, o[2] as u8, o[3] as u8)),
{
}

/// The text of an IPv6 address reads back as the address.
proof fn lemma_v6_text_reads_back(segs: Seq<u16>)
    requires
        segs.len() == 8,
    ensures
        parse_ip(ipv6_text(segs)) == Some(
            IpAddress::V6(segs[0], segs[1], segs[2], segs[3], segs[4], segs[5], segs[6], segs[7]),
        ),
{
    let s = ipv6_text(segs);
    if is_ipv4_mapped(segs) {
        lemma_mapped_text_reads_back(segs, s);
    } else {
        lemma_plain_v6_text_reads_back(segs);
    }
    lemma_parse_as_v6(s, segs);
}

/// The text that `std` writes for an IP address reads back as the same
/// address: `str::parse::<IpAddr>` undoes `to_string`, for IPv4 and IPv6
/// addresses alike, the compressed and the IPv4-mapped forms included.
pub proof fn law_address_text_reads_back(ip: IpAddress)
    ensures
        parse_ip(ip_text(ip)) == Some(ip),
{
    match ip {
        IpAddress::V4(a, b, c, d) => lemma_v4_text_reads_back(a, b, c, d),
        IpAddress::V6(a, b, c, d, e, f, g, h) => {
            let segs = segments(a, b, c, d, e, f, g, h);
            lemma_v6_text_reads_back(segs);
            assert(ip_text(ip) == ipv6_text(segs));
        },
    }
}

/// Where `x` stands and `y` right after it, `x + y` stands.
proof fn lemma_occurs_join(s: Seq<char>, p: int, x: Seq<char>, y: Seq<char>)
    requires
        occurs(s, p, x),
        occurs(s, p + x.len(), y),
    ensures
        occurs(s, p, x + y),
{
    assert forall|j: int| 0 <= j < (x + y).len() implies s[p + j] == #[trigger] (x + y)[j] by {
        if j < x.len() {
            assert(s[p + j] == x[j]);
        } else {
            assert(s[p + x.len() + (j - x.len())] == y[j - x.len()]);
        }
    }
}

/// Decimal digits that begin with a digit other than `0` have a value of at
/// least one.
proof fn lemma_digits_value_positive(s: Seq<char>, p: int, k: int)
    requires
        1 <= k,
        forall|j: int| 0 <= j < k ==> #[trigger] digit_of(s[p + j], 10) is Some,
        s[p] != '0',
    ensures
        digits_value(s, p, k, 10) >= 1,
    decreases k,
{
    assert(digit_of(s[p + (k - 1)], 10) is Some);
    if k == 1 {
        assert(digits_value(s, p, 0, 10) == 0);
        assert(s[p + 0] == s[p]);
    } else {
        lemma_digits_value_positive(s, p, k - 1);
    }
}

/// Decimal digits without a leading zero are the decimal text of their
/// value.
proof fn lemma_digits_are_decimal_text(s: Seq<char>, p: int, k: int)
    requires
        0 <= p,
        1 <= k,
        p + k <= s.len(),
        forall|j: int| 0 <= j < k ==> #[trigger] digit_of(s[p + j], 10) is Some,
        k > 1 ==> s[p] != '0',
    ensures
        digits_value(s, p, k, 10) >= 0,
        decimal_text(digits_value(s, p, k, 10) as nat).len() == k,
        occurs(s, p, decimal_text(digits_value(s, p, k, 10) as nat)),
    decreases k,
{
    let v = digits_value(s, p, k, 10);
    let c = s[p + (k - 1)];
    assert(digit_of(c, 10) is Some);
    let d = digit_of(c, 10)->0;
    assert(0 <= d < 10 && c == decimal_digit(d));
    if k == 1 {
        assert(digits_value(s, p, 0, 10) == 0);
        assert(v == d);
        assert(decimal_text(v as nat) == seq![decimal_digit(d)]);
        assert(s[p + 0] == c);
    } else {
        let w = digits_value(s, p, k - 1, 10);
        lemma_digits_are_decimal_text(s, p, k - 1);
        lemma_digits_value_positive(s, p, k - 1);
        assert(v == w * 10 + d);
        assert(v >= 10);
        assert(v / 10 == w && v % 10 == d);
        let u = decimal_text(w as nat);
        assert(decimal_text(v as nat) == u.push(decimal_digit(d)));
        assert(u.push(decimal_digit(d)) =~= u + seq![decimal_digit(d)]);
        assert(occurs(s, p + u.len(), seq![decimal_digit(d)])) by {
            assert(s[p + u.len() + 0] == c);
        }
        lemma_occurs_join(s, p, u, seq![decimal_digit(d)]);
    }
}

/// An octet that reads is the decimal text of its value.
proof fn lemma_octet_is_decimal_text(s: Seq<char>, p: int)
    requires
        0 <= p <= s.len(),
        read_octet(s, p) is Some,
    ensures
        read_octet(s, p) matches Some((v, e)) && 0 <= v <= 255 && e == p + decimal_text(
            v as nat,
        ).len() && occurs(s, p, decimal_text(v as nat)),
{
    lemma_digit_run(s, p, 10);
    let k = digit_run(s, p, 10);
    lemma_digits_are_decimal_text(s, p, k);
}

/// A text that reads as an IPv4 address is the dotted text of the address:
/// `str::parse::<IpAddr>` takes no leading zeros, no spaces and nothing
/// after the fourth octet, so each IPv4 address has exactly one text.
pub proof fn law_ipv4_text_is_unique(s: Seq<char>, a: u8, b: u8, c: u8, d: u8)
    requires
        parse_ip(s) == Some(IpAddress::V4(a, b, c, d)),
    ensures
        s == ip_text(IpAddress::V4(a, b, c, d)),
{
    assert(read_ipv4(s, 0) is Some);
    lemma_octet_is_decimal_text(s, 0);
    let (va, p1) = read_octet(s, 0)->0;
    assert(read_char_then_octet(s, p1, '.') is Some);
    lemma_octet_is_decimal_text(s, p1 + 1);
    let (vb, p2) = read_octet(s, p1 + 1)->0;
    assert(read_char_then_octet(s, p2, '.') is Some);
    lemma_octet_is_decimal_text(s, p2 + 1);
    let (vc, p3) = read_octet(s, p2 + 1)->0;
    assert(read_char_then_octet(s, p3, '.') is Some);
    lemma_octet_is_decimal_text(s, p3 + 1);
    let (vd, p4) = read_octet(s, p3 + 1)->0;
    assert(p4 == s.len());
    assert(va == a && vb == b && vc == c && vd == d);
    let ta = decimal_text(a as nat);
    let tb = decimal_text(b as nat);
    let tc = decimal_text(c as nat);
    let td = decimal_text(d as nat);
    let dot = seq!['.'];
    assert(occurs(s, p1, dot)) by { assert(s[p1 + 0] == dot[0]); }
    assert(occurs(s, p2, dot)) by { assert(s[p2 + 0] == dot[0]); }
    assert(occurs(s, p3, dot)) by { assert(s[p3 + 0] == dot[0]); }
    lemma_occurs_join(s, 0, ta, dot);
    lemma_occurs_join(s, 0, ta + dot, tb);
    lemma_occurs_join(s, 0, ta + dot + tb, dot);
    lemma_occurs_join(s, 0, ta + dot + tb + dot, tc);
    lemma_occurs_join(s, 0, ta + dot + tb + dot + tc, dot);
    lemma_occurs_join(s, 0, ta + dot + tb + dot + tc + dot, td);
    let t = ipv4_text(a, b, c, d);
    assert(t == ta + dot + tb + dot + tc + dot + td);
    assert(t.len() == s.len());
    assert forall|j: int| 0 <= j < s.len() implies s[j] == t[j] by {
        assert(s[0 + j] == t[j]);
    }
    assert(s =~= t);
}

} // verus!
