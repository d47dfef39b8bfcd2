use vstd::prelude::*;
use vstd::utf8::{encode_utf8, decode_utf8};
use crate::address::{SocketAddress, spec_is_unspecified};
use crate::form::Platform;
use crate::text::{socket_address_text, socket_text};

verus! {

/// `b` is an ASCII letter or digit.
pub open spec fn is_ascii_alphanumeric(b: u8) -> bool {
    (0x30 <= b && b <= 0x39) || (0x41 <= b && b <= 0x5a) || (0x61 <= b && b <= 0x7a)
}

/// The upper-case hexadecimal digit of `n`, for `n` below 16.
pub open spec fn hex_digit(n: int) -> char {
    if n < 10 {
        (n + 0x30) as char
    } else {
        (n - 10 + 0x41) as char
    }
}

/// How one byte appears in the link: an ASCII letter or digit as itself,
/// any other byte as `%` and its two upper-case hexadecimal digits.
pub open spec fn percent_encoded_byte(b: u8) -> Seq<char> {
    if is_ascii_alphanumeric(b) {
        seq![b as char]
    } else {
        seq!['%', hex_digit(b as int / 16), hex_digit(b as int % 16)]
    }
}

/// The percent-encoding of `bytes` in which only ASCII letters and digits
/// stand for themselves.
pub open spec fn percent_encoded(bytes: Seq<u8>) -> Seq<char>
    decreases bytes.len(),
{
    if bytes.len() == 0 {
        Seq::empty()
    } else {
        percent_encoded_byte(bytes[0]) + percent_encoded(bytes.drop_first())
    }
}

/// The value of the hexadecimal digit `c`, of either case.
pub open spec fn hex_value(c: char) -> Option<int> {
    if '0' <= c && c <= '9' {
        Some(c as int - 0x30)
    } else if 'A' <= c && c <= 'F' {
        Some(c as int - 0x41 + 10)
    } else if 'a' <= c && c <= 'f' {
        Some(c as int - 0x61 + 10)
    } else {
        None
    }
}

/// Strict percent-decoding: `%` and two hexadecimal digits stand for a byte,
/// any other ASCII character for itself; anything else is refused.
pub open spec fn percent_decoded(s: Seq<char>) -> Option<Seq<u8>>
    decreases s.len(),
{
    if s.len() == 0 {
        Some(Seq::empty())
    } else if s[0] == '%' {
        if s.len() >= 3 && hex_value(s[1]) is Some && hex_value(s[2]) is Some {
            match percent_decoded(s.subrange(3, s.len() as int)) {
                Some(rest) => Some(
                    seq![(hex_value(s[1])->0 * 16 + hex_value(s[2])->0) as u8] + rest,
                ),
                None => None,
            }
        } else {
            None
        }
    } else if (s[0] as int) < 0x80 {
        match percent_decoded(s.drop_first()) {
            Some(rest) => Some(seq![s[0] as u8] + rest),
            None => None,
        }
    } else {
        None
    }
}

/// Percent-encodes the UTF-8 bytes of `text`, leaving only ASCII letters and
/// digits as they are.
///
/// Calls `percent_encoding::utf8_percent_encode` with the set
/// `NON_ALPHANUMERIC` and collects the result with `to_string`; the crate
/// writes a byte outside the set as itself and a byte in it, or any byte
/// that is no ASCII, as `%` and two upper-case hexadecimal digits
/// (`percent_encode_byte`), and the set holds every ASCII byte that is no
/// letter or digit.
#[verifier::external_body]
fn utf8_percent_encode_alphanumeric(text: &str) -> (res: String)
    ensures
        res@ == percent_encoded(encode_utf8(text@)),
{
    percent_encoding::utf8_percent_encode(text, percent_encoding::NON_ALPHANUMERIC).to_string()
}

/// The password as it stands in the link's query.
pub fn encode_password(password: &str) -> (res: String)
    ensures
        res@ == percent_encoded(encode_utf8(password@)),
{
    utf8_percent_encode_alphanumeric(password)
}

/// The address of the web page: `http://` and the server's address.
pub fn server_url(address: &SocketAddress) -> (res: String)
    ensures
        res@ == "http://"@ + socket_text(*address),
{
    let text = socket_address_text(address);
    "http://".to_owned().concat(text.as_str())
}

/// The link shown as QR code: the page's address and, where a password is
/// set, the query `?password=` with the percent-encoded password.
pub fn connect_url(address: &SocketAddress, password: &Option<String>) -> (res: String)
    ensures
        res@ == "http://"@ + socket_text(*address) + match password {
            None => Seq::<char>::empty(),
            Some(p) => "?password="@ + percent_encoded(encode_utf8(p@)),
        },
{
    let mut url = server_url(address);
    let ghost page = url@;
    match password {
        None => {
            proof {
                assert(url@ =~= page + Seq::<char>::empty());
            }
        },
        Some(p) => {
            url.append("?password=");
            let encoded = encode_password(p.as_str());
            url.append(encoded.as_str());
            proof {
                assert(url@ =~= page + ("?password="@ + percent_encoded(encode_utf8(p@))));
            }
        },
    }
    url
}

/// What the address field of the window shows once the servers run: the
/// page's address, except on Windows where the server listens on the "any"
/// address, which stands for no address a browser could use.
pub fn address_label(platform: Platform, address: &SocketAddress) -> (res: String)
    ensures
        res@ == if platform == Platform::Windows && spec_is_unspecified(address.ip) {
            "http://<your ip address>"@
        } else {
            "http://"@ + socket_text(*address)
        },
{
    let windows = match platform {
        Platform::Windows => true,
        _ => false,
    };
    if windows && address.ip.is_unspecified() {
        "http://<your ip address>".to_owned()
    } else {
        server_url(address)
    }
}

/// The encoding of every byte is made of ASCII letters, digits and `%`.
proof fn lemma_encoded_byte_is_link_safe(b: u8)
    ensures
        forall|k: int|
            0 <= k < percent_encoded_byte(b).len() ==> {
                let c = #[trigger] percent_encoded_byte(b)[k];
                is_ascii_alphanumeric(c as u8) && (c as int) < 0x80 || c == '%'
            },
{
    assert(b as int / 16 < 16);
}

/// Decoding the encoding of one byte followed by any text gives the byte
/// followed by the decoding of the text.
proof fn lemma_decode_encoded_byte(b: u8, rest: Seq<char>)
    ensures
        percent_decoded(percent_encoded_byte(b) + rest) == match percent_decoded(rest) {
            Some(r) => Some(seq![b] + r),
            None => None::<Seq<u8>>,
        },
{
    let s = percent_encoded_byte(b) + rest;
    if is_ascii_alphanumeric(b) {
        assert(s[0] == b as char);
        assert(s.drop_first() =~= rest);
        assert(s[0] as u8 == b);
    } else {
        let hi = b as int / 16;
        let lo = b as int % 16;
        assert(s[0] == '%');
        assert(s[1] == hex_digit(hi));
        assert(s[2] == hex_digit(lo));
        assert(hex_value(hex_digit(hi)) == Some(hi));
        assert(hex_value(hex_digit(lo)) == Some(lo));
        assert(s.subrange(3, s.len() as int) =~= rest);
        assert((hi * 16 + lo) as u8 == b);
    }
}

/// Decoding an encoding gives back the bytes.
proof fn lemma_percent_round_trip(bytes: Seq<u8>)
    ensures
        percent_decoded(percent_encoded(bytes)) == Some(bytes),
    decreases bytes.len(),
{
    if bytes.len() > 0 {
        lemma_percent_round_trip(bytes.drop_first());
        lemma_decode_encoded_byte(bytes[0], percent_encoded(bytes.drop_first()));
        assert(seq![bytes[0]] + bytes.drop_first() =~= bytes);
    }
}

/// Every character of an encoding is an ASCII letter, digit or `%`.
proof fn lemma_encoded_is_link_safe(bytes: Seq<u8>)
    ensures
        forall|k: int|
            0 <= k < percent_encoded(bytes).len() ==> {
                let c = #[trigger] percent_encoded(bytes)[k];
                is_ascii_alphanumeric(c as u8) && (c as int) < 0x80 || c == '%'
            },
    decreases bytes.len(),
{
    if bytes.len() > 0 {
        lemma_encoded_is_link_safe(bytes.drop_first());
        lemma_encoded_byte_is_link_safe(bytes[0]);
        let head = percent_encoded_byte(bytes[0]);
        let tail = percent_encoded(bytes.drop_first());
        assert forall|k: int| 0 <= k < percent_encoded(bytes).len() implies {
            let c = #[trigger] percent_encoded(bytes)[k];
            is_ascii_alphanumeric(c as u8) && (c as int) < 0x80 || c == '%'
        } by {
            if k < head.len() {
                assert(percent_encoded(bytes)[k] == head[k]);
            } else {
                assert(percent_encoded(bytes)[k] == tail[k - head.len()]);
            }
        }
    }
}

/// The password in the link survives the trip: the query value holds only
/// ASCII letters, digits and `%`, and percent-decoding it and reading the
/// bytes as UTF-8 gives back the password.
pub proof fn law_link_carries_password(password: Seq<char>)
    ensures
        percent_decoded(percent_encoded(encode_utf8(password))) matches Some(bytes) && decode_utf8(
            bytes,
        ) == password,
        forall|k: int|
            0 <= k < percent_encoded(encode_utf8(password)).len() ==> {
                let c = #[trigger] percent_encoded(encode_utf8(password))[k];
                is_ascii_alphanumeric(c as u8) && (c as int) < 0x80 || c == '%'
            },
{
    lemma_percent_round_trip(encode_utf8(password));
    lemma_encoded_is_link_safe(encode_utf8(password));
    vstd::utf8::encode_utf8_decode_utf8(password);
}

} // verus!
