use vstd::prelude::*;

verus! {

/// Why a decimal field could not be read as an unsigned integer.
#[derive(Debug, Clone, Copy, PartialEq, Eq, Structural)]
pub enum IntErrorKind {
    /// The text is empty.
    Empty,
    /// The text holds something other than an optional leading `+` and digits.
    InvalidDigit,
    /// The number does not fit in the target type.
    PosOverflow,
}

/// The message `std` gives for each kind of error when reading an integer.
pub open spec fn int_error_message(kind: IntErrorKind) -> Seq<char> {
    match kind {
        IntErrorKind::Empty => "cannot parse integer from empty string"@,
        IntErrorKind::InvalidDigit => "invalid digit found in string"@,
        IntErrorKind::PosOverflow => "number too large to fit in target type"@,
    }
}

impl IntErrorKind {
    /// The message that describes this error.
    pub fn message(&self) -> (res: &'static str)
        ensures
            res@ == int_error_message(*self),
    {
        match self {
            IntErrorKind::Empty => "cannot parse integer from empty string",
            IntErrorKind::InvalidDigit => "invalid digit found in string",
            IntErrorKind::PosOverflow => "number too large to fit in target type",
        }
    }
}

/// `c` is an ASCII decimal digit.
pub open spec fn is_digit(c: char) -> bool {
    '0' <= c && c <= '9'
}

/// The value of the ASCII decimal digit `c`.
pub open spec fn digit_value(c: char) -> int {
    c as int - '0' as int
}

/// Reads `s` as a run of decimal digits from left to right: the first
/// character that is no digit, or the first prefix whose value exceeds `max`,
/// decides the error, whichever comes first.
pub open spec fn scan_digits(s: Seq<char>, max: int) -> Result<int, IntErrorKind>
    decreases s.len(),
{
    if s.len() == 0 {
        Ok(0)
    } else {
        match scan_digits(s.drop_last(), max) {
            Err(e) => Err(e),
            Ok(v) => if !is_digit(s.last()) {
                Err(IntErrorKind::InvalidDigit)
            } else if v * 10 + digit_value(s.last()) > max {
                Err(IntErrorKind::PosOverflow)
            } else {
                Ok(v * 10 + digit_value(s.last()))
            },
        }
    }
}

/// How a decimal text is read as an unsigned integer no larger than `max`:
/// an empty text is refused as empty, a lone sign as an invalid digit, one
/// leading `+` is skipped, and the rest must be digits whose value fits.
pub open spec fn parse_unsigned(s: Seq<char>, max: int) -> Result<int, IntErrorKind> {
    if s.len() == 0 {
        Err(IntErrorKind::Empty)
    } else if s.len() == 1 && (s[0] == '+' || s[0] == '-') {
        Err(IntErrorKind::InvalidDigit)
    } else if s[0] == '+' {
        scan_digits(s.drop_first(), max)
    } else {
        scan_digits(s, max)
    }
}

/// Whatever `scan_digits` accepts lies between 0 and `max`.
proof fn lemma_scan_digits_bounds(s: Seq<char>, max: int)
    requires
        0 <= max,
    ensures
        scan_digits(s, max) matches Ok(v) ==> 0 <= v <= max,
    decreases s.len(),
{
    if s.len() > 0 {
        lemma_scan_digits_bounds(s.drop_last(), max);
    }
}

/// A text that reads as a number below a smaller bound reads as the same
/// number below a larger one.
proof fn lemma_scan_digits_widen(s: Seq<char>, small: int, large: int)
    requires
        0 <= small <= large,
        scan_digits(s, small) is Ok,
    ensures
        scan_digits(s, large) == scan_digits(s, small),
    decreases s.len(),
{
    if s.len() > 0 {
        lemma_scan_digits_widen(s.drop_last(), small, large);
    }
}

/// Reads the digits of `s` from position `start` on, as `scan_digits` does.
fn scan_digits_from(s: &str, start: usize, max: u64) -> (res: Result<u64, IntErrorKind>)
    requires
        start <= s@.len(),
    ensures
        match scan_digits(s@.subrange(start as int, s@.len() as int), max as int) {
            Ok(v) => res == Ok::<u64, IntErrorKind>(v as u64),
            Err(e) => res == Err::<u64, IntErrorKind>(e),
        },
{
    let len = s.unicode_len();
    let mut acc: u64 = 0;
    let mut i = start;
    proof {
        assert(s@.subrange(start as int, start as int) =~= Seq::<char>::empty());
    }
    while i < len
        invariant
            len == s@.len(),
            start <= i <= len,
            scan_digits(s@.subrange(start as int, i as int), max as int) == Ok::<int, IntErrorKind>(
                acc as int,
            ),
        decreases len - i,
    {
        let c = s.get_char(i);
        let ghost prefix = s@.subrange(start as int, i + 1);
        proof {
            assert(prefix.drop_last() =~= s@.subrange(start as int, i as int));
            assert(prefix.last() == c);
        }
        if !('0' <= c && c <= '9') {
            proof {
                lemma_scan_error_extends(s@, start as int, i + 1, max as int);
            }
            return Err(IntErrorKind::InvalidDigit);
        }
        let d = (c as u32 - '0' as u32) as u64;
        let next = match acc.checked_mul(10) {
            Some(m) => m.checked_add(d),
            None => None,
        };
        match next {
            Some(n) if n <= max => {
                acc = n;
                i = i + 1;
            },
            _ => {
                proof {
                    lemma_scan_error_extends(s@, start as int, i + 1, max as int);
                }
                return Err(IntErrorKind::PosOverflow);
            },
        }
    }
    proof {
        assert(s@.subrange(start as int, len as int) =~= s@.subrange(start as int, s@.len() as int));
    }
    Ok(acc)
}

/// Once a prefix fails, every longer text fails the same way.
proof fn lemma_scan_error_extends(s: Seq<char>, start: int, mid: int, max: int)
    requires
        0 <= start <= mid <= s.len(),
        scan_digits(s.subrange(start, mid), max) is Err,
    ensures
        scan_digits(s.subrange(start, s.len() as int), max) == scan_digits(s.subrange(start, mid), max),
    decreases s.len() - mid,
{
    if mid < s.len() {
        let longer = s.subrange(start, mid + 1);
        assert(longer.drop_last() =~= s.subrange(start, mid));
        lemma_scan_error_extends(s, start, mid + 1, max);
    } else {
        assert(s.subrange(start, mid) =~= s.subrange(start, s.len() as int));
    }
}

/// Reads `s` as an unsigned integer no larger than `max`.
fn parse_unsigned_up_to(s: &str, max: u64) -> (res: Result<u64, IntErrorKind>)
    ensures
        match parse_unsigned(s@, max as int) {
            Ok(v) => res == Ok::<u64, IntErrorKind>(v as u64),
            Err(e) => res == Err::<u64, IntErrorKind>(e),
        },
{
    let len = s.unicode_len();
    if len == 0 {
        return Err(IntErrorKind::Empty);
    }
    let first = s.get_char(0);
    if len == 1 && (first == '+' || first == '-') {
        return Err(IntErrorKind::InvalidDigit);
    }
    if first == '+' {
        proof {
            assert(s@.subrange(1, s@.len() as int) =~= s@.drop_first());
        }
        scan_digits_from(s, 1, max)
    } else {
        proof {
            assert(s@.subrange(0, s@.len() as int) =~= s@);
        }
        scan_digits_from(s, 0, max)
    }
}

/// Reads a port number the way `str::parse::<u16>` does.
pub fn parse_u16(s: &str) -> (res: Result<u16, IntErrorKind>)
    ensures
        match res {
            Ok(v) => parse_unsigned(s@, u16::MAX as int) == Ok::<int, IntErrorKind>(v as int),
            Err(e) => parse_unsigned(s@, u16::MAX as int) == Err::<int, IntErrorKind>(e),
        },
{
    proof {
        let t = if s@.len() > 0 && s@[0] == '+' { s@.drop_first() } else { s@ };
        lemma_scan_digits_bounds(t, u16::MAX as int);
    }
    match parse_unsigned_up_to(s, 65535) {
        Ok(v) => Ok(v as u16),
        Err(e) => Err(e),
    }
}

/// Reads a number of milliseconds the way `str::parse::<u64>` does.
pub fn parse_u64(s: &str) -> (res: Result<u64, IntErrorKind>)
    ensures
        match res {
            Ok(v) => parse_unsigned(s@, u64::MAX as int) == Ok::<int, IntErrorKind>(v as int),
            Err(e) => parse_unsigned(s@, u64::MAX as int) == Err::<int, IntErrorKind>(e),
        },
{
    proof {
        let t = if s@.len() > 0 && s@[0] == '+' { s@.drop_first() } else { s@ };
        lemma_scan_digits_bounds(t, u64::MAX as int);
    }
    parse_unsigned_up_to(s, u64::MAX)
}

/// Every text that reads as a port number reads as the same number when a
/// 64-bit value is asked for.
pub proof fn law_port_text_reads_alike_as_u64(s: Seq<char>)
    requires
        parse_unsigned(s, u16::MAX as int) is Ok,
    ensures
        parse_unsigned(s, u64::MAX as int) == parse_unsigned(s, u16::MAX as int),
{
    if s.len() > 0 && !(s.len() == 1 && (s[0] == '+' || s[0] == '-')) {
        if s[0] == '+' {
            lemma_scan_digits_widen(s.drop_first(), u16::MAX as int, u64::MAX as int);
        } else {
            lemma_scan_digits_widen(s, u16::MAX as int, u64::MAX as int);
        }
    }
}

} // verus!
