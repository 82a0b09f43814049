//! Parsing of breakpoint addresses: a `*` marker, then hexadecimal digits
//! with an optional `0x` or `0X` prefix.
use vstd::prelude::*;
use vstd::string::StringSliceAdditionalSpecFns;

verus! {

/// Why a breakpoint address was rejected.
#[derive(Clone, Copy, Debug, PartialEq, Eq)]
pub enum AddressError {
    /// The text does not start with `*`.
    MissingMarker,
    /// What follows the marker is not a hexadecimal number that fits in an
    /// address.
    BadHex,
}

pub open spec fn is_hex_digit(c: u8) -> bool {
    (48 <= c <= 57) || (97 <= c <= 102) || (65 <= c <= 70)
}

/// The value of one hexadecimal digit.
pub open spec fn digit_value(c: u8) -> int {
    if 48 <= c <= 57 {
        c - 48
    } else if 97 <= c <= 102 {
        c - 87
    } else {
        c - 55
    }
}

/// The number that a string of hexadecimal digits denotes.
pub open spec fn hex_value(s: Seq<u8>) -> int
    decreases s.len(),
{
    if s.len() == 0 {
        0
    } else {
        hex_value(s.drop_last()) * 16 + digit_value(s.last())
    }
}

/// `s` starts with `0x` or `0X`.
pub open spec fn has_hex_prefix(s: Seq<u8>) -> bool {
    s.len() >= 2 && s[0] == 48 && (s[1] == 120 || s[1] == 88)
}

/// The digits of `s`, that is `s` without its `0x` prefix if it has one.
pub open spec fn hex_digits(s: Seq<u8>) -> Seq<u8> {
    if has_hex_prefix(s) {
        s.subrange(2, s.len() as int)
    } else {
        s
    }
}

/// `s` is one or more hexadecimal digits.
pub open spec fn all_hex(s: Seq<u8>) -> bool {
    s.len() > 0 && forall|i: int| 0 <= i < s.len() ==> is_hex_digit(#[trigger] s[i])
}

/// The address that the text `s` (without the `*` marker) denotes, if any:
/// its digits must be hexadecimal, at least one, and their value must fit
/// in a `usize`.
pub open spec fn address_of(s: Seq<u8>) -> Option<usize> {
    let d = hex_digits(s);
    if all_hex(d) && hex_value(d) <= usize::MAX {
        Some(hex_value(d) as usize)
    } else {
        None
    }
}

/// The result of parsing the full breakpoint text `s`, marker included.
pub open spec fn breakpoint_address_of(s: Seq<u8>) -> Result<usize, AddressError> {
    if s.len() == 0 || s[0] != 42 {
        Err(AddressError::MissingMarker)
    } else {
        match address_of(s.subrange(1, s.len() as int)) {
            Some(a) => Ok(a),
            None => Err(AddressError::BadHex),
        }
    }
}

proof fn lemma_hex_value_grows(s: Seq<u8>, i: int)
    requires
        0 <= i <= s.len(),
        forall|j: int| 0 <= j < s.len() ==> is_hex_digit(#[trigger] s[j]),
    ensures
        hex_value(s.subrange(0, i)) <= hex_value(s),
        hex_value(s) >= 0,
    decreases s.len(),
{
    if s.len() > 0 {
        let t = s.drop_last();
        assert forall|j: int| 0 <= j < t.len() implies is_hex_digit(#[trigger] t[j]) by {
            assert(t[j] == s[j]);
        }
        if i == s.len() {
            assert(s.subrange(0, i) =~= s);
            lemma_hex_value_grows(t, 0);
        } else {
            lemma_hex_value_grows(t, i);
            assert(s.subrange(0, i) =~= t.subrange(0, i));
        }
        assert(is_hex_digit(s[s.len() - 1]));
    } else {
        assert(s.subrange(0, i) =~= s);
    }
}

/// Parses the hexadecimal number in `b[start..]`, after an optional `0x`
/// prefix.
fn parse_hex_from(b: &[u8], start: usize) -> (r: Option<usize>)
    requires
        start <= b@.len(),
    ensures
        r == address_of(b@.subrange(start as int, b@.len() as int)),
{
    let ghost s = b@.subrange(start as int, b@.len() as int);
    let n: usize = b.len();
    let mut i: usize = start;
    if n - start >= 2 && b[start] == 48 && (b[start + 1] == 120 || b[start + 1] == 88) {
        i = start + 2;
    }
    let ghost d = hex_digits(s);
    assert(d =~= b@.subrange(i as int, n as int));
    if i == n {
        return None;
    }
    let ghost first = i;
    let mut acc: usize = 0;
    while i < n
        invariant
            first <= i <= n,
            n == b@.len(),
            d =~= b@.subrange(first as int, n as int),
            d == hex_digits(s),
            s == b@.subrange(start as int, b@.len() as int),
            forall|j: int| first <= j < i ==> is_hex_digit(#[trigger] b@[j]),
            acc == hex_value(b@.subrange(first as int, i as int)),
        decreases n - i,
    {
        let c = b[i];
        let v: usize;
        if 48 <= c && c <= 57 {
            v = (c - 48) as usize;
        } else if 97 <= c && c <= 102 {
            v = (c - 87) as usize;
        } else if 65 <= c && c <= 70 {
            v = (c - 55) as usize;
        } else {
            assert(d[i - first] == c);
            assert(!is_hex_digit(d[i - first]));
            return None;
        }
        let ghost pre = b@.subrange(first as int, i as int + 1);
        assert(pre.drop_last() =~= b@.subrange(first as int, i as int));
        let next: u128 = acc as u128 * 16 + v as u128;
        if next > usize::MAX as u128 {
            proof {
                if all_hex(d) {
                    lemma_hex_value_grows(d, i - first + 1);
                    assert(d.subrange(0, i - first + 1) =~= pre);
                    assert(hex_value(pre) == acc * 16 + v);
                }
            }
            return None;
        }
        acc = next as usize;
        i = i + 1;
    }
    assert(b@.subrange(first as int, n as int) =~= d);
    Some(acc)
}

/// Parses a hexadecimal address with an optional `0x` or `0X` prefix.
pub fn parse_address(addr: &str) -> (r: Option<usize>)
    ensures
        r == address_of(addr.spec_bytes()),
{
    let b = addr.as_bytes();
    assert(b@.subrange(0, b@.len() as int) =~= b@);
    parse_hex_from(b, 0)
}

/// Parses the argument of a `break` command: `*` followed by an address
/// in the form that [`parse_address`] reads.
pub fn parse_breakpoint_address(text: &str) -> (r: Result<usize, AddressError>)
    ensures
        r == breakpoint_address_of(text.spec_bytes()),
{
    let b = text.as_bytes();
    if b.len() == 0 || b[0] != 42 {
        return Err(AddressError::MissingMarker);
    }
    match parse_hex_from(b, 1) {
        Some(a) => Ok(a),
        None => Err(AddressError::BadHex),
    }
}

} // verus!
