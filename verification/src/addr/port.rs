//! Port numbers as text.
use crate::text::{digit_value, digits, lemma_digits_chars, lemma_value_of_digits, value};
use vstd::prelude::*;

verus! {

/// Why a text is no port number.
#[derive(Clone, Copy, Debug, PartialEq, Eq)]
pub enum PortError {
    /// There is no text.
    Empty,
    /// Something stands there that is no decimal digit.
    InvalidDigit,
    /// The number does not fit into 16 bits.
    TooLarge,
}

impl PortError {
    /// The error in words.
    pub fn description(&self) -> (text: &'static str)
        ensures
            text@ == match *self {
                PortError::Empty => "cannot parse integer from empty string"@,
                PortError::InvalidDigit => "invalid digit found in string"@,
                PortError::TooLarge => "number too large to fit in target type"@,
            },
    {
        match self {
            PortError::Empty => "cannot parse integer from empty string",
            PortError::InvalidDigit => "invalid digit found in string",
            PortError::TooLarge => "number too large to fit in target type",
        }
    }
}

/// Reads decimal digits from left to right behind `acc`, up to the first that is none or
/// that makes the number too large.
pub open spec fn scan(s: Seq<u8>, acc: nat) -> Result<u16, PortError>
    decreases s.len(),
{
    if s.len() == 0 {
        Ok(acc as u16)
    } else {
        match digit_value(s[0], 10) {
            None => Err(PortError::InvalidDigit),
            Some(d) => if acc * 10 + d > 0xffff {
                Err(PortError::TooLarge)
            } else {
                scan(s.skip(1), acc * 10 + d)
            },
        }
    }
}

/// The port that a text stands for: decimal digits, behind a plus sign or not.
pub open spec fn port_of(s: Seq<u8>) -> Result<u16, PortError> {
    if s.len() == 0 {
        Err(PortError::Empty)
    } else if s[0] == 0x2b {
        if s.len() == 1 {
            Err(PortError::InvalidDigit)
        } else {
            scan(s.skip(1), 0)
        }
    } else {
        scan(s, 0)
    }
}

/// A text is accepted if and only if it is a number that fits, and then for that number.
pub proof fn lemma_scan_value(s: Seq<u8>, k: int, acc: nat)
    requires
        0 <= k <= s.len(),
        value(s.take(k), 10) == Some(acc),
        acc <= 0xffff,
    ensures
        scan(s.skip(k), acc) is Ok <==> value(s, 10) is Some && value(s, 10)->0 <= 0xffff,
        scan(s.skip(k), acc) matches Ok(port) ==> value(s, 10) == Some(port as nat),
    decreases s.len() - k,
{
    if k == s.len() {
        assert(s.take(k) =~= s);
    } else {
        let rest = s.skip(k);
        assert(s.take(k + 1).drop_last() =~= s.take(k));
        assert(rest.skip(1) =~= s.skip(k + 1));
        match digit_value(rest[0], 10) {
            None => {
                crate::text::lemma_value_prefix(s, 10, k + 1);
            },
            Some(d) => {
                if acc * 10 + d > 0xffff {
                    lemma_value_grows(s, k + 1);
                } else {
                    lemma_scan_value(s, k + 1, acc * 10 + d);
                }
            },
        }
    }
}

/// More digits make no number smaller.
proof fn lemma_value_grows(s: Seq<u8>, k: int)
    requires
        0 <= k <= s.len(),
    ensures
        value(s, 10) matches Some(v) ==> value(s.take(k), 10) is Some && value(s.take(k), 10)->0
            <= v,
    decreases s.len() - k,
{
    if k == s.len() {
        assert(s.take(k) =~= s);
    } else {
        assert(s.take(k + 1).drop_last() =~= s.take(k));
        lemma_value_grows(s, k + 1);
    }
}

/// Reading a written port gives the port.
pub proof fn lemma_port_round_trip(port: u16)
    ensures
        port_of(digits(port as nat, 10)) == Ok::<u16, PortError>(port),
{
    let s = digits(port as nat, 10);
    lemma_digits_chars(port as nat, 10);
    lemma_value_of_digits(port as nat, 10);
    assert(s[0] != 0x2b);
    assert(s.take(0) =~= Seq::empty());
    assert(s.skip(0) =~= s);
    lemma_scan_value(s, 0, 0);
}

/// Reads a port number.
pub fn parse_port(s: &[u8]) -> (port: Result<u16, PortError>)
    ensures
        port == port_of(s@),
{
    if s.len() == 0 {
        return Err(PortError::Empty);
    }
    let mut i: usize = 0;
    if s[0] == 0x2b {
        if s.len() == 1 {
            return Err(PortError::InvalidDigit);
        }
        i = 1;
    }
    let mut acc: u32 = 0;
    assert(s@.skip(0) =~= s@);
    while i < s.len()
        invariant
            i <= s@.len(),
            acc <= 0xffff,
            port_of(s@) == scan(s@.skip(i as int), acc as nat),
        decreases s@.len() - i,
    {
        assert(s@.skip(i as int).skip(1) =~= s@.skip(i + 1));
        let b: u8 = s[i];
        if b < 0x30 || b > 0x39 {
            return Err(PortError::InvalidDigit);
        }
        acc = acc * 10 + (b - 0x30) as u32;
        if acc > 0xffff {
            return Err(PortError::TooLarge);
        }
        i += 1;
    }
    Ok(acc as u16)
}

} // verus!
