use vstd::prelude::*;

use crate::bytes::copy_range;
use crate::errors::AddressError;

verus! {

/// A resolved query target: a host and, when one was given, a port. When no
/// port is present the protocol client supplies the standard default.
#[derive(Debug, Clone, PartialEq)]
pub struct Target {
    pub host: Vec<u8>,
    pub port: Option<u16>,
}

/// Whether `b` is an ASCII decimal digit.
pub open spec fn is_digit(b: u8) -> bool {
    48 <= b <= 57
}

/// The decimal value of a digit string (meaningful only when every byte is
/// a digit).
pub open spec fn spec_digits_value(s: Seq<u8>) -> nat
    decreases s.len(),
{
    if s.len() == 0 {
        0
    } else {
        spec_digits_value(s.take(s.len() - 1)) * 10 + (s[s.len() - 1] - 48) as nat
    }
}

/// Whether `s` is one or more ASCII decimal digits.
pub open spec fn all_digits(s: Seq<u8>) -> bool {
    s.len() > 0 && forall|i: int| 0 <= i < s.len() ==> is_digit(s[i])
}

/// The index of the last colon in `s`, if any.
pub open spec fn spec_last_colon(s: Seq<u8>) -> Option<int>
    decreases s.len(),
{
    if s.len() == 0 {
        None
    } else if s[s.len() - 1] == 58 {
        Some(s.len() - 1)
    } else {
        spec_last_colon(s.take(s.len() - 1))
    }
}

/// What parsing `host[:port]` yields: split at the last colon; a colon whose
/// suffix is not a decimal integer in 0..=65535 is an invalid port; an empty
/// host is rejected; a string without a colon is all host.
pub open spec fn spec_parse_address(s: Seq<u8>) -> Result<(Seq<u8>, Option<u16>), AddressError> {
    match spec_last_colon(s) {
        None => if s.len() == 0 {
            Err(AddressError::EmptyHost)
        } else {
            Ok((s, None))
        },
        Some(i) => {
            let suffix = s.skip(i + 1);
            if !(all_digits(suffix) && spec_digits_value(suffix) <= 65535) {
                Err(AddressError::InvalidPort)
            } else if i == 0 {
                Err(AddressError::EmptyHost)
            } else {
                Ok((s.take(i), Some(spec_digits_value(suffix) as u16)))
            }
        },
    }
}

fn find_last_colon(s: &Vec<u8>) -> (r: Option<usize>)
    ensures
        match r {
            Some(i) => spec_last_colon(s@) == Some(i as int) && i < s@.len(),
            None => spec_last_colon(s@) is None,
        },
{
    let mut i: usize = s.len();
    proof {
        assert(s@.take(i as int) =~= s@);
    }
    while i > 0
        invariant
            i <= s@.len(),
            spec_last_colon(s@) == spec_last_colon(s@.take(i as int)),
        decreases i,
    {
        i = i - 1;
        if s[i] == 58 {
            proof {
                assert(s@.take(i + 1)[i as int] == s@[i as int]);
            }
            return Some(i);
        }
        proof {
            assert(s@.take(i + 1).take(i as int) =~= s@.take(i as int));
            assert(s@.take(i + 1)[i as int] == s@[i as int]);
        }
    }
    None
}

/// A digit string's value is at least the value of any prefix of it.
pub proof fn lemma_digits_value_grows(s: Seq<u8>, k: int)
    requires
        0 <= k <= s.len(),
    ensures
        spec_digits_value(s) >= spec_digits_value(s.take(k)),
    decreases s.len() - k,
{
    if k < s.len() {
        lemma_digits_value_grows(s.take(s.len() - 1), k);
        assert(s.take(s.len() - 1).take(k) =~= s.take(k));
    } else {
        assert(s.take(k) =~= s);
    }
}

/// Parse the digits `s[from..to]` as a port number: `Some` exactly when the
/// range is one or more decimal digits whose value is at most 65535.
fn parse_port_digits(s: &Vec<u8>, from: usize, to: usize) -> (r: Option<u16>)
    requires
        from <= to <= s@.len(),
    ensures
        ({
            let suffix = s@.subrange(from as int, to as int);
            match r {
                Some(p) => all_digits(suffix) && spec_digits_value(suffix) == p as nat && p
                    <= 65535,
                None => !(all_digits(suffix) && spec_digits_value(suffix) <= 65535),
            }
        }),
{
    let ghost suffix = s@.subrange(from as int, to as int);
    if from == to {
        return None;
    }
    let mut value: u32 = 0;
    let mut i: usize = from;
    while i < to
        invariant
            from <= i <= to <= s@.len(),
            suffix == s@.subrange(from as int, to as int),
            forall|j: int| from <= j < i ==> is_digit(s@[j]),
            value as nat == spec_digits_value(suffix.take(i - from)),
            value <= 65535,
        decreases to - i,
    {
        let b = s[i];
        if b < 48 || b > 57 {
            proof {
                assert(!is_digit(suffix[i - from]));
            }
            return None;
        }
        value = value * 10 + (b - 48) as u32;
        i = i + 1;
        proof {
            assert(suffix.take(i - from).take(i - from - 1) =~= suffix.take(i - from - 1));
            assert(suffix.take(i - from)[i - from - 1] == s@[i - 1]);
        }
        if value > 65535 {
            proof {
                lemma_digits_value_grows(suffix, i - from);
            }
            return None;
        }
    }
    proof {
        assert(suffix.take(to - from) =~= suffix);
    }
    Some(value as u16)
}

/// Parse a `host[:port]` address. Splits at the last colon; the suffix after
/// it must be a decimal integer in 0..=65535, else the port is invalid; an
/// empty host is rejected; without a colon the whole string is the host.
pub fn parse_address(s: &Vec<u8>) -> (r: Result<Target, AddressError>)
    ensures
        match r {
            Ok(t) => spec_parse_address(s@) == Ok::<_, AddressError>((t.host@, t.port)),
            Err(e) => spec_parse_address(s@) == Err::<(Seq<u8>, Option<u16>), _>(e),
        },
{
    match find_last_colon(s) {
        None => {
            if s.len() == 0 {
                Err(AddressError::EmptyHost)
            } else {
                let host = copy_range(s, 0, s.len());
                proof {
                    assert(host@ =~= s@);
                }
                Ok(Target { host, port: None })
            }
        },
        Some(i) => {
            let n = s.len();
            proof {
                assert(s@.subrange(i + 1, s@.len() as int) =~= s@.skip(i + 1));
            }
            match parse_port_digits(s, i + 1, n) {
                None => Err(AddressError::InvalidPort),
                Some(p) => {
                    if i == 0 {
                        Err(AddressError::EmptyHost)
                    } else {
                        let host = copy_range(s, 0, i);
                        proof {
                            assert(host@ =~= s@.take(i as int));
                        }
                        Ok(Target { host, port: Some(p) })
                    }
                },
            }
        },
    }
}

} // verus!
