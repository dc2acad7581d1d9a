use vstd::prelude::*;

use crate::errors::ProtocolError;

verus! {

/// The LEB128-style VarInt encoding of `n`: seven data bits per byte, least
/// significant group first, the high bit of each byte marking continuation.
pub open spec fn spec_varint(n: nat) -> Seq<u8>
    decreases n,
{
    if n < 128 {
        seq![n as u8]
    } else {
        seq![(n % 128 + 128) as u8] + spec_varint(n / 128)
    }
}

/// Decoding a VarInt from the head of `s`, reading at most `fuel` bytes:
/// the value and how many bytes it occupied. `None` when the bytes run out
/// or the continuation bit is still set after `fuel` bytes.
pub open spec fn spec_varint_decode(s: Seq<u8>, fuel: nat) -> Option<(nat, nat)>
    decreases fuel,
{
    if fuel == 0 || s.len() == 0 {
        None
    } else if s[0] < 128 {
        Some((s[0] as nat, 1nat))
    } else {
        match spec_varint_decode(s.skip(1), (fuel - 1) as nat) {
            None => None,
            Some((v, n)) => Some((((s[0] - 128) + 128 * v) as nat, (n + 1) as nat)),
        }
    }
}

/// 128 to the `k`th power: the number of values `k` VarInt bytes can carry.
pub open spec fn pow128(k: nat) -> nat
    decreases k,
{
    if k == 0 {
        1
    } else {
        128 * pow128((k - 1) as nat)
    }
}

proof fn lemma_pow128_pos(k: nat)
    ensures
        pow128(k) >= 1,
    decreases k,
{
    if k > 0 {
        lemma_pow128_pos((k - 1) as nat);
    }
}

/// A decoded VarInt is below `pow128(fuel)` and occupies between one byte
/// and `fuel` bytes, all of them present in the input.
pub proof fn lemma_varint_decode_bound(s: Seq<u8>, fuel: nat)
    ensures
        spec_varint_decode(s, fuel) matches Some((v, n)) ==> v < pow128(fuel) && 1 <= n <= fuel
            && n <= s.len(),
    decreases fuel,
{
    lemma_pow128_pos(fuel);
    if fuel > 0 && s.len() > 0 {
        if s[0] >= 128 {
            lemma_varint_decode_bound(s.skip(1), (fuel - 1) as nat);
        } else {
            lemma_pow128_pos((fuel - 1) as nat);
        }
    }
}

fn decode_varint_rec(bytes: &Vec<u8>, i: usize, fuel: u8) -> (r: Option<(u64, usize)>)
    requires
        i <= bytes@.len(),
        fuel <= 5,
    ensures
        match r {
            Some((v, n)) => spec_varint_decode(bytes@.skip(i as int), fuel as nat) == Some(
                (v as nat, n as nat),
            ) && v < pow128(fuel as nat) && n <= fuel && i + n <= bytes@.len(),
            None => spec_varint_decode(bytes@.skip(i as int), fuel as nat) is None,
        },
    decreases fuel,
{
    proof {
        assert(pow128(0) == 1);
        assert(pow128(1) == 128);
        assert(pow128(2) == 16384);
        assert(pow128(3) == 2097152);
        assert(pow128(4) == 268435456);
        assert(pow128(5) == 34359738368);
    }
    if fuel == 0 || i == bytes.len() {
        None
    } else {
        let b = bytes[i];
        assert(bytes@.skip(i as int)[0] == b);
        if b < 128 {
            Some((b as u64, 1))
        } else {
            assert(bytes@.skip(i as int).skip(1) =~= bytes@.skip(i + 1));
            match decode_varint_rec(bytes, i + 1, fuel - 1) {
                None => None,
                Some((v, n)) => Some(((b - 128) as u64 + 128 * v, n + 1)),
            }
        }
    }
}

/// Result of reading a VarInt from a buffer that may still be growing.
#[derive(Clone, Copy, Debug, PartialEq, Eq, Structural)]
pub enum VarIntStatus {
    /// A complete VarInt: its value and the bytes it occupied.
    Value(u32, usize),
    /// The buffer ends inside the VarInt; more bytes could complete it.
    Incomplete,
    /// No extension of the buffer can make this a 32-bit VarInt.
    Malformed,
}

/// Read the VarInt starting at `start`, distinguishing a buffer that is
/// merely too short from one that can never hold a valid 32-bit VarInt.
pub fn read_varint(bytes: &Vec<u8>, start: usize) -> (r: VarIntStatus)
    requires
        start <= bytes@.len(),
    ensures
        ({
            let tail = bytes@.skip(start as int);
            match r {
                VarIntStatus::Value(v, n) => spec_varint_decode(tail, 5) == Some(
                    (v as nat, n as nat),
                ) && start + n <= bytes@.len(),
                VarIntStatus::Incomplete => spec_varint_decode(tail, 5) is None && tail.len() < 5,
                VarIntStatus::Malformed => (spec_varint_decode(tail, 5) is None && tail.len() >= 5)
                    || (spec_varint_decode(tail, 5) matches Some((v, n)) && v > u32::MAX),
            }
        }),
{
    match decode_varint_rec(bytes, start, 5) {
        None => {
            if bytes.len() - start < 5 {
                VarIntStatus::Incomplete
            } else {
                VarIntStatus::Malformed
            }
        },
        Some((v, n)) => {
            if v <= 0xFFFF_FFFF {
                VarIntStatus::Value(v as u32, n)
            } else {
                VarIntStatus::Malformed
            }
        },
    }
}

/// Decode the VarInt at `start`. Succeeds exactly when a valid VarInt whose
/// value fits 32 bits starts there; every other shape — truncated input,
/// five continuation bytes in a row, a value past 32 bits — is a protocol
/// error at that offset.
pub fn decode_varint(bytes: &Vec<u8>, start: usize) -> (r: Result<(u32, usize), ProtocolError>)
    requires
        start <= bytes@.len(),
    ensures
        match r {
            Ok((v, n)) => spec_varint_decode(bytes@.skip(start as int), 5) == Some(
                (v as nat, n as nat),
            ) && start + n <= bytes@.len(),
            Err(e) => e == (ProtocolError::BadVarInt { offset: start }) && (spec_varint_decode(
                bytes@.skip(start as int),
                5,
            ) is None || (spec_varint_decode(bytes@.skip(start as int), 5) matches Some((v, n))
                && v > u32::MAX)),
        },
{
    match read_varint(bytes, start) {
        VarIntStatus::Value(v, n) => Ok((v, n)),
        VarIntStatus::Incomplete => Err(ProtocolError::BadVarInt { offset: start }),
        VarIntStatus::Malformed => Err(ProtocolError::BadVarInt { offset: start }),
    }
}

/// Encode `v` as a VarInt of at most five bytes.
pub fn encode_varint(v: u32) -> (r: Vec<u8>)
    ensures
        r@ == spec_varint(v as nat),
{
    let mut out: Vec<u8> = Vec::new();
    let mut cur: u32 = v;
    loop
        invariant
            spec_varint(v as nat) == out@ + spec_varint(cur as nat),
        decreases cur,
    {
        if cur < 128 {
            out.push(cur as u8);
            proof {
                assert(spec_varint(v as nat) =~= out@);
            }
            return out;
        } else {
            let ghost prev = cur as nat;
            out.push((cur % 128 + 128) as u8);
            cur = cur / 128;
            proof {
                assert(spec_varint(prev) == seq![(prev % 128 + 128) as u8] + spec_varint(
                    prev / 128,
                ));
                assert(spec_varint(v as nat) =~= out@ + spec_varint(cur as nat));
            }
        }
    }
}

/// Law: decoding the VarInt encoding of any 32-bit value yields that value
/// back, consuming the whole encoding.
pub proof fn lemma_varint_round_trip(v: u32)
    ensures
        spec_varint_decode(spec_varint(v as nat), 5) == Some(
            (v as nat, spec_varint(v as nat).len()),
        ),
{
    lemma_varint_decode_prefix(v, Seq::empty());
    assert(spec_varint(v as nat) + Seq::<u8>::empty() =~= spec_varint(v as nat));
}

proof fn lemma_varint_decode_prefix_rec(n: nat, rest: Seq<u8>, fuel: nat)
    requires
        1 <= fuel,
        n < pow128(fuel),
    ensures
        spec_varint_decode(spec_varint(n) + rest, fuel) == Some((n, spec_varint(n).len())),
    decreases n,
{
    let s = spec_varint(n) + rest;
    if n < 128 {
        assert(s[0] == n as u8);
    } else {
        assert(pow128(fuel) == 128 * pow128((fuel - 1) as nat));
        lemma_pow128_pos((fuel - 1) as nat);
        assert(fuel >= 2) by {
            if fuel == 1 {
                assert(pow128(1nat) == 128);
            }
        }
        assert(n / 128 < pow128((fuel - 1) as nat));
        lemma_varint_decode_prefix_rec(n / 128, rest, (fuel - 1) as nat);
        assert(s[0] == (n % 128 + 128) as u8);
        assert(s.skip(1) =~= spec_varint(n / 128) + rest);
        assert((s[0] - 128) + 128 * (n / 128) == n % 128 + 128 * (n / 128));
        assert(n % 128 + 128 * (n / 128) == n) by {
            vstd::arithmetic::div_mod::lemma_fundamental_div_mod(n as int, 128);
        }
    }
}

/// Law: a VarInt encoding decodes to its value whatever bytes follow it.
pub proof fn lemma_varint_decode_prefix(v: u32, rest: Seq<u8>)
    ensures
        spec_varint_decode(spec_varint(v as nat) + rest, 5) == Some(
            (v as nat, spec_varint(v as nat).len()),
        ),
{
    assert(pow128(0) == 1);
    assert(pow128(1) == 128);
    assert(pow128(2) == 16384);
    assert(pow128(3) == 2097152);
    assert(pow128(4) == 268435456);
    assert(pow128(5) == 34359738368);
    lemma_varint_decode_prefix_rec(v as nat, rest, 5);
}

proof fn lemma_varint_all_continuations_rec(s: Seq<u8>, fuel: nat)
    requires
        s.len() >= fuel,
        forall|i: int| 0 <= i < fuel ==> s[i] >= 128,
    ensures
        spec_varint_decode(s, fuel) is None,
    decreases fuel,
{
    if fuel > 0 {
        assert(s[0] >= 128);
        let t = s.skip(1);
        assert(forall|i: int| 0 <= i < fuel - 1 ==> t[i] == s[i + 1] && s[i + 1] >= 128);
        lemma_varint_all_continuations_rec(t, (fuel - 1) as nat);
    }
}

/// Law: a sequence whose first five bytes all carry the continuation bit
/// never decodes as a VarInt.
pub proof fn lemma_varint_five_continuations(s: Seq<u8>)
    requires
        s.len() >= 5,
        forall|i: int| 0 <= i < 5 ==> s[i] >= 128,
    ensures
        spec_varint_decode(s, 5) is None,
{
    lemma_varint_all_continuations_rec(s, 5);
}

} // verus!
