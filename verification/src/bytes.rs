use vstd::prelude::*;

verus! {

/// The big-endian 16-bit value stored at `s[i..i+2]`.
pub open spec fn be16(s: Seq<u8>, i: int) -> nat {
    (s[i] as nat) * 0x100 + (s[i + 1] as nat)
}

/// The big-endian 32-bit value stored at `s[i..i+4]`.
pub open spec fn be32(s: Seq<u8>, i: int) -> nat {
    (s[i] as nat) * 0x1000000 + (s[i + 1] as nat) * 0x10000 + (s[i + 2] as nat) * 0x100 + (s[i
        + 3] as nat)
}

/// The eight big-endian bytes of `v`.
pub open spec fn spec_be64_bytes(v: u64) -> Seq<u8> {
    seq![
        (v / 0x100000000000000 % 0x100) as u8,
        (v / 0x1000000000000 % 0x100) as u8,
        (v / 0x10000000000 % 0x100) as u8,
        (v / 0x100000000 % 0x100) as u8,
        (v / 0x1000000 % 0x100) as u8,
        (v / 0x10000 % 0x100) as u8,
        (v / 0x100 % 0x100) as u8,
        (v % 0x100) as u8,
    ]
}

/// Read the big-endian 16-bit value at `i`.
pub fn read_be16(bytes: &Vec<u8>, i: usize) -> (r: u16)
    requires
        i + 2 <= bytes@.len(),
    ensures
        r as nat == be16(bytes@, i as int),
{
    let _n = bytes.len();
    (bytes[i] as u16) * 0x100 + (bytes[i + 1] as u16)
}

/// Read the big-endian 32-bit value at `i`.
pub fn read_be32(bytes: &Vec<u8>, i: usize) -> (r: u32)
    requires
        i + 4 <= bytes@.len(),
    ensures
        r as nat == be32(bytes@, i as int),
{
    let _n = bytes.len();
    (bytes[i] as u32) * 0x1000000 + (bytes[i + 1] as u32) * 0x10000 + (bytes[i
        + 2] as u32) * 0x100 + (bytes[i + 3] as u32)
}

/// Append the eight big-endian bytes of `v` to `out`.
pub fn push_be64(out: &mut Vec<u8>, v: u64)
    ensures
        final(out)@ == old(out)@ + spec_be64_bytes(v),
{
    out.push((v / 0x100000000000000 % 0x100) as u8);
    out.push((v / 0x1000000000000 % 0x100) as u8);
    out.push((v / 0x10000000000 % 0x100) as u8);
    out.push((v / 0x100000000 % 0x100) as u8);
    out.push((v / 0x1000000 % 0x100) as u8);
    out.push((v / 0x10000 % 0x100) as u8);
    out.push((v / 0x100 % 0x100) as u8);
    out.push((v % 0x100) as u8);
    proof {
        assert(out@ =~= old(out)@ + spec_be64_bytes(v));
    }
}

/// Append all of `src` to `out`.
pub fn push_all(out: &mut Vec<u8>, src: &Vec<u8>)
    ensures
        final(out)@ == old(out)@ + src@,
{
    let mut k: usize = 0;
    while k < src.len()
        invariant
            k <= src@.len(),
            out@ == old(out)@ + src@.take(k as int),
        decreases src@.len() - k,
    {
        out.push(src[k]);
        k = k + 1;
        proof {
            assert(out@ =~= old(out)@ + src@.take(k as int));
        }
    }
    proof {
        assert(old(out)@ + src@.take(src@.len() as int) =~= old(out)@ + src@);
    }
}

/// Whether two byte vectors hold the same bytes.
pub fn bytes_eq(a: &Vec<u8>, b: &Vec<u8>) -> (r: bool)
    ensures
        r == (a@ == b@),
{
    if a.len() != b.len() {
        proof {
            assert(a@ != b@);
        }
        return false;
    }
    let mut i: usize = 0;
    while i < a.len()
        invariant
            i <= a@.len(),
            a@.len() == b@.len(),
            forall|j: int| 0 <= j < i ==> a@[j] == b@[j],
        decreases a@.len() - i,
    {
        if a[i] != b[i] {
            return false;
        }
        i = i + 1;
    }
    proof {
        assert(a@ =~= b@);
    }
    true
}

/// Copy `bytes[from..to]` into a fresh vector.
pub fn copy_range(bytes: &Vec<u8>, from: usize, to: usize) -> (r: Vec<u8>)
    requires
        from <= to <= bytes@.len(),
    ensures
        r@ == bytes@.subrange(from as int, to as int),
{
    let mut out: Vec<u8> = Vec::new();
    let mut i: usize = from;
    while i < to
        invariant
            from <= i <= to <= bytes@.len(),
            out@ == bytes@.subrange(from as int, i as int),
        decreases to - i,
    {
        out.push(bytes[i]);
        i = i + 1;
        proof {
            assert(out@ =~= bytes@.subrange(from as int, i as int));
        }
    }
    out
}

} // verus!
