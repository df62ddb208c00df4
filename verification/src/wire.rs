//! Byte-level building blocks of the encodings: big-endian integers and
//! concatenation.

use vstd::prelude::*;

verus! {

/// The byte of `v` that starts `shift` bits above the lowest bit.
pub open spec fn byte_at(v: u64, shift: u64) -> u8 {
    ((v >> shift) & 0xff) as u8
}

/// The eight bytes of a `u64`, most significant first.
pub open spec fn be64(v: u64) -> Seq<u8> {
    seq![
        byte_at(v, 56),
        byte_at(v, 48),
        byte_at(v, 40),
        byte_at(v, 32),
        byte_at(v, 24),
        byte_at(v, 16),
        byte_at(v, 8),
        byte_at(v, 0),
    ]
}

/// The `u64` that eight bytes spell, most significant first.
pub open spec fn from_be64(s: Seq<u8>) -> u64 {
    ((s[0] as u64) << 56) | ((s[1] as u64) << 48) | ((s[2] as u64) << 40) | ((s[3] as u64) << 32)
        | ((s[4] as u64) << 24) | ((s[5] as u64) << 16) | ((s[6] as u64) << 8) | (s[7] as u64)
}

/// Reading back what `be64` wrote gives the number again.
pub proof fn lemma_be64_read_back(v: u64)
    ensures
        be64(v).len() == 8,
        from_be64(be64(v)) == v,
{
    assert((((((v >> 56) & 0xff) as u8) as u64) << 56) | (((((v >> 48) & 0xff) as u8) as u64) << 48)
        | (((((v >> 40) & 0xff) as u8) as u64) << 40) | (((((v >> 32) & 0xff) as u8) as u64) << 32)
        | (((((v >> 24) & 0xff) as u8) as u64) << 24) | (((((v >> 16) & 0xff) as u8) as u64) << 16)
        | (((((v >> 8) & 0xff) as u8) as u64) << 8) | ((((v >> 0) & 0xff) as u8) as u64) == v)
        by (bit_vector);
}

/// Writing the number that eight bytes spell gives the bytes again.
pub proof fn lemma_be64_write_back(s: Seq<u8>)
    requires
        s.len() == 8,
    ensures
        be64(from_be64(s)) == s,
{
    let b0 = s[0];
    let b1 = s[1];
    let b2 = s[2];
    let b3 = s[3];
    let b4 = s[4];
    let b5 = s[5];
    let b6 = s[6];
    let b7 = s[7];
    let v = from_be64(s);
    assert(v == ((b0 as u64) << 56) | ((b1 as u64) << 48) | ((b2 as u64) << 40) | ((b3 as u64)
        << 32) | ((b4 as u64) << 24) | ((b5 as u64) << 16) | ((b6 as u64) << 8) | (b7 as u64) ==> {
        &&& ((v >> 56) & 0xff) as u8 == b0
        &&& ((v >> 48) & 0xff) as u8 == b1
        &&& ((v >> 40) & 0xff) as u8 == b2
        &&& ((v >> 32) & 0xff) as u8 == b3
        &&& ((v >> 24) & 0xff) as u8 == b4
        &&& ((v >> 16) & 0xff) as u8 == b5
        &&& ((v >> 8) & 0xff) as u8 == b6
        &&& ((v >> 0) & 0xff) as u8 == b7
    }) by (bit_vector);
}

fn exec_byte_at(v: u64, shift: u64) -> (b: u8)
    requires
        shift < 64,
    ensures
        b == byte_at(v, shift),
{
    ((v >> shift) & 0xff) as u8
}

/// Appends the eight bytes of `v`, most significant first.
pub fn push_be64(out: &mut Vec<u8>, v: u64)
    ensures
        final(out)@ == old(out)@ + be64(v),
{
    out.push(exec_byte_at(v, 56));
    out.push(exec_byte_at(v, 48));
    out.push(exec_byte_at(v, 40));
    out.push(exec_byte_at(v, 32));
    out.push(exec_byte_at(v, 24));
    out.push(exec_byte_at(v, 16));
    out.push(exec_byte_at(v, 8));
    out.push(exec_byte_at(v, 0));
}

/// Reads the `u64` spelled by the eight bytes that start at `at`.
pub fn read_be64(bytes: &[u8], at: usize) -> (v: u64)
    requires
        at + 8 <= bytes@.len(),
    ensures
        v == from_be64(bytes@.subrange(at as int, at + 8)),
{
    let b0: u64 = bytes[at] as u64;
    let b1: u64 = bytes[at + 1] as u64;
    let b2: u64 = bytes[at + 2] as u64;
    let b3: u64 = bytes[at + 3] as u64;
    let b4: u64 = bytes[at + 4] as u64;
    let b5: u64 = bytes[at + 5] as u64;
    let b6: u64 = bytes[at + 6] as u64;
    let b7: u64 = bytes[at + 7] as u64;
    (b0 << 56) | (b1 << 48) | (b2 << 40) | (b3 << 32) | (b4 << 24) | (b5 << 16) | (b6 << 8) | b7
}

/// Appends `data` to `out`.
pub fn push_bytes(out: &mut Vec<u8>, data: &[u8])
    ensures
        final(out)@ == old(out)@ + data@,
{
    let mut i: usize = 0;
    while i < data.len()
        invariant
            i <= data@.len(),
            out@ == old(out)@ + data@.subrange(0, i as int),
        decreases data@.len() - i,
    {
        out.push(data[i]);
        i = i + 1;
    }
}

/// Copies the 32 bytes that start at `at` into an array.
pub fn read_bytes32(bytes: &[u8], at: usize) -> (out: [u8; 32])
    requires
        at + 32 <= bytes@.len(),
    ensures
        out@ == bytes@.subrange(at as int, at + 32),
{
    let n: usize = bytes.len();
    let mut out: [u8; 32] = [0u8; 32];
    let mut i: usize = 0;
    while i < 32
        invariant
            i <= 32,
            at + 32 <= n == bytes@.len(),
            forall|j: int| 0 <= j < i ==> out@[j] == bytes@[at + j],
        decreases 32 - i,
    {
        out[i] = bytes[at + i];
        i = i + 1;
    }
    out
}

} // verus!
