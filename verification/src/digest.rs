//! SHA-256 digests and byte-string helpers.

use vstd::prelude::*;
use sha2::Digest;

verus! {

/// The SHA-256 digest of a byte string, as a mathematical function.
pub uninterp spec fn sha256(data: Seq<u8>) -> Seq<u8>;

/// Computes SHA-256 with `sha2::Sha256::digest`.
///
/// Trusted: the 32 bytes that come back are the SHA-256 digest of exactly the
/// bytes handed in, and depend on nothing else.
#[verifier::external_body]
pub(crate) fn sha256_digest(data: &[u8]) -> (out: [u8; 32])
    ensures
        out@ == sha256(data@),
{
    sha2::Sha256::digest(data).into()
}

/// The byte strings held by a sequence of 32-byte digests.
pub open spec fn views(digests: Seq<[u8; 32]>) -> Seq<Seq<u8>> {
    digests.map_values(|d: [u8; 32]| d@)
}

/// Byte strings of 32 bytes each.
pub open spec fn all_digests(blocks: Seq<Seq<u8>>) -> bool {
    forall|i: int| 0 <= i < blocks.len() ==> (#[trigger] blocks[i]).len() == 32
}

/// Compares two 32-byte strings without branching on their contents: every
/// byte pair is visited whatever the inputs hold.
pub fn digest_eq(a: &[u8; 32], b: &[u8; 32]) -> (same: bool)
    ensures
        same == (a@ == b@),
{
    let mut diff: u8 = 0;
    let mut i: usize = 0;
    while i < 32
        invariant
            i <= 32,
            diff == 0 <==> (forall|j: int| 0 <= j < i ==> a@[j] == b@[j]),
        decreases 32 - i,
    {
        let x: u8 = a[i];
        let y: u8 = b[i];
        proof {
            assert((diff | (x ^ y)) == 0 <==> diff == 0 && x == y) by (bit_vector);
        }
        diff = diff | (x ^ y);
        i = i + 1;
    }
    proof {
        if diff == 0 {
            assert(a@ =~= b@);
        }
    }
    diff == 0
}

/// Whether two lists hold the same digests in the same order.
pub fn same_digests(a: &Vec<[u8; 32]>, b: &Vec<[u8; 32]>) -> (same: bool)
    ensures
        same == (views(a@) == views(b@)),
{
    if a.len() != b.len() {
        return false;
    }
    let mut i: usize = 0;
    while i < a.len()
        invariant
            i <= a@.len(),
            a@.len() == b@.len(),
            forall|k: int| 0 <= k < i ==> views(a@)[k] == views(b@)[k],
        decreases a@.len() - i,
    {
        if !digest_eq(&a[i], &b[i]) {
            proof {
                assert(views(a@)[i as int] != views(b@)[i as int]);
            }
            return false;
        }
        i = i + 1;
    }
    proof {
        assert(views(a@) =~= views(b@));
    }
    true
}

} // verus!
