//! Content digests: the dedup key of the record store.

use sha2::Digest;
use vstd::prelude::*;

verus! {

/// The 256-bit digest of a byte sequence, as computed by the outside hash
/// function.  Uninterpreted: contracts only ever compare digests.
pub uninterp spec fn digest_of(data: Seq<u8>) -> Seq<u8>;

/// A content digest; wraps the raw digest bytes.
pub struct DataHash {
    bytes: Vec<u8>,
}

impl View for DataHash {
    type V = Seq<u8>;

    closed spec fn view(&self) -> Seq<u8> {
        self.bytes@
    }
}

/// Relies on sha2's `Sha256`: hashing a byte slice yields a 32-byte digest
/// that depends on the input bytes alone.
#[verifier::external_body]
fn sha256(data: &[u8]) -> (r: Vec<u8>)
    ensures
        r@ == digest_of(data@),
        r@.len() == 32,
{
    let mut hasher = sha2::Sha256::new();
    hasher.update(data);
    hasher.finalize().to_vec()
}

/// Computes the content digest of `data`.
pub fn calculate_data_hash(data: &[u8]) -> (r: DataHash)
    ensures
        r@ == digest_of(data@),
        r@.len() == 32,
{
    DataHash { bytes: sha256(data) }
}

impl DataHash {
    /// Whether two digests hold the same bytes.
    pub fn same_as(&self, other: &DataHash) -> (r: bool)
        ensures
            r == (self@ == other@),
    {
        if self.bytes.len() != other.bytes.len() {
            assert(self@.len() != other@.len());
            return false;
        }
        let n = self.bytes.len();
        let mut i: usize = 0;
        while i < n
            invariant
                n == self.bytes.len(),
                n == other.bytes.len(),
                0 <= i <= n,
                forall|k: int| 0 <= k < i ==> self.bytes@[k] == other.bytes@[k],
            decreases n - i,
        {
            if self.bytes[i] != other.bytes[i] {
                return false;
            }
            i = i + 1;
        }
        assert(self@ =~= other@);
        true
    }
}

} // verus!
