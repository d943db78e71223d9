//! Keccak-256 digests and the 32-byte game hash built from them.

use vstd::prelude::*;

verus! {

/// The Keccak-256 digest of a byte string.
pub uninterp spec fn keccak256(data: Seq<u8>) -> Seq<u8>;

/// Hashes `data` with `alloy::primitives::keccak256`. The contract names the
/// digest: the same bytes always give the same 32 bytes.
#[verifier::external_body]
pub(crate) fn keccak(data: &[u8]) -> (digest: [u8; 32])
    ensures
        digest@ == keccak256(data@),
{
    alloy::primitives::keccak256(data).0
}

/// Whether two byte strings hold the same bytes.
pub fn same_bytes(a: &[u8], b: &[u8]) -> (same: bool)
    ensures
        same == (a@ == b@),
{
    if a.len() != b.len() {
        return false;
    }
    let mut i: usize = 0;
    while i < a.len()
        invariant
            a@.len() == b@.len(),
            i <= a@.len(),
            forall|k: int| 0 <= k < i ==> a@[k] == b@[k],
        decreases a@.len() - i,
    {
        if a[i] != b[i] {
            return false;
        }
        i += 1;
    }
    assert(a@ =~= b@);
    true
}

/// A succinct commitment to a game's whole state: its identity, its players
/// and every move made so far.
#[derive(Clone, Copy, Debug)]
pub struct GameHash {
    bytes: [u8; 32],
}

impl View for GameHash {
    type V = Seq<u8>;

    open spec fn view(&self) -> Seq<u8> {
        self.bytes()
    }
}

impl GameHash {
    /// The 32 bytes of the hash.
    pub closed spec fn bytes(&self) -> Seq<u8> {
        self.bytes@
    }

    /// A hash has thirty-two bytes.
    pub proof fn lemma_len(&self)
        ensures
            self@.len() == 32,
    {
        broadcast use vstd::array::array_len_matches_n;
    }

    /// Hashes with the same bytes are the same hash.
    pub proof fn lemma_same(self, other: GameHash)
        ensures
            (self@ == other@) == (self == other),
    {
        broadcast use vstd::array::axiom_array_ext_equal;

        if self@ == other@ {
            assert(self.bytes@ =~= other.bytes@);
            assert(self.bytes == other.bytes);
        }
    }

    /// The hash with the given bytes.
    pub fn new(bytes: [u8; 32]) -> (hash: GameHash)
        ensures
            hash@ == bytes@,
    {
        GameHash { bytes }
    }

    /// The bytes of the hash.
    pub fn to_bytes(&self) -> (bytes: [u8; 32])
        ensures
            bytes@ == self@,
    {
        self.bytes
    }
}

impl PartialEq for GameHash {
    fn eq(&self, other: &GameHash) -> (same: bool) {
        same_bytes(self.bytes.as_slice(), other.bytes.as_slice())
    }
}

impl vstd::std_specs::cmp::PartialEqSpecImpl for GameHash {
    open spec fn obeys_eq_spec() -> bool {
        true
    }

    open spec fn eq_spec(&self, other: &GameHash) -> bool {
        self@ == other@
    }
}

impl Eq for GameHash {}

} // verus!
