//! The 32-byte BLAKE3 digest that serves as a tick.

use vstd::prelude::*;
use vstd::std_specs::cmp::PartialEqSpec;

verus! {

/// The BLAKE3 digest of `input`.
pub uninterp spec fn blake3_digest(input: Seq<u8>) -> Seq<u8>;

/// A BLAKE3 digest. Its view is the sequence of its 32 bytes.
#[derive(Debug, Clone, Copy)]
pub struct Tick {
    bytes: [u8; 32],
}

impl View for Tick {
    type V = Seq<u8>;

    closed spec fn view(&self) -> Seq<u8> {
        self.bytes@
    }
}

/// Calls `blake3::hash`. The contract says that the 32 bytes returned are a function of the input
/// bytes alone, and names that function [`blake3_digest`].
#[verifier::external_body]
fn digest_bytes(input: &[u8]) -> (digest: [u8; 32])
    ensures
        digest@ == blake3_digest(input@),
{
    *blake3::hash(input).as_bytes()
}

/// Calls `==` of `blake3::Hash`, which takes the same time wherever the operands differ. The
/// contract says that it holds exactly of digests with the same bytes; the timing is not part of
/// the contract.
#[verifier::external_body]
fn same_digest(left: &[u8; 32], right: &[u8; 32]) -> (same: bool)
    ensures
        same == (left@ == right@),
{
    blake3::Hash::from_bytes(*left) == blake3::Hash::from_bytes(*right)
}

impl Tick {
    /// The digest with the given bytes.
    pub fn from_bytes(bytes: [u8; 32]) -> (digest: Tick)
        ensures
            digest@ == bytes@,
    {
        Tick { bytes }
    }

    /// The bytes of the digest.
    pub fn as_bytes(&self) -> (bytes: &[u8; 32])
        ensures
            bytes@ == self@,
    {
        &self.bytes
    }
}

impl PartialEq for Tick {
    fn eq(&self, other: &Tick) -> (same: bool) {
        same_digest(&self.bytes, &other.bytes)
    }
}

impl vstd::std_specs::cmp::PartialEqSpecImpl for Tick {
    open spec fn obeys_eq_spec() -> bool {
        true
    }

    open spec fn eq_spec(&self, other: &Tick) -> bool {
        self@ == other@
    }
}

impl Eq for Tick {
}

/// A digest is determined by its bytes.
pub proof fn digest_is_its_bytes(left: Tick, right: Tick)
    requires
        left@ == right@,
    ensures
        left == right,
{
    assert forall|i: int| 0 <= i < 32 implies left.bytes[i] == right.bytes[i] by {
        assert(left.bytes@[i] == right.bytes@[i]);
    }
    assert(left.bytes =~= right.bytes);
}

/// Two ticks are equal under `==` exactly if they are the same.
pub proof fn equal_ticks_are_the_same(left: Tick, right: Tick)
    ensures
        left.eq_spec(&right) <==> left == right,
{
    if left@ == right@ {
        digest_is_its_bytes(left, right);
    }
}

/// The BLAKE3 hash of `input`.
pub fn hash(input: &[u8]) -> (digest: Tick)
    ensures
        digest@ == blake3_digest(input@),
{
    Tick { bytes: digest_bytes(input) }
}

} // verus!
