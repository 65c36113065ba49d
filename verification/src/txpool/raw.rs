//! Raw transactions as cheaply shared byte strings.
use vstd::prelude::*;

use bytes::Bytes;

verus! {

/// `bytes::Bytes`, a shared immutable byte string.
#[verifier::external_type_specification]
#[verifier::external_body]
pub struct ExBytes(bytes::Bytes);

/// The bytes that a `bytes::Bytes` holds.
pub uninterp spec fn raw_bytes(b: bytes::Bytes) -> Seq<u8>;

/// `bytes::Bytes::as_ref`: the bytes as a slice.
#[verifier::external_body]
pub(crate) fn as_slice(b: &Bytes) -> (s: &[u8])
    ensures
        s@ == raw_bytes(*b),
{
    b.as_ref()
}

/// `bytes::Bytes::clone`: another handle to the same bytes.
#[verifier::external_body]
pub(crate) fn share(b: &Bytes) -> (r: Bytes)
    ensures
        raw_bytes(r) == raw_bytes(*b),
{
    b.clone()
}

/// `bytes::Bytes::from` of a vector: the bytes of the vector.
#[verifier::external_body]
pub(crate) fn from_vec(v: Vec<u8>) -> (r: Bytes)
    ensures
        raw_bytes(r) == v@,
{
    Bytes::from(v)
}

/// The bytes of several raw transactions.
pub open spec fn raws(txs: Seq<Bytes>) -> Seq<Seq<u8>> {
    Seq::new(txs.len(), |i: int| raw_bytes(txs[i]))
}

/// The bytes of some transactions stand in their order, one for each.
pub proof fn raws_stand_in_order(txs: Seq<Bytes>)
    ensures
        raws(txs).len() == txs.len(),
        forall|i: int| 0 <= i < txs.len() ==> #[trigger] raws(txs)[i] == raw_bytes(txs[i]),
{
}

} // verus!
