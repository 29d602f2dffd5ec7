//! `bytes::Bytes`, in which bodies and files are held.
use bytes::Bytes;
use vstd::prelude::*;

verus! {

/// `bytes::Bytes`: an immutable string of octets that is cheap to clone.
#[verifier::external_type_specification]
#[verifier::external_body]
pub struct ExBytes(bytes::Bytes);

/// The octets that a `Bytes` holds, in order.
pub uninterp spec fn octets(b: Bytes) -> Seq<u8>;

/// `Bytes::copy_from_slice`: the result holds the octets of `data`.
#[verifier::external_body]
pub(crate) fn copy_octets(data: &[u8]) -> (r: Bytes)
    ensures
        octets(r) == data@,
{
    Bytes::copy_from_slice(data)
}

/// `Bytes::from` on a vector: the result holds the octets of `data`.
#[verifier::external_body]
pub(crate) fn own_octets(data: Vec<u8>) -> (r: Bytes)
    ensures
        octets(r) == data@,
{
    Bytes::from(data)
}

/// `Bytes::clone`: another handle on the same octets.
#[verifier::external_body]
pub(crate) fn share_octets(data: &Bytes) -> (r: Bytes)
    ensures
        octets(r) == octets(*data),
{
    data.clone()
}

/// `Bytes::deref`: the octets as a slice.
#[verifier::external_body]
pub(crate) fn read_octets(data: &Bytes) -> (r: &[u8])
    ensures
        r@ == octets(*data),
{
    &**data
}

} // verus!
