//! The byte buffers of the `bytes` crate, as the codec sees them.
use bytes::Buf;
use bytes::Bytes;
use bytes::BytesMut;
use vstd::prelude::*;

verus! {

#[verifier::external_type_specification]
#[verifier::external_body]
pub struct ExBytesMut(bytes::BytesMut);

#[verifier::external_type_specification]
#[verifier::external_body]
pub struct ExBytes(bytes::Bytes);

/// The bytes that a `BytesMut` holds, in order.
pub uninterp spec fn bytes_mut_contents(b: BytesMut) -> Seq<u8>;

/// The bytes that a `Bytes` holds, in order.
pub uninterp spec fn bytes_contents(b: Bytes) -> Seq<u8>;

/// `BytesMut::is_empty`: true exactly when the buffer holds no byte.
#[verifier::external_body]
pub(crate) fn buf_is_empty(b: &BytesMut) -> (r: bool)
    ensures
        r == (bytes_mut_contents(*b).len() == 0),
{
    b.is_empty()
}

/// `Buf::get_u8` on a `BytesMut`: hands out the first byte and advances the
/// buffer past it (it panics on an empty buffer, hence the `requires`).
#[verifier::external_body]
pub(crate) fn buf_get_u8(b: &mut BytesMut) -> (r: u8)
    requires
        bytes_mut_contents(*old(b)).len() > 0,
    ensures
        r == bytes_mut_contents(*old(b))[0],
        bytes_mut_contents(*final(b)) == bytes_mut_contents(*old(b)).drop_first(),
{
    b.get_u8()
}

/// `Deref` of a `BytesMut`: the slice of the bytes it holds.
#[verifier::external_body]
pub(crate) fn buf_as_slice(b: &BytesMut) -> (r: &[u8])
    ensures
        r@ == bytes_mut_contents(*b),
{
    &b[..]
}

/// `Bytes::from(String)`: the frozen buffer holds the UTF-8 bytes of the string.
#[verifier::external_body]
pub(crate) fn bytes_from_string(s: String) -> (r: Bytes)
    ensures
        bytes_contents(r) == vstd::utf8::encode_utf8(s@),
{
    Bytes::from(s)
}

} // verus!
