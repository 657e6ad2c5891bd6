//! Parachain headers as the relay chain hands them over: SCALE-encoded bytes.
use vstd::prelude::*;
use crate::hash::{BlockHash, blake2_256_of};

verus! {

/// Shortest encoding of a header: the parent hash, a block number of at least one
/// byte, the state root and the extrinsics root.
pub const MIN_HEADER_LEN: usize = 97;

/// The block number that opens a SCALE-encoded header, where the opening parent
/// hash, compact number, state root and extrinsics root decode.
pub uninterp spec fn scale_header_number(b: Seq<u8>) -> Option<u32>;

/// Relies on parity-scale-codec's `Decode` for `([u8; 32], Compact<u32>, [u8; 32], [u8; 32])`,
/// the fields that open a header: it reads them from the front of the input, or fails.
/// A success has read three 32-byte arrays and a compact prefix of at least one byte.
#[verifier::external_body]
fn decode_header_number(bytes: &[u8]) -> (r: Option<u32>)
    ensures
        r == scale_header_number(bytes@),
        r is Some ==> bytes@.len() >= MIN_HEADER_LEN,
{
    <([u8; 32], parity_scale_codec::Compact<u32>, [u8; 32], [u8; 32]) as parity_scale_codec::Decode>::decode(
        &mut &bytes[..],
    ).ok().map(|fields| fields.1.0)
}

/// A decoded parachain header, with what the driver observes of it.
///
/// The digest that ends an encoded header is kept opaque, inside `encoded`.
#[derive(Clone, Debug)]
pub struct Header {
    /// The block's hash: the digest of its encoding.
    pub hash: BlockHash,
    /// The block's height.
    pub number: u32,
    /// The encoding the header was decoded from.
    pub encoded: Vec<u8>,
}

/// Whether `bytes` decode to a header.
pub open spec fn decodes(bytes: Seq<u8>) -> bool {
    scale_header_number(bytes) is Some
}

/// The header that `bytes` decode to, where they do.
pub open spec fn header_of(h: Header, bytes: Seq<u8>) -> bool {
    &&& scale_header_number(bytes) == Some(h.number)
    &&& h.hash@ == blake2_256_of(bytes)
    &&& h.encoded@ == bytes
}

/// Decodes a parachain header from its SCALE encoding, and derives its hash.
pub fn decode_header(bytes: &[u8]) -> (r: Option<Header>)
    ensures
        r is Some <==> decodes(bytes@),
        r matches Some(h) ==> header_of(h, bytes@),
{
    match decode_header_number(bytes) {
        None => None,
        Some(number) => {
            let hash = BlockHash::of_encoded(bytes);
            let encoded = vstd::slice::slice_to_vec(bytes);
            Some(Header { hash, number, encoded })
        },
    }
}

} // verus!
