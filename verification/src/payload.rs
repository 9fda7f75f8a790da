//! The availability payload and its canonical byte encoding.
//!
//! A payload is a pair of the opaque block data and the extrinsic
//! messages. The byte encoding is the SCALE codec's, taken on trust from
//! `parity-scale-codec`; everything the erasure layer does happens on the
//! encoded bytes.

use vstd::prelude::*;

verus! {

/// Opaque block data to keep available.
#[derive(Debug, Clone, PartialEq, Eq)]
pub struct BlockData(pub Vec<u8>);

/// The extrinsic data kept available beside the block: the outgoing
/// messages, each an opaque byte string.
#[derive(Debug, Clone, PartialEq, Eq)]
pub struct Extrinsic {
    pub outgoing_messages: Vec<Vec<u8>>,
}

impl View for BlockData {
    type V = Seq<u8>;

    open spec fn view(&self) -> Seq<u8> {
        self.0@
    }
}

impl View for Extrinsic {
    type V = Seq<Seq<u8>>;

    open spec fn view(&self) -> Seq<Seq<u8>> {
        self.outgoing_messages@.map_values(|m: Vec<u8>| m@)
    }
}

/// The SCALE encoding of a payload: a pure function of the block data and
/// the messages.
pub uninterp spec fn payload_encoding(block: Seq<u8>, messages: Seq<Seq<u8>>) -> Seq<u8>;

/// Whether every collection in the payload fits the codec's compact
/// length prefix: the encoder refuses (by panic) any collection longer
/// than `u32::MAX` items.
pub open spec fn payload_sizes_ok(block: Seq<u8>, messages: Seq<Seq<u8>>) -> bool {
    &&& block.len() <= 0xffff_ffff
    &&& messages.len() <= 0xffff_ffff
    &&& forall|i: int| 0 <= i < messages.len() ==> #[trigger] messages[i].len() <= 0xffff_ffff
}

/// What SCALE decoding makes of a byte string: the decoded payload, or
/// nothing when no payload encoding starts the string.
pub uninterp spec fn payload_decoding(bytes: Seq<u8>) -> Option<(Seq<u8>, Seq<Seq<u8>>)>;

/// Relies on parity-scale-codec's `Encode` for `(Vec<u8>, Vec<Vec<u8>>)`:
/// the encoding is a function of the encoded value alone, and is never
/// empty for this type, since it opens with a compact length prefix.
/// Encoding a collection of more than `u32::MAX` elements panics in the
/// compact length prefix, so the `requires` keeps such payloads out.
#[verifier::external_body]
pub fn encode_payload(block_data: &BlockData, extrinsic: &Extrinsic) -> (r: Vec<u8>)
    requires
        payload_sizes_ok(block_data@, extrinsic@),
    ensures
        r@ == payload_encoding(block_data@, extrinsic@),
        r@.len() >= 1,
{
    parity_scale_codec::Encode::encode(&(&block_data.0, &extrinsic.outgoing_messages))
}

/// Relies on parity-scale-codec's `Decode` for `(Vec<u8>, Vec<Vec<u8>>)`:
/// decoding is a function of the input bytes alone, reads a prefix of
/// them, and inverts `Encode` (SCALE is a bijective codec on this type).
#[verifier::external_body]
pub fn decode_payload(bytes: &Vec<u8>) -> (r: Option<(BlockData, Extrinsic)>)
    ensures
        (match r {
            Some(v) => payload_decoding(bytes@) == Some((v.0@, v.1@)),
            None => payload_decoding(bytes@) is None,
        }),
        (forall|b: Seq<u8>, m: Seq<Seq<u8>>| bytes@ == #[trigger] payload_encoding(b, m)
            ==> (match r {
                Some(v) => v.0@ == b && v.1@ == m,
                None => false,
            })),
{
    let mut input: &[u8] = &bytes[..];
    match <(Vec<u8>, Vec<Vec<u8>>) as parity_scale_codec::Decode>::decode(&mut input) {
        Ok((b, m)) => Some((BlockData(b), Extrinsic { outgoing_messages: m })),
        Err(_) => None,
    }
}

} // verus!
