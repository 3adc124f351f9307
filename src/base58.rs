//! Base58 text of payment codes and signals, read and written by the bs58
//! crate.

use vstd::prelude::*;

verus! {

/// The bytes that a base58 (Bitcoin alphabet) text denotes, or `None` when
/// the text is not base58.
pub uninterp spec fn base58_decoded(s: Seq<char>) -> Option<Seq<u8>>;

/// The base58 (Bitcoin alphabet) text of a byte string.
pub uninterp spec fn base58_encoded(b: Seq<u8>) -> Seq<char>;

/// Relies on `bs58::decode(..).with_alphabet(bs58::Alphabet::BITCOIN).into_vec()`:
/// whether the text decodes, and to what, depends on the text alone.
#[verifier::external_body]
pub(crate) fn decode_base58(s: &String) -> (r: Option<Vec<u8>>)
    ensures
        match r {
            Some(v) => base58_decoded(s@) == Some(v@),
            None => base58_decoded(s@).is_none(),
        },
{
    bs58::decode(s).with_alphabet(bs58::Alphabet::BITCOIN).into_vec().ok()
}

/// Relies on `bs58::encode(..).into_string()` (Bitcoin alphabet by default):
/// the text depends on the bytes alone.
#[verifier::external_body]
pub(crate) fn encode_base58(b: &Vec<u8>) -> (r: String)
    ensures
        r@ == base58_encoded(b@),
{
    bs58::encode(b).into_string()
}

} // verus!
