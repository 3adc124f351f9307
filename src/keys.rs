//! Storage-key derivation: canonical bytes of a logical key, hashed and
//! written as fixed-length lowercase hex, and the composite address of a
//! dictionary slot.

use vstd::prelude::*;
use blake2::digest::{Update, VariableOutput};
use vstd::utf8::encode_utf8;
use crate::encoding::{le_u32, u32_to_le};

verus! {

/// The 32-byte BLAKE2b digest of `data`.
pub uninterp spec fn blake2b_256(data: Seq<u8>) -> Seq<u8>;

/// The address that a formatted `uref-<hex>-<rights>` text denotes, or
/// `None` when the text is not one.
pub uninterp spec fn uref_address_of(s: Seq<char>) -> Option<Seq<u8>>;

/// The lowercase hexadecimal digit of a value below sixteen.
pub open spec fn hex_digit(n: int) -> char {
    seq!['0', '1', '2', '3', '4', '5', '6', '7', '8', '9', 'a', 'b', 'c', 'd', 'e', 'f'][n]
}

/// Lowercase hexadecimal, two digits per byte, high nibble first.
pub open spec fn hex_lower(b: Seq<u8>) -> Seq<char>
    decreases b.len(),
{
    if b.len() == 0 {
        Seq::empty()
    } else {
        hex_lower(b.drop_last()) + seq![hex_digit(b.last() as int / 16), hex_digit(b.last() as int % 16)]
    }
}

pub proof fn lemma_hex_lower_len(b: Seq<u8>)
    ensures
        hex_lower(b).len() == 2 * b.len(),
    decreases b.len(),
{
    if b.len() > 0 {
        lemma_hex_lower_len(b.drop_last());
    }
}

/// The canonical bytes of a text key: its UTF-8 length as a little-endian
/// `u32`, then its UTF-8 bytes.
pub open spec fn string_key_bytes(s: Seq<char>) -> Seq<u8> {
    le_u32(encode_utf8(s).len() as u32) + encode_utf8(s)
}

/// The storage key derived from canonical bytes: the lowercase hex of their
/// BLAKE2b-256 digest.
pub open spec fn dictionary_key(preimage: Seq<u8>) -> Seq<char> {
    hex_lower(blake2b_256(preimage))
}

/// Relies on blake2's `VarBlake2b` with a 32-byte output: the digest depends
/// on the input alone and has 32 bytes.
#[verifier::external_body]
fn blake2b(data: &Vec<u8>) -> (r: Vec<u8>)
    ensures
        r@ == blake2b_256(data@),
        r@.len() == 32,
{
    let mut hasher = blake2::VarBlake2b::new(32).unwrap();
    hasher.update(data);
    let mut result = Vec::new();
    hasher.finalize_variable(|slice| result.extend_from_slice(slice));
    result
}

/// Relies on `hex::encode`: two lowercase digits per byte, high nibble first.
#[verifier::external_body]
fn hex_encode(b: &Vec<u8>) -> (r: String)
    ensures
        r@ == hex_lower(b@),
{
    hex::encode(b)
}

/// Relies on `casper_types::URef::from_formatted_str`: whether the text
/// parses, and to which 32-byte address, depends on the text alone.
#[verifier::external_body]
fn parse_uref_address(s: &String) -> (r: Option<Vec<u8>>)
    ensures
        match r {
            Some(a) => uref_address_of(s@) == Some(a@) && a@.len() == 32,
            None => uref_address_of(s@).is_none(),
        },
{
    match casper_types::URef::from_formatted_str(s) {
        Ok(uref) => Some(uref.addr().to_vec()),
        Err(_) => None,
    }
}

/// Relies on `casper_types::Key::dictionary` and `Key::to_formatted_string`:
/// the slot address is the 32-byte BLAKE2b digest (blake2's `VarBlake2b`) of
/// the seed address followed by the item key, formatted as `dictionary-`
/// and its lowercase hex.
#[verifier::external_body]
fn dictionary_key_string(seed: &Vec<u8>, item_key: &Vec<u8>) -> (r: String)
    requires
        seed@.len() == 32,
    ensures
        r@ == "dictionary-"@ + hex_lower(blake2b_256(seed@ + item_key@)),
{
    let addr: [u8; 32] = seed.as_slice().try_into().unwrap();
    let uref = casper_types::URef::new(addr, casper_types::AccessRights::READ_ADD_WRITE);
    casper_types::Key::dictionary(uref, item_key).to_formatted_string()
}

/// Hashes canonical key bytes into the fixed-length storage key.
pub fn to_dictionary_item_key(preimage: &Vec<u8>) -> (r: String)
    ensures
        r@ == dictionary_key(preimage@),
        r@.len() == 64,
{
    let hash = blake2b(preimage);
    proof {
        lemma_hex_lower_len(hash@);
    }
    hex_encode(&hash)
}

/// The canonical bytes of a text key.
pub fn string_to_key_bytes(key: &String) -> (r: Vec<u8>)
    requires
        encode_utf8(key@).len() <= u32::MAX,
    ensures
        r@ == string_key_bytes(key@),
{
    let body = key.as_str().as_bytes_vec();
    let prefix = u32_to_le(body.len() as u32);
    let mut r: Vec<u8> = Vec::new();
    r.push(prefix[0]);
    r.push(prefix[1]);
    r.push(prefix[2]);
    r.push(prefix[3]);
    let mut i: usize = 0;
    while i < body.len()
        invariant
            i <= body@.len(),
            r@ == prefix@ + body@.subrange(0, i as int),
        decreases body@.len() - i,
    {
        r.push(body[i]);
        assert(body@.subrange(0, i as int + 1) =~= body@.subrange(0, i as int).push(body@[i as int]));
        i = i + 1;
    }
    assert(body@.subrange(0, body@.len() as int) =~= body@);
    r
}

/// The storage key of a text key.
pub fn string_dictionary_item_key(key: &String) -> (r: String)
    requires
        encode_utf8(key@).len() <= u32::MAX,
    ensures
        r@ == dictionary_key(string_key_bytes(key@)),
        r@.len() == 64,
{
    let bytes = string_to_key_bytes(key);
    to_dictionary_item_key(&bytes)
}

/// The storage key of an integer key.
pub fn u32_dictionary_item_key(key: u32) -> (r: String)
    ensures
        r@ == dictionary_key(le_u32(key)),
        r@.len() == 64,
{
    let b = u32_to_le(key);
    let v: Vec<u8> = vec![b[0], b[1], b[2], b[3]];
    assert(v@ =~= le_u32(key));
    to_dictionary_item_key(&v)
}

/// The formatted address of the dictionary slot that holds entry `index`
/// of the dictionary seeded by the formatted reference `region_seed`;
/// `None` when `region_seed` is not a formatted reference.
pub fn composite_address(region_seed: &String, index: u32) -> (r: Option<String>)
    ensures
        match uref_address_of(region_seed@) {
            None => r.is_none(),
            Some(seed) => r.is_some() && r.unwrap()@ == "dictionary-"@ + hex_lower(
                blake2b_256(seed + encode_utf8(dictionary_key(le_u32(index)))),
            ),
        },
{
    let seed = match parse_uref_address(region_seed) {
        Some(seed) => seed,
        None => return None,
    };
    let item_key = u32_dictionary_item_key(index);
    let item_bytes = item_key.as_str().as_bytes_vec();
    Some(dictionary_key_string(&seed, &item_bytes))
}

/// Deriving the storage key of one text key twice gives one result: the
/// derivation depends on the key's characters alone.
pub proof fn lemma_dictionary_key_deterministic(k1: Seq<char>, k2: Seq<char>)
    requires
        k1 == k2,
    ensures
        dictionary_key(string_key_bytes(k1)) == dictionary_key(string_key_bytes(k2)),
{
}

} // verus!
