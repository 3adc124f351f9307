//! The offline reader's decoders: wrapped identity values and full event
//! records, with the canonical texts they are shown as.

use vstd::prelude::*;
use crate::codec::{
    parse_address, read_address, read_block, split_block, decode_event, decode_event_spec, copy_range,
    DecodeError, Event, EventView, Identity, IdentityKind, IdentityView, ADDRESS_BLOCK_LEN,
    ANY_TYPE_TAG, HASH_LEN, LIST_TYPE_TAG, U8_TYPE_TAG,
};
use crate::keys::hex_lower;

verus! {

/// Answers a liveness probe of a loaded decoder.
pub fn hello() -> (r: u32)
    ensures
        r == 12,
{
    12
}

/// Succeeds exactly when nothing is left over.
pub fn assert_is_empty(bytes: &[u8]) -> (r: Result<(), DecodeError>)
    ensures
        r is Ok <==> bytes@.len() == 0,
        r is Err ==> r == Err::<(), DecodeError>(DecodeError::TrailingBytes),
{
    if bytes.len() == 0 {
        Ok(())
    } else {
        Err(DecodeError::TrailingBytes)
    }
}

/// What `decode_identity` yields on `b`: one block wrapping a value, which
/// is a block of 64 bytes followed by the tag of the "any" type; the 64
/// bytes are an address block.
pub open spec fn decode_identity_spec(b: Seq<u8>) -> Result<IdentityView, DecodeError> {
    match split_block(b) {
        Err(e) => Err(e),
        Ok((outer, rest)) => if rest.len() > 0 {
            Err(DecodeError::TrailingBytes)
        } else {
            match split_block(outer) {
                Err(e) => Err(e),
                Ok((payload, ty)) => if ty.len() == 0 {
                    Err(DecodeError::Underflow)
                } else if ty[0] != ANY_TYPE_TAG {
                    Err(DecodeError::UnsupportedValueKind)
                } else if ty.len() > 1 {
                    Err(DecodeError::TrailingBytes)
                } else if payload.len() < ADDRESS_BLOCK_LEN {
                    Err(DecodeError::Underflow)
                } else if payload.len() > ADDRESS_BLOCK_LEN {
                    Err(DecodeError::TrailingBytes)
                } else {
                    parse_address(payload)
                },
            }
        },
    }
}

/// The canonical text of an identity.
pub open spec fn identity_text(id: IdentityView) -> Seq<char> {
    match id.kind {
        IdentityKind::Account => "account-hash-"@ + hex_lower(id.hash),
        IdentityKind::Contract => "contract-package-wasm"@ + hex_lower(id.hash),
    }
}

/// Relies on `casper_types::account::AccountHash::to_formatted_string`:
/// `account-hash-` then the lowercase hex of the hash.
#[verifier::external_body]
fn account_hash_text(hash: &Vec<u8>) -> (r: String)
    requires
        hash@.len() == 32,
    ensures
        r@ == "account-hash-"@ + hex_lower(hash@),
{
    let h: [u8; 32] = hash.as_slice().try_into().unwrap();
    casper_types::account::AccountHash::new(h).to_formatted_string()
}

/// Relies on `casper_types::ContractPackageHash::to_formatted_string`:
/// `contract-package-wasm` then the lowercase hex of the hash.
#[verifier::external_body]
fn contract_package_text(hash: &Vec<u8>) -> (r: String)
    requires
        hash@.len() == 32,
    ensures
        r@ == "contract-package-wasm"@ + hex_lower(hash@),
{
    let h: [u8; 32] = hash.as_slice().try_into().unwrap();
    casper_types::ContractPackageHash::new(h).to_formatted_string()
}

/// Relies on `casper_types::URef::to_formatted_string` for a reference with
/// read, add and write rights: `uref-`, the lowercase hex of the address,
/// then `-007`.
#[verifier::external_body]
fn uref_text(addr: &Vec<u8>) -> (r: String)
    requires
        addr@.len() == 32,
    ensures
        r@ == "uref-"@ + hex_lower(addr@) + "-007"@,
{
    let a: [u8; 32] = addr.as_slice().try_into().unwrap();
    casper_types::URef::new(a, casper_types::AccessRights::READ_ADD_WRITE).to_formatted_string()
}

/// Reads a wrapped identity value.
pub fn decode_identity(bytes: &[u8]) -> (r: Result<Identity, DecodeError>)
    ensures
        match r {
            Ok(id) => decode_identity_spec(bytes@) == Ok::<IdentityView, DecodeError>(id@)
                && id@.hash.len() == HASH_LEN,
            Err(x) => decode_identity_spec(bytes@) == Err::<IdentityView, DecodeError>(x),
        },
{
    let ghost b = bytes@;
    assert(b.subrange(0, b.len() as int) =~= b);
    let (os, oe) = read_block(bytes, 0)?;
    assert_is_empty(&copy_range(bytes, oe, bytes.len()))?;
    let outer = copy_range(bytes, os, oe);
    assert(outer@.subrange(0, outer@.len() as int) =~= outer@);
    let (ps, pe) = read_block(outer.as_slice(), 0)?;
    let ty_len = outer.len() - pe;
    if ty_len == 0 {
        return Err(DecodeError::Underflow);
    }
    if outer[pe] != ANY_TYPE_TAG {
        return Err(DecodeError::UnsupportedValueKind);
    }
    if ty_len > 1 {
        return Err(DecodeError::TrailingBytes);
    }
    let payload_len = pe - ps;
    if payload_len < ADDRESS_BLOCK_LEN {
        return Err(DecodeError::Underflow);
    }
    if payload_len > ADDRESS_BLOCK_LEN {
        return Err(DecodeError::TrailingBytes);
    }
    read_address(outer.as_slice(), ps)
}

/// The canonical text of an identity.
pub fn identity_to_string(id: &Identity) -> (r: String)
    requires
        id@.hash.len() == HASH_LEN,
    ensures
        r@ == identity_text(id@),
{
    match id.kind {
        IdentityKind::Account => account_hash_text(&id.hash),
        IdentityKind::Contract => contract_package_text(&id.hash),
    }
}

/// Reads a wrapped identity value and gives its canonical text.
pub fn bytes_to_address(bytes: &[u8]) -> (r: Result<String, DecodeError>)
    ensures
        match decode_identity_spec(bytes@) {
            Ok(id) => r is Ok && r.unwrap()@ == identity_text(id),
            Err(x) => r == Err::<String, DecodeError>(x),
        },
{
    let id = decode_identity(bytes)?;
    Ok(identity_to_string(&id))
}

} // verus!

verus! {

/// A full event record: the seed address of the event dictionary and the event.
#[derive(Debug, PartialEq, Eq)]
pub struct EventRecord {
    pub seed: Vec<u8>,
    pub event: Event,
}

pub struct EventRecordView {
    pub seed: Seq<u8>,
    pub event: EventView,
}

impl View for EventRecord {
    type V = EventRecordView;

    open spec fn view(&self) -> EventRecordView {
        EventRecordView { seed: self.seed@, event: self.event@ }
    }
}

/// What `parse_full_event_bytes` yields on `b`: a wrapped byte-list value
/// (a block, then the byte-list type tags), a block holding the 32-byte seed
/// address, a block holding the item key, and nothing after; the value's
/// block holds exactly one block, which holds the event.
pub open spec fn decode_event_record_spec(b: Seq<u8>) -> Result<EventRecordView, DecodeError> {
    match split_block(b) {
        Err(e) => Err(e),
        Ok((value, rest)) => if rest.len() < 2 {
            Err(DecodeError::Underflow)
        } else if rest[0] != LIST_TYPE_TAG || rest[1] != U8_TYPE_TAG {
            Err(DecodeError::UnsupportedValueKind)
        } else {
            match split_block(rest.subrange(2, rest.len() as int)) {
                Err(e) => Err(e),
                Ok((seed, rest)) => match split_block(rest) {
                    Err(e) => Err(e),
                    Ok((item_key, rest)) => if rest.len() > 0 {
                        Err(DecodeError::TrailingBytes)
                    } else if seed.len() != HASH_LEN {
                        Err(DecodeError::UnsupportedValueKind)
                    } else {
                        match split_block(value) {
                            Err(e) => Err(e),
                            Ok((event_bytes, after)) => if after.len() > 0 {
                                Err(DecodeError::TrailingBytes)
                            } else {
                                match decode_event_spec(event_bytes) {
                                    Err(e) => Err(e),
                                    Ok(event) => Ok(EventRecordView { seed, event }),
                                }
                            },
                        }
                    },
                },
            }
        },
    }
}

/// Reads a full event record.
pub fn parse_full_event_bytes(bytes: &[u8]) -> (r: Result<EventRecord, DecodeError>)
    ensures
        match r {
            Ok(rec) => decode_event_record_spec(bytes@) == Ok::<EventRecordView, DecodeError>(rec@),
            Err(x) => decode_event_record_spec(bytes@) == Err::<EventRecordView, DecodeError>(x),
        },
{
    let ghost b = bytes@;
    assert(b.subrange(0, b.len() as int) =~= b);
    let (vs, ve) = read_block(bytes, 0)?;
    let ghost rest = b.subrange(ve as int, b.len() as int);
    if bytes.len() - ve < 2 {
        return Err(DecodeError::Underflow);
    }
    if bytes[ve] != LIST_TYPE_TAG || bytes[ve + 1] != U8_TYPE_TAG {
        return Err(DecodeError::UnsupportedValueKind);
    }
    assert(rest.subrange(2, rest.len() as int) =~= b.subrange(ve + 2, b.len() as int));
    let (ss, se) = read_block(bytes, ve + 2)?;
    let (_ks, ke) = read_block(bytes, se)?;
    assert_is_empty(&copy_range(bytes, ke, bytes.len()))?;
    if se - ss != HASH_LEN {
        return Err(DecodeError::UnsupportedValueKind);
    }
    let seed = copy_range(bytes, ss, se);
    let value = copy_range(bytes, vs, ve);
    assert(value@.subrange(0, value@.len() as int) =~= value@);
    let (es, ee) = read_block(value.as_slice(), 0)?;
    assert_is_empty(&copy_range(value.as_slice(), ee, value.len()))?;
    let event_bytes = copy_range(value.as_slice(), es, ee);
    let event = decode_event(event_bytes.as_slice())?;
    Ok(EventRecord { seed, event })
}

/// The formatted reference of a record's seed address, with read, add and
/// write rights.
pub fn seed_to_string(record: &EventRecord) -> (r: String)
    requires
        record@.seed.len() == HASH_LEN,
    ensures
        r@ == "uref-"@ + hex_lower(record@.seed) + "-007"@,
{
    uref_text(&record.seed)
}

} // verus!
