//! The event codec: strict, sequential decoding of length-prefixed binary
//! records, and the matching encoder.

use vstd::prelude::*;
use vstd::utf8::{decode_utf8, encode_utf8, valid_utf8, group_utf8_lib};
use crate::encoding::{le_u32, le_value, lemma_le_u32_round_trip, u32_to_le};

verus! {

/// Failures of the offline decoder. None of them yields a partial value.
#[derive(Debug, Clone, Copy, PartialEq, Eq, Structural)]
pub enum DecodeError {
    UnknownEventTag,
    Underflow,
    TrailingBytes,
    UnsupportedValueKind,
}

/// Whether an identity denotes an account or a contract.
#[derive(Debug, Clone, Copy, PartialEq, Eq, Structural)]
pub enum IdentityKind {
    Account,
    Contract,
}

/// An account or contract reference: its kind and its 32-byte hash.
#[derive(Debug, PartialEq, Eq)]
pub struct Identity {
    pub kind: IdentityKind,
    pub hash: Vec<u8>,
}

pub struct IdentityView {
    pub kind: IdentityKind,
    pub hash: Seq<u8>,
}

impl View for Identity {
    type V = IdentityView;

    open spec fn view(&self) -> IdentityView {
        IdentityView { kind: self.kind, hash: self.hash@ }
    }
}

/// A record emitted by the registry.
#[derive(Debug, PartialEq, Eq)]
pub enum Event {
    MasterPaymentCodeSet { key: String, address: Identity, code: Vec<u8> },
}

pub enum EventView {
    MasterPaymentCodeSet { key: Seq<char>, address: IdentityView, code: Seq<u8> },
}

impl View for Event {
    type V = EventView;

    open spec fn view(&self) -> EventView {
        match self {
            Event::MasterPaymentCodeSet { key, address, code } => EventView::MasterPaymentCodeSet {
                key: key@,
                address: address@,
                code: code@,
            },
        }
    }
}

/// Bytes of an identity's hash and of an event's payment code.
pub const HASH_LEN: usize = 32;

/// Bytes of the block that holds an identity: a kind byte, the hash, and
/// zero padding.
pub const ADDRESS_BLOCK_LEN: usize = 64;

/// The type tag of a value of any type.
pub const ANY_TYPE_TAG: u8 = 21;

/// The type tag of a list, and that of `u8`: a byte list is tagged by both.
pub const LIST_TYPE_TAG: u8 = 14;
pub const U8_TYPE_TAG: u8 = 3;

/// The UTF-8 bytes of the tag `MasterPaymentCodeSet`.
pub open spec fn event_tag_bytes() -> Seq<u8> {
    seq![77, 97, 115, 116, 101, 114, 80, 97, 121, 109, 101, 110, 116, 67, 111, 100, 101, 83, 101, 116]
}

/// A length-prefixed block: the length as a little-endian `u32`, then the bytes.
pub open spec fn encode_block(b: Seq<u8>) -> Seq<u8> {
    le_u32(b.len() as u32) + b
}

/// Splits a length-prefixed block off the front of `b`, giving the block's
/// bytes and what follows.
pub open spec fn split_block(b: Seq<u8>) -> Result<(Seq<u8>, Seq<u8>), DecodeError> {
    if b.len() < 4 {
        Err(DecodeError::Underflow)
    } else {
        let n = le_value(b.subrange(0, 4));
        if b.len() - 4 < n {
            Err(DecodeError::Underflow)
        } else {
            Ok((b.subrange(4, 4 + n), b.subrange(4 + n, b.len() as int)))
        }
    }
}

pub open spec fn kind_tag(k: IdentityKind) -> u8 {
    match k {
        IdentityKind::Account => 0,
        IdentityKind::Contract => 1,
    }
}

pub open spec fn kind_of_tag(t: u8) -> Option<IdentityKind> {
    if t == 0 {
        Some(IdentityKind::Account)
    } else if t == 1 {
        Some(IdentityKind::Contract)
    } else {
        None
    }
}

/// The identity held in an address block.
pub open spec fn parse_address(b: Seq<u8>) -> Result<IdentityView, DecodeError> {
    match kind_of_tag(b[0]) {
        None => Err(DecodeError::UnsupportedValueKind),
        Some(kind) => Ok(IdentityView { kind, hash: b.subrange(1, 1 + HASH_LEN as int) }),
    }
}

pub open spec fn encode_address(id: IdentityView) -> Seq<u8> {
    seq![kind_tag(id.kind)] + id.hash + Seq::new(31, |i: int| 0u8)
}

/// What `decode_event` yields on `b`: the tag block, which must name a known
/// event, then that event's fields in order (a text block, an address block,
/// a 32-byte code), and nothing after them. A text block that is not UTF-8,
/// like an unknown identity kind, is a value of a kind the decoder does not
/// support.
pub open spec fn decode_event_spec(b: Seq<u8>) -> Result<EventView, DecodeError> {
    match split_block(b) {
        Err(e) => Err(e),
        Ok((tag, rest)) => if tag != event_tag_bytes() {
            Err(DecodeError::UnknownEventTag)
        } else {
            match split_block(rest) {
                Err(e) => Err(e),
                Ok((key, rest)) => if !valid_utf8(key) {
                    Err(DecodeError::UnsupportedValueKind)
                } else if rest.len() < ADDRESS_BLOCK_LEN {
                    Err(DecodeError::Underflow)
                } else {
                    match parse_address(rest.subrange(0, ADDRESS_BLOCK_LEN as int)) {
                        Err(e) => Err(e),
                        Ok(address) => {
                            let code = rest.subrange(ADDRESS_BLOCK_LEN as int, rest.len() as int);
                            if code.len() < HASH_LEN {
                                Err(DecodeError::Underflow)
                            } else if code.len() > HASH_LEN {
                                Err(DecodeError::TrailingBytes)
                            } else {
                                Ok(EventView::MasterPaymentCodeSet { key: decode_utf8(key), address, code })
                            }
                        },
                    }
                },
            }
        },
    }
}

/// The bytes of an event.
pub open spec fn encode_event_spec(e: EventView) -> Seq<u8> {
    match e {
        EventView::MasterPaymentCodeSet { key, address, code } => encode_block(event_tag_bytes())
            + encode_block(encode_utf8(key)) + encode_address(address) + code,
    }
}

/// Whether an event can be written: its text fits a length prefix and its
/// hash and code have 32 bytes.
pub open spec fn event_encodable(e: EventView) -> bool {
    match e {
        EventView::MasterPaymentCodeSet { key, address, code } => {
            &&& encode_utf8(key).len() <= u32::MAX
            &&& address.hash.len() == HASH_LEN
            &&& code.len() == HASH_LEN
        },
    }
}

pub proof fn lemma_split_encoded_block(x: Seq<u8>, rest: Seq<u8>)
    requires
        x.len() <= u32::MAX,
    ensures
        split_block(encode_block(x) + rest) == Ok::<(Seq<u8>, Seq<u8>), DecodeError>((x, rest)),
{
    let b = encode_block(x) + rest;
    lemma_le_u32_round_trip(x.len() as u32);
    assert(b.subrange(0, 4) =~= le_u32(x.len() as u32));
    assert(b.subrange(4, 4 + x.len() as int) =~= x);
    assert(b.subrange(4 + x.len() as int, b.len() as int) =~= rest);
}

/// Decoding the bytes of an encodable event gives the event back.
pub proof fn lemma_event_round_trip(e: EventView)
    requires
        event_encodable(e),
    ensures
        decode_event_spec(encode_event_spec(e)) == Ok::<EventView, DecodeError>(e),
{
    lemma_event_with_suffix(e, Seq::empty());
    assert(encode_event_spec(e) + Seq::<u8>::empty() =~= encode_event_spec(e));
}

/// The decoding of an encodable event's bytes followed by `extra`: the event
/// when `extra` is empty, `TrailingBytes` otherwise.
pub proof fn lemma_event_with_suffix(e: EventView, extra: Seq<u8>)
    requires
        event_encodable(e),
    ensures
        decode_event_spec(encode_event_spec(e) + extra) == if extra.len() == 0 {
            Ok::<EventView, DecodeError>(e)
        } else {
            Err(DecodeError::TrailingBytes)
        },
{
    broadcast use group_utf8_lib;
    match e {
        EventView::MasterPaymentCodeSet { key, address, code } => {
            let kb = encode_utf8(key);
            let tail = encode_address(address) + code + extra;
            let b = encode_event_spec(e) + extra;
            assert(b =~= encode_block(event_tag_bytes()) + (encode_block(kb) + tail));
            lemma_split_encoded_block(event_tag_bytes(), encode_block(kb) + tail);
            lemma_split_encoded_block(kb, tail);
            assert(tail.subrange(0, 64) =~= encode_address(address));
            assert(encode_address(address).subrange(1, 33) =~= address.hash);
            assert(tail.subrange(64, tail.len() as int) =~= code + extra);
            if extra.len() == 0 {
                assert(code + extra =~= code);
            }
        },
    }
}

/// Cutting the last `k` bytes (one to 32) off an encodable event's bytes
/// truncates its last field, and decoding reports `Underflow`.
pub proof fn lemma_event_truncated(e: EventView, k: int)
    requires
        event_encodable(e),
        1 <= k <= HASH_LEN,
    ensures
        decode_event_spec(encode_event_spec(e).subrange(0, encode_event_spec(e).len() - k))
            == Err::<EventView, DecodeError>(DecodeError::Underflow),
{
    broadcast use group_utf8_lib;
    match e {
        EventView::MasterPaymentCodeSet { key, address, code } => {
            let kb = encode_utf8(key);
            let short = code.subrange(0, HASH_LEN - k);
            let tail = encode_address(address) + short;
            let full = encode_event_spec(e);
            let b = full.subrange(0, full.len() - k);
            assert(b =~= encode_block(event_tag_bytes()) + (encode_block(kb) + tail));
            lemma_split_encoded_block(event_tag_bytes(), encode_block(kb) + tail);
            lemma_split_encoded_block(kb, tail);
            assert(tail.subrange(0, 64) =~= encode_address(address));
            assert(tail.subrange(64, tail.len() as int) =~= short);
        },
    }
}

} // verus!

verus! {

/// Relies on `String::from_utf8`: it succeeds exactly on valid UTF-8, with
/// the characters that the bytes encode.
#[verifier::external_body]
fn utf8_to_string(b: Vec<u8>) -> (r: Option<String>)
    ensures
        match r {
            Some(s) => valid_utf8(b@) && s@ == decode_utf8(b@),
            None => !valid_utf8(b@),
        },
{
    String::from_utf8(b).ok()
}

/// Copies `b[start..end]`.
pub fn copy_range(b: &[u8], start: usize, end: usize) -> (r: Vec<u8>)
    requires
        start <= end <= b@.len(),
    ensures
        r@ == b@.subrange(start as int, end as int),
{
    let mut r: Vec<u8> = Vec::new();
    let mut i: usize = start;
    while i < end
        invariant
            start <= i <= end <= b@.len(),
            r@ == b@.subrange(start as int, i as int),
        decreases end - i,
    {
        r.push(b[i]);
        assert(b@.subrange(start as int, i as int + 1) =~= b@.subrange(start as int, i as int).push(b@[i as int]));
        i = i + 1;
    }
    r
}

/// Appends all of `b` to `out`.
pub fn push_all(out: &mut Vec<u8>, b: &[u8])
    ensures
        final(out)@ == old(out)@ + b@,
{
    let mut i: usize = 0;
    while i < b.len()
        invariant
            i <= b@.len(),
            out@ == old(out)@ + b@.subrange(0, i as int),
        decreases b@.len() - i,
    {
        out.push(b[i]);
        assert(b@.subrange(0, i as int + 1) =~= b@.subrange(0, i as int).push(b@[i as int]));
        i = i + 1;
    }
    assert(b@.subrange(0, b@.len() as int) =~= b@);
}

/// Appends `b` to `out` as a length-prefixed block.
pub fn push_block(out: &mut Vec<u8>, b: &[u8])
    requires
        b@.len() <= u32::MAX,
    ensures
        final(out)@ == old(out)@ + encode_block(b@),
{
    let prefix = u32_to_le(b.len() as u32);
    push_all(out, &prefix);
    push_all(out, b);
    assert(out@ =~= old(out)@ + encode_block(b@));
}

/// Reads the length-prefixed block that starts at `pos`, giving the range
/// of its bytes.
pub fn read_block(b: &[u8], pos: usize) -> (r: Result<(usize, usize), DecodeError>)
    requires
        pos <= b@.len(),
    ensures
        match split_block(b@.subrange(pos as int, b@.len() as int)) {
            Err(e) => r == Err::<(usize, usize), DecodeError>(e),
            Ok((blk, rest)) => match r {
                Ok((s, t)) => s == pos + 4 && s <= t <= b@.len()
                    && blk == b@.subrange(s as int, t as int)
                    && rest == b@.subrange(t as int, b@.len() as int),
                Err(_) => false,
            },
        },
{
    let ghost s = b@.subrange(pos as int, b@.len() as int);
    if b.len() - pos < 4 {
        return Err(DecodeError::Underflow);
    }
    let n: u64 = b[pos] as u64 + 256 * (b[pos + 1] as u64) + 65536 * (b[pos + 2] as u64)
        + 16777216 * (b[pos + 3] as u64);
    assert(le_value(s.subrange(0, 4)) == n);
    let avail = (b.len() - pos - 4) as u64;
    if avail < n {
        return Err(DecodeError::Underflow);
    }
    let start = pos + 4;
    let end = start + n as usize;
    assert(s.subrange(4, 4 + n as int) =~= b@.subrange(start as int, end as int));
    assert(s.subrange(4 + n as int, s.len() as int) =~= b@.subrange(end as int, b@.len() as int));
    Ok((start, end))
}

/// The bytes of the tag `MasterPaymentCodeSet`.
pub fn event_tag() -> (r: Vec<u8>)
    ensures
        r@ == event_tag_bytes(),
{
    let r: Vec<u8> = vec![77u8, 97, 115, 116, 101, 114, 80, 97, 121, 109, 101, 110, 116, 67, 111, 100, 101, 83, 101, 116];
    assert(r@ =~= event_tag_bytes());
    r
}

/// Reads the identity in the address block that starts at `pos`.
pub fn read_address(b: &[u8], pos: usize) -> (r: Result<Identity, DecodeError>)
    requires
        pos + ADDRESS_BLOCK_LEN <= b@.len(),
    ensures
        match parse_address(b@.subrange(pos as int, pos + ADDRESS_BLOCK_LEN)) {
            Err(e) => r == Err::<Identity, DecodeError>(e),
            Ok(id) => match r {
                Ok(x) => x@ == id,
                Err(_) => false,
            },
        },
{
    let ghost blk = b@.subrange(pos as int, pos + ADDRESS_BLOCK_LEN);
    let kind = if b[pos] == 0 {
        IdentityKind::Account
    } else if b[pos] == 1 {
        IdentityKind::Contract
    } else {
        return Err(DecodeError::UnsupportedValueKind);
    };
    let hash = copy_range(b, pos + 1, pos + 1 + HASH_LEN);
    assert(blk.subrange(1, 1 + HASH_LEN as int) =~= hash@);
    Ok(Identity { kind, hash })
}

/// Appends the address block of `id`: its kind byte, its hash, and zero
/// padding.
pub fn push_address(out: &mut Vec<u8>, id: &Identity)
    ensures
        final(out)@ == old(out)@ + encode_address(id@),
{
    let tag: u8 = match id.kind {
        IdentityKind::Account => 0,
        IdentityKind::Contract => 1,
    };
    out.push(tag);
    push_all(out, id.hash.as_slice());
    let ghost mid = out@;
    let mut i: usize = 0;
    while i < 31
        invariant
            i <= 31,
            out@ == mid + Seq::new(i as nat, |j: int| 0u8),
        decreases 31 - i,
    {
        out.push(0);
        assert(Seq::new(i as nat + 1, |j: int| 0u8) =~= Seq::new(i as nat, |j: int| 0u8).push(0u8));
        i = i + 1;
    }
    assert(out@ =~= old(out)@ + encode_address(id@));
}

/// Writes an event: its tag block, then its fields in order.
pub fn encode_event(e: &Event) -> (r: Vec<u8>)
    requires
        event_encodable(e@),
    ensures
        r@ == encode_event_spec(e@),
{
    let mut out: Vec<u8> = Vec::new();
    match e {
        Event::MasterPaymentCodeSet { key, address, code } => {
            let tag = event_tag();
            push_block(&mut out, tag.as_slice());
            let key_bytes = key.as_str().as_bytes_vec();
            push_block(&mut out, key_bytes.as_slice());
            push_address(&mut out, address);
            push_all(&mut out, code.as_slice());
            assert(out@ =~= encode_event_spec(e@));
        },
    }
    out
}

/// Reads an event: the tag block must name a known event, its fields must
/// all be there, and no byte may follow them.
pub fn decode_event(bytes: &[u8]) -> (r: Result<Event, DecodeError>)
    ensures
        match r {
            Ok(e) => decode_event_spec(bytes@) == Ok::<EventView, DecodeError>(e@),
            Err(x) => decode_event_spec(bytes@) == Err::<EventView, DecodeError>(x),
        },
{
    let ghost b = bytes@;
    assert(b.subrange(0, b.len() as int) =~= b);
    let (ts, te) = read_block(bytes, 0)?;
    let tag = copy_range(bytes, ts, te);
    let expected = event_tag();
    if !crate::encoding::bytes_equal(tag.as_slice(), expected.as_slice()) {
        return Err(DecodeError::UnknownEventTag);
    }
    let (ks, ke) = read_block(bytes, te)?;
    let key = match utf8_to_string(copy_range(bytes, ks, ke)) {
        Some(k) => k,
        None => return Err(DecodeError::UnsupportedValueKind),
    };
    let ghost rest = b.subrange(ke as int, b.len() as int);
    if bytes.len() - ke < ADDRESS_BLOCK_LEN {
        return Err(DecodeError::Underflow);
    }
    assert(rest.subrange(0, ADDRESS_BLOCK_LEN as int) =~= b.subrange(ke as int, ke + ADDRESS_BLOCK_LEN));
    let address = read_address(bytes, ke)?;
    let cs = ke + ADDRESS_BLOCK_LEN;
    assert(rest.subrange(ADDRESS_BLOCK_LEN as int, rest.len() as int) =~= b.subrange(cs as int, b.len() as int));
    let code_len = bytes.len() - cs;
    if code_len < HASH_LEN {
        return Err(DecodeError::Underflow);
    }
    if code_len > HASH_LEN {
        return Err(DecodeError::TrailingBytes);
    }
    let code = copy_range(bytes, cs, bytes.len());
    Ok(Event::MasterPaymentCodeSet { key, address, code })
}

} // verus!
