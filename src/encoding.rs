//! Little-endian integers and byte-string helpers shared by the modules.

use vstd::prelude::*;

verus! {

/// The four little-endian bytes of `x`.
pub open spec fn le_u32(x: u32) -> Seq<u8> {
    seq![
        (x % 256) as u8,
        ((x / 256) % 256) as u8,
        ((x / 65536) % 256) as u8,
        ((x / 16777216) % 256) as u8,
    ]
}

/// The integer that four little-endian bytes denote.
pub open spec fn le_value(b: Seq<u8>) -> int {
    b[0] as int + 256 * b[1] as int + 65536 * b[2] as int + 16777216 * b[3] as int
}

/// Each index as four little-endian bytes, in order.
pub open spec fn le_u32_seq(v: Seq<u32>) -> Seq<u8>
    decreases v.len(),
{
    if v.len() == 0 {
        Seq::empty()
    } else {
        le_u32_seq(v.drop_last()) + le_u32(v.last())
    }
}

pub proof fn lemma_le_u32_round_trip(x: u32)
    ensures
        le_value(le_u32(x)) == x,
{
    let b = le_u32(x);
    assert(b[0] as int + 256 * b[1] as int + 65536 * b[2] as int + 16777216 * b[3] as int == x)
        by (nonlinear_arith)
        requires
            b[0] as int == x % 256,
            b[1] as int == (x / 256) % 256,
            b[2] as int == (x / 65536) % 256,
            b[3] as int == (x / 16777216) % 256,
            0 <= x < 0x1_0000_0000,
    ;
}

/// Writes `x` as four little-endian bytes.
pub fn u32_to_le(x: u32) -> (r: [u8; 4])
    ensures
        r@ == le_u32(x),
{
    let r = [
        (x % 256) as u8,
        ((x / 256) % 256) as u8,
        ((x / 65536) % 256) as u8,
        ((x / 16777216) % 256) as u8,
    ];
    assert(r@ =~= le_u32(x));
    r
}

/// Packs a list of signal indices into bytes: each index as a little-endian
/// `u32`, four bytes apiece, in list order.
pub fn as_u8_slice(v: &[u32]) -> (r: Vec<u8>)
    ensures
        r@ == le_u32_seq(v@),
{
    let mut r: Vec<u8> = Vec::new();
    let mut i: usize = 0;
    while i < v.len()
        invariant
            i <= v@.len(),
            r@ == le_u32_seq(v@.subrange(0, i as int)),
        decreases v@.len() - i,
    {
        let b = u32_to_le(v[i]);
        r.push(b[0]);
        r.push(b[1]);
        r.push(b[2]);
        r.push(b[3]);
        proof {
            let s = v@.subrange(0, i as int + 1);
            assert(s.drop_last() =~= v@.subrange(0, i as int));
        }
        i = i + 1;
    }
    assert(v@.subrange(0, v@.len() as int) =~= v@);
    r
}

/// Compares two byte strings element by element.
pub fn bytes_equal(a: &[u8], b: &[u8]) -> (r: bool)
    ensures
        r == (a@ == b@),
{
    if a.len() != b.len() {
        return false;
    }
    let mut i: usize = 0;
    while i < a.len()
        invariant
            a@.len() == b@.len(),
            i <= a@.len(),
            forall|j: int| 0 <= j < i ==> a@[j] == b@[j],
        decreases a@.len() - i,
    {
        if a[i] != b[i] {
            return false;
        }
        i = i + 1;
    }
    assert(a@ =~= b@);
    true
}

} // verus!
