//! Conversions between byte strings and the 16-bit code units that registry values use.
use vstd::prelude::*;

verus! {

/// Each byte of `bytes`, widened to a 16-bit unit.
pub open spec fn widened(bytes: Seq<u8>) -> Seq<u16> {
    bytes.map_values(|b: u8| b as u16)
}

/// Each 16-bit unit of `units`, cut down to its low byte.
pub open spec fn narrowed(units: Seq<u16>) -> Seq<u8> {
    units.map_values(|u: u16| u as u8)
}

/// The encoded bytes of an OS string as 16-bit units, one unit per byte.
pub fn to_utf16(bytes: &[u8]) -> (r: Vec<u16>)
    ensures
        r@ == widened(bytes@),
{
    let mut r: Vec<u16> = Vec::with_capacity(bytes.len());
    let n = bytes.len();
    for i in 0..n
        invariant
            n == bytes@.len(),
            r@ == widened(bytes@.take(i as int)),
    {
        let b = bytes[i];
        r.push(b as u16);
        assert(widened(bytes@.take(i + 1)) =~= widened(bytes@.take(i as int)).push(b as u16));
    }
    assert(bytes@.take(n as int) =~= bytes@);
    r
}

/// The low byte of each 16-bit unit of `v`.
pub fn v16_to_v8(v: &[u16]) -> (r: Vec<u8>)
    ensures
        r@ == narrowed(v@),
{
    let mut r: Vec<u8> = Vec::with_capacity(v.len());
    let n = v.len();
    for i in 0..n
        invariant
            n == v@.len(),
            r@ == narrowed(v@.take(i as int)),
    {
        let u = v[i];
        r.push(u as u8);
        assert(narrowed(v@.take(i + 1)) =~= narrowed(v@.take(i as int)).push(u as u8));
    }
    assert(v@.take(n as int) =~= v@);
    r
}

/// Narrowing the widened units of a byte string gives the byte string back.
pub proof fn lemma_narrow_widen(bytes: Seq<u8>)
    ensures
        narrowed(widened(bytes)) == bytes,
{
    assert forall|i: int| 0 <= i < bytes.len() implies #[trigger] narrowed(widened(bytes))[i]
        == bytes[i] by {
        let b = bytes[i];
        assert((b as u16) as u8 == b) by (bit_vector);
    }
    assert(narrowed(widened(bytes)) =~= bytes);
}

} // verus!
