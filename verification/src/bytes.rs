//! Big-endian 16-bit words, as Modbus puts them on the wire.
use vstd::prelude::*;

verus! {

/// The two bytes of `v`, most significant byte first.
pub open spec fn be_bytes(v: u16) -> Seq<u8> {
    seq![(v / 256) as u8, (v % 256) as u8]
}

/// The word whose big-endian bytes are `hi`, `lo`.
pub open spec fn be_value(hi: u8, lo: u8) -> u16 {
    (hi * 256 + lo) as u16
}

/// Decoding the two bytes of a word gives the word back.
pub proof fn lemma_be_decode_encode(v: u16)
    ensures
        be_bytes(v).len() == 2,
        be_value(be_bytes(v)[0], be_bytes(v)[1]) == v,
{
}

/// Encoding a decoded word gives the two bytes back.
pub proof fn lemma_be_encode_decode(hi: u8, lo: u8)
    ensures
        be_bytes(be_value(hi, lo)) == seq![hi, lo],
{
    assert(be_bytes(be_value(hi, lo)) =~= seq![hi, lo]);
}

/// Appends the big-endian bytes of `v` to `f`.
pub fn push_u16_be(f: &mut Vec<u8>, v: u16)
    ensures
        final(f)@ == old(f)@ + be_bytes(v),
{
    let hi: u8 = (v / 256) as u8;
    let lo: u8 = (v % 256) as u8;
    f.push(hi);
    f.push(lo);
}

/// The word whose big-endian bytes are `hi`, `lo`.
pub fn u16_from_be(hi: u8, lo: u8) -> (r: u16)
    ensures
        r == be_value(hi, lo),
{
    (hi as u16) * 256 + (lo as u16)
}

} // verus!
