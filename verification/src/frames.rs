//! Modbus TCP response frames.
//!
//! Every frame starts with the 7-byte MBAP header
//! `[TID_H][TID_L][0x00][0x00][LEN_H][LEN_L][UNIT]`, followed by the function
//! code and its data. `LEN` counts the bytes from `UNIT` to the end of the
//! frame, so a builder that pushes `pdu_len` bytes after the header writes
//! `pdu_len + 1` there.
use vstd::prelude::*;
use crate::bytes::{be_bytes, be_value, push_u16_be};

verus! {

/// The MBAP header (unit byte included) for a PDU of `pdu_len` bytes.
pub open spec fn mbap_spec(tid: u16, unit: u8, pdu_len: u16) -> Seq<u8> {
    be_bytes(tid) + seq![0x00u8, 0x00u8] + be_bytes((pdu_len + 1) as u16) + seq![unit]
}

/// The registers laid out one after another, each big-endian.
pub open spec fn regs_bytes(regs: Seq<u16>) -> Seq<u8>
    decreases regs.len(),
{
    if regs.len() == 0 {
        Seq::empty()
    } else {
        regs_bytes(regs.drop_last()) + be_bytes(regs.last())
    }
}

/// The byte-count field of a read-registers reply: twice the number of
/// registers, kept to its low eight bits as the one-byte field holds it.
pub open spec fn fc03_byte_count(n: nat) -> u8 {
    ((2 * n) % 256) as u8
}

/// Reply to "read holding registers" (function 0x03): function code, byte
/// count, then the registers; the header's length counts all of it.
pub open spec fn fc03_frame(tid: u16, unit: u8, regs: Seq<u16>) -> Seq<u8> {
    let bc = fc03_byte_count(regs.len());
    mbap_spec(tid, unit, (2 + 2 * regs.len()) as u16) + seq![0x03u8, bc] + regs_bytes(regs)
}

/// A reply made of a function code and two words (functions 0x06, 0x0F, 0x10).
pub open spec fn two_word_frame(tid: u16, unit: u8, fc: u8, a: u16, b: u16) -> Seq<u8> {
    mbap_spec(tid, unit, 5) + seq![fc] + be_bytes(a) + be_bytes(b)
}

/// The wire value of a single coil: 0xFF00 for on, 0x0000 for off.
pub open spec fn coil_word(val: bool) -> u16 {
    if val { 0xFF00u16 } else { 0x0000u16 }
}

/// Reply to "write single coil" (function 0x05): the request echoed.
pub open spec fn fc05_frame(tid: u16, unit: u8, addr: u16, val: bool) -> Seq<u8> {
    two_word_frame(tid, unit, 0x05, addr, coil_word(val))
}

/// Exception reply: the function code with its high bit set, then the code.
pub open spec fn exc_frame(tid: u16, unit: u8, fc: u8, code: u8) -> Seq<u8> {
    mbap_spec(tid, unit, 2) + seq![0x80u8 | fc, code]
}

/// Whether coil `i` of `c` exists and is on.
pub open spec fn coil_at(c: Seq<bool>, i: int) -> bool {
    0 <= i < c.len() && c[i]
}

/// `weight` when `on`, else 0.
pub open spec fn bit_weight(on: bool, weight: u8) -> u8 {
    if on { weight } else { 0u8 }
}

/// Byte `j` of the packed coils: coil `8 * j + k` is bit `k` (least
/// significant bit first); coils past the end count as off.
pub open spec fn pack_byte(c: Seq<bool>, j: int) -> u8 {
    bit_weight(coil_at(c, 8 * j), 1u8) | bit_weight(coil_at(c, 8 * j + 1), 2u8) | bit_weight(
        coil_at(c, 8 * j + 2),
        4u8,
    ) | bit_weight(coil_at(c, 8 * j + 3), 8u8) | bit_weight(coil_at(c, 8 * j + 4), 16u8)
        | bit_weight(coil_at(c, 8 * j + 5), 32u8) | bit_weight(coil_at(c, 8 * j + 6), 64u8)
        | bit_weight(coil_at(c, 8 * j + 7), 128u8)
}

/// Number of bytes that hold `n` packed coils.
pub open spec fn packed_len(n: nat) -> nat {
    (n + 7) / 8
}

/// The coils packed eight to a byte, least significant bit first.
pub open spec fn pack_coils(c: Seq<bool>) -> Seq<u8> {
    Seq::new(packed_len(c.len()), |j: int| pack_byte(c, j))
}

/// Bit `k` of `b`.
pub open spec fn bit_set(b: u8, k: u8) -> bool {
    (b >> k) & 1u8 == 1u8
}

/// Coil `i` as carried by packed bytes: bit `i % 8` of byte `i / 8`.
pub open spec fn unpack_coil(bytes: Seq<u8>, i: int) -> bool {
    bit_set(bytes[i / 8], (i % 8) as u8)
}

/// The byte-count field of a read-coils reply: the number of packed bytes,
/// kept to its low eight bits as the one-byte field holds it.
pub open spec fn fc01_byte_count(n: nat) -> u8 {
    (packed_len(n) % 256) as u8
}

/// Whether every coil that is on falls in the bytes that the one-byte count
/// of a read-coils reply covers (always so up to 2040 coils).
pub open spec fn fc01_coils_fit(c: Seq<bool>) -> bool {
    forall|i: int| 0 <= i < c.len() && #[trigger] c[i] ==> i / 8 < fc01_byte_count(c.len())
}

/// Reply to "read coils" (function 0x01): as many packed bytes as the byte
/// count says.
pub open spec fn fc01_frame(tid: u16, unit: u8, coils: Seq<bool>) -> Seq<u8> {
    let bc = fc01_byte_count(coils.len());
    mbap_spec(tid, unit, (2 + bc) as u16) + seq![0x01u8, bc] + Seq::new(
        bc as nat,
        |j: int| pack_byte(coils, j),
    )
}

/// A frame whose header echoes `tid` and `unit`, carries protocol id 0, and
/// whose length field counts exactly the bytes that follow it.
pub open spec fn well_framed(f: Seq<u8>, tid: u16, unit: u8) -> bool {
    &&& f.len() >= 8
    &&& f.subrange(0, 2) == be_bytes(tid)
    &&& f[2] == 0 && f[3] == 0
    &&& be_value(f[4], f[5]) == f.len() - 6
    &&& f[6] == unit
}

proof fn lemma_bit_or(x: u8, r: u8, k: u8)
    requires
        r < 8,
        k < 8,
    ensures
        bit_set(x | (1u8 << r), k) == (bit_set(x, k) || k == r),
{
    assert(((x | (1u8 << r)) >> k) & 1u8 == 1u8 <==> (((x >> k) & 1u8 == 1u8) || k == r))
        by (bit_vector)
        requires
            r < 8,
            k < 8,
    ;
}

proof fn lemma_zero_bits(k: u8)
    requires
        k < 8,
    ensures
        !bit_set(0u8, k),
{
    assert((0u8 >> k) & 1u8 != 1u8) by (bit_vector);
}

proof fn lemma_pack_byte_bits(c: Seq<bool>, j: int)
    ensures
        forall|k: u8| k < 8 ==> (#[trigger] bit_set(pack_byte(c, j), k)) == coil_at(c, 8 * j + k),
{
    let b0 = coil_at(c, 8 * j);
    let b1 = coil_at(c, 8 * j + 1);
    let b2 = coil_at(c, 8 * j + 2);
    let b3 = coil_at(c, 8 * j + 3);
    let b4 = coil_at(c, 8 * j + 4);
    let b5 = coil_at(c, 8 * j + 5);
    let b6 = coil_at(c, 8 * j + 6);
    let b7 = coil_at(c, 8 * j + 7);
    let p = pack_byte(c, j);
    assert(p == (if b0 { 1u8 } else { 0u8 }) | (if b1 { 2u8 } else { 0u8 }) | (if b2 { 4u8 } else {
        0u8
    }) | (if b3 { 8u8 } else { 0u8 }) | (if b4 { 16u8 } else { 0u8 }) | (if b5 { 32u8 } else {
        0u8
    }) | (if b6 { 64u8 } else { 0u8 }) | (if b7 { 128u8 } else { 0u8 }));
    assert({
        &&& ((p >> 0u8) & 1u8 == 1u8) == b0
        &&& ((p >> 1u8) & 1u8 == 1u8) == b1
        &&& ((p >> 2u8) & 1u8 == 1u8) == b2
        &&& ((p >> 3u8) & 1u8 == 1u8) == b3
        &&& ((p >> 4u8) & 1u8 == 1u8) == b4
        &&& ((p >> 5u8) & 1u8 == 1u8) == b5
        &&& ((p >> 6u8) & 1u8 == 1u8) == b6
        &&& ((p >> 7u8) & 1u8 == 1u8) == b7
    }) by (bit_vector)
        requires
            p == (if b0 { 1u8 } else { 0u8 }) | (if b1 { 2u8 } else { 0u8 }) | (if b2 { 4u8 } else {
                0u8
            }) | (if b3 { 8u8 } else { 0u8 }) | (if b4 { 16u8 } else { 0u8 }) | (if b5 { 32u8 } else {
                0u8
            }) | (if b6 { 64u8 } else { 0u8 }) | (if b7 { 128u8 } else { 0u8 }),
    ;
    assert forall|k: u8| k < 8 implies (#[trigger] bit_set(pack_byte(c, j), k)) == coil_at(c, 8 * j + k) by {
        if k == 0 {
        } else if k == 1 {
        } else if k == 2 {
        } else if k == 3 {
        } else if k == 4 {
        } else if k == 5 {
        } else if k == 6 {
        } else {
        }
    }
}

proof fn lemma_byte_eq_by_bits(x: u8, y: u8)
    requires
        forall|k: u8| k < 8 ==> #[trigger] bit_set(x, k) == bit_set(y, k),
    ensures
        x == y,
{
    assert(bit_set(x, 0) == bit_set(y, 0));
    assert(bit_set(x, 1) == bit_set(y, 1));
    assert(bit_set(x, 2) == bit_set(y, 2));
    assert(bit_set(x, 3) == bit_set(y, 3));
    assert(bit_set(x, 4) == bit_set(y, 4));
    assert(bit_set(x, 5) == bit_set(y, 5));
    assert(bit_set(x, 6) == bit_set(y, 6));
    assert(bit_set(x, 7) == bit_set(y, 7));
    assert(x == y) by (bit_vector)
        requires
            ((x >> 0u8) & 1u8 == 1u8) == ((y >> 0u8) & 1u8 == 1u8),
            ((x >> 1u8) & 1u8 == 1u8) == ((y >> 1u8) & 1u8 == 1u8),
            ((x >> 2u8) & 1u8 == 1u8) == ((y >> 2u8) & 1u8 == 1u8),
            ((x >> 3u8) & 1u8 == 1u8) == ((y >> 3u8) & 1u8 == 1u8),
            ((x >> 4u8) & 1u8 == 1u8) == ((y >> 4u8) & 1u8 == 1u8),
            ((x >> 5u8) & 1u8 == 1u8) == ((y >> 5u8) & 1u8 == 1u8),
            ((x >> 6u8) & 1u8 == 1u8) == ((y >> 6u8) & 1u8 == 1u8),
            ((x >> 7u8) & 1u8 == 1u8) == ((y >> 7u8) & 1u8 == 1u8),
    ;
}

/// Reading back coils from their packed bytes gives the coils again, and
/// every padding bit of the last byte is off.
pub proof fn lemma_unpack_pack(c: Seq<bool>)
    ensures
        forall|i: int| 0 <= i < c.len() ==> #[trigger] unpack_coil(pack_coils(c), i) == c[i],
        forall|i: int|
            c.len() <= i < 8 * packed_len(c.len()) ==> !#[trigger] unpack_coil(pack_coils(c), i),
{
    assert forall|i: int| 0 <= i < 8 * packed_len(c.len()) implies #[trigger] unpack_coil(
        pack_coils(c),
        i,
    ) == coil_at(c, i) by {
        let j = i / 8;
        let k = (i % 8) as u8;
        lemma_pack_byte_bits(c, j);
        assert(bit_set(pack_byte(c, j), k) == coil_at(c, 8 * j + k));
    }
}


/// The MBAP header, unit byte included, for a PDU of `pdu_len` bytes
/// (function code and data) that the caller pushes after it.
pub fn mbap(tid: u16, unit: u8, pdu_len: u16) -> (f: Vec<u8>)
    requires
        pdu_len < 0xFFFF,
    ensures
        f@ == mbap_spec(tid, unit, pdu_len),
{
    let mut f: Vec<u8> = Vec::new();
    push_u16_be(&mut f, tid);
    f.push(0x00);
    f.push(0x00);
    push_u16_be(&mut f, pdu_len + 1);
    f.push(unit);
    assert(f@ =~= mbap_spec(tid, unit, pdu_len));
    f
}

/// Reply to "read holding registers": the byte count, then each register
/// big-endian.
pub fn resp_fc03(tid: u16, unit: u8, regs: &[u16]) -> (f: Vec<u8>)
    requires
        2 + 2 * regs.len() < 0xFFFF,
    ensures
        f@ == fc03_frame(tid, unit, regs@),
{
    let bc: u8 = (regs.len() * 2 % 256) as u8;
    let mut f = mbap(tid, unit, (2 + 2 * regs.len()) as u16);
    f.push(0x03);
    f.push(bc);
    let ghost head = f@;
    let mut i: usize = 0;
    while i < regs.len()
        invariant
            i <= regs.len(),
            f@ == head + regs_bytes(regs@.take(i as int)),
        decreases regs.len() - i,
    {
        push_u16_be(&mut f, regs[i]);
        assert(regs@.take(i as int + 1).drop_last() =~= regs@.take(i as int));
        i += 1;
    }
    assert(regs@.take(regs.len() as int) =~= regs@);
    assert(f@ =~= fc03_frame(tid, unit, regs@));
    f
}

/// Reply to "write single register": the address and value echoed.
pub fn resp_fc06(tid: u16, unit: u8, addr: u16, val: u16) -> (f: Vec<u8>)
    ensures
        f@ == two_word_frame(tid, unit, 0x06, addr, val),
{
    let mut f = mbap(tid, unit, 5);
    f.push(0x06);
    push_u16_be(&mut f, addr);
    push_u16_be(&mut f, val);
    assert(f@ =~= two_word_frame(tid, unit, 0x06, addr, val));
    f
}

/// Reply to "write multiple registers": the start address and count.
pub fn resp_fc16(tid: u16, unit: u8, addr: u16, count: u16) -> (f: Vec<u8>)
    ensures
        f@ == two_word_frame(tid, unit, 0x10, addr, count),
{
    let mut f = mbap(tid, unit, 5);
    f.push(0x10);
    push_u16_be(&mut f, addr);
    push_u16_be(&mut f, count);
    assert(f@ =~= two_word_frame(tid, unit, 0x10, addr, count));
    f
}

/// Reply to "read coils": the byte count, then the coils packed eight to a
/// byte, least significant bit first.
pub fn resp_fc01(tid: u16, unit: u8, coils: &[bool]) -> (f: Vec<u8>)
    requires
        coils.len() + 7 <= usize::MAX,
        fc01_coils_fit(coils@),
    ensures
        f@ == fc01_frame(tid, unit, coils@),
{
    let bc: u8 = ((coils.len() + 7) / 8 % 256) as u8;
    let mut bytes: Vec<u8> = vec![0u8; bc as usize];
    proof {
        assert forall|j: int, k: u8| 0 <= j < bytes.len() && k < 8 implies !#[trigger] bit_set(
            bytes@[j],
            k,
        ) by {
            lemma_zero_bits(k);
        }
    }
    let mut i: usize = 0;
    while i < coils.len()
        invariant
            i <= coils.len(),
            fc01_coils_fit(coils@),
            bc == fc01_byte_count(coils.len() as nat),
            bytes.len() == bc as nat,
            forall|j: int, k: u8|
                0 <= j < bytes.len() && k < 8 ==> #[trigger] bit_set(bytes@[j], k) == (8 * j + k < i
                    && coils@[8 * j + k]),
        decreases coils.len() - i,
    {
        if coils[i] {
            assert(coils@[i as int]);
            let q: usize = i / 8;
            let r: u8 = (i % 8) as u8;
            let old_b: u8 = bytes[q];
            let ghost prev = bytes@;
            bytes.set(q, old_b | (1u8 << r));
            proof {
                assert forall|j: int, k: u8| 0 <= j < bytes.len() && k < 8 implies #[trigger] bit_set(
                    bytes@[j],
                    k,
                ) == (8 * j + k < i + 1 && coils@[8 * j + k]) by {
                    if j == q {
                        lemma_bit_or(old_b, r, k);
                    } else {
                        assert(bytes@[j] == prev[j]);
                    }
                }
            }
        }
        i += 1;
    }
    proof {
        assert forall|j: int| 0 <= j < bytes.len() implies bytes@[j] == pack_byte(coils@, j) by {
            lemma_pack_byte_bits(coils@, j);
            lemma_byte_eq_by_bits(bytes@[j], pack_byte(coils@, j));
        }
        assert(bytes@ =~= Seq::new(bc as nat, |j: int| pack_byte(coils@, j)));
    }
    let mut f = mbap(tid, unit, 2 + bc as u16);
    f.push(0x01);
    f.push(bc);
    let ghost head = f@;
    let mut j: usize = 0;
    while j < bytes.len()
        invariant
            j <= bytes.len(),
            f@ == head + bytes@.take(j as int),
        decreases bytes.len() - j,
    {
        f.push(bytes[j]);
        assert(bytes@.take(j as int + 1) =~= bytes@.take(j as int).push(bytes@[j as int]));
        j += 1;
    }
    assert(bytes@.take(bytes.len() as int) =~= bytes@);
    assert(f@ =~= fc01_frame(tid, unit, coils@));
    f
}

/// Reply to "write single coil": the address and the coil word echoed.
pub fn resp_fc05(tid: u16, unit: u8, addr: u16, val: bool) -> (f: Vec<u8>)
    ensures
        f@ == fc05_frame(tid, unit, addr, val),
{
    let mut f = mbap(tid, unit, 5);
    f.push(0x05);
    push_u16_be(&mut f, addr);
    if val {
        f.push(0xFF);
        f.push(0x00);
    } else {
        f.push(0x00);
        f.push(0x00);
    }
    assert(f@ =~= fc05_frame(tid, unit, addr, val));
    f
}

/// Reply to "write multiple coils": the start address and count.
pub fn resp_fc15(tid: u16, unit: u8, addr: u16, count: u16) -> (f: Vec<u8>)
    ensures
        f@ == two_word_frame(tid, unit, 0x0F, addr, count),
{
    let mut f = mbap(tid, unit, 5);
    f.push(0x0F);
    push_u16_be(&mut f, addr);
    push_u16_be(&mut f, count);
    assert(f@ =~= two_word_frame(tid, unit, 0x0F, addr, count));
    f
}

/// Exception reply: `fc` with its high bit set, then the exception code.
pub fn resp_exc(tid: u16, unit: u8, fc: u8, code: u8) -> (f: Vec<u8>)
    ensures
        f@ == exc_frame(tid, unit, fc, code),
{
    let mut f = mbap(tid, unit, 2);
    f.push(0x80 | fc);
    f.push(code);
    assert(f@ =~= exc_frame(tid, unit, fc, code));
    f
}

/// Each register takes two bytes.
pub proof fn lemma_regs_bytes_len(regs: Seq<u16>)
    ensures
        regs_bytes(regs).len() == 2 * regs.len(),
    decreases regs.len(),
{
    if regs.len() > 0 {
        lemma_regs_bytes_len(regs.drop_last());
    }
}

proof fn lemma_mbap_fields(tid: u16, unit: u8, pdu_len: u16, rest: Seq<u8>)
    requires
        pdu_len < 0xFFFF,
        rest.len() == pdu_len,
        rest.len() >= 1,
    ensures
        well_framed(mbap_spec(tid, unit, pdu_len) + rest, tid, unit),
{
    let f = mbap_spec(tid, unit, pdu_len) + rest;
    crate::bytes::lemma_be_decode_encode(tid);
    crate::bytes::lemma_be_decode_encode((pdu_len + 1) as u16);
    assert(f.subrange(0, 2) =~= be_bytes(tid));
    assert(f[4] == be_bytes((pdu_len + 1) as u16)[0]);
    assert(f[5] == be_bytes((pdu_len + 1) as u16)[1]);
}

/// A read-registers reply echoes the transaction and unit, carries protocol
/// 0, and its length field counts the bytes after it, for every number of
/// registers whose length fits the 16-bit field.
pub proof fn fc03_reply_well_framed(tid: u16, unit: u8, regs: Seq<u16>)
    requires
        2 + 2 * regs.len() < 0xFFFF,
    ensures
        well_framed(fc03_frame(tid, unit, regs), tid, unit),
{
    let bc = fc03_byte_count(regs.len());
    lemma_regs_bytes_len(regs);
    let rest = seq![0x03u8, bc] + regs_bytes(regs);
    lemma_mbap_fields(tid, unit, (2 + 2 * regs.len()) as u16, rest);
    assert(fc03_frame(tid, unit, regs) =~= mbap_spec(tid, unit, (2 + 2 * regs.len()) as u16) + rest);
}

/// A read-coils reply of at most 2040 coils is well framed.
pub proof fn fc01_reply_well_framed(tid: u16, unit: u8, coils: Seq<bool>)
    requires
        coils.len() <= 2040,
    ensures
        well_framed(fc01_frame(tid, unit, coils), tid, unit),
{
    let bc = fc01_byte_count(coils.len());
    let rest = seq![0x01u8, bc] + Seq::new(bc as nat, |j: int| pack_byte(coils, j));
    lemma_mbap_fields(tid, unit, (2 + bc) as u16, rest);
    assert(fc01_frame(tid, unit, coils) =~= mbap_spec(tid, unit, (2 + bc) as u16) + rest);
}

/// Write acknowledgements and exception replies are always well framed.
pub proof fn fixed_replies_well_framed(tid: u16, unit: u8, fc: u8, a: u16, b: u16, val: bool, code: u8)
    ensures
        well_framed(two_word_frame(tid, unit, fc, a, b), tid, unit),
        well_framed(fc05_frame(tid, unit, a, val), tid, unit),
        well_framed(exc_frame(tid, unit, fc, code), tid, unit),
{
    let rest = seq![fc] + be_bytes(a) + be_bytes(b);
    lemma_mbap_fields(tid, unit, 5, rest);
    assert(two_word_frame(tid, unit, fc, a, b) =~= mbap_spec(tid, unit, 5) + rest);
    let rest5 = seq![0x05u8] + be_bytes(a) + be_bytes(coil_word(val));
    lemma_mbap_fields(tid, unit, 5, rest5);
    assert(fc05_frame(tid, unit, a, val) =~= mbap_spec(tid, unit, 5) + rest5);
    let rest_e = seq![0x80u8 | fc, code];
    lemma_mbap_fields(tid, unit, 2, rest_e);
    assert(exc_frame(tid, unit, fc, code) =~= mbap_spec(tid, unit, 2) + rest_e);
}

/// Byte `2 * i` and `2 * i + 1` of the laid-out registers are register `i`.
pub proof fn lemma_regs_bytes_index(regs: Seq<u16>, i: int)
    requires
        0 <= i < regs.len(),
    ensures
        regs_bytes(regs)[2 * i] == be_bytes(regs[i])[0],
        regs_bytes(regs)[2 * i + 1] == be_bytes(regs[i])[1],
    decreases regs.len(),
{
    lemma_regs_bytes_len(regs.drop_last());
    if i < regs.len() - 1 {
        lemma_regs_bytes_index(regs.drop_last(), i);
    }
}

/// The header of every reply: transaction id big-endian in bytes 0..2,
/// protocol 0 in bytes 2..4, the number of bytes after byte 5 big-endian in
/// bytes 4..6, and the unit in byte 6.
pub open spec fn reply_header_ok(f: Seq<u8>, tid: u16, unit: u8) -> bool {
    &&& f.len() >= 7
    &&& f[0] as int * 256 + f[1] as int == tid as int
    &&& f[2] == 0u8 && f[3] == 0u8
    &&& f[4] as int * 256 + f[5] as int == f.len() - 6
    &&& f[6] == unit
}

proof fn lemma_header_ok(tid: u16, unit: u8, pdu_len: u16, rest: Seq<u8>)
    requires
        pdu_len < 0xFFFF,
        rest.len() == pdu_len,
        rest.len() >= 1,
    ensures
        reply_header_ok(mbap_spec(tid, unit, pdu_len) + rest, tid, unit),
        (mbap_spec(tid, unit, pdu_len) + rest).subrange(7, 7 + rest.len() as int) == rest,
{
    lemma_mbap_fields(tid, unit, pdu_len, rest);
    let f = mbap_spec(tid, unit, pdu_len) + rest;
    assert(f[0] == f.subrange(0, 2)[0] && f[1] == f.subrange(0, 2)[1]);
    assert(f.subrange(7, 7 + rest.len() as int) =~= rest);
}

/// Read-registers reply: after the header come 0x03, the byte count (twice
/// the number of registers, low eight bits), and then register `i`,
/// big-endian, at bytes `9 + 2 * i` and `10 + 2 * i`, in order; nothing else.
pub proof fn fc03_reply_layout(tid: u16, unit: u8, regs: Seq<u16>)
    requires
        2 + 2 * regs.len() < 0xFFFF,
    ensures
        ({
            let f = fc03_frame(tid, unit, regs);
            &&& reply_header_ok(f, tid, unit)
            &&& f.len() == 9 + 2 * regs.len()
            &&& f[7] == 0x03u8
            &&& f[8] as int == (2 * regs.len()) % 256
            &&& forall|i: int|
                0 <= i < regs.len() ==> f[9 + 2 * i] as int * 256 + f[10 + 2 * i] as int
                    == #[trigger] regs[i] as int
        }),
{
    let bc = fc03_byte_count(regs.len());
    let rb = regs_bytes(regs);
    lemma_regs_bytes_len(regs);
    let rest = seq![0x03u8, bc] + rb;
    lemma_header_ok(tid, unit, (2 + 2 * regs.len()) as u16, rest);
    let f = fc03_frame(tid, unit, regs);
    assert(f =~= mbap_spec(tid, unit, (2 + 2 * regs.len()) as u16) + rest);
    let data = f.subrange(9, f.len() as int);
    assert(data =~= rb);
    assert forall|i: int| 0 <= i < regs.len() implies f[9 + 2 * i] as int * 256 + f[10 + 2 * i] as int
        == #[trigger] regs[i] as int by {
        lemma_regs_bytes_index(regs, i);
        lemma_be_word(regs[i]);
        assert(f[9 + 2 * i] == data[2 * i]);
        assert(f[10 + 2 * i] == data[2 * i + 1]);
    }
}

/// The two bytes of `v`, as a big-endian number, are `v`.
proof fn lemma_be_word(v: u16)
    ensures
        be_bytes(v)[0] as int * 256 + be_bytes(v)[1] as int == v as int,
{
}

proof fn lemma_bit_is_zero_or_one(x: u8, k: u8)
    ensures
        (x >> k) & 1u8 == 0u8 || (x >> k) & 1u8 == 1u8,
{
    assert((x >> k) & 1u8 == 0u8 || (x >> k) & 1u8 == 1u8) by (bit_vector);
}

/// Read-coils reply (up to 2040 coils): after the header come 0x01, the
/// number of data bytes, `(n + 7) / 8`, and then the data, in which coil `i`
/// is bit `i % 8` of data byte `i / 8` (least significant bit first) and
/// every bit past the last coil is 0.
pub proof fn fc01_reply_layout(tid: u16, unit: u8, coils: Seq<bool>)
    requires
        coils.len() <= 2040,
    ensures
        ({
            let f = fc01_frame(tid, unit, coils);
            let data = f.subrange(9, f.len() as int);
            &&& reply_header_ok(f, tid, unit)
            &&& f.len() == 9 + (coils.len() + 7) / 8
            &&& f[7] == 0x01u8
            &&& f[8] as int == (coils.len() + 7) / 8
            &&& forall|i: int|
                0 <= i < coils.len() ==> ((data[i / 8] >> ((i % 8) as u8)) & 1u8 == 1u8)
                    == #[trigger] coils[i]
            &&& forall|j: int, k: u8|
                0 <= j < data.len() && k < 8 && 8 * j + k >= coils.len() ==> (#[trigger] (data[j]
                    >> k)) & 1u8 == 0u8
        }),
{
    let n = coils.len();
    let bc = fc01_byte_count(n);
    let body = Seq::new(bc as nat, |j: int| pack_byte(coils, j));
    let rest = seq![0x01u8, bc] + body;
    lemma_header_ok(tid, unit, (2 + bc) as u16, rest);
    let f = fc01_frame(tid, unit, coils);
    assert(f =~= mbap_spec(tid, unit, (2 + bc) as u16) + rest);
    let data = f.subrange(9, f.len() as int);
    assert(data =~= body);
    assert forall|i: int| 0 <= i < n implies ((data[i / 8] >> ((i % 8) as u8)) & 1u8 == 1u8)
        == #[trigger] coils[i] by {
        lemma_pack_byte_bits(coils, i / 8);
        assert(bit_set(pack_byte(coils, i / 8), (i % 8) as u8) == coil_at(coils, 8 * (i / 8) + (i
            % 8) as u8));
    }
    assert forall|j: int, k: u8| 0 <= j < data.len() && k < 8 && 8 * j + k >= n implies (
    #[trigger] (data[j] >> k)) & 1u8 == 0u8 by {
        lemma_pack_byte_bits(coils, j);
        assert(!bit_set(pack_byte(coils, j), k));
        lemma_bit_is_zero_or_one(data[j], k);
    }
}

/// Two-word reply (write acknowledgements): after the header come the
/// function code, the first word big-endian at bytes 8..10 and the second
/// at bytes 10..12, whatever the function code.
pub proof fn two_word_reply_layout(tid: u16, unit: u8, fc: u8, a: u16, b: u16)
    ensures
        ({
            let f = two_word_frame(tid, unit, fc, a, b);
            &&& reply_header_ok(f, tid, unit)
            &&& f.len() == 12
            &&& f[7] == fc
            &&& f[8] as int * 256 + f[9] as int == a as int
            &&& f[10] as int * 256 + f[11] as int == b as int
        }),
{
    let rest = seq![fc] + be_bytes(a) + be_bytes(b);
    lemma_header_ok(tid, unit, 5, rest);
    assert(two_word_frame(tid, unit, fc, a, b) =~= mbap_spec(tid, unit, 5) + rest);
}

/// Write-single-coil reply: function 0x05, the address big-endian at bytes
/// 8..10, then 0xFF 0x00 for a coil turned on and 0x00 0x00 for one turned
/// off.
pub proof fn fc05_reply_layout(tid: u16, unit: u8, addr: u16, val: bool)
    ensures
        ({
            let f = fc05_frame(tid, unit, addr, val);
            &&& reply_header_ok(f, tid, unit)
            &&& f.len() == 12
            &&& f[7] == 0x05u8
            &&& f[8] as int * 256 + f[9] as int == addr as int
            &&& f[10] == (if val { 0xFFu8 } else { 0x00u8 })
            &&& f[11] == 0x00u8
        }),
{
    two_word_reply_layout(tid, unit, 0x05, addr, coil_word(val));
}

/// Exception reply: the function code with its high bit set, then the
/// exception code, and nothing else.
pub proof fn exc_reply_layout(tid: u16, unit: u8, fc: u8, code: u8)
    ensures
        ({
            let f = exc_frame(tid, unit, fc, code);
            &&& reply_header_ok(f, tid, unit)
            &&& f.len() == 9
            &&& f[7] == (fc | 0x80u8)
            &&& f[8] == code
        }),
{
    let rest = seq![0x80u8 | fc, code];
    lemma_header_ok(tid, unit, 2, rest);
    assert(exc_frame(tid, unit, fc, code) =~= mbap_spec(tid, unit, 2) + rest);
    assert((0x80u8 | fc) == (fc | 0x80u8)) by (bit_vector);
}

} // verus!
