//! Request handling of the Modbus TCP slave: the MBAP header check, the
//! decoding of a request PDU, and the reply and memory change it causes.
//!
//! A PDU here is what follows the 6-byte header: `[UNIT][FC][DATA...]`.
use vstd::prelude::*;
use crate::bytes::{be_bytes, be_value, lemma_be_decode_encode, u16_from_be};
use crate::frames::{
    coil_word, exc_frame, fc01_frame, fc01_reply_well_framed, fc03_byte_count, fc03_frame,
    fc03_reply_well_framed, fc05_frame, fixed_replies_well_framed, fc01_reply_layout, fc03_reply_layout, fc05_reply_layout,
    two_word_reply_layout, exc_reply_layout, lemma_regs_bytes_len,
    lemma_regs_bytes_index, lemma_unpack_pack, pack_coils, packed_len, regs_bytes, resp_exc, resp_fc01, resp_fc03,
    resp_fc05, resp_fc06, resp_fc15, resp_fc16, two_word_frame, unpack_coil, well_framed,
};
use crate::state::{State, D_SIZE, M_SIZE, UNIT_ID};

verus! {

/// Exception code: function not supported.
pub const EXC_ILLEGAL_FUNCTION: u8 = 0x01;

/// Exception code: address range outside the slave's memory.
pub const EXC_ILLEGAL_ADDRESS: u8 = 0x02;

/// Exception code: request too short for its function.
pub const EXC_ILLEGAL_VALUE: u8 = 0x03;

/// Exception code: the request is for another unit.
pub const EXC_WRONG_UNIT: u8 = 0x0B;

/// The big-endian word at bytes `i`, `i + 1` of `s`.
pub open spec fn word_at(s: Seq<u8>, i: int) -> u16 {
    be_value(s[i], s[i + 1])
}

/// What the 6-byte MBAP header of a request says.
pub enum HeaderCheck {
    /// A frame to read: `pdu_len` more bytes (unit, function code, data).
    Frame { tid: u16, pdu_len: usize },
    /// The protocol id is not 0: the frame is dropped whole, header and
    /// the `len` bytes its length field announces.
    WrongProtocol { proto: u16, len: usize },
    /// The length is below 2 or above 260: the frame is dropped whole,
    /// header and the `len` bytes its length field announces.
    BadLength { len: usize },
}

/// The verdict on a header.
pub open spec fn header_of(h: Seq<u8>) -> HeaderCheck {
    let tid = word_at(h, 0);
    let proto = word_at(h, 2);
    let len = word_at(h, 4) as usize;
    if proto != 0 {
        HeaderCheck::WrongProtocol { proto, len }
    } else if len < 2 || len > 260 {
        HeaderCheck::BadLength { len }
    } else {
        HeaderCheck::Frame { tid, pdu_len: len }
    }
}

/// Reads the transaction id, protocol id and length of a request header.
pub fn check_header(h: &[u8; 6]) -> (r: HeaderCheck)
    ensures
        r == header_of(h@),
{
    let tid = u16_from_be(h[0], h[1]);
    let proto = u16_from_be(h[2], h[3]);
    let len = u16_from_be(h[4], h[5]) as usize;
    if proto != 0 {
        HeaderCheck::WrongProtocol { proto, len }
    } else if len < 2 || len > 260 {
        HeaderCheck::BadLength { len }
    } else {
        HeaderCheck::Frame { tid, pdu_len: len }
    }
}

/// What a request PDU asks for.
#[allow(inconsistent_fields)]
pub enum Request {
    /// Function 0x03 on registers `start .. start + count`.
    ReadRegisters { start: usize, count: usize },
    /// Function 0x06: register `addr` becomes `val`.
    WriteRegister { addr: usize, val: u16 },
    /// Function 0x10: registers `start .. start + count` take the words of
    /// the data from byte 5 on.
    WriteRegisters { start: usize, count: usize },
    /// Function 0x01 on coils `start .. start + count`.
    ReadCoils { start: usize, count: usize },
    /// Function 0x05: coil `addr` becomes `val` (on only for 0xFF00).
    WriteCoil { addr: usize, val: bool },
    /// Function 0x0F: coils `start .. start + count` take the bits packed in
    /// the data from byte 5 on.
    WriteCoils { start: usize, count: usize },
    /// Answered with an exception reply carrying `code`.
    Refused { code: u8 },
    /// A write of many registers or coils whose data is shorter than its
    /// count needs: the request cannot be carried out.
    Overrun,
}

/// How the slave reads a request PDU `[UNIT][FC][DATA...]`.
pub open spec fn request_of(pdu: Seq<u8>) -> Request {
    let unit = pdu[0];
    let fc = pdu[1];
    let n = pdu.len() - 2;
    let a = word_at(pdu, 2);
    let b = word_at(pdu, 4);
    if unit != UNIT_ID {
        Request::Refused { code: EXC_WRONG_UNIT }
    } else if fc == 0x03 || fc == 0x06 || fc == 0x01 || fc == 0x05 {
        if n < 4 {
            Request::Refused { code: EXC_ILLEGAL_VALUE }
        } else if fc == 0x03 {
            if b == 0 || a + b > D_SIZE {
                Request::Refused { code: EXC_ILLEGAL_ADDRESS }
            } else {
                Request::ReadRegisters { start: a as usize, count: b as usize }
            }
        } else if fc == 0x06 {
            if a >= D_SIZE {
                Request::Refused { code: EXC_ILLEGAL_ADDRESS }
            } else {
                Request::WriteRegister { addr: a as usize, val: b }
            }
        } else if fc == 0x01 {
            if b == 0 || a + b > M_SIZE {
                Request::Refused { code: EXC_ILLEGAL_ADDRESS }
            } else {
                Request::ReadCoils { start: a as usize, count: b as usize }
            }
        } else {
            if a >= M_SIZE {
                Request::Refused { code: EXC_ILLEGAL_ADDRESS }
            } else {
                Request::WriteCoil { addr: a as usize, val: b == 0xFF00 }
            }
        }
    } else if fc == 0x10 || fc == 0x0F {
        if n < 5 {
            Request::Refused { code: EXC_ILLEGAL_VALUE }
        } else {
            let bc = pdu[6];
            let size = if fc == 0x10 { D_SIZE } else { M_SIZE };
            let needed = if fc == 0x10 { 2 * b } else { packed_len(b as nat) as int };
            if b == 0 || a + b > size || n < 5 + bc {
                Request::Refused { code: EXC_ILLEGAL_ADDRESS }
            } else if n < 5 + needed {
                Request::Overrun
            } else if fc == 0x10 {
                Request::WriteRegisters { start: a as usize, count: b as usize }
            } else {
                Request::WriteCoils { start: a as usize, count: b as usize }
            }
        }
    } else {
        Request::Refused { code: EXC_ILLEGAL_FUNCTION }
    }
}

/// The registers after the request `pdu`.
pub open spec fn regs_after(d: Seq<u16>, pdu: Seq<u8>) -> Seq<u16> {
    match request_of(pdu) {
        Request::WriteRegister { addr, val } => d.update(addr as int, val),
        Request::WriteRegisters { start, count } => Seq::new(
            d.len(),
            |i: int|
                if start <= i < start + count {
                    word_at(pdu, 7 + 2 * (i - start))
                } else {
                    d[i]
                },
        ),
        _ => d,
    }
}

/// The coils after the request `pdu`.
pub open spec fn coils_after(m: Seq<bool>, pdu: Seq<u8>) -> Seq<bool> {
    match request_of(pdu) {
        Request::WriteCoil { addr, val } => m.update(addr as int, val),
        Request::WriteCoils { start, count } => Seq::new(
            m.len(),
            |i: int|
                if start <= i < start + count {
                    unpack_coil(pdu.subrange(7, pdu.len() as int), i - start)
                } else {
                    m[i]
                },
        ),
        _ => m,
    }
}

/// The reply to the request `pdu` (transaction `tid`) on registers `d` and
/// coils `m`.
pub open spec fn reply_of(d: Seq<u16>, m: Seq<bool>, tid: u16, pdu: Seq<u8>) -> Seq<u8> {
    let unit = pdu[0];
    let fc = pdu[1];
    match request_of(pdu) {
        Request::ReadRegisters { start, count } => fc03_frame(
            tid,
            unit,
            d.subrange(start as int, start + count),
        ),
        Request::WriteRegister { addr, val } => two_word_frame(tid, unit, 0x06, addr as u16, val),
        Request::WriteRegisters { start, count } => two_word_frame(
            tid,
            unit,
            0x10,
            start as u16,
            count as u16,
        ),
        Request::ReadCoils { start, count } => fc01_frame(
            tid,
            unit,
            m.subrange(start as int, start + count),
        ),
        Request::WriteCoil { addr, val } => fc05_frame(tid, unit, addr as u16, val),
        Request::WriteCoils { start, count } => two_word_frame(
            tid,
            unit,
            0x0F,
            start as u16,
            count as u16,
        ),
        Request::Refused { code } => exc_frame(tid, unit, fc, code),
        Request::Overrun => Seq::empty(),
    }
}

/// Decodes a request PDU.
pub fn decode_request(pdu: &[u8]) -> (r: Request)
    requires
        pdu.len() >= 2,
    ensures
        r == request_of(pdu@),
{
    let unit = pdu[0];
    let fc = pdu[1];
    let n = pdu.len() - 2;
    if unit != UNIT_ID {
        return Request::Refused { code: EXC_WRONG_UNIT };
    }
    if fc == 0x03 || fc == 0x06 || fc == 0x01 || fc == 0x05 {
        if n < 4 {
            return Request::Refused { code: EXC_ILLEGAL_VALUE };
        }
        let a = u16_from_be(pdu[2], pdu[3]) as usize;
        let b = u16_from_be(pdu[4], pdu[5]);
        if fc == 0x03 {
            let count = b as usize;
            if count == 0 || a + count > D_SIZE {
                Request::Refused { code: EXC_ILLEGAL_ADDRESS }
            } else {
                Request::ReadRegisters { start: a, count }
            }
        } else if fc == 0x06 {
            if a >= D_SIZE {
                Request::Refused { code: EXC_ILLEGAL_ADDRESS }
            } else {
                Request::WriteRegister { addr: a, val: b }
            }
        } else if fc == 0x01 {
            let count = b as usize;
            if count == 0 || a + count > M_SIZE {
                Request::Refused { code: EXC_ILLEGAL_ADDRESS }
            } else {
                Request::ReadCoils { start: a, count }
            }
        } else {
            if a >= M_SIZE {
                Request::Refused { code: EXC_ILLEGAL_ADDRESS }
            } else {
                Request::WriteCoil { addr: a, val: b == 0xFF00 }
            }
        }
    } else if fc == 0x10 || fc == 0x0F {
        if n < 5 {
            return Request::Refused { code: EXC_ILLEGAL_VALUE };
        }
        let a = u16_from_be(pdu[2], pdu[3]) as usize;
        let count = u16_from_be(pdu[4], pdu[5]) as usize;
        let bc = pdu[6] as usize;
        let size = if fc == 0x10 { D_SIZE } else { M_SIZE };
        let needed = if fc == 0x10 { 2 * count } else { (count + 7) / 8 };
        if count == 0 || a + count > size || n < 5 + bc {
            Request::Refused { code: EXC_ILLEGAL_ADDRESS }
        } else if n < 5 + needed {
            Request::Overrun
        } else if fc == 0x10 {
            Request::WriteRegisters { start: a, count }
        } else {
            Request::WriteCoils { start: a, count }
        }
    } else {
        Request::Refused { code: EXC_ILLEGAL_FUNCTION }
    }
}

/// Carries out the request `pdu` of transaction `tid` on `state` and
/// returns the reply to send. Returns `None`, leaving `state` untouched,
/// exactly when the request is an overrun (a multiple write whose data is
/// shorter than its count needs).
pub fn handle_pdu(state: &mut State, tid: u16, pdu: &[u8]) -> (r: Option<Vec<u8>>)
    requires
        old(state).wf(),
        pdu.len() >= 2,
    ensures
        final(state).wf(),
        r is None <==> request_of(pdu@) is Overrun,
        r is None ==> final(state).regs() == old(state).regs() && final(state).coils() == old(
            state,
        ).coils(),
        r matches Some(f) ==> {
            &&& f@ == reply_of(old(state).regs(), old(state).coils(), tid, pdu@)
            &&& final(state).regs() == regs_after(old(state).regs(), pdu@)
            &&& final(state).coils() == coils_after(old(state).coils(), pdu@)
        },
{
    let unit = pdu[0];
    let fc = pdu[1];
    let ghost d0 = state.regs();
    let ghost m0 = state.coils();
    match decode_request(pdu) {
        Request::ReadRegisters { start, count } => {
            let regs = state.read_regs(start, count);
            Some(resp_fc03(tid, unit, regs.as_slice()))
        },
        Request::WriteRegister { addr, val } => {
            state.write_reg(addr, val);
            Some(resp_fc06(tid, unit, addr as u16, val))
        },
        Request::WriteRegisters { start, count } => {
            let mut i: usize = 0;
            while i < count
                invariant
                    i <= count,
                    start + count <= D_SIZE,
                    pdu.len() >= 7 + 2 * count,
                    d0.len() == D_SIZE,
                    state.wf(),
                    state.coils() == m0,
                    state.regs() == Seq::new(
                        d0.len(),
                        |j: int|
                            if start <= j < start + i {
                                word_at(pdu@, 7 + 2 * (j - start))
                            } else {
                                d0[j]
                            },
                    ),
                decreases count - i,
            {
                let v = u16_from_be(pdu[7 + 2 * i], pdu[8 + 2 * i]);
                state.write_reg(start + i, v);
                assert(state.regs() =~= Seq::new(
                    d0.len(),
                    |j: int|
                        if start <= j < start + i + 1 {
                            word_at(pdu@, 7 + 2 * (j - start))
                        } else {
                            d0[j]
                        },
                ));
                i += 1;
            }
            Some(resp_fc16(tid, unit, start as u16, count as u16))
        },
        Request::ReadCoils { start, count } => {
            let coils = state.read_coils(start, count);
            Some(resp_fc01(tid, unit, coils.as_slice()))
        },
        Request::WriteCoil { addr, val } => {
            state.write_coil(addr, val);
            Some(resp_fc05(tid, unit, addr as u16, val))
        },
        Request::WriteCoils { start, count } => {
            let ghost bytes = pdu@.subrange(7, pdu.len() as int);
            let mut i: usize = 0;
            while i < count
                invariant
                    i <= count,
                    start + count <= M_SIZE,
                    pdu.len() >= 7 + packed_len(count as nat),
                    bytes == pdu@.subrange(7, pdu.len() as int),
                    m0.len() == M_SIZE,
                    state.wf(),
                    state.regs() == d0,
                    state.coils() == Seq::new(
                        m0.len(),
                        |j: int|
                            if start <= j < start + i {
                                unpack_coil(bytes, j - start)
                            } else {
                                m0[j]
                            },
                    ),
                decreases count - i,
            {
                let byte = pdu[7 + i / 8];
                let on = (byte >> ((i % 8) as u8)) & 1u8 == 1u8;
                assert(on == unpack_coil(bytes, i as int));
                state.write_coil(start + i, on);
                assert(state.coils() =~= Seq::new(
                    m0.len(),
                    |j: int|
                        if start <= j < start + i + 1 {
                            unpack_coil(bytes, j - start)
                        } else {
                            m0[j]
                        },
                ));
                i += 1;
            }
            Some(resp_fc15(tid, unit, start as u16, count as u16))
        },
        Request::Refused { code } => Some(resp_exc(tid, unit, fc, code)),
        Request::Overrun => None,
    }
}

/// The request "write `val` to register `addr`" (function 0x06).
pub open spec fn write_register_pdu(addr: u16, val: u16) -> Seq<u8> {
    seq![UNIT_ID, 0x06u8] + be_bytes(addr) + be_bytes(val)
}

/// The request "read `count` registers from `start`" (function 0x03).
pub open spec fn read_registers_pdu(start: u16, count: u16) -> Seq<u8> {
    seq![UNIT_ID, 0x03u8] + be_bytes(start) + be_bytes(count)
}

/// The request "write `vals` to the registers from `start`" (function 0x10).
pub open spec fn write_registers_pdu(start: u16, vals: Seq<u16>) -> Seq<u8> {
    seq![UNIT_ID, 0x10u8] + be_bytes(start) + be_bytes(vals.len() as u16) + seq![
        fc03_byte_count(vals.len()),
    ] + regs_bytes(vals)
}

/// The request "set coil `addr` to `val`" (function 0x05).
pub open spec fn write_coil_pdu(addr: u16, val: bool) -> Seq<u8> {
    seq![UNIT_ID, 0x05u8] + be_bytes(addr) + be_bytes(coil_word(val))
}

/// The request "read `count` coils from `start`" (function 0x01).
pub open spec fn read_coils_pdu(start: u16, count: u16) -> Seq<u8> {
    seq![UNIT_ID, 0x01u8] + be_bytes(start) + be_bytes(count)
}

/// The request "write the coils `c` from `start`" (function 0x0F), with the
/// coils packed as a read-coils reply packs them.
pub open spec fn write_coils_pdu(start: u16, c: Seq<bool>) -> Seq<u8> {
    seq![UNIT_ID, 0x0Fu8] + be_bytes(start) + be_bytes(c.len() as u16) + seq![
        packed_len(c.len()) as u8,
    ] + pack_coils(c)
}

proof fn lemma_words(p: Seq<u8>, a: u16, b: u16)
    requires
        p.len() >= 6,
        p.subrange(2, 4) == be_bytes(a),
        p.subrange(4, 6) == be_bytes(b),
    ensures
        word_at(p, 2) == a,
        word_at(p, 4) == b,
{
    lemma_be_decode_encode(a);
    lemma_be_decode_encode(b);
    assert(p[2] == p.subrange(2, 4)[0] && p[3] == p.subrange(2, 4)[1]);
    assert(p[4] == p.subrange(4, 6)[0] && p[5] == p.subrange(4, 6)[1]);
}

/// Read after write, one register: once register `addr` has been written
/// with `val`, it holds `val`, every other register is unchanged, and
/// reading it back answers `val`.
pub proof fn register_read_after_write(d: Seq<u16>, m: Seq<bool>, addr: u16, val: u16, tid: u16)
    requires
        d.len() == D_SIZE,
        addr < D_SIZE,
    ensures
        request_of(write_register_pdu(addr, val)) == (Request::WriteRegister {
            addr: addr as usize,
            val,
        }),
        regs_after(d, write_register_pdu(addr, val)) == d.update(addr as int, val),
        coils_after(m, write_register_pdu(addr, val)) == m,
        reply_of(d, m, tid, write_register_pdu(addr, val)) == two_word_frame(
            tid,
            UNIT_ID,
            0x06,
            addr,
            val,
        ),
        reply_of(regs_after(d, write_register_pdu(addr, val)), m, tid, read_registers_pdu(addr, 1))
            == fc03_frame(tid, UNIT_ID, seq![val]),
{
    let w = write_register_pdu(addr, val);
    let r = read_registers_pdu(addr, 1);
    assert(w.subrange(2, 4) =~= be_bytes(addr));
    assert(w.subrange(4, 6) =~= be_bytes(val));
    lemma_words(w, addr, val);
    assert(r.subrange(2, 4) =~= be_bytes(addr));
    assert(r.subrange(4, 6) =~= be_bytes(1));
    lemma_words(r, addr, 1);
    let d2 = d.update(addr as int, val);
    assert(d2.subrange(addr as int, addr + 1) =~= seq![val]);
}

/// Read after write, many registers: once the registers from `start` have
/// been written with `vals`, they hold `vals`, the others are unchanged, and
/// reading them back answers `vals`.
pub proof fn registers_read_after_write(
    d: Seq<u16>,
    m: Seq<bool>,
    start: u16,
    vals: Seq<u16>,
    tid: u16,
)
    requires
        d.len() == D_SIZE,
        1 <= vals.len(),
        start + vals.len() <= D_SIZE,
    ensures
        ({
            let w = write_registers_pdu(start, vals);
            let d2 = regs_after(d, w);
            &&& request_of(w) == (Request::WriteRegisters {
                start: start as usize,
                count: vals.len() as usize,
            })
            &&& d2.len() == d.len()
            &&& d2.subrange(start as int, start + vals.len()) == vals
            &&& forall|i: int|
                0 <= i < d.len() && !(start <= i < start + vals.len()) ==> #[trigger] d2[i]
                    == d[i]
            &&& coils_after(m, w) == m
            &&& reply_of(d, m, tid, w) == two_word_frame(
                tid,
                UNIT_ID,
                0x10,
                start,
                vals.len() as u16,
            )
            &&& reply_of(d2, m, tid, read_registers_pdu(start, vals.len() as u16)) == fc03_frame(
                tid,
                UNIT_ID,
                vals,
            )
        }),
{
    let n = vals.len();
    let w = write_registers_pdu(start, vals);
    let r = read_registers_pdu(start, n as u16);
    lemma_regs_bytes_len(vals);
    assert(w.len() == 7 + 2 * n);
    assert(w.subrange(2, 4) =~= be_bytes(start));
    assert(w.subrange(4, 6) =~= be_bytes(n as u16));
    lemma_words(w, start, n as u16);
    assert(w[6] == fc03_byte_count(n));
    assert(request_of(w) == (Request::WriteRegisters { start: start as usize, count: n as usize }));
    assert(r.subrange(2, 4) =~= be_bytes(start));
    assert(r.subrange(4, 6) =~= be_bytes(n as u16));
    lemma_words(r, start, n as u16);
    let d2 = regs_after(d, w);
    assert forall|k: int| 0 <= k < n implies #[trigger] d2[start + k] == vals[k] by {
        lemma_regs_bytes_index(vals, k);
        assert(w[7 + 2 * k] == regs_bytes(vals)[2 * k]);
        assert(w[7 + 2 * k + 1] == regs_bytes(vals)[2 * k + 1]);
        lemma_be_decode_encode(vals[k]);
    }
    assert forall|k: int| 0 <= k < n implies #[trigger] d2.subrange(start as int, start + n)[k]
        == vals[k] by {
        assert(d2[start + k] == vals[k]);
    }
    assert(d2.subrange(start as int, start + n) =~= vals);
}

/// Read after write, one coil: once coil `addr` has been set to `val`, it
/// holds `val`, every other coil is unchanged, and reading it back answers
/// `val`.
pub proof fn coil_read_after_write(d: Seq<u16>, m: Seq<bool>, addr: u16, val: bool, tid: u16)
    requires
        m.len() == M_SIZE,
        addr < M_SIZE,
    ensures
        request_of(write_coil_pdu(addr, val)) == (Request::WriteCoil { addr: addr as usize, val }),
        coils_after(m, write_coil_pdu(addr, val)) == m.update(addr as int, val),
        regs_after(d, write_coil_pdu(addr, val)) == d,
        reply_of(d, m, tid, write_coil_pdu(addr, val)) == fc05_frame(tid, UNIT_ID, addr, val),
        reply_of(d, coils_after(m, write_coil_pdu(addr, val)), tid, read_coils_pdu(addr, 1))
            == fc01_frame(tid, UNIT_ID, seq![val]),
{
    let w = write_coil_pdu(addr, val);
    let r = read_coils_pdu(addr, 1);
    assert(w.subrange(2, 4) =~= be_bytes(addr));
    assert(w.subrange(4, 6) =~= be_bytes(coil_word(val)));
    lemma_words(w, addr, coil_word(val));
    assert(r.subrange(2, 4) =~= be_bytes(addr));
    assert(r.subrange(4, 6) =~= be_bytes(1));
    lemma_words(r, addr, 1);
    let m2 = m.update(addr as int, val);
    assert(m2.subrange(addr as int, addr + 1) =~= seq![val]);
}

/// Read after write, many coils: once the coils from `start` have been
/// written with `c` (packed as a read-coils reply packs them), they hold
/// `c`, the others are unchanged, and reading them back answers `c`.
pub proof fn coils_read_after_write(
    d: Seq<u16>,
    m: Seq<bool>,
    start: u16,
    c: Seq<bool>,
    tid: u16,
)
    requires
        m.len() == M_SIZE,
        1 <= c.len(),
        start + c.len() <= M_SIZE,
    ensures
        ({
            let w = write_coils_pdu(start, c);
            let m2 = coils_after(m, w);
            &&& request_of(w) == (Request::WriteCoils {
                start: start as usize,
                count: c.len() as usize,
            })
            &&& m2.len() == m.len()
            &&& m2.subrange(start as int, start + c.len()) == c
            &&& forall|i: int|
                0 <= i < m.len() && !(start <= i < start + c.len()) ==> #[trigger] m2[i] == m[i]
            &&& regs_after(d, w) == d
            &&& reply_of(d, m, tid, w) == two_word_frame(
                tid,
                UNIT_ID,
                0x0F,
                start,
                c.len() as u16,
            )
            &&& reply_of(d, m2, tid, read_coils_pdu(start, c.len() as u16)) == fc01_frame(
                tid,
                UNIT_ID,
                c,
            )
        }),
{
    let n = c.len();
    let w = write_coils_pdu(start, c);
    let r = read_coils_pdu(start, n as u16);
    assert(w.len() == 7 + packed_len(n));
    assert(w.subrange(2, 4) =~= be_bytes(start));
    assert(w.subrange(4, 6) =~= be_bytes(n as u16));
    lemma_words(w, start, n as u16);
    assert(w[6] == packed_len(n) as u8);
    assert(request_of(w) == (Request::WriteCoils { start: start as usize, count: n as usize }));
    assert(r.subrange(2, 4) =~= be_bytes(start));
    assert(r.subrange(4, 6) =~= be_bytes(n as u16));
    lemma_words(r, start, n as u16);
    let m2 = coils_after(m, w);
    assert(w.subrange(7, w.len() as int) =~= pack_coils(c));
    lemma_unpack_pack(c);
    assert forall|k: int| 0 <= k < n implies #[trigger] m2[start + k] == c[k] by {
        assert(unpack_coil(pack_coils(c), k) == c[k]);
    }
    assert(m2.subrange(start as int, start + n) =~= c);
}

/// Refused requests and reads leave the memory as it was; a refused request
/// is answered with its function code with the high bit set and the
/// exception code.
pub proof fn only_writes_change_memory(d: Seq<u16>, m: Seq<bool>, tid: u16, pdu: Seq<u8>)
    requires
        pdu.len() >= 2,
    ensures
        request_of(pdu) is Refused || request_of(pdu) is ReadRegisters || request_of(pdu) is ReadCoils
            ==> regs_after(d, pdu) == d && coils_after(m, pdu) == m,
        request_of(pdu) is WriteRegister || request_of(pdu) is WriteRegisters ==> coils_after(m, pdu) == m,
        request_of(pdu) is WriteCoil || request_of(pdu) is WriteCoils ==> regs_after(d, pdu) == d,
        request_of(pdu) matches Request::Refused { code } ==> {
            let f = reply_of(d, m, tid, pdu);
            &&& f.len() == 9
            &&& f[7] == 0x80u8 | pdu[1]
            &&& f[8] == code
        },
{
}

/// Every reply is well framed: transaction and unit echoed, protocol 0,
/// length field counting the bytes after it.
pub proof fn replies_well_framed(d: Seq<u16>, m: Seq<bool>, tid: u16, pdu: Seq<u8>)
    requires
        d.len() == D_SIZE,
        m.len() == M_SIZE,
        pdu.len() >= 2,
        !(request_of(pdu) is Overrun),
    ensures
        well_framed(reply_of(d, m, tid, pdu), tid, pdu[0]),
{
    let unit = pdu[0];
    let fc = pdu[1];
    match request_of(pdu) {
        Request::ReadRegisters { start, count } => {
            fc03_reply_well_framed(tid, unit, d.subrange(start as int, start + count));
        },
        Request::ReadCoils { start, count } => {
            fc01_reply_well_framed(tid, unit, m.subrange(start as int, start + count));
        },
        Request::WriteRegister { addr, val } => {
            fixed_replies_well_framed(tid, unit, 0x06, addr as u16, val, false, 0);
        },
        Request::WriteRegisters { start, count } => {
            fixed_replies_well_framed(tid, unit, 0x10, start as u16, count as u16, false, 0);
        },
        Request::WriteCoil { addr, val } => {
            fixed_replies_well_framed(tid, unit, 0x05, addr as u16, 0, val, 0);
        },
        Request::WriteCoils { start, count } => {
            fixed_replies_well_framed(tid, unit, 0x0F, start as u16, count as u16, false, 0);
        },
        Request::Refused { code } => {
            fixed_replies_well_framed(tid, unit, fc, 0, 0, false, code);
        },
        Request::Overrun => {},
    }
}

/// A well-framed reply, read back by the slave's own header check, gives
/// its transaction id and the number of bytes that follow the header.
pub proof fn reply_header_reads_back(f: Seq<u8>, tid: u16, unit: u8)
    requires
        well_framed(f, tid, unit),
        f.len() - 6 <= 260,
    ensures
        header_of(f.subrange(0, 6)) == (HeaderCheck::Frame { tid, pdu_len: (f.len() - 6) as usize }),
{
    let h = f.subrange(0, 6);
    lemma_be_decode_encode(tid);
    assert(h[0] == f.subrange(0, 2)[0] && h[1] == f.subrange(0, 2)[1]);
}

/// A write is acknowledged by echoing its request: bytes 6..12 of the
/// reply (unit, function code, address, value or count) are the first six
/// bytes of the request. For a single coil this holds when the request's
/// coil word is 0xFF00 or 0x0000; any other word is answered as 0x0000.
pub proof fn write_replies_echo_request(d: Seq<u16>, m: Seq<bool>, tid: u16, pdu: Seq<u8>)
    requires
        pdu.len() >= 2,
    ensures
        ({
            let f = reply_of(d, m, tid, pdu);
            let r = request_of(pdu);
            (r is WriteRegister || r is WriteRegisters || r is WriteCoils || (r is WriteCoil && ((
            pdu[4] == 0xFFu8 && pdu[5] == 0u8) || (pdu[4] == 0u8 && pdu[5] == 0u8)))) ==> f.len()
                == 12 && f.subrange(6, 12) == pdu.subrange(0, 6)
        }),
        request_of(pdu) is WriteCoil ==> {
            let f = reply_of(d, m, tid, pdu);
            &&& f[10] == (if pdu[4] == 0xFFu8 && pdu[5] == 0u8 { 0xFFu8 } else { 0u8 })
            &&& f[11] == 0u8
        },
{
    let f = reply_of(d, m, tid, pdu);
    let unit = pdu[0];
    match request_of(pdu) {
        Request::WriteRegister { addr, val } => {
            two_word_reply_layout(tid, unit, 0x06, addr as u16, val);
            assert(f.subrange(6, 12) =~= pdu.subrange(0, 6));
        },
        Request::WriteRegisters { start, count } => {
            two_word_reply_layout(tid, unit, 0x10, start as u16, count as u16);
            assert(f.subrange(6, 12) =~= pdu.subrange(0, 6));
        },
        Request::WriteCoils { start, count } => {
            two_word_reply_layout(tid, unit, 0x0F, start as u16, count as u16);
            assert(f.subrange(6, 12) =~= pdu.subrange(0, 6));
        },
        Request::WriteCoil { addr, val } => {
            fc05_reply_layout(tid, unit, addr as u16, val);
            if (pdu[4] == 0xFFu8 && pdu[5] == 0u8) || (pdu[4] == 0u8 && pdu[5] == 0u8) {
                assert(f.subrange(6, 12) =~= pdu.subrange(0, 6));
            }
        },
        _ => {},
    }
}

/// A read is answered with the memory it names: for registers, word `i` of
/// the reply data (bytes `9 + 2 * i`, `10 + 2 * i`, big-endian) is register
/// `start + i`; for coils, bit `i % 8` of data byte `i / 8` is coil
/// `start + i`. Bytes 6 and 7 echo the request's unit and function code.
pub proof fn read_replies_carry_memory(d: Seq<u16>, m: Seq<bool>, tid: u16, pdu: Seq<u8>)
    requires
        d.len() == D_SIZE,
        m.len() == M_SIZE,
        pdu.len() >= 2,
    ensures
        request_of(pdu) matches Request::ReadRegisters { start, count } ==> {
            let f = reply_of(d, m, tid, pdu);
            let r = d.subrange(start as int, start + count);
            &&& f.len() == 9 + 2 * count
            &&& f[6] == pdu[0] && f[7] == pdu[1]
            &&& forall|i: int|
                0 <= i < count ==> f[9 + 2 * i] as int * 256 + f[10 + 2 * i] as int
                    == #[trigger] r[i] as int
        },
        request_of(pdu) matches Request::ReadCoils { start, count } ==> {
            let f = reply_of(d, m, tid, pdu);
            let r = m.subrange(start as int, start + count);
            let data = f.subrange(9, f.len() as int);
            &&& f.len() == 9 + (count + 7) / 8
            &&& f[6] == pdu[0] && f[7] == pdu[1]
            &&& forall|i: int|
                0 <= i < count ==> ((data[i / 8] >> ((i % 8) as u8)) & 1u8 == 1u8)
                    == #[trigger] r[i]
        },
{
    let unit = pdu[0];
    match request_of(pdu) {
        Request::ReadRegisters { start, count } => {
            fc03_reply_layout(tid, unit, d.subrange(start as int, start + count));
        },
        Request::ReadCoils { start, count } => {
            fc01_reply_layout(tid, unit, m.subrange(start as int, start + count));
        },
        _ => {},
    }
}

/// Which requests are refused, and with which exception code, read off the
/// raw request bytes (`a` and `b` are the big-endian words at bytes 2..4 and
/// 4..6): another unit gets 0x0B; an unknown function 0x01; a request too
/// short for its function 0x03; an empty or out-of-memory range, an address
/// past the memory, or a byte count larger than the data 0x02. Every refusal
/// is answered with the function code with its high bit set and the code.
pub proof fn refusals_by_request_bytes(d: Seq<u16>, m: Seq<bool>, tid: u16, pdu: Seq<u8>)
    requires
        pdu.len() >= 2,
    ensures
        ({
            let n = pdu.len() - 2;
            let fc = pdu[1];
            let a = pdu[2] as int * 256 + pdu[3] as int;
            let b = pdu[4] as int * 256 + pdu[5] as int;
            let known = fc == 0x01u8 || fc == 0x03u8 || fc == 0x05u8 || fc == 0x06u8 || fc == 0x0Fu8
                || fc == 0x10u8;
            let short = if fc == 0x0Fu8 || fc == 0x10u8 { n < 5 } else { n < 4 };
            let size = if fc == 0x01u8 || fc == 0x05u8 || fc == 0x0Fu8 { M_SIZE as int } else { D_SIZE as int };
            let bad_range = if fc == 0x05u8 || fc == 0x06u8 { a >= size } else { b == 0 || a + b > size };
            let bad_count = (fc == 0x0Fu8 || fc == 0x10u8) && n < 5 + pdu[6] as int;
            let code = if pdu[0] != 0x01u8 {
                0x0Bu8
            } else if !known {
                0x01u8
            } else if short {
                0x03u8
            } else if bad_range || bad_count {
                0x02u8
            } else {
                0u8
            };
            let refused = code != 0u8;
            &&& refused <==> request_of(pdu) is Refused
            &&& refused ==> {
                let f = reply_of(d, m, tid, pdu);
                &&& f.len() == 9
                &&& f[6] == pdu[0]
                &&& f[7] == (pdu[1] | 0x80u8)
                &&& f[8] == code
            }
        }),
{
    if request_of(pdu) is Refused {
        exc_reply_layout(tid, pdu[0], pdu[1], request_of(pdu)->code);
    }
}

} // verus!
