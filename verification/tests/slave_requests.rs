use sim_server::bytes::{push_u16_be, u16_from_be};
use sim_server::frames::{resp_fc01, resp_fc03};
use sim_server::server::{check_header, decode_request, handle_pdu, HeaderCheck, Request};
use sim_server::state::{initial_coil_presets, initial_registers, State, D_SIZE, M_SIZE};

fn req(fc: u8, a: u16, b: u16) -> Vec<u8> {
    let mut p = vec![0x01, fc];
    p.extend_from_slice(&a.to_be_bytes());
    p.extend_from_slice(&b.to_be_bytes());
    p
}

fn exc_code(frame: &[u8]) -> (u8, u8) {
    (frame[7], frame[8])
}

#[test]
fn initial_memory() {
    let s = State::new();
    assert_eq!(s.reg(0), Some(1234));
    assert_eq!(s.reg(1), Some(0));
    assert_eq!(s.reg(102), Some(99));
    assert_eq!(s.reg(103), Some(0));
    assert_eq!(s.reg(999), Some(0));
    assert_eq!(s.reg(D_SIZE), None);
    assert_eq!(s.coil(0), Some(true));
    assert_eq!(s.coil(1), Some(false));
    assert_eq!(s.coil(M_SIZE), None);
    assert_eq!(initial_registers(), vec![(102, 99), (0, 1234)]);
    assert_eq!(initial_coil_presets(), vec![(0, true)]);
}

#[test]
fn header_checks() {
    match check_header(&[0x12, 0x34, 0, 0, 0, 6]) {
        HeaderCheck::Frame { tid, pdu_len } => {
            assert_eq!(tid, 0x1234);
            assert_eq!(pdu_len, 6);
        }
        _ => panic!("header should be accepted"),
    }
    assert!(matches!(check_header(&[0, 1, 0, 1, 0, 6]), HeaderCheck::WrongProtocol { proto: 1, len: 6 }));
    assert!(matches!(check_header(&[0, 1, 0, 5, 0x01, 0x2C]), HeaderCheck::WrongProtocol { proto: 5, len: 300 }));
    assert!(matches!(check_header(&[0, 1, 0, 0, 0, 1]), HeaderCheck::BadLength { len: 1 }));
    assert!(matches!(check_header(&[0, 1, 0, 0, 1, 5]), HeaderCheck::BadLength { len: 261 }));
    assert!(matches!(check_header(&[0, 1, 0, 0, 1, 4]), HeaderCheck::Frame { pdu_len: 260, .. }));
    assert!(matches!(check_header(&[0, 1, 0, 0, 0, 2]), HeaderCheck::Frame { pdu_len: 2, .. }));
}

#[test]
fn read_initial_registers() {
    let mut s = State::new();
    let r = handle_pdu(&mut s, 7, &req(0x03, 0, 2)).unwrap();
    assert_eq!(r, vec![0, 7, 0, 0, 0, 7, 1, 0x03, 4, 0x04, 0xD2, 0, 0]);
}

#[test]
fn write_register_then_read_back() {
    let mut s = State::new();
    let ack = handle_pdu(&mut s, 1, &req(0x06, 102, 99)).unwrap();
    assert_eq!(ack, vec![0, 1, 0, 0, 0, 6, 1, 0x06, 0, 102, 0, 99]);
    assert_eq!(s.reg(102), Some(99));
    assert_eq!(s.reg(101), Some(0));
    let r = handle_pdu(&mut s, 2, &req(0x03, 102, 1)).unwrap();
    assert_eq!(r, resp_fc03(2, 1, &[99]));
}

#[test]
fn write_registers_then_read_back() {
    let mut s = State::new();
    let mut p = req(0x10, 10, 3);
    p.push(6);
    for v in [0x0102u16, 0xFFFF, 7] {
        p.extend_from_slice(&v.to_be_bytes());
    }
    let ack = handle_pdu(&mut s, 3, &p).unwrap();
    assert_eq!(ack, vec![0, 3, 0, 0, 0, 6, 1, 0x10, 0, 10, 0, 3]);
    let r = handle_pdu(&mut s, 4, &req(0x03, 9, 5)).unwrap();
    assert_eq!(r, resp_fc03(4, 1, &[0, 0x0102, 0xFFFF, 7, 0]));
}

#[test]
fn write_coil_then_read_back() {
    let mut s = State::new();
    let ack = handle_pdu(&mut s, 1, &req(0x05, 3, 0xFF00)).unwrap();
    assert_eq!(ack, vec![0, 1, 0, 0, 0, 6, 1, 0x05, 0, 3, 0xFF, 0x00]);
    assert_eq!(s.coil(3), Some(true));
    // Any value other than 0xFF00 turns the coil off.
    let ack = handle_pdu(&mut s, 1, &req(0x05, 0, 0x1234)).unwrap();
    assert_eq!(&ack[10..], &[0x00, 0x00]);
    assert_eq!(s.coil(0), Some(false));
    let r = handle_pdu(&mut s, 2, &req(0x01, 0, 4)).unwrap();
    assert_eq!(r, resp_fc01(2, 1, &[false, false, false, true]));
    assert_eq!(r[9], 0x08);
}

#[test]
fn write_coils_then_read_back() {
    let mut s = State::new();
    let coils = [true, false, true, true, false, false, true, false, false, true];
    let packed = resp_fc01(0, 1, &coils);
    let mut p = req(0x0F, 20, coils.len() as u16);
    p.push(packed[8]);
    p.extend_from_slice(&packed[9..]);
    let ack = handle_pdu(&mut s, 5, &p).unwrap();
    assert_eq!(ack, vec![0, 5, 0, 0, 0, 6, 1, 0x0F, 0, 20, 0, 10]);
    for (i, &c) in coils.iter().enumerate() {
        assert_eq!(s.coil(20 + i), Some(c));
    }
    assert_eq!(s.coil(19), Some(false));
    assert_eq!(s.coil(30), Some(false));
    let r = handle_pdu(&mut s, 6, &req(0x01, 20, 10)).unwrap();
    assert_eq!(r, resp_fc01(6, 1, &coils));
}

#[test]
fn refused_requests() {
    let mut s = State::new();
    // Another unit: 0x0B, echoing the unit and function code.
    let r = handle_pdu(&mut s, 1, &[0x02, 0x03, 0, 0, 0, 1]).unwrap();
    assert_eq!(r, vec![0, 1, 0, 0, 0, 3, 0x02, 0x83, 0x0B]);
    // Too short: 0x03.
    let r = handle_pdu(&mut s, 1, &[0x01, 0x03, 0, 0, 0]).unwrap();
    assert_eq!(exc_code(&r), (0x83, 0x03));
    let r = handle_pdu(&mut s, 1, &[0x01, 0x10, 0, 0, 0, 1]).unwrap();
    assert_eq!(exc_code(&r), (0x90, 0x03));
    // Out of range: 0x02.
    let r = handle_pdu(&mut s, 1, &req(0x03, 999, 2)).unwrap();
    assert_eq!(exc_code(&r), (0x83, 0x02));
    let r = handle_pdu(&mut s, 1, &req(0x03, 0, 0)).unwrap();
    assert_eq!(exc_code(&r), (0x83, 0x02));
    let r = handle_pdu(&mut s, 1, &req(0x06, 1000, 5)).unwrap();
    assert_eq!(exc_code(&r), (0x86, 0x02));
    let r = handle_pdu(&mut s, 1, &req(0x01, 1000, 1)).unwrap();
    assert_eq!(exc_code(&r), (0x81, 0x02));
    let r = handle_pdu(&mut s, 1, &req(0x05, 1000, 0xFF00)).unwrap();
    assert_eq!(exc_code(&r), (0x85, 0x02));
    // Byte count larger than the data: 0x02.
    let mut p = req(0x10, 0, 1);
    p.extend_from_slice(&[4, 0, 1]);
    let r = handle_pdu(&mut s, 1, &p).unwrap();
    assert_eq!(exc_code(&r), (0x90, 0x02));
    // Unknown function: 0x01.
    let r = handle_pdu(&mut s, 1, &req(0x04, 0, 1)).unwrap();
    assert_eq!(exc_code(&r), (0x84, 0x01));
    // Nothing changed.
    assert_eq!(s.reg(0), Some(1234));
    assert_eq!(s.coil(0), Some(true));
}

#[test]
fn overrun_requests_are_not_carried_out() {
    let mut s = State::new();
    // Three registers announced, byte count 0, one word of data.
    let mut p = req(0x10, 0, 3);
    p.extend_from_slice(&[0, 0xAA, 0xBB]);
    assert!(matches!(decode_request(&p), Request::Overrun));
    assert!(handle_pdu(&mut s, 1, &p).is_none());
    assert_eq!(s.reg(0), Some(1234));
    // Nine coils announced but one data byte.
    let mut p = req(0x0F, 0, 9);
    p.extend_from_slice(&[0, 0xFF]);
    assert!(matches!(decode_request(&p), Request::Overrun));
    assert!(handle_pdu(&mut s, 1, &p).is_none());
    assert_eq!(s.coil(1), Some(false));
}

#[test]
fn decoded_requests() {
    assert!(matches!(decode_request(&req(0x03, 5, 2)), Request::ReadRegisters { start: 5, count: 2 }));
    assert!(matches!(decode_request(&req(0x06, 5, 2)), Request::WriteRegister { addr: 5, val: 2 }));
    assert!(matches!(decode_request(&req(0x01, 998, 2)), Request::ReadCoils { start: 998, count: 2 }));
    assert!(matches!(decode_request(&req(0x05, 5, 0xFF00)), Request::WriteCoil { addr: 5, val: true }));
    assert!(matches!(decode_request(&[0x01, 0x07]), Request::Refused { code: 0x01 }));
}

#[test]
fn status_report_selection() {
    let mut s = State::new();
    assert!(s.status_extra_registers().is_empty());
    assert_eq!(s.status_coils_on(), vec![0]);
    handle_pdu(&mut s, 1, &req(0x06, 101, 5)).unwrap();
    handle_pdu(&mut s, 1, &req(0x06, 2, 1)).unwrap();
    handle_pdu(&mut s, 1, &req(0x06, 0, 0)).unwrap();
    handle_pdu(&mut s, 1, &req(0x06, 50, 3)).unwrap();
    assert_eq!(s.status_extra_registers(), vec![2, 101]);
    // D102 is preset, so it is reported with the presets, not here.
    handle_pdu(&mut s, 1, &req(0x06, 102, 7)).unwrap();
    handle_pdu(&mut s, 1, &req(0x06, 1, 4)).unwrap();
    assert_eq!(s.status_extra_registers(), vec![1, 2, 101]);
    handle_pdu(&mut s, 1, &req(0x05, 15, 0xFF00)).unwrap();
    handle_pdu(&mut s, 1, &req(0x05, 16, 0xFF00)).unwrap();
    assert_eq!(s.status_coils_on(), vec![0, 15]);
}

#[test]
fn big_endian_helpers() {
    let mut f = vec![9u8];
    push_u16_be(&mut f, 0xABCD);
    assert_eq!(f, vec![9, 0xAB, 0xCD]);
    assert_eq!(u16_from_be(0xAB, 0xCD), 0xABCD);
    assert_eq!(u16_from_be(0, 0), 0);
}

#[test]
fn memory_accessors() {
    let mut s = State::new();
    s.write_reg(5, 77);
    s.write_coil(6, true);
    assert_eq!(s.read_regs(4, 3), vec![0, 77, 0]);
    assert_eq!(s.read_coils(5, 3), vec![false, true, false]);
}

#[test]
fn replies_are_well_framed_and_read_back() {
    let mut s = State::new();
    let mut p16 = req(0x10, 0, 1);
    p16.extend_from_slice(&[2, 0x12, 0x34]);
    let mut p15 = req(0x0F, 0, 3);
    p15.extend_from_slice(&[1, 0x05]);
    let requests = vec![
        req(0x03, 0, 127),
        req(0x03, 0, 128),
        req(0x03, 0, 1000),
        req(0x06, 3, 4),
        p16,
        req(0x01, 0, 1000),
        req(0x05, 1, 0xFF00),
        p15,
        req(0x2B, 0, 0),
        vec![0x09, 0x03, 0, 0, 0, 1],
    ];
    for (tid, p) in requests.iter().enumerate() {
        let tid = tid as u16 + 0x0100;
        let r = handle_pdu(&mut s, tid, p).unwrap();
        let len = u16::from_be_bytes([r[4], r[5]]) as usize;
        assert_eq!(len, r.len() - 6);
        assert_eq!(&r[2..4], &[0, 0]);
        assert_eq!(r[6], p[0]);
        let header: [u8; 6] = [r[0], r[1], r[2], r[3], r[4], r[5]];
        match check_header(&header) {
            HeaderCheck::Frame { tid: t, pdu_len } => {
                assert!(len <= 260);
                assert_eq!(t, tid);
                assert_eq!(pdu_len, r.len() - 6);
            }
            // Replies longer than a request may be are not requests.
            HeaderCheck::BadLength { len: l } => assert!(l > 260 && l == len),
            _ => panic!("reply header must read back"),
        }
    }
}
