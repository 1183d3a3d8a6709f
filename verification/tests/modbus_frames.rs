use sim_server::frames::{mbap, resp_exc, resp_fc01, resp_fc03, resp_fc05, resp_fc06, resp_fc15, resp_fc16};

fn length_field(frame: &[u8]) -> usize {
    u16::from_be_bytes([frame[4], frame[5]]) as usize
}

#[test]
fn test_fc03_mbap_header() {
    let regs = [100u16, 200u16, 300u16];
    let frame = resp_fc03(0x0001, 1, &regs);
    assert_eq!(frame[0], 0x00);
    assert_eq!(frame[1], 0x01);
    assert_eq!(frame[2], 0x00);
    assert_eq!(frame[3], 0x00);
    let length = u16::from_be_bytes([frame[4], frame[5]]);
    assert_eq!(length, 9, "MBAP length: {length}");
    assert_eq!(frame[7], 0x03, "function code must be 0x03");
    assert_eq!(frame[8], 6, "byte count must be 6");
}

#[test]
fn test_fc03_register_values_big_endian() {
    let regs = [0x1234u16, 0xABCDu16];
    let frame = resp_fc03(1, 1, &regs);
    assert_eq!(frame[9], 0x12);
    assert_eq!(frame[10], 0x34, "register 0 low byte");
    assert_eq!(frame[11], 0xAB);
    assert_eq!(frame[12], 0xCD, "register 1 low byte");
}

#[test]
fn test_fc05_coil_on_off() {
    let on = resp_fc05(1, 1, 0, true);
    let off = resp_fc05(1, 1, 0, false);
    assert_eq!(on[10], 0xFF);
    assert_eq!(on[11], 0x00);
    assert_eq!(off[10], 0x00);
    assert_eq!(off[11], 0x00);
}

#[test]
fn test_fc16_ack_addr_count() {
    let frame = resp_fc16(5, 1, 100, 11);
    let addr = u16::from_be_bytes([frame[8], frame[9]]);
    let count = u16::from_be_bytes([frame[10], frame[11]]);
    assert_eq!(addr, 100, "FC16 addr");
    assert_eq!(count, 11, "FC16 count");
}

#[test]
fn test_fc01_bit_packing_lsb_first() {
    let bits = [true, false, true, false, true, false, false, false];
    let frame = resp_fc01(1, 1, &bits);
    assert_eq!(frame[9], 0x15, "LSB-first packing: {:02X}", frame[9]);
}

#[test]
fn mbap_header_bytes() {
    assert_eq!(mbap(0xBEEF, 0x07, 5), vec![0xBE, 0xEF, 0x00, 0x00, 0x00, 0x06, 0x07]);
    assert_eq!(mbap(0, 0, 0xFFFE), vec![0, 0, 0, 0, 0xFF, 0xFF, 0]);
}

#[test]
fn fc03_full_frame() {
    let frame = resp_fc03(0x0102, 1, &[0x0A0B]);
    assert_eq!(frame, vec![0x01, 0x02, 0, 0, 0, 5, 1, 0x03, 2, 0x0A, 0x0B]);
}

#[test]
fn fc03_empty_register_list() {
    let frame = resp_fc03(3, 1, &[]);
    assert_eq!(frame, vec![0, 3, 0, 0, 0, 3, 1, 0x03, 0]);
}

#[test]
fn fc03_length_field_counts_every_register() {
    let regs = vec![0x1111u16; 128];
    let frame = resp_fc03(1, 1, &regs);
    assert_eq!(frame.len(), 9 + 256);
    assert_eq!(frame[8], 0, "the one-byte count of 256 bytes keeps its low eight bits");
    assert_eq!(length_field(&frame), 3 + 256);
    assert_eq!(length_field(&frame), frame.len() - 6);
    let regs = vec![7u16; 1000];
    let frame = resp_fc03(1, 1, &regs);
    assert_eq!(length_field(&frame), 2003);
    assert_eq!(length_field(&frame), frame.len() - 6);
    let regs = vec![7u16; 127];
    let frame = resp_fc03(1, 1, &regs);
    assert_eq!(frame[8], 254);
    assert_eq!(length_field(&frame), frame.len() - 6);
}

#[test]
fn fc06_full_frame() {
    let frame = resp_fc06(9, 1, 102, 99);
    assert_eq!(frame, vec![0, 9, 0, 0, 0, 6, 1, 0x06, 0, 102, 0, 99]);
}

#[test]
fn fc15_full_frame() {
    let frame = resp_fc15(0x1234, 1, 0x0203, 17);
    assert_eq!(frame, vec![0x12, 0x34, 0, 0, 0, 6, 1, 0x0F, 2, 3, 0, 17]);
}

#[test]
fn fc01_partial_last_byte_and_length() {
    let bits = [true, true, false, false, false, false, false, false, true, false, true];
    let frame = resp_fc01(4, 1, &bits);
    assert_eq!(frame, vec![0, 4, 0, 0, 0, 5, 1, 0x01, 2, 0x03, 0x05]);
    assert_eq!(length_field(&frame), frame.len() - 6);
    let frame = resp_fc01(4, 1, &[]);
    assert_eq!(frame, vec![0, 4, 0, 0, 0, 3, 1, 0x01, 0]);
}

#[test]
fn fc01_largest_coil_count() {
    let bits = vec![true; 2040];
    let frame = resp_fc01(1, 1, &bits);
    assert_eq!(frame[8], 255);
    assert_eq!(frame.len(), 9 + 255);
    assert!(frame[9..].iter().all(|&b| b == 0xFF));
}

#[test]
fn exception_frame() {
    let frame = resp_exc(0x0A0B, 2, 0x03, 0x0B);
    assert_eq!(frame, vec![0x0A, 0x0B, 0, 0, 0, 3, 2, 0x83, 0x0B]);
    assert_eq!(length_field(&frame), frame.len() - 6);
    let frame = resp_exc(1, 1, 0x81, 0x01);
    assert_eq!(frame[7], 0x81);
}

#[test]
fn write_acks_are_well_framed() {
    for frame in [resp_fc05(1, 1, 2, true), resp_fc06(1, 1, 2, 3), resp_fc15(1, 1, 2, 3), resp_fc16(1, 1, 2, 3)] {
        assert_eq!(frame.len(), 12);
        assert_eq!(length_field(&frame), 6);
        assert_eq!(&frame[2..4], &[0, 0]);
    }
}

#[test]
fn fc01_count_wraps_past_2040_coils() {
    // 2041 coils, all off: the one-byte count wraps to 0 and no byte follows.
    let bits = vec![false; 2041];
    let frame = resp_fc01(1, 1, &bits);
    assert_eq!(frame, vec![0, 1, 0, 0, 0, 3, 1, 0x01, 0]);
}
