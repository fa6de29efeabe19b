use minimal_bench::payload::{read_u64, DiagnosticPayload};

fn sample() -> DiagnosticPayload {
    DiagnosticPayload::stamped(0x0102_0304_0506_0708, 0x1122_3344, 0xaabb_ccdd, 0xf0e0_d0c0_b0a0_9080)
}

#[test]
fn payload_bytes_are_little_endian_fields_in_order() {
    let expected: [u8; 24] = [
        0x08, 0x07, 0x06, 0x05, 0x04, 0x03, 0x02, 0x01, 0x44, 0x33, 0x22, 0x11, 0xdd, 0xcc, 0xbb,
        0xaa, 0x80, 0x90, 0xa0, 0xb0, 0xc0, 0xd0, 0xe0, 0xf0,
    ];
    assert_eq!(sample().to_bytes(), expected);
    assert_eq!(DiagnosticPayload::SIZE, 24);
}

#[test]
fn payload_agrees_with_the_standard_byte_order_functions() {
    let p = sample();
    let bytes = p.to_bytes();
    assert_eq!(bytes[0..8], p.timestamp_us.to_le_bytes());
    assert_eq!(bytes[8..12], p.producer_id.to_le_bytes());
    assert_eq!(bytes[12..16], p.partition_id.to_le_bytes());
    assert_eq!(bytes[16..24], p.sequence.to_le_bytes());
}

#[test]
fn payload_is_read_back_whatever_follows() {
    let mut bytes = sample().to_bytes().to_vec();
    assert_eq!(DiagnosticPayload::from_bytes(&bytes), Some(sample()));
    bytes.extend_from_slice(&[0xff; 100]);
    assert_eq!(DiagnosticPayload::from_bytes(&bytes), Some(sample()));
    let extreme = DiagnosticPayload::stamped(u64::MAX, u32::MAX, u32::MAX, u64::MAX);
    assert_eq!(DiagnosticPayload::from_bytes(&extreme.to_bytes()), Some(extreme));
}

#[test]
fn payload_bytes_are_written_back_as_they_were_read() {
    let bytes: Vec<u8> = (100..124).collect();
    let p = DiagnosticPayload::from_bytes(&bytes).unwrap();
    assert_eq!(p.to_bytes().to_vec(), bytes);
}

#[test]
fn short_payload_is_refused() {
    for n in 0..24 {
        assert_eq!(DiagnosticPayload::from_bytes(&vec![1u8; n]), None);
    }
    assert!(DiagnosticPayload::from_bytes(&[0u8; 24]).is_some());
}

#[test]
fn new_payload_carries_the_present_time() {
    let before = std::time::SystemTime::now()
        .duration_since(std::time::UNIX_EPOCH)
        .unwrap()
        .as_micros() as u64;
    let p = DiagnosticPayload::new(7, 8, 9);
    assert_eq!((p.producer_id, p.partition_id, p.sequence), (7, 8, 9));
    assert!(p.timestamp_us >= before);
    assert!(p.timestamp_us <= before + 10_000_000);
}

#[test]
fn leading_stamp_is_read() {
    assert_eq!(read_u64(&[1, 2, 0, 0, 0, 0, 0, 0, 9]), 513);
    assert_eq!(read_u64(&[0xff; 8]), u64::MAX);
}
