use ralph_os::net::checksum::{
    checksum_accumulate, checksum_add_u16, checksum_add_u32, fold_checksum, internet_checksum,
    tcp_udp_checksum, verify_checksum,
};

#[test]
fn test_simple_checksum() {
    let data = [0x00, 0x01, 0xf2, 0x03, 0xf4, 0xf5, 0xf6, 0xf7];
    let checksum = internet_checksum(&data);
    let mut with_checksum = data.to_vec();
    with_checksum.extend_from_slice(&checksum.to_be_bytes());
    assert!(verify_checksum(&with_checksum));
}

#[test]
fn test_odd_length() {
    let data = [0x45, 0x00, 0x00, 0x73, 0x00];
    let _ = internet_checksum(&data);
}

#[test]
fn checksum_of_known_words() {
    // 0x0001 + 0xf203 + 0xf4f5 + 0xf6f7 = 0x2ddf0, folded 0xddf2
    let data = [0x00, 0x01, 0xf2, 0x03, 0xf4, 0xf5, 0xf6, 0xf7];
    assert_eq!(checksum_accumulate(&data), 0x2ddf0);
    assert_eq!(fold_checksum(0x2ddf0), !0xddf2u16);
    assert_eq!(internet_checksum(&data), 0x220d);
}

#[test]
fn odd_byte_is_high_byte_of_last_word() {
    assert_eq!(checksum_accumulate(&[0x12, 0x34, 0x56]), 0x1234 + 0x5600);
    assert_eq!(checksum_accumulate(&[]), 0);
    assert_eq!(internet_checksum(&[]), 0xFFFF);
}

#[test]
fn fold_is_ones_complement_reduction() {
    assert_eq!(fold_checksum(0), 0xFFFF);
    assert_eq!(fold_checksum(0xFFFF), 0);
    assert_eq!(fold_checksum(0x1_0000), 0xFFFE);
    assert_eq!(fold_checksum(0xFFFF_FFFF), 0);
    assert_eq!(fold_checksum(0x1_FFFF), 0xFFFE);
}

#[test]
fn accumulator_helpers_add_words() {
    assert_eq!(checksum_add_u16(10, 0xFFFF), 10 + 0xFFFF);
    assert_eq!(checksum_add_u32(1, 0x1234_5678), 1 + 0x1234 + 0x5678);
}

#[test]
fn corrupted_data_does_not_verify() {
    let data = [0x00u8, 0x01, 0xf2, 0x03, 0x22, 0x0d + 1];
    assert!(!verify_checksum(&data));
}

#[test]
fn pseudo_header_checksum_verifies_to_zero() {
    let src = [10u8, 0, 2, 15];
    let dst = [10u8, 0, 2, 2];
    let mut seg = vec![0u8; 20];
    seg[12] = 0x50;
    seg[13] = 0x02;
    let c = tcp_udp_checksum(&src, &dst, 6, &seg);
    // pseudo header: 0x0a00 + 0x020f + 0x0a00 + 0x0202 + 6 + 20, segment: 0x5002
    let sum: u32 = 0x0a00 + 0x020f + 0x0a00 + 0x0202 + 6 + 20 + 0x5002;
    assert_eq!(c, !(sum as u16));
    seg[16] = (c >> 8) as u8;
    seg[17] = (c & 0xFF) as u8;
    assert_eq!(tcp_udp_checksum(&src, &dst, 6, &seg), 0);
}
