use zkpay::digest::digest_eq;
use zkpay::wire::{push_be64, push_bytes, read_be64, read_bytes32};

#[test]
fn be64_is_most_significant_byte_first() {
    let mut out = vec![9u8];
    push_be64(&mut out, 0x0102030405060708);
    assert_eq!(out, vec![9, 1, 2, 3, 4, 5, 6, 7, 8]);
    let mut out = Vec::new();
    push_be64(&mut out, 0);
    push_be64(&mut out, u64::MAX);
    push_be64(&mut out, 0x8000000000000001);
    assert_eq!(
        out,
        vec![
            0, 0, 0, 0, 0, 0, 0, 0, 255, 255, 255, 255, 255, 255, 255, 255, 0x80, 0, 0, 0, 0, 0,
            0, 1
        ]
    );
}

#[test]
fn be64_reads_back() {
    for v in [0u64, 1, 0xff, 0x100, 0xdeadbeef, 0x0102030405060708, u64::MAX] {
        let mut out = vec![7u8, 7];
        push_be64(&mut out, v);
        assert_eq!(read_be64(&out, 2), v);
    }
    assert_eq!(read_be64(&[0, 0, 0, 0, 0, 0, 1, 0], 0), 256);
}

#[test]
fn push_bytes_appends() {
    let mut out = vec![1u8, 2];
    push_bytes(&mut out, &[3, 4, 5]);
    push_bytes(&mut out, &[]);
    assert_eq!(out, vec![1, 2, 3, 4, 5]);
}

#[test]
fn read_bytes32_copies_a_window() {
    let bytes: Vec<u8> = (0..40u8).collect();
    let window = read_bytes32(&bytes, 5);
    let expected: Vec<u8> = (5..37u8).collect();
    assert_eq!(window.to_vec(), expected);
}

#[test]
fn digest_eq_compares_all_bytes() {
    let a = [5u8; 32];
    assert!(digest_eq(&a, &a));
    for i in 0..32 {
        let mut b = a;
        b[i] ^= 1;
        assert!(!digest_eq(&a, &b));
        assert!(!digest_eq(&b, &a));
    }
}
