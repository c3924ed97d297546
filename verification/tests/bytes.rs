use memeland_airdrop::bytes::{bytes32_eq, bytes32_le, u64_le_bytes};

fn filled(b: u8) -> [u8; 32] {
    [b; 32]
}

#[test]
fn equal_strings_are_equal() {
    assert!(bytes32_eq(&filled(0), &filled(0)));
    assert!(bytes32_eq(&filled(0xff), &filled(0xff)));
    let mut a = filled(7);
    a[13] = 99;
    let b = a;
    assert!(bytes32_eq(&a, &b));
}

#[test]
fn one_differing_byte_makes_them_unequal() {
    for i in 0..32 {
        let a = filled(5);
        let mut b = filled(5);
        b[i] ^= 0x01;
        assert!(!bytes32_eq(&a, &b));
        assert!(!bytes32_eq(&b, &a));
    }
}

#[test]
fn order_is_decided_by_the_first_differing_byte() {
    let mut a = filled(0x10);
    let mut b = filled(0x10);
    a[3] = 0x01;
    b[3] = 0x02;
    a[4] = 0xff;
    b[4] = 0x00;
    assert!(bytes32_le(&a, &b));
    assert!(!bytes32_le(&b, &a));
}

#[test]
fn order_is_unsigned() {
    let a = filled(0x7f);
    let b = filled(0x80);
    assert!(bytes32_le(&a, &b));
    assert!(!bytes32_le(&b, &a));
}

#[test]
fn equal_strings_are_in_order() {
    assert!(bytes32_le(&filled(9), &filled(9)));
}

#[test]
fn order_agrees_with_the_order_of_arrays() {
    let mut samples: Vec<[u8; 32]> = Vec::new();
    for k in 0..40u8 {
        let mut s = [0u8; 32];
        for (i, slot) in s.iter_mut().enumerate() {
            *slot = k.wrapping_mul(37).wrapping_add((i as u8).wrapping_mul(k / 3));
        }
        samples.push(s);
    }
    for a in samples.iter() {
        for b in samples.iter() {
            assert_eq!(bytes32_le(a, b), a <= b);
            assert_eq!(bytes32_eq(a, b), a == b);
        }
    }
}

#[test]
fn little_endian_bytes_of_small_numbers() {
    assert_eq!(u64_le_bytes(0), [0, 0, 0, 0, 0, 0, 0, 0]);
    assert_eq!(u64_le_bytes(1), [1, 0, 0, 0, 0, 0, 0, 0]);
    assert_eq!(u64_le_bytes(256), [0, 1, 0, 0, 0, 0, 0, 0]);
    assert_eq!(u64_le_bytes(1000), [0xe8, 0x03, 0, 0, 0, 0, 0, 0]);
}

#[test]
fn little_endian_bytes_of_large_numbers() {
    assert_eq!(u64_le_bytes(u64::MAX), [0xff; 8]);
    assert_eq!(
        u64_le_bytes(0x0102_0304_0506_0708),
        [0x08, 0x07, 0x06, 0x05, 0x04, 0x03, 0x02, 0x01]
    );
    for x in [7u64, 1 << 8, 1 << 32, 1 << 63, 50_000_000_000_000_000, u64::MAX - 1] {
        assert_eq!(u64_le_bytes(x), x.to_le_bytes());
    }
}
