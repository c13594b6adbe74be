use apdec::cipher::{reverse_bit_order, transform, KeyTable};

#[test]
fn reverse_bit_order_involutive_all_bytes() {
    for b in 0..=255u8 {
        assert_eq!(reverse_bit_order(reverse_bit_order(b)), b);
    }
}

#[test]
fn reverse_bit_order_matches_reference() {
    for b in 0..=255u8 {
        assert_eq!(reverse_bit_order(b), b.reverse_bits());
    }
}

#[test]
fn reverse_bit_order_examples() {
    assert_eq!(reverse_bit_order(0x00), 0x00);
    assert_eq!(reverse_bit_order(0xFF), 0xFF);
    assert_eq!(reverse_bit_order(0x01), 0x80);
    assert_eq!(reverse_bit_order(0xA9), 0x95);
}

#[test]
fn transform_example_byte() {
    let key = KeyTable::new(vec![0x01, 0x02, 0x03, 0x04]).unwrap();
    // 0xAA XOR key[2] (= 0x03) gives 0xA9; bit-reversed that is 0x95.
    let (out, next) = transform(0xAA, 2, &key);
    assert_eq!(out, 0x95);
    assert_eq!(next, 3);
}

#[test]
fn transform_cursor_wraps() {
    let key = KeyTable::new(vec![0x10, 0x20]).unwrap();
    let (_, next) = transform(0x00, 1, &key);
    assert_eq!(next, 0);
}

#[test]
fn transform_round_trips_every_byte() {
    let key = KeyTable::new(vec![0x5A]).unwrap();
    for b in 0..=255u8 {
        let encoded = b.reverse_bits() ^ 0x5A;
        let (decoded, _) = transform(encoded, 0, &key);
        assert_eq!(decoded, b);
    }
}

#[test]
fn empty_key_table_rejected() {
    assert!(KeyTable::new(Vec::new()).is_none());
    assert!(KeyTable::new(vec![7]).is_some());
}
