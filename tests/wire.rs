use rwutil::length_prefixed::encode_len;
use rwutil::wire::{decode_uint, encode_uint, Order, Width};

#[test]
fn encode_uint_places_bytes_by_order() {
    assert_eq!(encode_uint(Width::U32, Order::Big, 0x0102_0304), vec![1, 2, 3, 4]);
    assert_eq!(encode_uint(Width::U32, Order::Little, 0x0102_0304), vec![4, 3, 2, 1]);
    assert_eq!(encode_uint(Width::U16, Order::Big, 0xabcd), vec![0xab, 0xcd]);
    assert_eq!(encode_uint(Width::U8, Order::Little, 0x7f), vec![0x7f]);
    assert_eq!(
        encode_uint(Width::U64, Order::Little, 0x0102_0304_0506_0708),
        vec![8, 7, 6, 5, 4, 3, 2, 1]
    );
}

#[test]
fn decode_uint_reads_the_leading_field() {
    let bytes = [1u8, 2, 3, 4, 5, 6, 7, 8, 9];
    assert_eq!(decode_uint(Width::U16, Order::Big, &bytes), 0x0102);
    assert_eq!(decode_uint(Width::U16, Order::Little, &bytes), 0x0201);
    assert_eq!(decode_uint(Width::U32, Order::Big, &bytes), 0x0102_0304);
    assert_eq!(decode_uint(Width::U64, Order::Big, &bytes), 0x0102_0304_0506_0708);
    assert_eq!(decode_uint(Width::U64, Order::Little, &bytes), 0x0807_0605_0403_0201);
    assert_eq!(decode_uint(Width::U8, Order::Big, &bytes), 1);
}

#[test]
fn encode_len_checks_the_width() {
    assert_eq!(encode_len(Width::U8, Order::Big, 255), Some(vec![255]));
    assert_eq!(encode_len(Width::U8, Order::Big, 256), None);
    assert_eq!(encode_len(Width::U16, Order::Little, 65535), Some(vec![0xff, 0xff]));
    assert_eq!(encode_len(Width::U16, Order::Little, 65536), None);
    assert_eq!(encode_len(Width::U32, Order::Big, 65536), Some(vec![0, 1, 0, 0]));
    assert_eq!(encode_len(Width::U64, Order::Big, 3), Some(vec![0, 0, 0, 0, 0, 0, 0, 3]));
}
