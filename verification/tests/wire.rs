use ksproto::wire::{append_bytes, u16_from_be_bytes, u16_to_be, u32_from_be_bytes, u32_to_be};

#[test]
fn big_endian_values() {
    assert_eq!(u16_to_be(0x1234), [0x12, 0x34]);
    assert_eq!(u32_to_be(0x0102_0304), [1, 2, 3, 4]);
    assert_eq!(u16_from_be_bytes([0xff, 0x01]), 0xff01);
    assert_eq!(u32_from_be_bytes([0xde, 0xad, 0xbe, 0xef]), 0xdead_beef);
    for x in [0u32, 1, 255, 256, 65535, 0xffff_ffff] {
        assert_eq!(u32_from_be_bytes(u32_to_be(x)), x);
        assert_eq!(u32_to_be(x), x.to_be_bytes());
    }
}

#[test]
fn append_keeps_order() {
    let mut v = vec![1u8];
    append_bytes(&mut v, &[2, 3]);
    append_bytes(&mut v, &[]);
    assert_eq!(v, vec![1, 2, 3]);
}
