use pngme::be::{u32_from_be_bytes, u32_to_be_bytes};

#[test]
fn to_be_bytes_puts_the_high_byte_first() {
    assert_eq!(u32_to_be_bytes(0x0102_0304), [1, 2, 3, 4]);
    assert_eq!(u32_to_be_bytes(0), [0, 0, 0, 0]);
    assert_eq!(u32_to_be_bytes(42), [0, 0, 0, 42]);
    assert_eq!(u32_to_be_bytes(u32::MAX), [255, 255, 255, 255]);
    assert_eq!(u32_to_be_bytes(2882656334), 2882656334u32.to_be_bytes());
}

#[test]
fn from_be_bytes_reads_the_high_byte_first() {
    assert_eq!(u32_from_be_bytes(&[1, 2, 3, 4]), 0x0102_0304);
    assert_eq!(u32_from_be_bytes(&[0, 0, 0, 42]), 42);
    assert_eq!(u32_from_be_bytes(&[255, 255, 255, 255]), u32::MAX);
    assert_eq!(u32_from_be_bytes(&[0, 0, 1, 0, 9, 9]), 256);
}

#[test]
fn be_bytes_agree_with_std() {
    for x in [0u32, 1, 255, 256, 65535, 65536, 0x00FF_FFFF, 0x0100_0000, 0x8000_0000, u32::MAX, 0xDEAD_BEEF] {
        assert_eq!(u32_to_be_bytes(x), x.to_be_bytes());
        assert_eq!(u32_from_be_bytes(&x.to_be_bytes()), x);
        assert_eq!(u32_from_be_bytes(&u32_to_be_bytes(x)), x);
    }
}
