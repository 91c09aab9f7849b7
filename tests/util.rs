use pickle_risc::util::{encode_signed_field, field, sign_extend_field};

#[test]
fn util_test_sign_extend_examples() {
    assert_eq!(sign_extend_field(0b10, 2), -2);
    assert_eq!(sign_extend_field(0b01, 2), 1);
    assert_eq!(sign_extend_field(0xffa1, 2), 1);
    assert_eq!(sign_extend_field(0b1111111, 7), -1);
}

#[test]
fn sign_extension_sets_the_high_bits() {
    assert_eq!(sign_extend_field(0x0040, 7) as u16, 0xffc0);
    assert_eq!(sign_extend_field(0x003f, 7) as u16, 0x003f);
    assert_eq!(sign_extend_field(0x0080, 8), -128);
    assert_eq!(sign_extend_field(0x7fff, 15), -1);
}

#[test]
fn field_masks_low_bits() {
    assert_eq!(field(0xabcd, 8), 0xcd);
    assert_eq!(field(0xabcd, 16), 0xabcd);
    assert_eq!(field(0xabcd, 1), 1);
}

#[test]
fn signed_field_encoding_truncates() {
    assert_eq!(encode_signed_field(-14, 7), 0x72);
    assert_eq!(encode_signed_field(5, 7), 5);
}
