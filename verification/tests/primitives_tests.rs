use hugetable::primitives::{checked_utf8, checked_varint, DecodePrimitives, EncodePrimitives};

#[test]
pub fn test_bool() {
    let mut v = Vec::new();

    v.encode_bool(true);
    v.encode_bool(false);
    v.encode_bool(true);

    let v = v;
    let mut offs = 0usize;

    assert_eq!(true, v.decode_bool(&mut offs));
    assert_eq!(false, v.decode_bool(&mut offs));
    assert_eq!(true, v.decode_bool(&mut offs));
}

#[test]
pub fn test_utf8() {
    let mut v = Vec::new();

    v.encode_utf8("abc");
    v.encode_utf8("abcäöü-yo");
    v.encode_utf8("");
    v.encode_utf8("hey");

    let v = v;
    let mut offs = 0usize;

    assert_eq!("abc", v.decode_utf8(&mut offs));
    assert_eq!("abcäöü-yo", v.decode_utf8(&mut offs));
    assert_eq!("", v.decode_utf8(&mut offs));
    assert_eq!("hey", v.decode_utf8(&mut offs));
}

#[test]
pub fn test_fixed_u32() {
    let mut v = Vec::new();

    v.encode_fixed_u32(0);
    v.encode_fixed_u32(1);
    v.encode_fixed_u32(127);
    v.encode_fixed_u32(128);
    v.encode_fixed_u32(9988);
    v.encode_fixed_u32(1234567890);

    let v = v;
    let mut offs = 0usize;

    assert_eq!(0, v.decode_fixed_u32(&mut offs));
    assert_eq!(1, v.decode_fixed_u32(&mut offs));
    assert_eq!(127, v.decode_fixed_u32(&mut offs));
    assert_eq!(128, v.decode_fixed_u32(&mut offs));
    assert_eq!(9988, v.decode_fixed_u32(&mut offs));
    assert_eq!(1234567890, v.decode_fixed_u32(&mut offs));
}

#[test]
pub fn test_fixed_u64() {
    let mut v = Vec::new();

    v.encode_fixed_u64(0);
    v.encode_fixed_u64(1);
    v.encode_fixed_u64(127);
    v.encode_fixed_u64(128);
    v.encode_fixed_u64(9988);
    v.encode_fixed_u64(1234567890);
    v.encode_fixed_u64(0x1234565432101234);
    v.encode_fixed_u64(0xffffffffffffffff);

    let v = v;
    let mut offs = 0usize;

    assert_eq!(0, v.decode_fixed_u64(&mut offs));
    assert_eq!(1, v.decode_fixed_u64(&mut offs));
    assert_eq!(127, v.decode_fixed_u64(&mut offs));
    assert_eq!(128, v.decode_fixed_u64(&mut offs));
    assert_eq!(9988, v.decode_fixed_u64(&mut offs));
    assert_eq!(1234567890, v.decode_fixed_u64(&mut offs));
    assert_eq!(0x1234565432101234, v.decode_fixed_u64(&mut offs));
    assert_eq!(0xffffffffffffffff, v.decode_fixed_u64(&mut offs));
}

#[test]
pub fn test_fixed_f32() {
    let mut v = Vec::new();

    v.encode_fixed_u32(0f32.to_bits());
    v.encode_fixed_u32(1f32.to_bits());
    v.encode_fixed_u32((-2.34f32).to_bits());
    v.encode_fixed_u32(987.654e29f32.to_bits());

    let v = v;
    let mut offs = 0usize;

    assert_eq!(0., f32::from_bits(v.decode_fixed_u32(&mut offs)));
    assert_eq!(1., f32::from_bits(v.decode_fixed_u32(&mut offs)));
    assert_eq!(-2.34, f32::from_bits(v.decode_fixed_u32(&mut offs)));
    assert_eq!(987.654e29, f32::from_bits(v.decode_fixed_u32(&mut offs)));
    assert_eq!(&v[4..8], &1f32.to_le_bytes());
}

#[test]
pub fn test_fixed_f64() {
    let mut v = Vec::new();

    v.encode_fixed_u64(0f64.to_bits());
    v.encode_fixed_u64(1f64.to_bits());
    v.encode_fixed_u64((-2.34f64).to_bits());
    v.encode_fixed_u64(987.654e29f64.to_bits());

    let v = v;
    let mut offs = 0usize;

    assert_eq!(0., f64::from_bits(v.decode_fixed_u64(&mut offs)));
    assert_eq!(1., f64::from_bits(v.decode_fixed_u64(&mut offs)));
    assert_eq!(-2.34, f64::from_bits(v.decode_fixed_u64(&mut offs)));
    assert_eq!(987.654e29, f64::from_bits(v.decode_fixed_u64(&mut offs)));
    assert_eq!(&v[16..24], &(-2.34f64).to_le_bytes());
}

#[test]
pub fn test_varint_u32() {
    let mut v = Vec::new();

    v.encode_varint_u32(0);
    v.encode_varint_u32(1);
    v.encode_varint_u32(127);
    v.encode_varint_u32(128);
    v.encode_varint_u32(9988);
    v.encode_varint_u32(1234567890);

    let v = v;
    let mut offs = 0usize;

    assert_eq!(0, v.decode_varint_u32(&mut offs));
    assert_eq!(1, v.decode_varint_u32(&mut offs));
    assert_eq!(127, v.decode_varint_u32(&mut offs));
    assert_eq!(128, v.decode_varint_u32(&mut offs));
    assert_eq!(9988, v.decode_varint_u32(&mut offs));
    assert_eq!(1234567890, v.decode_varint_u32(&mut offs));
}

#[test]
pub fn test_varint_u64() {
    let mut v = Vec::new();

    v.encode_varint_u64(0);
    v.encode_varint_u64(1);
    v.encode_varint_u64(127);
    v.encode_varint_u64(128);
    v.encode_varint_u64(9988);
    v.encode_varint_u64(1234567890);
    v.encode_varint_u64(0x1234565432101234);
    v.encode_varint_u64(0xffffffffffffffff);

    let v = v;
    let mut offs = 0usize;

    assert_eq!(0, v.decode_varint_u64(&mut offs));
    assert_eq!(1, v.decode_varint_u64(&mut offs));
    assert_eq!(127, v.decode_varint_u64(&mut offs));
    assert_eq!(128, v.decode_varint_u64(&mut offs));
    assert_eq!(9988, v.decode_varint_u64(&mut offs));
    assert_eq!(1234567890, v.decode_varint_u64(&mut offs));
    assert_eq!(0x1234565432101234, v.decode_varint_u64(&mut offs));
    assert_eq!(0xffffffffffffffff, v.decode_varint_u64(&mut offs));
}

#[test]
pub fn test_varint_usize() {
    let mut v = Vec::new();

    v.encode_varint_usize(0);
    v.encode_varint_usize(1);
    v.encode_varint_usize(127);
    v.encode_varint_usize(128);
    v.encode_varint_usize(9988);
    v.encode_varint_usize(1234567890);
    v.encode_varint_usize(0x1234565432101234);
    v.encode_varint_usize(0xffffffffffffffff);

    let v = v;
    let mut offs = 0usize;

    assert_eq!(0, v.decode_varint_usize(&mut offs));
    assert_eq!(1, v.decode_varint_usize(&mut offs));
    assert_eq!(127, v.decode_varint_usize(&mut offs));
    assert_eq!(128, v.decode_varint_usize(&mut offs));
    assert_eq!(9988, v.decode_varint_usize(&mut offs));
    assert_eq!(1234567890, v.decode_varint_usize(&mut offs));
    assert_eq!(0x1234565432101234, v.decode_varint_usize(&mut offs));
    assert_eq!(0xffffffffffffffff, v.decode_varint_usize(&mut offs));
}

#[test]
pub fn test_varint_i32() {
    let mut v = Vec::new();

    v.encode_varint_i32(0);
    v.encode_varint_i32(1);
    v.encode_varint_i32(-1);
    v.encode_varint_i32(9988);
    v.encode_varint_i32(1234567890);
    v.encode_varint_i32(-1234567890);

    let v = v;
    let mut offs = 0usize;

    assert_eq!(0, v.decode_varint_i32(&mut offs));
    assert_eq!(1, v.decode_varint_i32(&mut offs));
    assert_eq!(-1, v.decode_varint_i32(&mut offs));
    assert_eq!(9988, v.decode_varint_i32(&mut offs));
    assert_eq!(1234567890, v.decode_varint_i32(&mut offs));
    assert_eq!(-1234567890, v.decode_varint_i32(&mut offs));
}

#[test]
pub fn test_varint_i64() {
    let mut v = Vec::new();

    v.encode_varint_i64(0);
    v.encode_varint_i64(1);
    v.encode_varint_i64(-1);
    v.encode_varint_i64(9988);
    v.encode_varint_i64(1234567890);
    v.encode_varint_i64(-1234567890);
    v.encode_varint_i64(0x7fffffffffffffff);
    v.encode_varint_i64(-0x7fffffffffffffff);

    let v = v;
    let mut offs = 0usize;

    assert_eq!(0, v.decode_varint_i64(&mut offs));
    assert_eq!(1, v.decode_varint_i64(&mut offs));
    assert_eq!(-1, v.decode_varint_i64(&mut offs));
    assert_eq!(9988, v.decode_varint_i64(&mut offs));
    assert_eq!(1234567890, v.decode_varint_i64(&mut offs));
    assert_eq!(-1234567890, v.decode_varint_i64(&mut offs));
    assert_eq!(0x7fffffffffffffff, v.decode_varint_i64(&mut offs));
    assert_eq!(-0x7fffffffffffffff, v.decode_varint_i64(&mut offs));
}

#[test]
pub fn varint_wire_bytes_are_little_endian_groups() {
    let mut v = Vec::new();
    v.encode_varint_u64(300);
    assert_eq!(v, vec![0xac, 0x02]);

    let mut v = Vec::new();
    v.encode_varint_u64(127);
    assert_eq!(v, vec![0x7f]);

    let mut v = Vec::new();
    v.encode_varint_u64(128);
    assert_eq!(v, vec![0x80, 0x01]);

    let mut v = Vec::new();
    v.encode_varint_u64(0xffffffffffffffff);
    assert_eq!(v, vec![0xff, 0xff, 0xff, 0xff, 0xff, 0xff, 0xff, 0xff, 0xff, 0x01]);
}

#[test]
pub fn signed_varint_keeps_the_sign_in_the_lowest_bit() {
    let mut v = Vec::new();
    v.encode_varint_i32(3);
    v.encode_varint_i32(-3);
    v.encode_varint_i64(-64);
    v.encode_varint_i64(-1);
    v.encode_varint_i64(0);
    assert_eq!(v, vec![6, 5, 0x7f, 1, 0]);
}

#[test]
pub fn every_signed_integer_has_a_code_of_its_width() {
    let mut v = Vec::new();
    v.encode_varint_i64(i64::MIN);
    v.encode_varint_i64(i64::MAX);
    v.encode_varint_i32(i32::MIN);
    v.encode_varint_i32(i32::MAX);
    assert_eq!(
        v,
        vec![
            0xff, 0xff, 0xff, 0xff, 0xff, 0xff, 0xff, 0xff, 0xff, 0x01, 0xfe, 0xff, 0xff, 0xff,
            0xff, 0xff, 0xff, 0xff, 0xff, 0x01, 0xff, 0xff, 0xff, 0xff, 0x0f, 0xfe, 0xff, 0xff,
            0xff, 0x0f
        ]
    );
    let mut offs = 0usize;
    assert_eq!(v.decode_varint_i64(&mut offs), i64::MIN);
    assert_eq!(v.decode_varint_i64(&mut offs), i64::MAX);
    assert_eq!(v.decode_varint_i32(&mut offs), i32::MIN);
    assert_eq!(v.decode_varint_i32(&mut offs), i32::MAX);
    assert_eq!(offs, v.len());
}

#[test]
pub fn fixed_width_bytes_are_little_endian() {
    let mut v = Vec::new();
    v.encode_fixed_u32(0x01020304);
    v.encode_fixed_u64(0x1122334455667788);
    assert_eq!(
        v,
        vec![4, 3, 2, 1, 0x88, 0x77, 0x66, 0x55, 0x44, 0x33, 0x22, 0x11]
    );
}

#[test]
pub fn utf8_is_length_prefixed() {
    let mut v = Vec::new();
    v.encode_utf8("hé");
    assert_eq!(v, vec![3, b'h', 0xc3, 0xa9]);
}

#[test]
pub fn checked_varint_rejects_what_does_not_fit() {
    // the bytes end before the varint does
    assert_eq!(checked_varint(&[0x80, 0x80], 0, u64::MAX), None);
    // nothing at the offset
    assert_eq!(checked_varint(&[0x01], 1, u64::MAX), None);
    // above the limit
    assert_eq!(checked_varint(&[0x80, 0x01], 0, 127), None);
    assert_eq!(checked_varint(&[0x80, 0x01], 0, 128), Some((128, 2)));
    // one more than 64 bits hold
    assert_eq!(
        checked_varint(&[0xff, 0xff, 0xff, 0xff, 0xff, 0xff, 0xff, 0xff, 0xff, 0x02], 0, u64::MAX),
        None
    );
    // padded with empty groups
    assert_eq!(checked_varint(&[0x85, 0x80, 0x00], 0, u64::MAX), Some((5, 3)));
    // starts in the middle of a buffer
    assert_eq!(checked_varint(&[0xff, 0xac, 0x02, 0x07], 1, u64::MAX), Some((300, 3)));
}

#[test]
pub fn checked_utf8_rejects_what_is_not_text() {
    assert_eq!(checked_utf8(&[2, b'a', b'b', b'c'], 0), Some(("ab", 3)));
    assert_eq!(checked_utf8(&[0], 0), Some(("", 1)));
    // shorter than its prefix says
    assert_eq!(checked_utf8(&[3, b'a', b'b'], 0), None);
    // not valid UTF-8
    assert_eq!(checked_utf8(&[2, 0xc3, 0x28], 0), None);
    // no prefix
    assert_eq!(checked_utf8(&[], 0), None);
}
