use fitparse::values::DataFieldValue;

#[test]
fn sentinels_are_invalid() {
    assert!(!DataFieldValue::Byte(0xFF).is_valid());
    assert!(!DataFieldValue::Enum(0xFF).is_valid());
    assert!(!DataFieldValue::SInt8(0x7F).is_valid());
    assert!(!DataFieldValue::UInt8(0xFF).is_valid());
    assert!(!DataFieldValue::SInt16(0x7FFF).is_valid());
    assert!(!DataFieldValue::UInt16(0xFFFF).is_valid());
    assert!(!DataFieldValue::SInt32(0x7FFFFFFF).is_valid());
    assert!(!DataFieldValue::UInt32(0xFFFFFFFF).is_valid());
    assert!(!DataFieldValue::UInt8z(0).is_valid());
    assert!(!DataFieldValue::UInt16z(0).is_valid());
    assert!(!DataFieldValue::UInt32z(0).is_valid());
    assert!(!DataFieldValue::SInt64(0x7FFFFFFFFFFFFFFF).is_valid());
    assert!(!DataFieldValue::UInt64(0xFFFFFFFFFFFFFFFF).is_valid());
    assert!(!DataFieldValue::UInt64z(0).is_valid());
}

#[test]
fn ordinary_values_are_valid() {
    assert!(DataFieldValue::Byte(0).is_valid());
    assert!(DataFieldValue::Enum(3).is_valid());
    assert!(DataFieldValue::SInt8(-128).is_valid());
    assert!(DataFieldValue::UInt8(254).is_valid());
    assert!(DataFieldValue::SInt16(-1).is_valid());
    assert!(DataFieldValue::UInt16(0).is_valid());
    assert!(DataFieldValue::SInt32(42).is_valid());
    assert!(DataFieldValue::UInt32(7).is_valid());
    assert!(DataFieldValue::UInt8z(1).is_valid());
    assert!(DataFieldValue::UInt16z(0xFFFF).is_valid());
    assert!(DataFieldValue::UInt32z(0xFFFFFFFF).is_valid());
    assert!(DataFieldValue::SInt64(-5).is_valid());
    assert!(DataFieldValue::UInt64(5).is_valid());
    assert!(DataFieldValue::UInt64z(1).is_valid());
    assert!(DataFieldValue::Timestamp(0).is_valid());
    assert!(DataFieldValue::Timestamp(-1).is_valid());
}

#[test]
fn float_validity_is_finiteness() {
    assert!(DataFieldValue::Float32(1.5f32.to_bits()).is_valid());
    assert!(!DataFieldValue::Float32(f32::INFINITY.to_bits()).is_valid());
    assert!(!DataFieldValue::Float32(f32::NAN.to_bits()).is_valid());
    assert!(DataFieldValue::Float64(2.25f64.to_bits()).is_valid());
    assert!(!DataFieldValue::Float64(f64::NEG_INFINITY.to_bits()).is_valid());
    assert!(!DataFieldValue::Float64(f64::NAN.to_bits()).is_valid());
}

#[test]
fn string_validity_rejects_embedded_null() {
    assert!(DataFieldValue::String(String::from("hello")).is_valid());
    assert!(DataFieldValue::String(String::new()).is_valid());
    assert!(!DataFieldValue::String(String::from("he\0llo")).is_valid());
}

#[test]
fn array_validity() {
    assert!(!DataFieldValue::Array(vec![]).is_valid());
    assert!(DataFieldValue::Array(vec![
        DataFieldValue::UInt8(1),
        DataFieldValue::UInt8(2)
    ])
    .is_valid());
    assert!(!DataFieldValue::Array(vec![
        DataFieldValue::UInt8(1),
        DataFieldValue::UInt8(0xFF)
    ])
    .is_valid());
}

#[test]
fn as_i64_coercions() {
    assert_eq!(DataFieldValue::Byte(7).as_i64(), Some(7));
    assert_eq!(DataFieldValue::Enum(3).as_i64(), Some(3));
    assert_eq!(DataFieldValue::SInt8(-2).as_i64(), Some(-2));
    assert_eq!(DataFieldValue::UInt16(0xFFFF).as_i64(), Some(65535));
    assert_eq!(DataFieldValue::SInt32(-40).as_i64(), Some(-40));
    assert_eq!(DataFieldValue::Timestamp(123456789).as_i64(), Some(123456789));
    assert_eq!(DataFieldValue::SInt64(-9).as_i64(), Some(-9));
    assert_eq!(
        DataFieldValue::UInt64(0xFFFFFFFFFFFFFFFF).as_i64(),
        Some(-1)
    );
    assert_eq!(DataFieldValue::UInt64(5).as_i64(), Some(5));
    assert_eq!(DataFieldValue::String(String::from("x")).as_i64(), None);
    assert_eq!(DataFieldValue::Array(vec![]).as_i64(), None);
}

#[test]
fn to_bytes_little_endian_integers() {
    assert_eq!(DataFieldValue::UInt8(0xAB).to_bytes(), vec![0xAB]);
    assert_eq!(DataFieldValue::UInt16(0x1234).to_bytes(), vec![0x34, 0x12]);
    assert_eq!(
        DataFieldValue::UInt32(0xDEADBEEF).to_bytes(),
        vec![0xEF, 0xBE, 0xAD, 0xDE]
    );
    assert_eq!(
        DataFieldValue::UInt64(0x0102030405060708).to_bytes(),
        vec![0x08, 0x07, 0x06, 0x05, 0x04, 0x03, 0x02, 0x01]
    );
    assert_eq!(DataFieldValue::SInt16(-2).to_bytes(), vec![0xFE, 0xFF]);
    assert_eq!(DataFieldValue::SInt8(-1).to_bytes(), vec![0xFF]);
}

#[test]
fn to_bytes_round_trips() {
    let v = 0x7B2Cu16;
    let b = DataFieldValue::UInt16(v).to_bytes();
    assert_eq!(u16::from_le_bytes([b[0], b[1]]), v);

    let s: i32 = -123456;
    let b = DataFieldValue::SInt32(s).to_bytes();
    assert_eq!(i32::from_le_bytes([b[0], b[1], b[2], b[3]]), s);

    let u: u64 = 0xFEDCBA9876543210;
    let b = DataFieldValue::UInt64(u).to_bytes();
    assert_eq!(
        u64::from_le_bytes([b[0], b[1], b[2], b[3], b[4], b[5], b[6], b[7]]),
        u
    );

    let t: i64 = -1_000_000_007;
    let b = DataFieldValue::Timestamp(t).to_bytes();
    assert_eq!(
        i64::from_le_bytes([b[0], b[1], b[2], b[3], b[4], b[5], b[6], b[7]]),
        t
    );
}

#[test]
fn to_bytes_strings_floats_arrays() {
    assert_eq!(
        DataFieldValue::String(String::from("ab")).to_bytes(),
        vec![0x61, 0x62]
    );
    assert_eq!(
        DataFieldValue::Float32(1.0f32.to_bits()).to_bytes(),
        1.0f32.to_le_bytes().to_vec()
    );
    assert_eq!(
        DataFieldValue::Float64((-2.5f64).to_bits()).to_bytes(),
        (-2.5f64).to_le_bytes().to_vec()
    );
    assert_eq!(
        DataFieldValue::Array(vec![
            DataFieldValue::UInt16(0x0102),
            DataFieldValue::UInt8(0x99)
        ])
        .to_bytes(),
        vec![0x02, 0x01, 0x99]
    );
}

#[test]
fn combine_numeric_wraps_at_native_width() {
    assert_eq!(
        DataFieldValue::UInt8(250).combine(DataFieldValue::UInt8(10)),
        Ok(DataFieldValue::UInt8(4))
    );
    assert_eq!(
        DataFieldValue::Byte(1).combine(DataFieldValue::SInt16(2)),
        Ok(DataFieldValue::Byte(3))
    );
    assert_eq!(
        DataFieldValue::SInt8(120).combine(DataFieldValue::UInt8(10)),
        Ok(DataFieldValue::SInt8(-126))
    );
    assert_eq!(
        DataFieldValue::UInt16(1).combine(DataFieldValue::SInt32(-2)),
        Ok(DataFieldValue::UInt16(0xFFFF))
    );
    assert_eq!(
        DataFieldValue::SInt64(5).combine(DataFieldValue::Timestamp(10)),
        Ok(DataFieldValue::SInt64(15))
    );
}

#[test]
fn combine_strings_concatenate() {
    assert_eq!(
        DataFieldValue::String(String::from("foo"))
            .combine(DataFieldValue::String(String::from("bar"))),
        Ok(DataFieldValue::String(String::from("foobar")))
    );
    assert!(DataFieldValue::String(String::from("foo"))
        .combine(DataFieldValue::UInt8(1))
        .is_err());
    assert!(DataFieldValue::UInt8(1)
        .combine(DataFieldValue::String(String::from("foo")))
        .is_err());
}

#[test]
fn combine_timestamp_fails() {
    assert!(DataFieldValue::Timestamp(7)
        .combine(DataFieldValue::UInt8(1))
        .is_err());
    assert!(DataFieldValue::Timestamp(7)
        .combine(DataFieldValue::Timestamp(9))
        .is_err());
    assert!(DataFieldValue::Timestamp(7)
        .combine(DataFieldValue::String(String::from("x")))
        .is_err());
    assert!(DataFieldValue::Timestamp(7)
        .combine(DataFieldValue::Array(vec![DataFieldValue::UInt8(1)]))
        .is_err());
}

#[test]
fn combine_arrays_elementwise_with_carry_through() {
    let a = DataFieldValue::Array(vec![
        DataFieldValue::UInt8(1),
        DataFieldValue::UInt8(2),
        DataFieldValue::UInt8(3),
    ]);
    let b = DataFieldValue::Array(vec![
        DataFieldValue::UInt8(10),
        DataFieldValue::UInt8(20),
    ]);
    assert_eq!(
        a.combine(b),
        Ok(DataFieldValue::Array(vec![
            DataFieldValue::UInt8(11),
            DataFieldValue::UInt8(22),
            DataFieldValue::UInt8(3),
        ]))
    );
}

#[test]
fn combine_array_with_scalar_broadcasts() {
    let a = DataFieldValue::Array(vec![
        DataFieldValue::UInt16(1),
        DataFieldValue::UInt16(2),
    ]);
    assert_eq!(
        a.combine(DataFieldValue::UInt8(5)),
        Ok(DataFieldValue::Array(vec![
            DataFieldValue::UInt16(6),
            DataFieldValue::UInt16(7),
        ]))
    );
    let bad = DataFieldValue::Array(vec![DataFieldValue::Timestamp(1)]);
    assert!(bad.combine(DataFieldValue::UInt8(5)).is_err());
}

#[test]
fn combine_equal_length_arrays_take_right_operand_variants() {
    let a = DataFieldValue::Array(vec![DataFieldValue::UInt8(1)]);
    let b = DataFieldValue::Array(vec![DataFieldValue::UInt16(2)]);
    assert_eq!(
        a.combine(b),
        Ok(DataFieldValue::Array(vec![DataFieldValue::UInt16(3)]))
    );
}

#[test]
fn clone_preserves_values() {
    let v = DataFieldValue::Array(vec![
        DataFieldValue::String(String::from("s")),
        DataFieldValue::UInt32(9),
    ]);
    assert_eq!(v.clone(), v);
}

#[test]
fn combine_assign_updates_in_place() {
    let mut v = DataFieldValue::UInt8(250);
    v.combine_assign(DataFieldValue::UInt8(10));
    assert_eq!(v, DataFieldValue::UInt8(4));

    let mut s = DataFieldValue::String(String::from("a"));
    s.combine_assign(DataFieldValue::String(String::from("b")));
    assert_eq!(s, DataFieldValue::String(String::from("ab")));
}

#[test]
fn as_i64_truncates_float_payloads() {
    assert_eq!(
        DataFieldValue::Float64(2.9f64.to_bits()).as_i64(),
        Some(2)
    );
    assert_eq!(
        DataFieldValue::Float64((-2.9f64).to_bits()).as_i64(),
        Some(-2)
    );
    assert_eq!(
        DataFieldValue::Float64(0.5f64.to_bits()).as_i64(),
        Some(0)
    );
    assert_eq!(
        DataFieldValue::Float64(f64::NAN.to_bits()).as_i64(),
        Some(0)
    );
    assert_eq!(
        DataFieldValue::Float64(f64::INFINITY.to_bits()).as_i64(),
        Some(i64::MAX)
    );
    assert_eq!(
        DataFieldValue::Float64(f64::NEG_INFINITY.to_bits()).as_i64(),
        Some(i64::MIN)
    );
    assert_eq!(
        DataFieldValue::Float64(1e300f64.to_bits()).as_i64(),
        Some(i64::MAX)
    );
    assert_eq!(
        DataFieldValue::Float64(f64::from_bits(1).to_bits()).as_i64(),
        Some(0)
    );
    assert_eq!(
        DataFieldValue::Float64(1234567890123.75f64.to_bits()).as_i64(),
        Some(1234567890123)
    );
    assert_eq!(
        DataFieldValue::Float32(3.5f32.to_bits()).as_i64(),
        Some(3)
    );
    assert_eq!(
        DataFieldValue::Float32((-128.25f32).to_bits()).as_i64(),
        Some(-128)
    );
    assert_eq!(
        DataFieldValue::Float32(f32::NAN.to_bits()).as_i64(),
        Some(0)
    );
    assert_eq!(
        DataFieldValue::Float32((-1e30f32).to_bits()).as_i64(),
        Some(i64::MIN)
    );
    assert_eq!(
        DataFieldValue::Float32((-9223372036854775808.0f32).to_bits()).as_i64(),
        Some(i64::MIN)
    );
    assert_eq!(
        DataFieldValue::Float32(2147483904.0f32.to_bits()).as_i64(),
        Some(2147483904)
    );
}

#[test]
fn combine_coerces_float_right_operands() {
    assert_eq!(
        DataFieldValue::UInt8(1).combine(DataFieldValue::Float64(2.9f64.to_bits())),
        Ok(DataFieldValue::UInt8(3))
    );
    assert_eq!(
        DataFieldValue::SInt16(10).combine(DataFieldValue::Float32((-3.5f32).to_bits())),
        Ok(DataFieldValue::SInt16(7))
    );
    assert!(DataFieldValue::Float64(1.0f64.to_bits())
        .combine(DataFieldValue::UInt8(1))
        .is_err());
}

#[test]
fn combine_with_zero_is_identity_on_integer_scalars() {
    assert_eq!(
        DataFieldValue::UInt8(5).combine(DataFieldValue::UInt8(0)),
        Ok(DataFieldValue::UInt8(5))
    );
    assert_eq!(
        DataFieldValue::SInt8(-5).combine(DataFieldValue::UInt8(0)),
        Ok(DataFieldValue::SInt8(-5))
    );
    assert_eq!(
        DataFieldValue::UInt64(u64::MAX).combine(DataFieldValue::UInt8(0)),
        Ok(DataFieldValue::UInt64(u64::MAX))
    );
    assert_eq!(
        DataFieldValue::SInt64(i64::MIN).combine(DataFieldValue::UInt8(0)),
        Ok(DataFieldValue::SInt64(i64::MIN))
    );
}
