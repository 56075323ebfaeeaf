use xbf_rs::{XbfError, XbfMetadata, XbfPrimitive, XbfPrimitiveMetadata, XbfReader, XbfType};

fn serde_primitive(primitive: XbfPrimitive, kind: XbfPrimitiveMetadata, expected: &[u8]) {
    let mut writer = Vec::new();
    primitive.serialize_primitive_type(&mut writer);
    assert_eq!(writer, expected);

    let mut reader = XbfReader::new(writer);
    let metadata = XbfMetadata::Primitive(kind);
    let deserialized = XbfType::deserialize_base_type(&metadata, &mut reader).unwrap();
    assert_eq!(deserialized, XbfType::Primitive(primitive));
    assert_eq!(reader.pos, expected.len());
}

#[test]
fn bool_works() {
    serde_primitive(XbfPrimitive::Bool(true), XbfPrimitiveMetadata::Bool, &1u8.to_le_bytes());
    serde_primitive(XbfPrimitive::Bool(false), XbfPrimitiveMetadata::Bool, &0u8.to_le_bytes());
}

#[test]
fn unsigned_nums_works() {
    serde_primitive(XbfPrimitive::U8(42u8), XbfPrimitiveMetadata::U8, &42u8.to_le_bytes());
    serde_primitive(XbfPrimitive::U16(420u16), XbfPrimitiveMetadata::U16, &420u16.to_le_bytes());
    serde_primitive(XbfPrimitive::U32(100_000u32), XbfPrimitiveMetadata::U32, &100_000u32.to_le_bytes());
    serde_primitive(XbfPrimitive::U64(100_000_000u64), XbfPrimitiveMetadata::U64, &100_000_000u64.to_le_bytes());
    serde_primitive(XbfPrimitive::U128(18_446_744_073_709_551_617u128), XbfPrimitiveMetadata::U128, &18_446_744_073_709_551_617u128.to_le_bytes());
}

#[test]
fn signed_nums_works() {
    serde_primitive(XbfPrimitive::I8(42i8), XbfPrimitiveMetadata::I8, &42i8.to_le_bytes());
    serde_primitive(XbfPrimitive::I16(420i16), XbfPrimitiveMetadata::I16, &420i16.to_le_bytes());
    serde_primitive(XbfPrimitive::I32(100_000i32), XbfPrimitiveMetadata::I32, &100_000i32.to_le_bytes());
    serde_primitive(XbfPrimitive::I64(100_000_000i64), XbfPrimitiveMetadata::I64, &100_000_000i64.to_le_bytes());
    serde_primitive(XbfPrimitive::I128(18_446_744_073_709_551_617i128), XbfPrimitiveMetadata::I128, &18_446_744_073_709_551_617i128.to_le_bytes());
}

#[test]
fn floating_point_works() {
    serde_primitive(
        XbfPrimitive::F32(69.0f32.to_bits()),
        XbfPrimitiveMetadata::F32,
        &69.0f32.to_le_bytes(),
    );
    serde_primitive(
        XbfPrimitive::F64(69.0f64.to_bits()),
        XbfPrimitiveMetadata::F64,
        &69.0f64.to_le_bytes(),
    );
}

#[test]
fn primitive_test_unsigned_nums_serde_works() {
    serde_primitive(XbfPrimitive::U8(42u8), XbfPrimitiveMetadata::U8, &42u8.to_le_bytes());
    serde_primitive(XbfPrimitive::U16(420u16), XbfPrimitiveMetadata::U16, &420u16.to_le_bytes());
    serde_primitive(XbfPrimitive::U32(100_000u32), XbfPrimitiveMetadata::U32, &100_000u32.to_le_bytes());
    serde_primitive(XbfPrimitive::U64(100_000_000u64), XbfPrimitiveMetadata::U64, &100_000_000u64.to_le_bytes());
    serde_primitive(XbfPrimitive::U128(18_446_744_073_709_551_617u128), XbfPrimitiveMetadata::U128, &18_446_744_073_709_551_617u128.to_le_bytes());
}

#[test]
fn primitive_test_signed_nums_serde_works() {
    serde_primitive(XbfPrimitive::I8(42i8), XbfPrimitiveMetadata::I8, &42i8.to_le_bytes());
    serde_primitive(XbfPrimitive::I16(420i16), XbfPrimitiveMetadata::I16, &420i16.to_le_bytes());
    serde_primitive(XbfPrimitive::I32(100_000i32), XbfPrimitiveMetadata::I32, &100_000i32.to_le_bytes());
    serde_primitive(XbfPrimitive::I64(100_000_000i64), XbfPrimitiveMetadata::I64, &100_000_000i64.to_le_bytes());
    serde_primitive(XbfPrimitive::I128(18_446_744_073_709_551_617i128), XbfPrimitiveMetadata::I128, &18_446_744_073_709_551_617i128.to_le_bytes());
}

#[test]
fn primitive_test_floating_point_serde_works() {
    serde_primitive(
        XbfPrimitive::F32(69.0f32.to_bits()),
        XbfPrimitiveMetadata::F32,
        &69.0f32.to_le_bytes(),
    );
    serde_primitive(
        XbfPrimitive::F64(69.0f64.to_bits()),
        XbfPrimitiveMetadata::F64,
        &69.0f64.to_le_bytes(),
    );
}

#[test]
fn from_native_works() {
    let primitive: XbfPrimitive = true.into();
    assert_eq!(primitive, XbfPrimitive::Bool(true));
    let primitive: XbfPrimitive = false.into();
    assert_eq!(primitive, XbfPrimitive::Bool(false));
    let primitive: XbfPrimitive = 42u8.into();
    assert_eq!(primitive, XbfPrimitive::U8(42));
    let primitive: XbfPrimitive = 42u16.into();
    assert_eq!(primitive, XbfPrimitive::U16(42));
    let primitive: XbfPrimitive = 42u32.into();
    assert_eq!(primitive, XbfPrimitive::U32(42));
    let primitive: XbfPrimitive = 42u64.into();
    assert_eq!(primitive, XbfPrimitive::U64(42));
    let primitive: XbfPrimitive = 42u128.into();
    assert_eq!(primitive, XbfPrimitive::U128(42));
    let primitive: XbfPrimitive = 42i8.into();
    assert_eq!(primitive, XbfPrimitive::I8(42));
    let primitive: XbfPrimitive = 42i16.into();
    assert_eq!(primitive, XbfPrimitive::I16(42));
    let primitive: XbfPrimitive = 42i32.into();
    assert_eq!(primitive, XbfPrimitive::I32(42));
    let primitive: XbfPrimitive = 42i64.into();
    assert_eq!(primitive, XbfPrimitive::I64(42));
    let primitive: XbfPrimitive = 42i128.into();
    assert_eq!(primitive, XbfPrimitive::I128(42));
    assert_eq!(XbfPrimitive::F32(42.0f32.to_bits()), XbfPrimitive::F32(0x4228_0000));
    assert_eq!(XbfPrimitive::F64(42.0f64.to_bits()), XbfPrimitive::F64(0x4045_0000_0000_0000));
    let primitive: XbfPrimitive = vec![1u8, 2, 3, 4].into();
    assert_eq!(primitive, XbfPrimitive::Bytes(vec![1, 2, 3, 4]));
    let primitive: XbfPrimitive = "Hello World".to_string().into();
    assert_eq!(primitive, XbfPrimitive::String("Hello World".to_string()));
}

#[test]
fn primitive_primitive_from_native_works() {
    let primitive: XbfPrimitive = true.into();
    assert_eq!(primitive, XbfPrimitive::Bool(true));
    let primitive: XbfPrimitive = false.into();
    assert_eq!(primitive, XbfPrimitive::Bool(false));
    let primitive: XbfPrimitive = 42u8.into();
    assert_eq!(primitive, XbfPrimitive::U8(42));
    let primitive: XbfPrimitive = 42u16.into();
    assert_eq!(primitive, XbfPrimitive::U16(42));
    let primitive: XbfPrimitive = 42u32.into();
    assert_eq!(primitive, XbfPrimitive::U32(42));
    let primitive: XbfPrimitive = 42u64.into();
    assert_eq!(primitive, XbfPrimitive::U64(42));
    let primitive: XbfPrimitive = 42u128.into();
    assert_eq!(primitive, XbfPrimitive::U128(42));
    let primitive: XbfPrimitive = 42i8.into();
    assert_eq!(primitive, XbfPrimitive::I8(42));
    let primitive: XbfPrimitive = 42i16.into();
    assert_eq!(primitive, XbfPrimitive::I16(42));
    let primitive: XbfPrimitive = 42i32.into();
    assert_eq!(primitive, XbfPrimitive::I32(42));
    let primitive: XbfPrimitive = 42i64.into();
    assert_eq!(primitive, XbfPrimitive::I64(42));
    let primitive: XbfPrimitive = 42i128.into();
    assert_eq!(primitive, XbfPrimitive::I128(42));
    let primitive: XbfPrimitive = "Hello World".to_string().into();
    assert_eq!(primitive, XbfPrimitive::String("Hello World".to_string()));
}

#[test]
fn primitive_primitve_metadata_from_primitive_works() {
    let cases = vec![
        (XbfPrimitive::Bool(true), XbfPrimitiveMetadata::Bool),
        (XbfPrimitive::U8(1), XbfPrimitiveMetadata::U8),
        (XbfPrimitive::U16(1), XbfPrimitiveMetadata::U16),
        (XbfPrimitive::U32(1), XbfPrimitiveMetadata::U32),
        (XbfPrimitive::U64(1), XbfPrimitiveMetadata::U64),
        (XbfPrimitive::U128(1), XbfPrimitiveMetadata::U128),
        (XbfPrimitive::U256([1, 2, 3, 4]), XbfPrimitiveMetadata::U256),
        (XbfPrimitive::I8(1), XbfPrimitiveMetadata::I8),
        (XbfPrimitive::I16(1), XbfPrimitiveMetadata::I16),
        (XbfPrimitive::I32(1), XbfPrimitiveMetadata::I32),
        (XbfPrimitive::I64(1), XbfPrimitiveMetadata::I64),
        (XbfPrimitive::I128(1), XbfPrimitiveMetadata::I128),
        (XbfPrimitive::I256([1, 2, 3, 4]), XbfPrimitiveMetadata::I256),
        (XbfPrimitive::F32(1.0f32.to_bits()), XbfPrimitiveMetadata::F32),
        (XbfPrimitive::F64(1.0f64.to_bits()), XbfPrimitiveMetadata::F64),
        (XbfPrimitive::Bytes(vec![1, 2, 3, 4]), XbfPrimitiveMetadata::Bytes),
        (XbfPrimitive::String("Hello World".to_string()), XbfPrimitiveMetadata::String),
    ];
    for (primitive, kind) in cases {
        assert_eq!(primitive.get_metadata(), kind);
    }
}

fn all_kinds() -> Vec<XbfPrimitiveMetadata> {
    vec![
        XbfPrimitiveMetadata::Bool,
        XbfPrimitiveMetadata::U8,
        XbfPrimitiveMetadata::U16,
        XbfPrimitiveMetadata::U32,
        XbfPrimitiveMetadata::U64,
        XbfPrimitiveMetadata::U128,
        XbfPrimitiveMetadata::U256,
        XbfPrimitiveMetadata::I8,
        XbfPrimitiveMetadata::I16,
        XbfPrimitiveMetadata::I32,
        XbfPrimitiveMetadata::I64,
        XbfPrimitiveMetadata::I128,
        XbfPrimitiveMetadata::I256,
        XbfPrimitiveMetadata::F32,
        XbfPrimitiveMetadata::F64,
        XbfPrimitiveMetadata::Bytes,
        XbfPrimitiveMetadata::String,
    ]
}

#[test]
fn primitive_metadata_metadata_serialize_works() {
    for (expected, kind) in all_kinds().into_iter().enumerate() {
        let mut writer = Vec::new();
        kind.serialize_primitive_metadata(&mut writer);
        assert_eq!(writer, vec![expected as u8]);
    }
}

#[test]
fn primitive_metadata_metadata_deserialize_works() {
    for (discriminant, kind) in all_kinds().into_iter().enumerate() {
        let mut reader = XbfReader::new(vec![discriminant as u8]);
        let metadata = XbfMetadata::deserialize_base_metadata(&mut reader).unwrap();
        assert_eq!(metadata, XbfMetadata::Primitive(kind));
    }
}

#[test]
fn primitive_metadata_metadata_try_from_u8_err_for_unknown_id() {
    let err = XbfPrimitiveMetadata::from_discriminant(16 + 1).unwrap_err();
    assert_eq!(err, XbfError::InvalidPrimitiveMetadata(17));
    assert_eq!(err.message(), "invalid primitive metadata");
    assert_eq!(XbfPrimitiveMetadata::from_discriminant(16), Ok(XbfPrimitiveMetadata::String));
}

#[test]
fn u256_and_i256_are_four_limbs() {
    let limbs = [1u64, 2, 3, 4];
    let expected: Vec<u8> = limbs.iter().flat_map(|x| x.to_le_bytes()).collect();
    serde_primitive(XbfPrimitive::U256(limbs), XbfPrimitiveMetadata::U256, &expected);
    serde_primitive(XbfPrimitive::I256(limbs), XbfPrimitiveMetadata::I256, &expected);
}

#[test]
fn string_and_bytes_have_u64_length() {
    let text = "hello world";
    let mut expected = (text.len() as u64).to_le_bytes().to_vec();
    expected.extend_from_slice(text.as_bytes());
    serde_primitive(XbfPrimitive::String(text.to_string()), XbfPrimitiveMetadata::String, &expected);

    let bytes = vec![1u8, 2, 3, 4];
    let mut expected = 4u64.to_le_bytes().to_vec();
    expected.extend_from_slice(&bytes);
    serde_primitive(XbfPrimitive::Bytes(bytes), XbfPrimitiveMetadata::Bytes, &expected);
}

#[test]
fn bool_reads_any_nonzero_as_true() {
    let mut reader = XbfReader::new(vec![2, 0]);
    let kind = XbfPrimitiveMetadata::Bool;
    assert_eq!(
        XbfPrimitive::deserialize_primitive_type(&kind, &mut reader),
        Ok(XbfPrimitive::Bool(true))
    );
    assert_eq!(
        XbfPrimitive::deserialize_primitive_type(&kind, &mut reader),
        Ok(XbfPrimitive::Bool(false))
    );
}

#[test]
fn short_input_is_unexpected_eof() {
    let mut reader = XbfReader::new(vec![1, 2, 3]);
    let kind = XbfPrimitiveMetadata::U32;
    assert_eq!(
        XbfPrimitive::deserialize_primitive_type(&kind, &mut reader),
        Err(XbfError::UnexpectedEof)
    );
    let mut reader = XbfReader::new(vec![]);
    assert_eq!(
        XbfMetadata::deserialize_base_metadata(&mut reader),
        Err(XbfError::UnexpectedEof)
    );
}

#[test]
fn invalid_utf8_string_is_refused() {
    let mut data = 2u64.to_le_bytes().to_vec();
    data.extend_from_slice(&[0xff, 0xfe]);
    let mut reader = XbfReader::new(data);
    let kind = XbfPrimitiveMetadata::String;
    assert_eq!(
        XbfPrimitive::deserialize_primitive_type(&kind, &mut reader),
        Err(XbfError::InvalidUtf8)
    );
}

#[test]
fn signed_numbers_round_trip_negative_values() {
    serde_primitive(XbfPrimitive::I8(-1), XbfPrimitiveMetadata::I8, &[0xff]);
    serde_primitive(XbfPrimitive::I16(-2), XbfPrimitiveMetadata::I16, &(-2i16).to_le_bytes());
    serde_primitive(XbfPrimitive::I64(i64::MIN), XbfPrimitiveMetadata::I64, &i64::MIN.to_le_bytes());
    serde_primitive(XbfPrimitive::U64(u64::MAX), XbfPrimitiveMetadata::U64, &u64::MAX.to_le_bytes());
}
