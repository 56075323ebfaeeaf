use xbf_rs::{
    ElementsNotHomogenousError, StructError, XbfError, XbfMetadata, XbfMetadataUpcast,
    XbfPrimitive, XbfPrimitiveMetadata, XbfReader, XbfStruct, XbfStructMetadata, XbfType, XbfVec,
    XbfVecMetadata,
};

fn lp_string(s: &str) -> Vec<u8> {
    let mut out = (s.len() as u64).to_le_bytes().to_vec();
    out.extend_from_slice(s.as_bytes());
    out
}

fn i32_meta() -> XbfMetadata {
    XbfMetadata::Primitive(XbfPrimitiveMetadata::I32)
}

fn i32_value(x: i32) -> XbfType {
    XbfType::Primitive(XbfPrimitive::I32(x))
}

fn dragon_rider_metadata() -> XbfStructMetadata {
    XbfStructMetadata::new(
        "DragonRider".to_string(),
        vec![
            ("name".to_string(), XbfMetadata::Primitive(XbfPrimitiveMetadata::String)),
            ("age".to_string(), XbfMetadata::Primitive(XbfPrimitiveMetadata::U16)),
        ],
    )
    .unwrap()
}

fn dragon_rider() -> XbfStruct {
    XbfStruct::new(
        dragon_rider_metadata(),
        vec![
            XbfType::Primitive(XbfPrimitive::String("Eragon".to_string())),
            XbfType::Primitive(XbfPrimitive::U16(16)),
        ],
    )
    .unwrap()
}

#[test]
fn i32_value_bytes() {
    let mut writer = Vec::new();
    i32_value(42).serialize_base_type(&mut writer);
    assert_eq!(writer, vec![0x2A, 0, 0, 0]);

    let mut reader = XbfReader::new(vec![0x2A, 0, 0, 0]);
    let read = XbfType::deserialize_base_type(&i32_meta(), &mut reader).unwrap();
    assert_eq!(read, i32_value(42));
}

#[test]
fn vector_of_i32_metadata_bytes() {
    let metadata = XbfMetadata::Vec(XbfVecMetadata::new(i32_meta()));
    let mut writer = Vec::new();
    metadata.serialize_base_metadata(&mut writer);
    assert_eq!(writer, vec![0x11, 0x09]);

    let mut reader = XbfReader::new(writer);
    let read = XbfMetadata::deserialize_base_metadata(&mut reader).unwrap();
    assert_eq!(read, metadata);
    assert_eq!(reader.pos, 2);
}

#[test]
fn vector_of_two_i32_value_bytes() {
    let vec = XbfVec::new(XbfVecMetadata::new(i32_meta()), vec![i32_value(42), i32_value(42)])
        .unwrap();
    let mut writer = Vec::new();
    vec.serialize_vec_type(&mut writer);
    assert_eq!(
        writer,
        vec![2, 0, 0, 0, 0, 0, 0, 0, 0x2A, 0, 0, 0, 0x2A, 0, 0, 0]
    );
}

#[test]
fn dragon_rider_bytes() {
    let metadata = dragon_rider_metadata();
    let mut writer = Vec::new();
    metadata.serialize_struct_metadata(&mut writer);
    let mut expected = vec![0x12];
    expected.extend(lp_string("DragonRider"));
    expected.extend([2, 0]);
    expected.extend(lp_string("name"));
    expected.push(0x10);
    expected.extend(lp_string("age"));
    expected.push(0x02);
    assert_eq!(writer, expected);

    let rider = dragon_rider();
    let mut writer = Vec::new();
    rider.serialize_struct_type(&mut writer);
    let mut expected = lp_string("Eragon");
    expected.extend([0x10, 0x00]);
    assert_eq!(writer, expected);

    let mut reader = XbfReader::new(writer);
    let read = XbfStruct::deserialize_struct_type(&metadata, &mut reader).unwrap();
    assert_eq!(read, rider);
}

#[test]
fn empty_vector_value() {
    for inner in [i32_meta(), XbfMetadata::Primitive(XbfPrimitiveMetadata::String)] {
        let metadata = XbfVecMetadata::new(inner);
        let vec = XbfVec::new(metadata.clone(), vec![]).unwrap();
        let mut writer = Vec::new();
        vec.serialize_vec_type(&mut writer);
        assert_eq!(writer, vec![0; 8]);

        let mut reader = XbfReader::new(writer);
        let read = XbfVec::deserialize_vec_type(&metadata, &mut reader).unwrap();
        assert_eq!(read.len(), 0);
        assert_eq!(read, vec);
    }
}

#[test]
fn deserialize_unknown_discriminant_works() {
    let bad_discriminant = 69u8;
    let mut reader = XbfReader::new(vec![bad_discriminant]);
    let err = XbfMetadata::deserialize_base_metadata(&mut reader).unwrap_err();
    assert_eq!(err, XbfError::InvalidDiscriminant(69));
    assert!(err.message().contains("Unknown metadata discriminant 69"));
    assert_eq!(err.message(), format!("Unknown metadata discriminant {bad_discriminant}"));
}

#[test]
fn every_byte_from_nineteen_is_unknown_metadata() {
    for d in 19u8..=255 {
        let mut reader = XbfReader::new(vec![d]);
        assert_eq!(
            XbfMetadata::deserialize_base_metadata(&mut reader),
            Err(XbfError::InvalidDiscriminant(d))
        );
    }
}

#[test]
fn vec_new_fails_with_not_homogenous_data() {
    let data = vec![i32_value(42), XbfType::Primitive(XbfPrimitive::U32(69))];
    let err = XbfVec::new(XbfVecMetadata::new(i32_meta()), data).unwrap_err();
    assert_eq!(err, ElementsNotHomogenousError);

    let ok = XbfVec::new(XbfVecMetadata::new(i32_meta()), vec![i32_value(1), i32_value(2)]);
    assert!(ok.is_ok());
}

#[test]
fn vector_of_vectors_round_trip() {
    let inner_meta = XbfVecMetadata::new(i32_meta());
    let inner = || XbfVec::new(inner_meta.clone(), vec![i32_value(42), i32_value(42)]).unwrap();
    let outer_meta = XbfVecMetadata::new(XbfMetadata::Vec(inner_meta.clone()));
    let outer = XbfVec::new(
        outer_meta.clone(),
        vec![XbfType::Vec(inner()), XbfType::Vec(inner())],
    )
    .unwrap();
    let mut writer = Vec::new();
    outer.serialize_vec_type(&mut writer);
    let mut expected = Vec::new();
    expected.extend(2u64.to_le_bytes());
    for _ in 0..2 {
        expected.extend(2u64.to_le_bytes());
        expected.extend(42i32.to_le_bytes());
        expected.extend(42i32.to_le_bytes());
    }
    assert_eq!(writer, expected);

    let mut reader = XbfReader::new(writer);
    let read = XbfVec::deserialize_vec_type(&outer_meta, &mut reader).unwrap();
    assert_eq!(read, outer);
    assert_eq!(read.get(1), Some(&XbfType::Vec(inner())));
    assert_eq!(read.get(2), None);
}

#[test]
fn struct_metadata_round_trip_nested() {
    let metadata = XbfStructMetadata::new(
        "test".to_string(),
        vec![
            ("a".to_string(), i32_meta()),
            ("b".to_string(), XbfMetadata::Vec(XbfVecMetadata::new(i32_meta()))),
            (
                "c".to_string(),
                XbfMetadata::Struct(
                    XbfStructMetadata::new("inner".to_string(), vec![("d".to_string(), i32_meta())])
                        .unwrap(),
                ),
            ),
        ],
    )
    .unwrap();
    let mut writer = Vec::new();
    metadata.serialize_struct_metadata(&mut writer);

    let mut expected = vec![18];
    expected.extend(lp_string("test"));
    expected.extend(3u16.to_le_bytes());
    expected.extend(lp_string("a"));
    expected.push(9);
    expected.extend(lp_string("b"));
    expected.extend([17, 9]);
    expected.extend(lp_string("c"));
    expected.push(18);
    expected.extend(lp_string("inner"));
    expected.extend(1u16.to_le_bytes());
    expected.extend(lp_string("d"));
    expected.push(9);
    assert_eq!(writer, expected);

    let mut reader = XbfReader::new(writer);
    let read = XbfMetadata::deserialize_base_metadata(&mut reader).unwrap();
    assert_eq!(read, XbfMetadata::Struct(metadata.clone()));
    assert_eq!(metadata.name(), "test");
    assert_eq!(metadata.get_field_type("a"), Some(&i32_meta()));
    assert_eq!(metadata.get_field_type("z"), None);
}

#[test]
fn end_to_end_round_trip() {
    let rider = XbfType::Struct(dragon_rider());
    let mut writer = Vec::new();
    rider.get_metadata().serialize_base_metadata(&mut writer);
    rider.serialize_base_type(&mut writer);

    let total = writer.len();
    let mut reader = XbfReader::new(writer);
    let metadata = XbfMetadata::deserialize_base_metadata(&mut reader).unwrap();
    let value = XbfType::deserialize_base_type(&metadata, &mut reader).unwrap();
    assert_eq!(value, rider);
    assert_eq!(value.get_metadata(), metadata);
    assert_eq!(reader.pos, total);
}

#[test]
fn serialization_is_deterministic() {
    let mut first = Vec::new();
    let mut second = Vec::new();
    dragon_rider().serialize_struct_type(&mut first);
    dragon_rider().serialize_struct_type(&mut second);
    assert_eq!(first, second);
}

#[test]
fn struct_new_reports_each_error() {
    let metadata = XbfStructMetadata::new(
        "test_struct".to_string(),
        vec![
            ("a".to_string(), XbfPrimitiveMetadata::I32.into_base_metadata()),
            ("b".to_string(), XbfPrimitiveMetadata::U64.into_base_metadata()),
        ],
    )
    .unwrap();
    let wrong_type = XbfStruct::new(
        metadata.clone(),
        vec![
            XbfType::Primitive(XbfPrimitive::String("hi".to_string())),
            XbfType::Primitive(XbfPrimitive::U64(69)),
        ],
    );
    match wrong_type {
        Err(StructError::FieldMismatch(e)) => {
            assert_eq!(e.field_name, "a");
            assert_eq!(e.expected_field_type, XbfPrimitiveMetadata::I32.into_base_metadata());
            assert_eq!(e.actual_field_type, XbfPrimitiveMetadata::String.into_base_metadata());
        }
        other => panic!("unexpected {other:?}"),
    }
    let wrong_count = XbfStruct::new(metadata, vec![i32_value(69)]);
    let e = wrong_count.unwrap_err();
    assert_eq!(e.message(), "Provided fields have length: 1, expected: 2");
    match e {
        StructError::DifferentLengths { metadata_len, fields_len } => {
            assert_eq!((metadata_len, fields_len), (2, 1));
        }
        other => panic!("unexpected {other:?}"),
    }
}

#[test]
fn struct_set_keeps_types() {
    let mut rider = dragon_rider();
    let previous = rider.set("age", XbfType::Primitive(XbfPrimitive::U16(17)));
    assert_eq!(previous, Some(XbfType::Primitive(XbfPrimitive::U16(16))));
    assert_eq!(rider.get("age"), Some(&XbfType::Primitive(XbfPrimitive::U16(17))));
    assert_eq!(
        rider.get("age").unwrap().get_metadata(),
        XbfMetadata::Primitive(XbfPrimitiveMetadata::U16)
    );

    let refused = rider.set("age", XbfType::Primitive(XbfPrimitive::U32(17)));
    assert_eq!(refused, None);
    assert_eq!(rider.get("age"), Some(&XbfType::Primitive(XbfPrimitive::U16(17))));

    assert_eq!(rider.set("nope", XbfType::Primitive(XbfPrimitive::U16(1))), None);
    assert_eq!(rider.get("nope"), None);
}

#[test]
fn duplicate_field_names_are_refused() {
    let err = XbfStructMetadata::new(
        "s".to_string(),
        vec![
            ("a".to_string(), i32_meta()),
            ("a".to_string(), XbfMetadata::Primitive(XbfPrimitiveMetadata::U8)),
        ],
    )
    .unwrap_err();
    assert_eq!(err.name, "a");
    assert_eq!(err.first, i32_meta());
    assert_eq!(err.second, XbfMetadata::Primitive(XbfPrimitiveMetadata::U8));

    let mut bytes = vec![18];
    bytes.extend(lp_string("s"));
    bytes.extend(2u16.to_le_bytes());
    bytes.extend(lp_string("a"));
    bytes.push(9);
    bytes.extend(lp_string("a"));
    bytes.push(1);
    let mut reader = XbfReader::new(bytes);
    assert_eq!(
        XbfMetadata::deserialize_base_metadata(&mut reader),
        Err(XbfError::DuplicateFieldName)
    );
}

#[test]
fn truncated_struct_value_is_unexpected_eof() {
    let mut bytes = lp_string("Eragon");
    bytes.push(0x10);
    let mut reader = XbfReader::new(bytes);
    assert_eq!(
        XbfStruct::deserialize_struct_type(&dragon_rider_metadata(), &mut reader),
        Err(XbfError::UnexpectedEof)
    );
}

#[test]
fn unknown_discriminant_message_names_the_byte() {
    assert_eq!(XbfError::InvalidDiscriminant(19).message(), "Unknown metadata discriminant 19");
    assert_eq!(XbfError::InvalidDiscriminant(255).message(), "Unknown metadata discriminant 255");
    assert_eq!(XbfError::InvalidDiscriminant(0).message(), "Unknown metadata discriminant 0");
    let mut reader = XbfReader::new(vec![200, 1, 2]);
    let err = XbfMetadata::deserialize_base_metadata(&mut reader).unwrap_err();
    assert_eq!(err.message(), "Unknown metadata discriminant 200");
    assert_eq!(reader.pos, 1);
}

#[test]
fn legacy_unknown_discriminant_message() {
    let mut reader = xbf_rs::XbfReader::new(vec![0x45]);
    let err = xbf_rs::XdlMetadata::deserialize_base_metadata(&mut reader).unwrap_err();
    assert_eq!(err, XbfError::InvalidDiscriminant(69));
    assert!(err.message().contains("Unknown metadata discriminant 69"));
    assert_eq!(reader.pos, 1);
}
