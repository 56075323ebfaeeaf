use xbf_rs::{
    ElementsNotHomogenousError, StructError, StructFieldMismatchError, XbfError, XbfMetadata, XbfMetadataUpcast,
    XbfPrimitive, XbfPrimitiveMetadata, XbfReader, XbfStruct, XbfStructMetadata, XbfType, XbfVec,
    XbfVecMetadata, XdlMetadata, XdlPrimitive, XdlPrimitiveId, XdlPrimitiveMetadata,
    XdlStruct, XdlStructMetadata, XdlType, XdlTypeUpcast, XdlVec, XdlVecMetadata, XbfTypeUpcast,
    NativeToXbfPrimitive, STRUCT_METADATA_DISCRIMINANT,
    VEC_METADATA_DISCRIMINANT,
};

fn write_string(s: &str, out: &mut Vec<u8>) {
    out.extend_from_slice(&(s.len() as u64).to_le_bytes());
    out.extend_from_slice(s.as_bytes());
}

fn write_xdl_string(s: &str, out: &mut Vec<u8>) {
    out.extend_from_slice(&(s.len() as u64).to_le_bytes());
    out.extend_from_slice(s.as_bytes());
}

fn prim(p: XbfPrimitive) -> XbfType {
    XbfType::Primitive(p)
}

fn two_field_metadata() -> XbfStructMetadata {
    XbfStructMetadata::new(
        "test_struct".to_string(),
        vec![
            ("a".to_string(), XbfPrimitiveMetadata::I32.into_base_metadata()),
            ("b".to_string(), XbfPrimitiveMetadata::U64.into_base_metadata()),
        ],
    )
    .unwrap()
}

fn check_struct_new() {
    let with_correct_fields = XbfStruct::new(
        two_field_metadata(),
        vec![prim(XbfPrimitive::I32(42)), prim(XbfPrimitive::U64(69))],
    )
    .expect("a valid struct");
    assert_eq!(with_correct_fields.get("a"), Some(&prim(XbfPrimitive::I32(42))));
    assert_eq!(with_correct_fields.get("b"), Some(&prim(XbfPrimitive::U64(69))));
}

fn check_struct_new_failure() {
    let with_wrong_field1_type = XbfStruct::new(
        two_field_metadata(),
        vec![prim(XbfPrimitive::String("hi".to_string())), prim(XbfPrimitive::U64(69))],
    );
    let expected = StructError::FieldMismatch(StructFieldMismatchError {
        field_name: "a".to_string(),
        expected_field_type: XbfPrimitiveMetadata::I32.into_base_metadata(),
        actual_field_type: XbfPrimitiveMetadata::String.into_base_metadata(),
    });
    let err = with_wrong_field1_type.unwrap_err();
    assert_eq!(err.message(), expected.message());
    assert_eq!(err.message(), "Provided value for field a is of type String, expected I32");

    let wrong_number_of_fields =
        XbfStruct::new(two_field_metadata(), vec![prim(XbfPrimitive::I32(69))]);
    let expected = StructError::DifferentLengths { metadata_len: 2, fields_len: 1 };
    let err = wrong_number_of_fields.unwrap_err();
    assert_eq!(err.message(), expected.message());
    assert_eq!(err.message(), "Provided fields have length: 1, expected: 2");
}

fn check_struct_serde() {
    let primitive_metadata = XbfMetadata::Primitive(XbfPrimitiveMetadata::I32);
    let vec_metadata = XbfMetadata::Vec(XbfVecMetadata::new(XbfPrimitiveMetadata::I32.into_base_metadata()));
    let inner_struct_metadata = XbfStructMetadata::new(
        "test_struct".to_string(),
        vec![("a".to_string(), XbfMetadata::Primitive(XbfPrimitiveMetadata::I32))],
    )
    .unwrap();
    let outer_metadata = XbfStructMetadata::new(
        "test".to_string(),
        vec![
            ("a".to_string(), primitive_metadata),
            ("b".to_string(), vec_metadata),
            ("c".to_string(), inner_struct_metadata.to_base_metadata()),
        ],
    )
    .unwrap();

    let primitive = XbfPrimitive::I32(42);
    let vec = XbfVec::new_unchecked(
        XbfVecMetadata::new(XbfPrimitiveMetadata::I32.into_base_metadata()),
        vec![primitive.to_base_type()],
    );
    let inner_struct = XbfStruct::new(inner_struct_metadata, vec![primitive.to_base_type()])
        .expect("a valid struct");
    let my_struct = XbfStruct::new(
        outer_metadata.clone(),
        vec![
            primitive.clone().into_base_type(),
            vec.clone().into_base_type(),
            inner_struct.clone().into_base_type(),
        ],
    )
    .expect("a valid struct");

    let mut writer = vec![];
    my_struct.serialize_struct_type(&mut writer);

    let mut expected = vec![];
    primitive.serialize_primitive_type(&mut expected);
    vec.serialize_vec_type(&mut expected);
    inner_struct.serialize_struct_type(&mut expected);
    assert_eq!(writer, expected);

    let mut reader = XbfReader::new(writer);
    let deserialized = XbfStruct::deserialize_struct_type(&outer_metadata, &mut reader).unwrap();
    assert_eq!(my_struct, deserialized);
}

fn check_struct_upcast() {
    let metadata = XbfStructMetadata::new(
        "my_struct".to_string(),
        vec![("field1".to_string(), XbfPrimitiveMetadata::I32.into_base_metadata())],
    )
    .unwrap();
    let my_struct =
        XbfStruct::new(metadata, vec![prim(XbfPrimitive::I32(42))]).expect("a valid struct");
    let expected = XbfType::Struct(my_struct.clone());
    assert_eq!(expected, (&my_struct).to_base_type());
    assert_eq!(expected, my_struct.into_base_type());
}

#[test]
fn struct_new_works() {
    check_struct_new();
}

#[test]
fn test_struct_new_works() {
    check_struct_new();
}

#[test]
fn struct_new_failure_works() {
    check_struct_new_failure();
}

#[test]
fn test_struct_new_failure_works() {
    check_struct_new_failure();
}

#[test]
fn struct_serde_works() {
    check_struct_serde();
}

#[test]
fn struct_type_test_struct_serde_works() {
    check_struct_serde();
}

#[test]
fn xbf_struct_upcast_works() {
    check_struct_upcast();
}

#[test]
fn struct_type_upcast_works() {
    check_struct_upcast();
}

#[test]
fn metadata_new_works() {
    let metadata = XbfStructMetadata::new(
        "test".to_string(),
        vec![("a".to_string(), XbfMetadata::Primitive(XbfPrimitiveMetadata::I32))],
    )
    .unwrap();
    assert_eq!(metadata.name(), "test");
    assert_eq!(
        metadata.get_field_type("a"),
        Some(&XbfMetadata::Primitive(XbfPrimitiveMetadata::I32))
    );
}

#[test]
fn struct_metadata_metadata_serde_works() {
    let metadata = XbfStructMetadata::new(
        "test".to_string(),
        vec![
            ("a".to_string(), XbfMetadata::Primitive(XbfPrimitiveMetadata::I32)),
            (
                "b".to_string(),
                XbfMetadata::Vec(XbfVecMetadata::new(XbfPrimitiveMetadata::I32.into_base_metadata())),
            ),
            (
                "c".to_string(),
                XbfMetadata::Struct(
                    XbfStructMetadata::new(
                        "inner".to_string(),
                        vec![("d".to_string(), XbfMetadata::Primitive(XbfPrimitiveMetadata::I32))],
                    )
                    .unwrap(),
                ),
            ),
        ],
    )
    .unwrap();
    let mut writer = Vec::new();
    metadata.serialize_struct_metadata(&mut writer);

    let mut expected = vec![STRUCT_METADATA_DISCRIMINANT];
    write_string("test", &mut expected);
    expected.extend_from_slice(&3u16.to_le_bytes());
    write_string("a", &mut expected);
    expected.push(XbfPrimitiveMetadata::I32 as u8);
    write_string("b", &mut expected);
    expected.push(VEC_METADATA_DISCRIMINANT);
    expected.push(XbfPrimitiveMetadata::I32 as u8);
    write_string("c", &mut expected);
    expected.push(STRUCT_METADATA_DISCRIMINANT);
    write_string("inner", &mut expected);
    expected.extend_from_slice(&1u16.to_le_bytes());
    write_string("d", &mut expected);
    expected.push(XbfPrimitiveMetadata::I32 as u8);
    assert_eq!(expected, writer);

    let mut reader = XbfReader::new(writer);
    let deserialized = XbfMetadata::deserialize_base_metadata(&mut reader).unwrap();
    assert_eq!(XbfMetadata::Struct(metadata), deserialized);

    let i32_metadata = XdlMetadata::Primitive(XdlPrimitiveMetadata(XdlPrimitiveId::I32));
    let legacy = XdlStructMetadata::new(
        "test".to_string(),
        vec![
            ("a".to_string(), XdlMetadata::Primitive(XdlPrimitiveMetadata(XdlPrimitiveId::I32))),
            (
                "b".to_string(),
                XdlMetadata::Vec(XdlVecMetadata::new(XdlMetadata::Primitive(
                    XdlPrimitiveMetadata(XdlPrimitiveId::I32),
                ))),
            ),
            (
                "c".to_string(),
                XdlMetadata::Struct(XdlStructMetadata::new(
                    "inner".to_string(),
                    vec![("d".to_string(), i32_metadata)],
                )),
            ),
        ],
    );
    let mut writer = Vec::new();
    legacy.serialize_struct_metadata(&mut writer);
    let mut expected = vec![18u8];
    write_xdl_string("test", &mut expected);
    expected.extend_from_slice(&3u16.to_le_bytes());
    write_xdl_string("a", &mut expected);
    expected.push(XdlPrimitiveId::I32 as u8);
    write_xdl_string("b", &mut expected);
    expected.push(17);
    expected.push(XdlPrimitiveId::I32 as u8);
    write_xdl_string("c", &mut expected);
    expected.push(18);
    write_xdl_string("inner", &mut expected);
    expected.extend_from_slice(&1u16.to_le_bytes());
    write_xdl_string("d", &mut expected);
    expected.push(XdlPrimitiveId::I32 as u8);
    assert_eq!(expected, writer);

    let mut reader = XbfReader::new(writer);
    let deserialized = XdlMetadata::deserialize_base_metadata(&mut reader).unwrap();
    assert_eq!(XdlMetadata::Struct(legacy), deserialized);
}

#[test]
fn struct_metadata_upcast_works() {
    let struct_metadata = XbfStructMetadata::new(
        "test_struct".to_string(),
        vec![("field1".to_string(), XbfPrimitiveMetadata::I32.into_base_metadata())],
    )
    .unwrap();
    assert_eq!(
        XbfMetadata::Struct(struct_metadata.clone()),
        (&struct_metadata).to_base_metadata()
    );
    assert_eq!(
        XbfMetadata::Struct(struct_metadata.clone()),
        struct_metadata.into_base_metadata()
    );
}

fn i32_vec_metadata() -> XbfVecMetadata {
    XbfVecMetadata::new(XbfPrimitiveMetadata::I32.into_base_metadata())
}

fn check_vec_new_fails() {
    let data = vec![prim(XbfPrimitive::I32(42)), prim(XbfPrimitive::U32(69))];
    let err = XbfVec::new(i32_vec_metadata(), data).unwrap_err();
    assert_eq!(err, ElementsNotHomogenousError);
}

fn check_serialize_vec_primitive() {
    const TEST_NUM: i32 = 42;
    let metadata = i32_vec_metadata();
    let vec = XbfVec::new(metadata.clone(), vec![prim(XbfPrimitive::I32(TEST_NUM))]).unwrap();
    let mut writer = vec![];
    vec.serialize_vec_type(&mut writer);
    let mut expected = vec![];
    expected.extend_from_slice(&1u64.to_le_bytes());
    expected.extend_from_slice(&TEST_NUM.to_le_bytes());
    assert_eq!(writer, expected);
    let mut reader = XbfReader::new(writer);
    let deserialized = XbfVec::deserialize_vec_type(&metadata, &mut reader).unwrap();
    assert_eq!(vec, deserialized);
}

fn vec_of_vec() -> XbfVec {
    const TEST_NUM: i32 = 42;
    let vec_of_two_i32 = XbfVec::new(
        i32_vec_metadata(),
        vec![prim(XbfPrimitive::I32(TEST_NUM)), prim(XbfPrimitive::I32(TEST_NUM))],
    )
    .unwrap();
    XbfVec::new(
        XbfVecMetadata::new(vec_of_two_i32.get_metadata().into_base_metadata()),
        vec![vec_of_two_i32.clone().into_base_type(), vec_of_two_i32.into_base_type()],
    )
    .unwrap()
}

fn vec_of_vec_bytes() -> Vec<u8> {
    const TEST_NUM: i32 = 42;
    let mut expected = vec![];
    expected.extend_from_slice(&2u64.to_le_bytes());
    expected.extend_from_slice(&2u64.to_le_bytes());
    expected.extend_from_slice(&TEST_NUM.to_le_bytes());
    expected.extend_from_slice(&TEST_NUM.to_le_bytes());
    expected.extend_from_slice(&2u64.to_le_bytes());
    expected.extend_from_slice(&TEST_NUM.to_le_bytes());
    expected.extend_from_slice(&TEST_NUM.to_le_bytes());
    expected
}

fn check_serialize_vec_of_vec() {
    let mut writer = vec![];
    vec_of_vec().serialize_vec_type(&mut writer);
    assert_eq!(writer, vec_of_vec_bytes());
}

fn check_deserialize_vec_primitive() {
    const TEST_NUM: i32 = 42;
    let mut data = vec![];
    data.extend_from_slice(&1u64.to_le_bytes());
    data.extend_from_slice(&TEST_NUM.to_le_bytes());
    let mut reader = XbfReader::new(data);
    let metadata = i32_vec_metadata();
    let expected = XbfVec::new(metadata.clone(), vec![prim(XbfPrimitive::I32(TEST_NUM))]).unwrap();
    let vec = XbfType::deserialize_base_type(&metadata.into_base_metadata(), &mut reader).unwrap();
    assert_eq!(vec, expected.into_base_type());
}

fn check_deserialize_vec_of_vec() {
    let mut reader = XbfReader::new(vec_of_vec_bytes());
    let expected = vec_of_vec();
    let metadata = expected.get_metadata().into_base_metadata();
    let vec = XbfType::deserialize_base_type(&metadata, &mut reader).unwrap();
    assert_eq!(vec, expected.into_base_type());
}

fn check_vec_get_metadata() {
    let v = XbfVec::new(
        XbfVecMetadata::new(XbfPrimitiveMetadata::I64.into_base_metadata()),
        vec![prim(XbfPrimitive::I64(1)), prim(XbfPrimitive::I64(2)), prim(XbfPrimitive::I64(4))],
    )
    .unwrap();
    assert_eq!(
        v.get_metadata(),
        XbfVecMetadata::new(XbfPrimitiveMetadata::I64.into_base_metadata())
    );
}

#[test]
fn xbf_vec_vec_new_fails_with_not_homogenous_data() {
    check_vec_new_fails();
}

#[test]
fn vec_vec_new_fails_with_not_homogenous_data() {
    check_vec_new_fails();
}

#[test]
fn xbf_vec_serialize_vec_primitive_works() {
    check_serialize_vec_primitive();
}

#[test]
fn vec_serialize_vec_primitive_works() {
    check_serialize_vec_primitive();
}

#[test]
fn xbf_vec_serialize_vec_of_vec_works() {
    check_serialize_vec_of_vec();
}

#[test]
fn vec_serialize_vec_of_vec_works() {
    check_serialize_vec_of_vec();
}

#[test]
fn xbf_vec_deserialize_vec_primitive_works() {
    check_deserialize_vec_primitive();
}

#[test]
fn vec_deserialize_vec_primitive_works() {
    check_deserialize_vec_primitive();
}

#[test]
fn xbf_vec_deserialize_vec_of_vec_works() {
    check_deserialize_vec_of_vec();
}

#[test]
fn vec_deserialize_vec_of_vec_works() {
    check_deserialize_vec_of_vec();
}

#[test]
fn xbf_vec_get_metdata_works() {
    check_vec_get_metadata();
}

#[test]
fn vec_get_metdata_works() {
    check_vec_get_metadata();
}

#[test]
fn get_works() {
    let x = XbfVec::new(
        i32_vec_metadata(),
        vec![prim(XbfPrimitive::I32(1)), prim(XbfPrimitive::I32(2)), prim(XbfPrimitive::I32(4))],
    )
    .unwrap();
    assert_eq!(x.get(0), Some(&prim(XbfPrimitive::I32(1))));
    assert_eq!(x.get(3), None);
}

#[test]
fn xbf_vec_upcast_works() {
    let vec = XbfVec::new(i32_vec_metadata(), vec![prim(XbfPrimitive::I32(42))]).unwrap();
    let expected = XbfType::Vec(vec.clone());
    assert_eq!(expected, (&vec).to_base_type());
    assert_eq!(expected, vec.into_base_type());
}

#[test]
fn vec_metadata_primitive_metadata_serde_works() {
    let vec_i32_metadata = XbfVecMetadata::new(XbfMetadata::Primitive(XbfPrimitiveMetadata::I32));
    let vec_string_metadata =
        XbfVecMetadata::new(XbfMetadata::Primitive(XbfPrimitiveMetadata::String));
    let mut writer = vec![];
    vec_i32_metadata.serialize_vec_metadata(&mut writer);
    vec_string_metadata.serialize_vec_metadata(&mut writer);
    assert_eq!(
        writer,
        vec![
            VEC_METADATA_DISCRIMINANT,
            XbfPrimitiveMetadata::I32 as u8,
            VEC_METADATA_DISCRIMINANT,
            XbfPrimitiveMetadata::String as u8
        ]
    );
    let mut reader = XbfReader::new(writer);
    let first = XbfMetadata::deserialize_base_metadata(&mut reader).unwrap();
    let second = XbfMetadata::deserialize_base_metadata(&mut reader).unwrap();
    assert_eq!(first, XbfMetadata::Vec(vec_i32_metadata));
    assert_eq!(second, XbfMetadata::Vec(vec_string_metadata));

    let legacy_i32 = XdlVecMetadata::new(XdlMetadata::Primitive(XdlPrimitiveMetadata(XdlPrimitiveId::I32)));
    let legacy_string = XdlVecMetadata::from_boxed_type(Box::new(XdlMetadata::Primitive(
        XdlPrimitiveMetadata(XdlPrimitiveId::String),
    )));
    let mut writer = vec![];
    legacy_i32.serialize_vec_metadata(&mut writer);
    legacy_string.serialize_vec_metadata(&mut writer);
    assert_eq!(
        writer,
        vec![17, XdlPrimitiveId::I32 as u8, 17, XdlPrimitiveId::String.discriminant()]
    );
    let mut reader = XbfReader::new(writer);
    let first = XdlMetadata::deserialize_base_metadata(&mut reader).unwrap();
    let second = XdlMetadata::deserialize_base_metadata(&mut reader).unwrap();
    assert_eq!(first, XdlMetadata::Vec(legacy_i32));
    assert_eq!(second, XdlMetadata::Vec(legacy_string));
}

#[test]
fn vec_metadata_nested_vec_metadata_serialize_works() {
    let nested = XbfVecMetadata::new(XbfMetadata::Vec(XbfVecMetadata::new(XbfMetadata::Primitive(
        XbfPrimitiveMetadata::I32,
    ))));
    let mut writer = vec![];
    nested.serialize_vec_metadata(&mut writer);
    assert_eq!(
        writer,
        vec![VEC_METADATA_DISCRIMINANT, VEC_METADATA_DISCRIMINANT, XbfPrimitiveMetadata::I32 as u8]
    );
    let mut reader = XbfReader::new(writer);
    let read = XbfMetadata::deserialize_base_metadata(&mut reader).unwrap();
    assert_eq!(read, XbfMetadata::Vec(nested));

    let legacy = XdlVecMetadata::new(XdlMetadata::Vec(XdlVecMetadata::new(XdlMetadata::Primitive(
        XdlPrimitiveMetadata(XdlPrimitiveId::I32),
    ))));
    let mut writer = vec![];
    legacy.serialize_vec_metadata(&mut writer);
    assert_eq!(writer, vec![17, 17, XdlPrimitiveId::I32 as u8]);
    let mut reader = XbfReader::new(writer);
    let read = XdlMetadata::deserialize_base_metadata(&mut reader).unwrap();
    assert_eq!(read, XdlMetadata::Vec(legacy));
}

#[test]
fn basic_serialization() {
    let metadata = XbfStructMetadata::new(
        "DragonRider".to_string(),
        vec![
            ("Name".to_string(), XbfPrimitiveMetadata::String.into_base_metadata()),
            ("Age".to_string(), XbfPrimitiveMetadata::U16.into_base_metadata()),
        ],
    )
    .unwrap();
    let riders: Vec<XbfType> = [("Eragon", 16u16), ("Arya", 103), ("Galbatorix", 133)]
        .into_iter()
        .map(|(name, age)| {
            XbfStruct::new(
                metadata.clone(),
                vec![prim(XbfPrimitive::String(name.to_string())), prim(XbfPrimitive::U16(age))],
            )
            .unwrap()
            .into_base_type()
        })
        .collect();
    let xbf_vec_of_riders =
        XbfVec::new(XbfVecMetadata::new(metadata.to_base_metadata()), riders).unwrap();

    let mut writer = vec![];
    xbf_vec_of_riders.get_metadata().serialize_vec_metadata(&mut writer);
    xbf_vec_of_riders.serialize_vec_type(&mut writer);

    let mut expected = vec![VEC_METADATA_DISCRIMINANT];
    metadata.serialize_struct_metadata(&mut expected);
    expected.extend_from_slice(&(xbf_vec_of_riders.len() as u64).to_le_bytes());
    for i in 0..xbf_vec_of_riders.len() {
        xbf_vec_of_riders.get(i).unwrap().serialize_base_type(&mut expected);
    }
    assert_eq!(writer, expected);
}

#[test]
fn base_type_test_upcast_type() {
    let primitive_type = XbfPrimitive::I32(69);
    let vec_type = XbfVec::new(
        XbfVecMetadata::new(XbfMetadata::Primitive(primitive_type.get_metadata())),
        vec![],
    )
    .unwrap();
    assert_eq!(XbfType::Primitive(primitive_type.clone()), (&primitive_type).to_base_type());
    assert_eq!(XbfType::Primitive(primitive_type.clone()), primitive_type.into_base_type());
    assert_eq!(XbfType::Vec(vec_type.clone()), (&vec_type).to_base_type());
    assert_eq!(XbfType::Vec(vec_type.clone()), vec_type.into_base_type());
}

#[test]
fn primitive_upcast_works() {
    let primitive_type = XbfPrimitive::I32(69);
    assert_eq!(XbfType::Primitive(primitive_type.clone()), (&primitive_type).to_base_type());
    assert_eq!(XbfType::Primitive(primitive_type.clone()), primitive_type.into_base_type());

    let legacy = XdlPrimitive::I32(69);
    assert_eq!(XdlType::Primitive(legacy.clone()), (&legacy).to_base_type());
    assert_eq!(XdlType::Primitive(legacy.clone()), legacy.into_base_type());
}

#[test]
fn xdl_struct_and_vec_upcast_works() {
    let metadata = || {
        XdlStructMetadata::new(
            "my_struct".to_string(),
            vec![("field1".to_string(), XdlMetadata::Primitive(XdlPrimitiveMetadata(XdlPrimitiveId::I32)))],
        )
    };
    let my_struct = XdlStruct::new(metadata(), vec![XdlType::Primitive(XdlPrimitive::I32(42))]);
    let copy = (&my_struct).to_base_type();
    assert_eq!(copy, XdlType::Struct(XdlStruct::new(metadata(), vec![XdlType::Primitive(XdlPrimitive::I32(42))])));
    assert_eq!(copy, my_struct.into_base_type());

    let inner = || XdlMetadata::Primitive(XdlPrimitiveMetadata(XdlPrimitiveId::I32));
    let vec = XdlVec::new(inner(), vec![]).unwrap();
    let copy = (&vec).to_base_type();
    assert_eq!(copy, XdlType::Vec(XdlVec::new(inner(), vec![]).unwrap()));
    assert_eq!(copy, vec.into_base_type());
}

#[test]
fn native_to_xbf_primitive_works() {
    assert_eq!(42i32.to_xbf_primitive(), XbfPrimitive::I32(42));
    assert_eq!(42i32.into_xbf_primitive(), XbfPrimitive::I32(42));
    assert_eq!(true.to_xbf_primitive(), XbfPrimitive::Bool(true));
    assert_eq!(u128::MAX.into_xbf_primitive(), XbfPrimitive::U128(u128::MAX));
    let bytes = vec![1u8, 2, 3];
    assert_eq!(bytes.to_xbf_primitive(), XbfPrimitive::Bytes(vec![1, 2, 3]));
    assert_eq!(bytes.into_xbf_primitive(), XbfPrimitive::Bytes(vec![1, 2, 3]));
    let text = "Hello World".to_string();
    assert_eq!(text.to_xbf_primitive(), XbfPrimitive::String("Hello World".to_string()));
    assert_eq!(text.into_xbf_primitive(), XbfPrimitive::String("Hello World".to_string()));
}

fn serde_primitive(primitive: XbfPrimitive, kind: XbfPrimitiveMetadata, expected: &[u8]) {
    let mut writer = Vec::new();
    primitive.serialize_primitive_type(&mut writer);
    assert_eq!(writer, expected);
    let mut reader = XbfReader::new(writer);
    let read = XbfType::deserialize_base_type(&XbfMetadata::Primitive(kind), &mut reader).unwrap();
    assert_eq!(read, primitive.to_base_type());
}

fn limbs_bytes(limbs: [u64; 4]) -> Vec<u8> {
    limbs.iter().flat_map(|x| x.to_le_bytes()).collect()
}

#[test]
fn u256_works() {
    let limbs = [1u64, 2, 3, 4];
    serde_primitive(XbfPrimitive::U256(limbs), XbfPrimitiveMetadata::U256, &limbs_bytes(limbs));
}

#[test]
fn i256_works() {
    let limbs = [1u64, 2, 3, 4];
    serde_primitive(XbfPrimitive::I256(limbs), XbfPrimitiveMetadata::I256, &limbs_bytes(limbs));
}

#[test]
fn u256_serde_works() {
    let limbs = [u64::MAX, 0, 7, 1];
    serde_primitive(XbfPrimitive::U256(limbs), XbfPrimitiveMetadata::U256, &limbs_bytes(limbs));
}

#[test]
fn i256_serde_works() {
    let limbs = [u64::MAX, u64::MAX, u64::MAX, u64::MAX];
    serde_primitive(XbfPrimitive::I256(limbs), XbfPrimitiveMetadata::I256, &limbs_bytes(limbs));
}

#[test]
fn string_works() {
    let test_string = "hello world".to_string();
    let mut expected = vec![];
    write_string(&test_string, &mut expected);
    serde_primitive(XbfPrimitive::String(test_string), XbfPrimitiveMetadata::String, &expected);
}

#[test]
fn string_serde_works() {
    let test_string = "hello world".to_string();
    let mut expected = vec![];
    write_string(&test_string, &mut expected);
    serde_primitive(XbfPrimitive::String(test_string), XbfPrimitiveMetadata::String, &expected);
}

#[test]
fn bytes_works() {
    let test_bytes = vec![1u8, 2, 3, 4];
    let mut expected = (test_bytes.len() as u64).to_le_bytes().to_vec();
    expected.extend_from_slice(&test_bytes);
    serde_primitive(XbfPrimitive::Bytes(test_bytes), XbfPrimitiveMetadata::Bytes, &expected);
}

#[test]
fn primitive_test_bool_serialize_works() {
    let mut writer = Vec::new();
    XbfPrimitive::Bool(true).serialize_primitive_type(&mut writer);
    XbfPrimitive::Bool(false).serialize_primitive_type(&mut writer);
    assert_eq!(writer, vec![1, 0]);

    let mut writer = Vec::new();
    XdlPrimitive::Bool(true).serialize_without_metadata(&mut writer);
    XdlPrimitive::Bool(false).serialize_without_metadata(&mut writer);
    assert_eq!(writer, vec![1, 0]);
}

#[test]
fn primitive_test_bool_deserialize_works() {
    let metadata = XbfMetadata::Primitive(XbfPrimitiveMetadata::Bool);
    let mut reader = XbfReader::new(vec![1, 0]);
    let true_type = XbfType::deserialize_base_type(&metadata, &mut reader).unwrap();
    assert_eq!(true_type, prim(XbfPrimitive::Bool(true)));
    let false_type = XbfType::deserialize_base_type(&metadata, &mut reader).unwrap();
    assert_eq!(false_type, prim(XbfPrimitive::Bool(false)));

    let legacy = XdlPrimitiveMetadata(XdlPrimitiveId::Bool);
    let mut reader = XbfReader::new(vec![1, 0]);
    assert_eq!(
        XdlPrimitive::deserialize_known_metadata(legacy, &mut reader),
        Ok(XdlPrimitive::Bool(true))
    );
    assert_eq!(
        XdlPrimitive::deserialize_known_metadata(legacy, &mut reader),
        Ok(XdlPrimitive::Bool(false))
    );
    assert_eq!(
        XdlPrimitive::deserialize_known_metadata(legacy, &mut reader),
        Err(XbfError::UnexpectedEof)
    );
}

#[test]
fn bool_serialize_with_metadata_works() {
    let mut writer = Vec::new();
    XdlPrimitive::Bool(true).serialize_with_metadata(&mut writer);
    XdlPrimitive::Bool(false).serialize_with_metadata(&mut writer);
    assert_eq!(writer, vec![XdlPrimitiveId::Bool as u8, 1, 0, 0]);
}

#[test]
fn bool_serialize_without_metadata_works() {
    let mut writer = Vec::new();
    XdlPrimitive::Bool(true).serialize_without_metadata(&mut writer);
    XdlPrimitive::Bool(false).serialize_without_metadata(&mut writer);
    assert_eq!(writer, vec![1, 0]);
}

#[test]
fn bool_serde_works() {
    let mut writer = Vec::new();
    XdlPrimitive::Bool(true).serialize_without_metadata(&mut writer);
    XdlPrimitive::Bool(false).serialize_without_metadata(&mut writer);
    assert_eq!(writer, vec![1, 0]);
    let mut reader = XbfReader::new(writer);
    let legacy = XdlPrimitiveMetadata(XdlPrimitiveId::Bool);
    assert_eq!(XdlPrimitive::deserialize_known_metadata(legacy, &mut reader), Ok(XdlPrimitive::Bool(true)));
    assert_eq!(XdlPrimitive::deserialize_known_metadata(legacy, &mut reader), Ok(XdlPrimitive::Bool(false)));
}

fn xdl_string_bytes(s: &str) -> Vec<u8> {
    let mut out = Vec::new();
    write_xdl_string(s, &mut out);
    out
}

#[test]
fn string_serialize_with_metadata_works() {
    let test_string = "hello world".to_string();
    let mut writer = Vec::new();
    XdlPrimitive::String(test_string.clone()).serialize_with_metadata(&mut writer);
    let mut expected = vec![XdlPrimitiveId::String.discriminant()];
    expected.extend(xdl_string_bytes(&test_string));
    assert_eq!(writer, expected);
}

#[test]
fn string_serialize_without_metadata_works() {
    let test_string = "hello world".to_string();
    let mut writer = Vec::new();
    XdlPrimitive::String(test_string.clone()).serialize_without_metadata(&mut writer);
    assert_eq!(writer, xdl_string_bytes(&test_string));
}

#[test]
fn primitive_string_serialize_works() {
    let test_string = "hello world".to_string();
    let mut writer = Vec::new();
    XdlPrimitive::String(test_string.clone()).serialize_without_metadata(&mut writer);
    assert_eq!(writer, xdl_string_bytes(&test_string));
    let mut reader = XbfReader::new(writer);
    let read = XdlPrimitive::deserialize_known_metadata(
        XdlPrimitiveMetadata(XdlPrimitiveId::String),
        &mut reader,
    );
    assert_eq!(read, Ok(XdlPrimitive::String(test_string)));
}

#[test]
fn primitive_test_string_serialize_works() {
    let test_string = "hello world".to_string();
    let mut writer = Vec::new();
    XdlPrimitive::String(test_string.clone()).serialize_without_metadata(&mut writer);
    assert_eq!(writer, xdl_string_bytes(&test_string));
}

#[test]
fn string_deserialize_works() {
    let test_string = "hello world";
    let mut reader = XbfReader::new(xdl_string_bytes(test_string));
    let read = XdlPrimitive::deserialize_known_metadata(
        XdlPrimitiveMetadata(XdlPrimitiveId::String),
        &mut reader,
    );
    assert_eq!(read, Ok(XdlPrimitive::String(test_string.to_string())));
}

fn xdl_i32() -> XdlMetadata {
    XdlMetadata::Primitive(XdlPrimitiveMetadata(XdlPrimitiveId::I32))
}

fn xdl_i32_value(x: i32) -> XdlType {
    XdlType::Primitive(XdlPrimitive::I32(x))
}

fn xdl_vec_of_two() -> XdlVec {
    XdlVec::new(xdl_i32(), vec![xdl_i32_value(42), xdl_i32_value(42)]).unwrap()
}

#[test]
fn xdl_vec_new_fails_with_not_homogenous_data() {
    let data = vec![xdl_i32_value(42), XdlType::Primitive(XdlPrimitive::U32(69))];
    let err = XdlVec::new(xdl_i32(), data).unwrap_err();
    assert_eq!(err, ElementsNotHomogenousError);
}

#[test]
fn xdl_vec_serde_works() {
    let vec = XdlVec::new(xdl_i32(), vec![xdl_i32_value(42)]).unwrap();
    let mut writer = vec![];
    vec.serialize_vec_type(&mut writer);
    let mut expected = vec![];
    expected.extend_from_slice(&1u64.to_le_bytes());
    expected.extend_from_slice(&42i32.to_le_bytes());
    assert_eq!(writer, expected);

    let mut reader = XbfReader::new(writer);
    let read = XdlVec::deserialize_vec_type(&xdl_i32(), &mut reader).unwrap();
    assert_eq!(read, XdlType::Vec(XdlVec::new(xdl_i32(), vec![xdl_i32_value(42)]).unwrap()));
}

#[test]
fn xdl_vec_of_vec_serde_works() {
    let inner_metadata = XdlMetadata::Vec(XdlVecMetadata::new(xdl_i32()));
    let outer = XdlVec::new_unchecked(
        XdlMetadata::Vec(XdlVecMetadata::new(xdl_i32())),
        vec![XdlType::Vec(xdl_vec_of_two()), XdlType::Vec(xdl_vec_of_two())],
    );
    let mut writer = vec![];
    outer.serialize_vec_type(&mut writer);
    let mut expected = vec![];
    expected.extend_from_slice(&2u64.to_le_bytes());
    for _ in 0..2 {
        expected.extend_from_slice(&2u64.to_le_bytes());
        expected.extend_from_slice(&42i32.to_le_bytes());
        expected.extend_from_slice(&42i32.to_le_bytes());
    }
    assert_eq!(writer, expected);

    let metadata = XdlMetadata::Vec(XdlVecMetadata::new(inner_metadata));
    let mut reader = XbfReader::new(writer);
    let read = XdlType::deserialize_base_type(&metadata, &mut reader).unwrap();
    assert_eq!(read, XdlType::Vec(outer));
    assert_eq!(read.get_metadata(), metadata);
}

#[test]
fn xdl_struct_serde_works() {
    let inner_metadata = XdlStructMetadata::new(
        "test_struct".to_string(),
        vec![("a".to_string(), xdl_i32())],
    );
    let outer_metadata = || {
        XdlStructMetadata::new(
            "test".to_string(),
            vec![
                ("a".to_string(), xdl_i32()),
                ("b".to_string(), XdlMetadata::Vec(XdlVecMetadata::new(xdl_i32()))),
                (
                    "c".to_string(),
                    XdlMetadata::Struct(XdlStructMetadata::new(
                        "test_struct".to_string(),
                        vec![("a".to_string(), xdl_i32())],
                    )),
                ),
            ],
        )
    };
    let vec = XdlVec::new_unchecked(xdl_i32(), vec![xdl_i32_value(42)]);
    let inner_struct = XdlStruct::new(inner_metadata, vec![xdl_i32_value(42)]);
    let my_struct = XdlStruct::new(
        outer_metadata(),
        vec![xdl_i32_value(42), XdlType::Vec(vec), XdlType::Struct(inner_struct)],
    );
    let mut writer = vec![];
    my_struct.serialize_struct_type(&mut writer);
    let mut expected = vec![];
    expected.extend_from_slice(&42i32.to_le_bytes());
    expected.extend_from_slice(&1u64.to_le_bytes());
    expected.extend_from_slice(&42i32.to_le_bytes());
    expected.extend_from_slice(&42i32.to_le_bytes());
    assert_eq!(writer, expected);

    let mut reader = XbfReader::new(writer);
    let read = XdlStruct::deserialize_struct_type(&outer_metadata(), &mut reader).unwrap();
    assert_eq!(read, my_struct);
}

#[test]
fn metadata_text_in_field_mismatch_message() {
    let inner = XbfStructMetadata::new(
        "Point".to_string(),
        vec![
            ("x".to_string(), XbfPrimitiveMetadata::I32.into_base_metadata()),
            ("y".to_string(), XbfMetadata::Vec(XbfVecMetadata::new(XbfPrimitiveMetadata::F64.into_base_metadata()))),
        ],
    )
    .unwrap();
    let e = StructError::FieldMismatch(StructFieldMismatchError {
        field_name: "größe".to_string(),
        expected_field_type: XbfMetadata::Struct(inner),
        actual_field_type: XbfPrimitiveMetadata::Bytes.into_base_metadata(),
    });
    assert_eq!(
        e.message(),
        "Provided value for field größe is of type Bytes, expected Struct Point { x: I32; y: Vec<F64>; }"
    );
}
