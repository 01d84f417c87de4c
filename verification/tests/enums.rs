use binary_util::codec::{decode_record, encode_record};
use binary_util::error::BinaryError;
use binary_util::io::ByteReader;
use binary_util::record::{FieldType, FieldValue, RecordValue, ScalarType, Value};
use binary_util::schema::{
    compile_record, CompiledRecord, FieldSpec, RecordSpec, ReprType, SchemaError, VariantSpec,
};

fn unit_variant(name: &str, discriminant: Option<i128>) -> VariantSpec {
    VariantSpec { name: name.to_string(), discriminant, fields: vec![] }
}

fn tuple_variant(name: &str, discriminant: Option<i128>, arity: usize) -> VariantSpec {
    let mut fields = Vec::new();
    let mut i = 0;
    while i < arity {
        fields.push(FieldSpec {
            name: String::new(),
            ty: FieldType::Scalar(ScalarType::U8),
            directives: vec![],
        });
        i += 1;
    }
    VariantSpec { name: name.to_string(), discriminant, fields }
}

fn apple_pair_schema() -> CompiledRecord {
    compile_record(&RecordSpec::Enum {
        repr: Some(ReprType::U8),
        variants: vec![unit_variant("Apple", Some(0)), unit_variant("Pair", Some(1))],
    })
    .unwrap()
}

#[test]
fn enum_read_test_from_buffer() {
    let schema = apple_pair_schema();
    let buffer: &[u8] = &[0];
    let mut reader = ByteReader::new(buffer.to_vec());
    let result = decode_record(&schema, &mut reader).unwrap();
    assert_eq!(RecordValue::Variant(0, vec![]), result);
}

#[test]
fn enum_write_read_buffer() {
    let schema = apple_pair_schema();
    // write first
    let variant = RecordValue::Variant(1, vec![]);
    let buffer = encode_record(&schema, &variant).unwrap();

    assert_eq!(buffer, vec![1]);

    // read now
    let mut reader = ByteReader::new(buffer);
    let compose = decode_record(&schema, &mut reader).unwrap();

    assert!(
        match compose {
            RecordValue::Variant(1, _) => true,
            _ => false,
        },
        "Reconstruction was not equivelant to Test::Pair"
    );
}

#[test]
fn streamable_enums_read_test_from_buffer() {
    let schema = apple_pair_schema();
    let buffer: &[u8] = &[0];
    let mut reader = ByteReader::new(buffer.to_vec());
    let result = decode_record(&schema, &mut reader).unwrap();
    assert_eq!(RecordValue::Variant(0, vec![]), result);
}

#[test]
fn streamable_enums_write_read_buffer() {
    let schema = apple_pair_schema();
    let variant = RecordValue::Variant(1, vec![]);
    let buffer = encode_record(&schema, &variant).unwrap();

    assert_eq!(buffer, vec![1]);

    let mut reader = ByteReader::new(buffer);
    let compose = decode_record(&schema, &mut reader).unwrap();

    assert!(
        match compose {
            RecordValue::Variant(1, _) => true,
            _ => false,
        },
        "Reconstruction was not equivelant to Test::Pair"
    );
}

fn abc_packet_schema() -> CompiledRecord {
    // enum { A, B(u8, u8), C(u8, u8, u8) } with inferred discriminants
    compile_record(&RecordSpec::Enum {
        repr: Some(ReprType::U8),
        variants: vec![
            unit_variant("A", None),
            tuple_variant("B", None, 2),
            tuple_variant("C", None, 3),
        ],
    })
    .unwrap()
}

#[test]
fn binary_io_enum_encode_test() {
    let schema = abc_packet_schema();
    let packet = RecordValue::Variant(
        1,
        vec![FieldValue::Scalar(Value::U8(1)), FieldValue::Scalar(Value::U8(2))],
    );

    assert_eq!(encode_record(&schema, &packet).unwrap(), vec![1, 1, 2]);
}

#[test]
fn binary_io_enum_decode_test() {
    let schema = abc_packet_schema();
    let buf: &[u8] = &[1, 1, 2];
    let mut reader = ByteReader::new(buf.to_vec());

    match decode_record(&schema, &mut reader).unwrap() {
        RecordValue::Variant(1, fields) => {
            assert_eq!(fields[0], FieldValue::Scalar(Value::U8(1)));
            assert_eq!(fields[1], FieldValue::Scalar(Value::U8(2)));
        },
        _ => panic!("Wrong packet type"),
    }
}

#[test]
fn field_test_enum() {
    // discriminants continue from the last explicit literal
    let schema = compile_record(&RecordSpec::Enum {
        repr: Some(ReprType::U8),
        variants: vec![
            unit_variant("Cats", Some(10)),
            unit_variant("Dogs", Some(12)),
            unit_variant("Apple", None),
        ],
    })
    .unwrap();
    let apple = RecordValue::Variant(2, vec![]);
    assert_eq!(encode_record(&schema, &apple).unwrap()[0], 13);
}

#[test]
fn unknown_discriminant_is_invalid_data() {
    let schema = apple_pair_schema();
    let mut reader = ByteReader::new(vec![9]);
    assert_eq!(decode_record(&schema, &mut reader), Err(BinaryError::InvalidData));
}

#[test]
fn enum_schema_rejections() {
    let missing = RecordSpec::Enum { repr: None, variants: vec![unit_variant("A", None)] };
    assert_eq!(compile_record(&missing).unwrap_err(), SchemaError::MissingRepr);

    let empty = RecordSpec::Enum { repr: Some(ReprType::U8), variants: vec![] };
    assert_eq!(compile_record(&empty).unwrap_err(), SchemaError::EmptyRecord);

    let duplicate = RecordSpec::Enum {
        repr: Some(ReprType::U8),
        variants: vec![unit_variant("A", Some(1)), unit_variant("B", Some(1))],
    };
    assert_eq!(compile_record(&duplicate).unwrap_err(), SchemaError::DuplicateDiscriminant);

    let out_of_range = RecordSpec::Enum {
        repr: Some(ReprType::U8),
        variants: vec![unit_variant("A", Some(300))],
    };
    assert_eq!(compile_record(&out_of_range).unwrap_err(), SchemaError::DiscriminantOutOfRange);
}

#[test]
fn signed_repr_round_trip() {
    let schema = compile_record(&RecordSpec::Enum {
        repr: Some(ReprType::I16),
        variants: vec![unit_variant("Low", Some(-2)), unit_variant("High", None)],
    })
    .unwrap();
    let low = RecordValue::Variant(0, vec![]);
    let bytes = encode_record(&schema, &low).unwrap();
    assert_eq!(bytes, vec![0xFF, 0xFE]);
    let mut reader = ByteReader::new(bytes);
    assert_eq!(decode_record(&schema, &mut reader).unwrap(), low);
    // the inferred second discriminant is -1
    let high = RecordValue::Variant(1, vec![]);
    assert_eq!(encode_record(&schema, &high).unwrap(), vec![0xFF, 0xFF]);
}
