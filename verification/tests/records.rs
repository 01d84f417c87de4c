use binary_util::codec::{decode_record, encode_record};
use binary_util::io::ByteReader;
use binary_util::record::{FieldType, FieldValue, RecordValue, ScalarType, Value};
use binary_util::schema::{
    compile_record, CompiledRecord, Directive, FieldSpec, Predicate, RecordSpec, SchemaError,
};
use binary_util::types::u24;

fn field(name: &str, ty: FieldType) -> FieldSpec {
    FieldSpec { name: name.to_string(), ty, directives: vec![] }
}

fn field_with(name: &str, ty: FieldType, d: Directive) -> FieldSpec {
    FieldSpec { name: name.to_string(), ty, directives: vec![d] }
}

fn compile(spec: RecordSpec) -> CompiledRecord {
    compile_record(&spec).unwrap()
}

#[test]
fn streamable_structs_construct_struct() {
    // a packet of two single-byte fields survives a decode and re-encode
    let schema = compile(RecordSpec::Struct {
        named: true,
        fields: vec![
            field("some_int", FieldType::Scalar(ScalarType::U8)),
            field("some_string", FieldType::Scalar(ScalarType::U8)),
        ],
    });
    let buf = vec![1, 30];
    let mut reader = ByteReader::new(buf.clone());
    let pk = decode_record(&schema, &mut reader).unwrap();
    assert_eq!(buf, encode_record(&schema, &pk).unwrap())
}

#[test]
fn macro_tests_construct_struct() {
    let schema = compile(RecordSpec::Struct {
        named: true,
        fields: vec![
            field("some_int", FieldType::Scalar(ScalarType::U8)),
            field("some_string", FieldType::Scalar(ScalarType::U8)),
        ],
    });
    let buf = vec![1, 30];
    let mut reader = ByteReader::new(buf.clone());
    let pk = decode_record(&schema, &mut reader).unwrap();
    assert_eq!(buf, encode_record(&schema, &pk).unwrap())
}

fn abc_schema() -> CompiledRecord {
    compile(RecordSpec::Struct {
        named: true,
        fields: vec![
            field("a", FieldType::Scalar(ScalarType::U8)),
            field_with(
                "b",
                FieldType::Optional(ScalarType::U8),
                Directive::Satisfy(Predicate::EqUint("a".to_string(), 10)),
            ),
            field("c", FieldType::Scalar(ScalarType::U8)),
        ],
    })
}

fn abc_value(a: u8, b: Option<u8>, c: u8) -> RecordValue {
    RecordValue::Struct(vec![
        FieldValue::Scalar(Value::U8(a)),
        FieldValue::Optional(b.map(Value::U8)),
        FieldValue::Scalar(Value::U8(c)),
    ])
}

#[test]
fn abc_derive_write() {
    let schema = abc_schema();
    let b_present = abc_value(10, Some(9), 3);
    assert_eq!(encode_record(&schema, &b_present).unwrap(), vec![10, 9, 3]);

    // B is present, but A doesn't satisfy the condition for b to be encoded.
    let a_invalid = abc_value(4, Some(99), 9);
    assert_eq!(encode_record(&schema, &a_invalid).unwrap(), vec![4, 9]);

    // B is not present, but A satisfies the condition for b to be encoded.
    // This WILL fail.
    let b_not_present = abc_value(10, None, 9);
    assert_eq!(encode_record(&schema, &b_not_present).is_err(), true);
}

#[test]
fn abc_derive_read() {
    let schema = abc_schema();
    const B_PRESENT_BUF: &[u8] = &[10, 9, 3];
    let mut reader = ByteReader::new(B_PRESENT_BUF.to_vec());
    let b_present = decode_record(&schema, &mut reader).unwrap();
    assert_eq!(b_present, abc_value(10, Some(9), 3));

    const A_NOT_SATISFIED: &[u8] = &[4, 9];
    let mut reader = ByteReader::new(A_NOT_SATISFIED.to_vec());
    let a_invalid = decode_record(&schema, &mut reader).unwrap();
    assert_eq!(a_invalid, abc_value(4, None, 9));

    const B_NOT_PRESENT_BUF: &[u8] = &[10, 9];
    let mut reader = ByteReader::new(B_NOT_PRESENT_BUF.to_vec());
    assert_eq!(decode_record(&schema, &mut reader).is_err(), true);
}

#[test]
fn complex_packet_write() {
    let schema = compile(RecordSpec::Struct {
        named: true,
        fields: vec![
            field_with("is_ack", FieldType::Scalar(ScalarType::Bool), Directive::Skip),
            field("contains_content", FieldType::Scalar(ScalarType::Bool)),
            field_with(
                "content",
                FieldType::Optional(ScalarType::Str),
                Directive::Satisfy(Predicate::And(
                    Box::new(Predicate::Field("contains_content".to_string())),
                    Box::new(Predicate::Field("is_ack".to_string())),
                )),
            ),
            field_with(
                "content_validated",
                FieldType::Optional(ScalarType::U32),
                Directive::IfPresent("content".to_string()),
            ),
        ],
    });
    // ack is true, but the contents are false.
    let ack_true_content_false = RecordValue::Struct(vec![
        FieldValue::Scalar(Value::Bool(true)),
        FieldValue::Scalar(Value::Bool(false)),
        FieldValue::Optional(None),
        FieldValue::Optional(None),
    ]);

    assert_eq!(encode_record(&schema, &ack_true_content_false).unwrap(), vec![0]);
}

/// Unnamed structs
#[test]
fn special_struct_write() {
    let schema = compile(RecordSpec::Struct {
        named: false,
        fields: vec![
            field("", FieldType::Scalar(ScalarType::Bool)),
            field_with("", FieldType::Optional(ScalarType::U8), Directive::Skip),
        ],
    });
    let special_struct = RecordValue::Struct(vec![
        FieldValue::Scalar(Value::Bool(true)),
        FieldValue::Optional(None),
    ]);
    assert_eq!(encode_record(&schema, &special_struct).unwrap(), vec![1]);
}

fn u24_struct_schema() -> CompiledRecord {
    compile(RecordSpec::Struct {
        named: true,
        fields: vec![
            field("a_value_before", FieldType::Scalar(ScalarType::Bool)),
            field("test", FieldType::Scalar(ScalarType::U24)),
            field("test_le", FieldType::Scalar(ScalarType::U24Le)),
        ],
    })
}

#[test]
fn encode_test() {
    let schema = u24_struct_schema();
    let packet = RecordValue::Struct(vec![
        FieldValue::Scalar(Value::Bool(true)),
        FieldValue::Scalar(Value::U32(10000)),
        FieldValue::Scalar(Value::U32(90)),
    ]);
    let bytes = encode_record(&schema, &packet).unwrap();
    assert_eq!(&bytes[..], &[1, 0, 39, 16, 90, 0, 0]);

    // try reading again...
    let mut reader = ByteReader::new(bytes);
    let packet = decode_record(&schema, &mut reader).unwrap();
    match packet {
        RecordValue::Struct(fields) => {
            assert_eq!(fields[1], FieldValue::Scalar(Value::U32(10000)));
            assert_eq!(fields[2], FieldValue::Scalar(Value::U32(90)));
        },
        _ => panic!("expected a struct"),
    }
}

#[test]
fn decode_test() {
    let schema = u24_struct_schema();
    let buf = vec![1, 0, 39, 16, 90, 0, 0];
    let mut reader = ByteReader::new(buf);
    let packet = decode_record(&schema, &mut reader).unwrap();
    match packet {
        RecordValue::Struct(fields) => {
            assert_eq!(fields[1], FieldValue::Scalar(Value::U32(10000)));
            assert_eq!(fields[2], FieldValue::Scalar(Value::U32(90)));
        },
        _ => panic!("expected a struct"),
    }
}

#[test]
fn u24_bounds() {
    // constructing from 10000 succeeds and encodes big-endian as three bytes
    let v = u24::new(10000);
    assert_eq!(v.to_be_bytes(), vec![0, 39, 16]);
    // constructing from a value over the 24-bit range fails
    assert!(u24::try_new(0x1000000).is_none());
    assert!(u24::try_new(0xFFFFFF).is_some());
    assert!(u24::is_u24(10000));
    assert!(!u24::is_u24(0x1000000));
}

pub const EXPECTED_DEBUG: &[u8] = &[
    // packet id
    95, // u128 as LE
    117, 215, 192, 250, 0, 0, 0, 0, 0, 0, 0, 0, 0, 0, 0, 0,
];

#[test]
fn test_varint() {
    let schema = compile(RecordSpec::Struct {
        named: true,
        fields: vec![
            field("id", FieldType::Scalar(ScalarType::U8)),
            field("width", FieldType::Scalar(ScalarType::U128Le)),
        ],
    });
    let test = RecordValue::Struct(vec![
        FieldValue::Scalar(Value::U8(95)),
        FieldValue::Scalar(Value::U128(4206942069)),
    ]);
    assert_eq!(&encode_record(&schema, &test).unwrap()[..], EXPECTED_DEBUG);
}

#[test]
fn skip_round_trip() {
    // a skipped field never reaches the wire and decodes to its default,
    // whatever it held before encoding
    let schema = compile(RecordSpec::Struct {
        named: true,
        fields: vec![
            field("kept", FieldType::Scalar(ScalarType::U8)),
            field_with("dropped", FieldType::Scalar(ScalarType::U8), Directive::Skip),
        ],
    });
    let v = RecordValue::Struct(vec![
        FieldValue::Scalar(Value::U8(5)),
        FieldValue::Scalar(Value::U8(99)),
    ]);
    let bytes = encode_record(&schema, &v).unwrap();
    assert_eq!(bytes, vec![5]);
    let mut reader = ByteReader::new(bytes);
    let back = decode_record(&schema, &mut reader).unwrap();
    assert_eq!(
        back,
        RecordValue::Struct(vec![
            FieldValue::Scalar(Value::U8(5)),
            FieldValue::Scalar(Value::U8(0)),
        ])
    );
}

#[test]
fn string_and_list_fields_round_trip() {
    let schema = compile(RecordSpec::Struct {
        named: true,
        fields: vec![
            field("name", FieldType::Scalar(ScalarType::Str)),
            field("scores", FieldType::List(ScalarType::VarU32)),
            field("note", FieldType::Optional(ScalarType::Str)),
        ],
    });
    let v = RecordValue::Struct(vec![
        FieldValue::Scalar(Value::Str("John".to_string())),
        FieldValue::List(vec![Value::U32(1), Value::U32(300)]),
        FieldValue::Optional(Some(Value::Str("hi".to_string()))),
    ]);
    let bytes = encode_record(&schema, &v).unwrap();
    let mut reader = ByteReader::new(bytes);
    assert_eq!(decode_record(&schema, &mut reader).unwrap(), v);
}

#[test]
fn schema_rejections() {
    // a record with nothing to encode
    assert_eq!(
        compile_record(&RecordSpec::Struct { named: true, fields: vec![] }).unwrap_err(),
        SchemaError::EmptyRecord
    );
    // two directives on one field
    assert_eq!(
        compile_record(&RecordSpec::Struct {
            named: true,
            fields: vec![FieldSpec {
                name: "a".to_string(),
                ty: FieldType::Optional(ScalarType::U8),
                directives: vec![Directive::Skip, Directive::Skip],
            }],
        })
        .unwrap_err(),
        SchemaError::MultipleDirectives
    );
    // a conditional directive on a field that is not optional
    assert_eq!(
        compile_record(&RecordSpec::Struct {
            named: true,
            fields: vec![field_with(
                "a",
                FieldType::Scalar(ScalarType::U8),
                Directive::Satisfy(Predicate::Const(true)),
            )],
        })
        .unwrap_err(),
        SchemaError::BadDirectivePlacement
    );
    // a conditional directive on a positional field
    assert_eq!(
        compile_record(&RecordSpec::Struct {
            named: false,
            fields: vec![field_with(
                "",
                FieldType::Optional(ScalarType::U8),
                Directive::Satisfy(Predicate::Const(true)),
            )],
        })
        .unwrap_err(),
        SchemaError::BadDirectivePlacement
    );
    // a reference to a sibling that does not exist earlier
    assert_eq!(
        compile_record(&RecordSpec::Struct {
            named: true,
            fields: vec![field_with(
                "a",
                FieldType::Optional(ScalarType::U8),
                Directive::Require("missing".to_string()),
            )],
        })
        .unwrap_err(),
        SchemaError::UnknownSibling
    );
}
