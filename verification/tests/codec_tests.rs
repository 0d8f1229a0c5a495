use speedy_schema::decode::{decode_field, decode_node, decode_record, decode_sum};
use speedy_schema::encode::{encode_field, encode_node, encode_record, encode_sum};
use speedy_schema::error::CodecError;
use speedy_schema::schema::{
    FieldDescriptor, Opt, RecordDescriptor, RecordKind, SchemaNode, SumDescriptor,
    VariantDescriptor,
};
use speedy_schema::value::Value;
use speedy_schema::wire::Width;

fn plain_field(n: SchemaNode) -> FieldDescriptor {
    FieldDescriptor {
        ty: Opt::Plain(n),
        skip: false,
        default_on_eof: false,
        length: None,
        length_type: None,
        constant_prefix: None,
    }
}

fn u8_field() -> FieldDescriptor {
    plain_field(SchemaNode::Primitive(Width::W8))
}

fn record(fields: Vec<FieldDescriptor>) -> RecordDescriptor {
    RecordDescriptor { kind: RecordKind::NamedRecord, fields }
}

fn unit_variant(tag: u64) -> VariantDescriptor {
    VariantDescriptor {
        tag,
        record: RecordDescriptor { kind: RecordKind::UnitRecord, fields: vec![] },
    }
}

fn round_trips(r: &RecordDescriptor, vals: Vec<Value>) {
    let bytes = encode_record(r, &vals).unwrap();
    let (decoded, p) = decode_record(r, &bytes, 0).unwrap();
    assert_eq!(p, bytes.len());
    assert_eq!(decoded, vals);
}

#[test]
fn record_of_primitives_round_trips() {
    let r = record(vec![
        u8_field(),
        plain_field(SchemaNode::Primitive(Width::W16)),
        plain_field(SchemaNode::Primitive(Width::WVar)),
    ]);
    let vals = vec![Value::UInt(5), Value::UInt(0x1234), Value::UInt(300)];
    let bytes = encode_record(&r, &vals).unwrap();
    assert_eq!(bytes, vec![5, 0x34, 0x12, 0xAC, 0x02]);
    round_trips(&r, vals);
}

#[test]
fn string_fields_use_a_32_bit_length_by_default() {
    let r = record(vec![plain_field(SchemaNode::OwnedString)]);
    let vals = vec![Value::Bytes(vec![104, 105])];
    let bytes = encode_record(&r, &vals).unwrap();
    assert_eq!(bytes, vec![2, 0, 0, 0, 104, 105]);
    round_trips(&r, vals);
}

#[test]
fn length_type_changes_the_prefix_width() {
    let mut f = plain_field(SchemaNode::OwnedSequence(Box::new(SchemaNode::Primitive(Width::W8))));
    f.length_type = Some(Width::W8);
    let r = record(vec![f]);
    let vals = vec![Value::ListVal(vec![Value::UInt(7), Value::UInt(8)])];
    let bytes = encode_record(&r, &vals).unwrap();
    assert_eq!(bytes, vec![2, 7, 8]);
    round_trips(&r, vals);
}

#[test]
fn varint_length_prefixes_round_trip() {
    let mut f = plain_field(SchemaNode::OwnedSequence(Box::new(SchemaNode::Primitive(Width::W8))));
    f.length_type = Some(Width::WVar);
    let r = record(vec![f]);
    let items: Vec<Value> = (0..200).map(|i| Value::UInt(i as u64 % 256)).collect();
    let vals = vec![Value::ListVal(items)];
    let bytes = encode_record(&r, &vals).unwrap();
    assert_eq!(&bytes[0..2], &[0xC8, 0x01]);
    round_trips(&r, vals);
}

#[test]
fn length_attribute_writes_no_prefix_and_is_enforced() {
    let mut f = plain_field(SchemaNode::OwnedSequence(Box::new(SchemaNode::Primitive(Width::W8))));
    f.length = Some(3);
    let r = record(vec![f]);
    let good = vec![Value::ListVal(vec![Value::UInt(1), Value::UInt(2), Value::UInt(3)])];
    let bytes = encode_record(&r, &good).unwrap();
    assert_eq!(bytes, vec![1, 2, 3]);
    round_trips(&r, good);
    // A collection of length 4 fails with a length mismatch, and nothing is
    // returned for the record.
    let bad = vec![Value::ListVal(vec![
        Value::UInt(1),
        Value::UInt(2),
        Value::UInt(3),
        Value::UInt(4),
    ])];
    assert_eq!(encode_record(&r, &bad), Err(CodecError::LengthMismatch));
}

#[test]
fn length_mismatch_writes_nothing_for_the_field() {
    let mut f = plain_field(SchemaNode::OwnedSequence(Box::new(SchemaNode::Primitive(Width::W8))));
    f.length = Some(3);
    let mut out = vec![0xAA];
    let bad = Value::ListVal(vec![Value::UInt(1), Value::UInt(2), Value::UInt(3), Value::UInt(4)]);
    assert_eq!(encode_field(&f, &bad, &mut out), Err(CodecError::LengthMismatch));
    assert_eq!(out, vec![0xAA]);
}

#[test]
fn maps_and_sets_round_trip() {
    let m = plain_field(SchemaNode::MapNode(
        Box::new(SchemaNode::Primitive(Width::W8)),
        Box::new(SchemaNode::OwnedString),
    ));
    let s = plain_field(SchemaNode::SetNode(Box::new(SchemaNode::Primitive(Width::W16))));
    let r = record(vec![m, s]);
    let vals = vec![
        Value::MapVal(vec![
            (Value::UInt(1), Value::Bytes(vec![97])),
            (Value::UInt(2), Value::Bytes(vec![98, 99])),
        ]),
        Value::ListVal(vec![Value::UInt(10), Value::UInt(500)]),
    ];
    round_trips(&r, vals);
}

#[test]
fn fixed_arrays_have_no_length_prefix() {
    let r = record(vec![plain_field(SchemaNode::FixedArray(
        Box::new(SchemaNode::Primitive(Width::W8)),
        3,
    ))]);
    let vals = vec![Value::ListVal(vec![Value::UInt(7), Value::UInt(8), Value::UInt(9)])];
    let bytes = encode_record(&r, &vals).unwrap();
    assert_eq!(bytes, vec![7, 8, 9]);
    round_trips(&r, vals);
    // The wrong element count is a value mismatch.
    let bad = vec![Value::ListVal(vec![Value::UInt(7)])];
    assert_eq!(encode_record(&r, &bad), Err(CodecError::ValueMismatch));
}

#[test]
fn opaque_leaves_carry_their_declared_size() {
    let r = record(vec![plain_field(SchemaNode::Opaque { min_size: 2 })]);
    let vals = vec![Value::Bytes(vec![0xDE, 0xAD])];
    let bytes = encode_record(&r, &vals).unwrap();
    assert_eq!(bytes, vec![0xDE, 0xAD]);
    round_trips(&r, vals);
    assert_eq!(
        encode_record(&r, &vec![Value::Bytes(vec![1])]),
        Err(CodecError::ValueMismatch)
    );
}

#[test]
fn optional_fields_use_a_presence_flag() {
    let f = FieldDescriptor {
        ty: Opt::Wrapped(SchemaNode::Primitive(Width::W16)),
        skip: false,
        default_on_eof: false,
        length: None,
        length_type: None,
        constant_prefix: None,
    };
    let r = record(vec![f]);
    let present = vec![Value::OptVal(Some(Box::new(Value::UInt(0x0102))))];
    let bytes = encode_record(&r, &present).unwrap();
    assert_eq!(bytes, vec![1, 2, 1]);
    round_trips(&r, present);
    let absent = vec![Value::OptVal(None)];
    let bytes = encode_record(&r, &absent).unwrap();
    assert_eq!(bytes, vec![0]);
    round_trips(&r, absent);
    // Any nonzero flag byte means present.
    let (v, p) = decode_record(&r, &vec![9, 2, 1], 0).unwrap();
    assert_eq!(p, 3);
    assert_eq!(v, vec![Value::OptVal(Some(Box::new(Value::UInt(0x0102))))]);
}

#[test]
fn skip_fields_never_touch_the_wire() {
    let mut skipped = plain_field(SchemaNode::OwnedString);
    skipped.skip = true;
    let r = record(vec![u8_field(), skipped, u8_field()]);
    let vals = vec![Value::UInt(1), Value::Bytes(vec![]), Value::UInt(2)];
    let bytes = encode_record(&r, &vals).unwrap();
    assert_eq!(bytes, vec![1, 2]);
    let (decoded, p) = decode_record(&r, &bytes, 0).unwrap();
    assert_eq!(p, 2);
    assert_eq!(decoded, vals);
    // Whatever value stands in a skipped field, it writes nothing and
    // decodes to the default.
    let odd = vec![Value::UInt(1), Value::Bytes(vec![9, 9]), Value::UInt(2)];
    assert_eq!(encode_record(&r, &odd).unwrap(), vec![1, 2]);
}

#[test]
fn eof_defaulting_scenario() {
    // {a: u8, b: u8 default_on_eof} decoded from [5] yields {a: 5, b: 0}.
    let mut b = u8_field();
    b.default_on_eof = true;
    let r = record(vec![u8_field(), b]);
    let (vals, p) = decode_record(&r, &vec![5], 0).unwrap();
    assert_eq!(vals, vec![Value::UInt(5), Value::UInt(0)]);
    assert_eq!(p, 1);
    // Decoded from an empty buffer, field a itself fails with end-of-input.
    assert_eq!(decode_record(&r, &vec![], 0), Err((CodecError::UnexpectedEof, 0)));
}

#[test]
fn default_on_eof_defaults_whole_collections() {
    let mut f = plain_field(SchemaNode::OwnedSequence(Box::new(SchemaNode::Primitive(Width::W8))));
    f.length_type = Some(Width::W8);
    f.default_on_eof = true;
    let r = record(vec![f]);
    // The length byte says three elements but only one follows: the whole
    // field defaults.
    let (vals, _) = decode_record(&r, &vec![3, 7], 0).unwrap();
    assert_eq!(vals, vec![Value::ListVal(vec![])]);
}

#[test]
fn constant_prefix_scenario() {
    // A field with constant_prefix b"AB" decoded from A B 7 yields 7.
    let mut f = u8_field();
    f.constant_prefix = Some(vec![65, 66]);
    let r = record(vec![f]);
    let (vals, p) = decode_record(&r, &vec![65, 66, 7], 0).unwrap();
    assert_eq!(vals, vec![Value::UInt(7)]);
    assert_eq!(p, 3);
    // From A C 7 it fails with a prefix mismatch before looking at 7.
    assert_eq!(
        decode_record(&r, &vec![65, 67, 7], 0),
        Err((CodecError::PrefixMismatch, 0))
    );
    // Encoding emits the prefix.
    let bytes = encode_record(&r, &vec![Value::UInt(7)]).unwrap();
    assert_eq!(bytes, vec![65, 66, 7]);
}

#[test]
fn sum_types_write_tag_then_payload() {
    let s = SumDescriptor {
        tag_width: Width::W8,
        peek_tag: false,
        variants: vec![
            unit_variant(0),
            VariantDescriptor {
                tag: 1,
                record: RecordDescriptor {
                    kind: RecordKind::PositionalRecord,
                    fields: vec![u8_field(), u8_field()],
                },
            },
        ],
    };
    let bytes = encode_sum(&s, 1, &vec![Value::UInt(7), Value::UInt(9)]).unwrap();
    assert_eq!(bytes, vec![1, 7, 9]);
    let ((j, vals), p) = decode_sum(&s, &bytes, 0).unwrap();
    assert_eq!(j, 1);
    assert_eq!(vals, vec![Value::UInt(7), Value::UInt(9)]);
    assert_eq!(p, 3);
    let bytes = encode_sum(&s, 0, &vec![]).unwrap();
    assert_eq!(bytes, vec![0]);
    let ((j, vals), p) = decode_sum(&s, &bytes, 0).unwrap();
    assert_eq!((j, p), (0, 1));
    assert!(vals.is_empty());
}

#[test]
fn sum_default_tag_width_is_32_bit() {
    let s = SumDescriptor { tag_width: Width::W32, peek_tag: false, variants: vec![unit_variant(5)] };
    let bytes = encode_sum(&s, 0, &vec![]).unwrap();
    assert_eq!(bytes, vec![5, 0, 0, 0]);
}

#[test]
fn unmatched_tags_are_invalid() {
    let s = SumDescriptor {
        tag_width: Width::W8,
        peek_tag: false,
        variants: vec![unit_variant(0), unit_variant(1)],
    };
    assert_eq!(decode_sum(&s, &vec![9], 0), Err((CodecError::InvalidVariantTag, 0)));
    assert_eq!(decode_sum(&s, &vec![], 0), Err((CodecError::UnexpectedEof, 0)));
}

#[test]
fn peek_tag_scenario() {
    // A sum type with peek_tag and two unit variants tagged 0 and 1 decodes
    // without consuming the tag, so an enclosing structure can re-read the
    // same bytes for its own dispatch.
    let s = SumDescriptor {
        tag_width: Width::W8,
        peek_tag: true,
        variants: vec![unit_variant(0), unit_variant(1)],
    };
    let data = vec![1, 77];
    let ((j, vals), p) = decode_sum(&s, &data, 0).unwrap();
    assert_eq!(j, 1);
    assert!(vals.is_empty());
    // The position is unchanged: the tag byte is still there to re-read.
    assert_eq!(p, 0);
    let ((j2, _), p2) = decode_sum(&s, &data, 0).unwrap();
    assert_eq!((j2, p2), (1, 0));
    // Encoding a peeked variant emits no tag: the encloser owns those bytes.
    let bytes = encode_sum(&s, 1, &vec![]).unwrap();
    assert!(bytes.is_empty());
}

#[test]
fn nested_collections_use_default_prefixes_inside() {
    // A Vec<Vec<u8>> field with an 8-bit outer length still writes 32-bit
    // lengths for the inner vectors.
    let inner = SchemaNode::OwnedSequence(Box::new(SchemaNode::Primitive(Width::W8)));
    let mut f = plain_field(SchemaNode::OwnedSequence(Box::new(inner)));
    f.length_type = Some(Width::W8);
    let r = record(vec![f]);
    let vals = vec![Value::ListVal(vec![
        Value::ListVal(vec![Value::UInt(7)]),
        Value::ListVal(vec![]),
    ])];
    let bytes = encode_record(&r, &vals).unwrap();
    assert_eq!(bytes, vec![2, 1, 0, 0, 0, 7, 0, 0, 0, 0]);
    round_trips(&r, vals);
}

#[test]
fn decode_reports_eof_where_the_read_began() {
    let r = record(vec![plain_field(SchemaNode::Primitive(Width::W32))]);
    assert_eq!(decode_record(&r, &vec![1, 2], 0), Err((CodecError::UnexpectedEof, 0)));
    let r = record(vec![u8_field(), plain_field(SchemaNode::Primitive(Width::W32))]);
    assert_eq!(decode_record(&r, &vec![1, 2], 0), Err((CodecError::UnexpectedEof, 1)));
}

#[test]
fn values_of_the_wrong_shape_are_rejected() {
    let r = record(vec![u8_field()]);
    assert_eq!(
        encode_record(&r, &vec![Value::Bytes(vec![])]),
        Err(CodecError::ValueMismatch)
    );
    assert_eq!(encode_record(&r, &vec![]), Err(CodecError::ValueMismatch));
    // A primitive that does not fit its width is out of range.
    let r = record(vec![plain_field(SchemaNode::Primitive(Width::W16))]);
    assert_eq!(
        encode_record(&r, &vec![Value::UInt(0x10000)]),
        Err(CodecError::OutOfRange)
    );
}

#[test]
fn node_codec_composes_with_surrounding_bytes() {
    let n = SchemaNode::OwnedString;
    let v = Value::Bytes(vec![120]);
    let mut out = vec![0xFE];
    encode_node(&n, &v, &mut out).unwrap();
    out.push(0xFD);
    let (decoded, p) = decode_node(&n, &out, 1).unwrap();
    assert_eq!(decoded, v);
    assert_eq!(p, out.len() - 1);
}

#[test]
fn field_decode_recovers_exactly_on_eof() {
    let mut f = plain_field(SchemaNode::Primitive(Width::W32));
    f.default_on_eof = true;
    // Two bytes remain: the four-byte read fails without consuming, the
    // field defaults, and the following field reads those same two bytes.
    let r = record(vec![f, plain_field(SchemaNode::Primitive(Width::W16))]);
    let (vals, p) = decode_record(&r, &vec![0x34, 0x12], 0).unwrap();
    assert_eq!(vals, vec![Value::UInt(0), Value::UInt(0x1234)]);
    assert_eq!(p, 2);
}

#[test]
fn field_level_prefix_and_option_compose() {
    let mut f = FieldDescriptor {
        ty: Opt::Wrapped(SchemaNode::OwnedSequence(Box::new(SchemaNode::Primitive(Width::W8)))),
        skip: false,
        default_on_eof: false,
        length: None,
        length_type: Some(Width::W8),
        constant_prefix: Some(vec![0x2A]),
    };
    let v = Value::OptVal(Some(Box::new(Value::ListVal(vec![Value::UInt(3)]))));
    let mut out = Vec::new();
    encode_field(&f, &v, &mut out).unwrap();
    // prefix, presence flag, 8-bit length, element
    assert_eq!(out, vec![0x2A, 1, 1, 3]);
    let (decoded, p) = decode_field(&f, &out, 0).unwrap();
    assert_eq!(decoded, v);
    assert_eq!(p, 4);
    f.constant_prefix = None;
    let mut out = Vec::new();
    encode_field(&f, &Value::OptVal(None), &mut out).unwrap();
    assert_eq!(out, vec![0]);
}

#[test]
fn seven_bit_length_prefix_rejects_a_high_bit() {
    let mut f = plain_field(SchemaNode::OwnedSequence(Box::new(SchemaNode::Primitive(Width::W8))));
    f.length_type = Some(Width::W7);
    let r = record(vec![f]);
    assert_eq!(
        decode_record(&r, &vec![0x81, 0], 0),
        Err((CodecError::OutOfRange, 0))
    );
    // 127 elements is the largest a 7-bit length can carry.
    let items: Vec<Value> = (0..127).map(|i| Value::UInt(i as u64)).collect();
    let vals = vec![Value::ListVal(items)];
    let bytes = encode_record(&r, &vals).unwrap();
    assert_eq!(bytes[0], 127);
    round_trips(&r, vals);
    let too_many: Vec<Value> = (0..128).map(|i| Value::UInt(i as u64 % 256)).collect();
    assert_eq!(
        encode_record(&r, &vec![Value::ListVal(too_many)]),
        Err(CodecError::OutOfRange)
    );
}
