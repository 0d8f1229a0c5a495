use speedy_schema::minsize::{min_field, min_node, minimum_size_record, minimum_size_sum};
use speedy_schema::schema::{
    FieldDescriptor, Opt, RecordDescriptor, RecordKind, SchemaNode, SumDescriptor,
    VariantDescriptor,
};
use speedy_schema::wire::Width;

fn plain_field(n: SchemaNode) -> FieldDescriptor {
    FieldDescriptor {
        ty: Opt::Plain(n),
        skip: false,
        default_on_eof: false,
        length: None,
        length_type: None,
        constant_prefix: None,
    }
}

#[test]
fn node_minimums() {
    assert_eq!(min_node(&SchemaNode::Primitive(Width::W8)), 1);
    assert_eq!(min_node(&SchemaNode::Primitive(Width::W64)), 8);
    assert_eq!(min_node(&SchemaNode::Primitive(Width::WVar)), 1);
    assert_eq!(min_node(&SchemaNode::OwnedString), 4);
    assert_eq!(min_node(&SchemaNode::Opaque { min_size: 9 }), 9);
    let arr = SchemaNode::FixedArray(Box::new(SchemaNode::Primitive(Width::W16)), 3);
    assert_eq!(min_node(&arr), 6);
    let arr0 = SchemaNode::FixedArray(Box::new(SchemaNode::OwnedString), 0);
    assert_eq!(min_node(&arr0), 0);
    // A saturated product stays at the clamp.
    let huge = SchemaNode::FixedArray(Box::new(SchemaNode::Opaque { min_size: u64::MAX }), 2);
    assert_eq!(min_node(&huge), u64::MAX);
}

#[test]
fn field_minimums() {
    // A variable-size node contributes its length prefix's width.
    assert_eq!(min_field(&plain_field(SchemaNode::OwnedString)), 4);
    let mut f = plain_field(SchemaNode::OwnedString);
    f.length_type = Some(Width::W7);
    assert_eq!(min_field(&f), 1);
    let mut f = plain_field(SchemaNode::OwnedString);
    f.length_type = Some(Width::W64);
    assert_eq!(min_field(&f), 8);
    // An optional field contributes one byte whatever is inside.
    let f = FieldDescriptor {
        ty: Opt::Wrapped(SchemaNode::Primitive(Width::W64)),
        skip: false,
        default_on_eof: false,
        length: None,
        length_type: None,
        constant_prefix: None,
    };
    assert_eq!(min_field(&f), 1);
    // A constant prefix adds its byte count.
    let mut f = plain_field(SchemaNode::Primitive(Width::W16));
    f.constant_prefix = Some(vec![65, 66]);
    assert_eq!(min_field(&f), 4);
}

#[test]
fn skipped_defaulted_and_length_fields_contribute_nothing() {
    let mut f = plain_field(SchemaNode::Primitive(Width::W64));
    f.skip = true;
    assert_eq!(min_field(&f), 0);
    let mut f = plain_field(SchemaNode::Primitive(Width::W64));
    f.default_on_eof = true;
    f.constant_prefix = Some(vec![1, 2, 3]);
    assert_eq!(min_field(&f), 0);
    let mut f = plain_field(SchemaNode::OwnedString);
    f.length = Some(100);
    assert_eq!(min_field(&f), 0);
}

#[test]
fn record_minimum_is_the_sum_of_its_fields() {
    let r = RecordDescriptor {
        kind: RecordKind::NamedRecord,
        fields: vec![
            plain_field(SchemaNode::Primitive(Width::W8)),
            plain_field(SchemaNode::Primitive(Width::W16)),
            plain_field(SchemaNode::OwnedString),
        ],
    };
    assert_eq!(minimum_size_record(&r), 1 + 2 + 4);
    // Marking a field default_on_eof can only lower the minimum.
    let mut r2 = RecordDescriptor {
        kind: RecordKind::NamedRecord,
        fields: vec![
            plain_field(SchemaNode::Primitive(Width::W8)),
            plain_field(SchemaNode::Primitive(Width::W16)),
            plain_field(SchemaNode::OwnedString),
        ],
    };
    r2.fields[1].default_on_eof = true;
    assert_eq!(minimum_size_record(&r2), 1 + 4);
    assert!(minimum_size_record(&r2) <= minimum_size_record(&r));
    // Giving a field an explicit length can only lower the minimum.
    let mut r3 = RecordDescriptor {
        kind: RecordKind::NamedRecord,
        fields: vec![
            plain_field(SchemaNode::Primitive(Width::W8)),
            plain_field(SchemaNode::Primitive(Width::W16)),
            plain_field(SchemaNode::OwnedString),
        ],
    };
    r3.fields[2].length = Some(9);
    assert_eq!(minimum_size_record(&r3), 1 + 2);
    assert!(minimum_size_record(&r3) <= minimum_size_record(&r));
}

#[test]
fn empty_record_needs_nothing() {
    let r = RecordDescriptor { kind: RecordKind::UnitRecord, fields: vec![] };
    assert_eq!(minimum_size_record(&r), 0);
}

#[test]
fn sum_minimum_adds_the_tag_width() {
    let payload = RecordDescriptor {
        kind: RecordKind::PositionalRecord,
        fields: vec![plain_field(SchemaNode::Primitive(Width::W64))],
    };
    let s = SumDescriptor {
        tag_width: Width::W16,
        peek_tag: false,
        variants: vec![
            VariantDescriptor { tag: 0, record: payload },
            VariantDescriptor {
                tag: 1,
                record: RecordDescriptor {
                    kind: RecordKind::PositionalRecord,
                    fields: vec![plain_field(SchemaNode::Primitive(Width::W8))],
                },
            },
        ],
    };
    // The least non-unit payload (1 byte) plus the 2-byte tag.
    assert_eq!(minimum_size_sum(&s), 3);
}

#[test]
fn unit_variants_do_not_enter_the_minimum() {
    let s = SumDescriptor {
        tag_width: Width::W32,
        peek_tag: false,
        variants: vec![
            VariantDescriptor {
                tag: 0,
                record: RecordDescriptor { kind: RecordKind::UnitRecord, fields: vec![] },
            },
            VariantDescriptor {
                tag: 1,
                record: RecordDescriptor {
                    kind: RecordKind::PositionalRecord,
                    fields: vec![plain_field(SchemaNode::Primitive(Width::W64))],
                },
            },
        ],
    };
    assert_eq!(minimum_size_sum(&s), 8 + 4);
    // All-unit sums need exactly the tag.
    let s = SumDescriptor {
        tag_width: Width::W32,
        peek_tag: false,
        variants: vec![VariantDescriptor {
            tag: 0,
            record: RecordDescriptor { kind: RecordKind::UnitRecord, fields: vec![] },
        }],
    };
    assert_eq!(minimum_size_sum(&s), 4);
}

#[test]
fn peeked_tags_share_bytes_with_the_payload() {
    let payload = RecordDescriptor {
        kind: RecordKind::PositionalRecord,
        fields: vec![plain_field(SchemaNode::Primitive(Width::W64))],
    };
    let s = SumDescriptor {
        tag_width: Width::W32,
        peek_tag: true,
        variants: vec![VariantDescriptor { tag: 0, record: payload }],
    };
    // max(payload minimum, tag width) rather than their sum.
    assert_eq!(minimum_size_sum(&s), 8);
    let s = SumDescriptor {
        tag_width: Width::W32,
        peek_tag: true,
        variants: vec![VariantDescriptor {
            tag: 0,
            record: RecordDescriptor {
                kind: RecordKind::PositionalRecord,
                fields: vec![plain_field(SchemaNode::Primitive(Width::W8))],
            },
        }],
    };
    assert_eq!(minimum_size_sum(&s), 4);
}
