use speedy_schema::attrs::{EnumAttrEntry, FieldAttrEntry, PrefixLit, VariantAttrEntry};
use speedy_schema::builder::{build_record, build_sum, RawField, RawVariant};
use speedy_schema::decode::{decode_record, decode_sum};
use speedy_schema::encode::{encode_record, encode_sum};
use speedy_schema::error::{Loc, OptionKind, SchemaError, SchemaFault};
use speedy_schema::minsize::minimum_size_record;
use speedy_schema::schema::{Opt, PathName, RecordKind, SchemaNode, TypeArg, TypeRef};
use speedy_schema::tags::SourceDiscriminant;
use speedy_schema::value::Value;
use speedy_schema::wire::Width;

fn u8_ref() -> TypeRef {
    TypeRef::Bare(PathName::PU8)
}

fn field(ty: TypeRef, attrs: Vec<FieldAttrEntry>) -> RawField {
    RawField { ty, attrs }
}

fn variant(attrs: Vec<VariantAttrEntry>, disc: SourceDiscriminant, fields: Vec<RawField>) -> RawVariant {
    let kind = if fields.is_empty() {
        RecordKind::UnitRecord
    } else {
        RecordKind::PositionalRecord
    };
    RawVariant { attrs, disc, kind, fields }
}

#[test]
fn build_record_resolves_every_field() {
    let raw = vec![
        field(u8_ref(), vec![]),
        field(
            TypeRef::Generic(PathName::PVec, vec![TypeArg::TyArg(u8_ref())]),
            vec![FieldAttrEntry::LengthTypeAttr(Width::W8)],
        ),
    ];
    let rec = build_record(RecordKind::NamedRecord, &vec![], &raw).unwrap();
    assert_eq!(rec.kind, RecordKind::NamedRecord);
    assert_eq!(rec.fields.len(), 2);
    assert_eq!(rec.fields[0].ty, Opt::Plain(SchemaNode::Primitive(Width::W8)));
    assert_eq!(rec.fields[1].length_type, Some(Width::W8));
    assert_eq!(minimum_size_record(&rec), 2);
}

#[test]
fn record_faults_name_the_field() {
    let raw = vec![
        field(u8_ref(), vec![]),
        field(u8_ref(), vec![FieldAttrEntry::LengthAttr(3)]),
    ];
    assert_eq!(
        build_record(RecordKind::NamedRecord, &vec![], &raw),
        Err(SchemaFault {
            loc: Loc::AtField { field: 1 },
            error: SchemaError::UnsupportedOption { option: OptionKind::LengthOpt },
        })
    );
}

#[test]
fn built_records_encode_and_decode() {
    let raw = vec![
        field(u8_ref(), vec![FieldAttrEntry::ConstantPrefixAttr(PrefixLit::TextLit(vec![65, 66]))]),
        field(TypeRef::Bare(PathName::PString), vec![]),
    ];
    let rec = build_record(RecordKind::NamedRecord, &vec![], &raw).unwrap();
    let vals = vec![Value::UInt(7), Value::Bytes(vec![104, 105])];
    let bytes = encode_record(&rec, &vals).unwrap();
    assert_eq!(bytes, vec![65, 66, 7, 2, 0, 0, 0, 104, 105]);
    let (decoded, p) = decode_record(&rec, &bytes, 0).unwrap();
    assert_eq!(decoded, vals);
    assert_eq!(p, bytes.len());
}

#[test]
fn build_sum_allocates_tags_in_order() {
    let raw = vec![
        variant(vec![], SourceDiscriminant::NoDiscriminant, vec![]),
        variant(vec![VariantAttrEntry::TagAttr(10)], SourceDiscriminant::NoDiscriminant, vec![
            field(u8_ref(), vec![]),
        ]),
        variant(vec![], SourceDiscriminant::NoDiscriminant, vec![]),
        variant(vec![], SourceDiscriminant::DiscLit(20), vec![]),
    ];
    let s = build_sum(&vec![EnumAttrEntry::TagTypeAttr(Width::W8)], &raw).unwrap();
    assert_eq!(s.tag_width, Width::W8);
    assert!(!s.peek_tag);
    let tags: Vec<u64> = s.variants.iter().map(|v| v.tag).collect();
    assert_eq!(tags, vec![0, 10, 11, 20]);
    assert_eq!(s.variants[1].record.fields.len(), 1);
}

#[test]
fn sum_default_tag_width() {
    let raw = vec![variant(vec![], SourceDiscriminant::NoDiscriminant, vec![])];
    let s = build_sum(&vec![], &raw).unwrap();
    assert_eq!(s.tag_width, Width::W32);
}

#[test]
fn sum_faults_are_located() {
    // A duplicate type-level option is a fault on the type.
    let raw = vec![variant(vec![], SourceDiscriminant::NoDiscriminant, vec![])];
    assert_eq!(
        build_sum(&vec![EnumAttrEntry::PeekTagAttr, EnumAttrEntry::PeekTagAttr], &raw),
        Err(SchemaFault {
            loc: Loc::AtType,
            error: SchemaError::DuplicateOption { option: OptionKind::PeekTagOpt },
        })
    );
    // A tag collision is a fault on the second variant, naming both.
    let raw = vec![
        variant(vec![VariantAttrEntry::TagAttr(2)], SourceDiscriminant::NoDiscriminant, vec![]),
        variant(vec![], SourceDiscriminant::DiscLit(2), vec![]),
    ];
    assert_eq!(
        build_sum(&vec![], &raw),
        Err(SchemaFault {
            loc: Loc::AtVariant { variant: 1 },
            error: SchemaError::DuplicateTag { tag: 2, first: 0, second: 1 },
        })
    );
    // A field fault inside a variant names the variant and the field.
    let raw = vec![variant(vec![], SourceDiscriminant::NoDiscriminant, vec![
        field(u8_ref(), vec![FieldAttrEntry::LengthTypeAttr(Width::W8)]),
    ])];
    assert_eq!(
        build_sum(&vec![], &raw),
        Err(SchemaFault {
            loc: Loc::AtVariantField { variant: 0, field: 0 },
            error: SchemaError::UnsupportedOption { option: OptionKind::LengthTypeOpt },
        })
    );
    // A non-literal source discriminant is unsupported.
    let raw = vec![variant(vec![], SourceDiscriminant::DiscOther, vec![])];
    assert_eq!(
        build_sum(&vec![], &raw),
        Err(SchemaFault {
            loc: Loc::AtVariant { variant: 0 },
            error: SchemaError::UnsupportedDiscriminant { variant: 0 },
        })
    );
}

#[test]
fn sum_overflow_names_the_first_bad_variant() {
    let raw: Vec<RawVariant> = (0..257)
        .map(|_| variant(vec![], SourceDiscriminant::NoDiscriminant, vec![]))
        .collect();
    assert_eq!(
        build_sum(&vec![EnumAttrEntry::TagTypeAttr(Width::W8)], &raw),
        Err(SchemaFault {
            loc: Loc::AtVariant { variant: 256 },
            error: SchemaError::TagOverflow { variant: 256 },
        })
    );
    // One fewer variant fits exactly.
    let raw: Vec<RawVariant> = (0..256)
        .map(|_| variant(vec![], SourceDiscriminant::NoDiscriminant, vec![]))
        .collect();
    let s = build_sum(&vec![EnumAttrEntry::TagTypeAttr(Width::W8)], &raw).unwrap();
    assert_eq!(s.variants[255].tag, 255);
}

#[test]
fn duplicate_variant_tag_attribute() {
    let raw = vec![variant(
        vec![VariantAttrEntry::TagAttr(1), VariantAttrEntry::TagAttr(2)],
        SourceDiscriminant::NoDiscriminant,
        vec![],
    )];
    assert_eq!(
        build_sum(&vec![], &raw),
        Err(SchemaFault {
            loc: Loc::AtVariant { variant: 0 },
            error: SchemaError::DuplicateOption { option: OptionKind::TagOpt },
        })
    );
}

#[test]
fn built_sums_encode_and_decode() {
    let raw = vec![
        variant(vec![], SourceDiscriminant::NoDiscriminant, vec![]),
        variant(vec![], SourceDiscriminant::NoDiscriminant, vec![
            field(u8_ref(), vec![]),
            field(TypeRef::Bare(PathName::PString), vec![]),
        ]),
    ];
    let s = build_sum(&vec![EnumAttrEntry::TagTypeAttr(Width::W8)], &raw).unwrap();
    let vals = vec![Value::UInt(3), Value::Bytes(vec![111, 107])];
    let bytes = encode_sum(&s, 1, &vals).unwrap();
    assert_eq!(bytes, vec![1, 3, 2, 0, 0, 0, 111, 107]);
    let ((j, decoded), p) = decode_sum(&s, &bytes, 0).unwrap();
    assert_eq!(j, 1);
    assert_eq!(decoded, vals);
    assert_eq!(p, bytes.len());
}
