use speedy_schema::attrs::{
    build_field, char_utf8_bytes, collect_enum_attributes, collect_struct_attributes,
    collect_variant_attributes, resolve_prefix, EnumAttrEntry, FieldAttrEntry, IntSuffix,
    PrefixLit, StructAttributes, VariantAttrEntry,
};
use speedy_schema::error::{OptionKind, PrefixLitFault, SchemaError};
use speedy_schema::schema::{Opt, PathName, SchemaNode, TypeArg, TypeRef};
use speedy_schema::wire::Width;

fn vec_u8() -> TypeRef {
    TypeRef::Generic(
        PathName::PVec,
        vec![TypeArg::TyArg(TypeRef::Bare(PathName::PU8))],
    )
}

#[test]
fn char_encodings() {
    assert_eq!(char_utf8_bytes('A'), vec![0x41]);
    assert_eq!(char_utf8_bytes('\u{e9}'), vec![0xC3, 0xA9]);
    assert_eq!(char_utf8_bytes('\u{20ac}'), vec![0xE2, 0x82, 0xAC]);
    assert_eq!(char_utf8_bytes('\u{1f600}'), vec![0xF0, 0x9F, 0x98, 0x80]);
}

#[test]
fn prefix_literal_forms() {
    assert_eq!(resolve_prefix(&PrefixLit::TextLit(vec![65, 66])), Ok(vec![65, 66]));
    assert_eq!(resolve_prefix(&PrefixLit::BytesLit(vec![1, 2, 3])), Ok(vec![1, 2, 3]));
    assert_eq!(resolve_prefix(&PrefixLit::ByteLit(9)), Ok(vec![9]));
    assert_eq!(resolve_prefix(&PrefixLit::CharLit('\u{e9}')), Ok(vec![0xC3, 0xA9]));
    assert_eq!(resolve_prefix(&PrefixLit::BoolLit(true)), Ok(vec![1]));
    assert_eq!(resolve_prefix(&PrefixLit::BoolLit(false)), Ok(vec![0]));
}

#[test]
fn prefix_integer_literals_need_a_byte_suffix() {
    let ok = PrefixLit::IntLit { negative: false, magnitude: 7, suffix: IntSuffix::SuffixU8 };
    assert_eq!(resolve_prefix(&ok), Ok(vec![7]));
    let neg = PrefixLit::IntLit { negative: true, magnitude: 5, suffix: IntSuffix::SuffixI8 };
    assert_eq!(resolve_prefix(&neg), Ok(vec![251]));
    let bare = PrefixLit::IntLit { negative: false, magnitude: 7, suffix: IntSuffix::NoByteSuffix };
    assert_eq!(
        resolve_prefix(&bare),
        Err(SchemaError::BadPrefixLiteral { fault: PrefixLitFault::IntWithoutByteSuffix })
    );
    let wide = PrefixLit::IntLit { negative: false, magnitude: 300, suffix: IntSuffix::SuffixU8 };
    assert_eq!(
        resolve_prefix(&wide),
        Err(SchemaError::BadPrefixLiteral { fault: PrefixLitFault::IntOutOfRange })
    );
    let neg_wide = PrefixLit::IntLit { negative: true, magnitude: 128, suffix: IntSuffix::SuffixI8 };
    assert_eq!(
        resolve_prefix(&neg_wide),
        Err(SchemaError::BadPrefixLiteral { fault: PrefixLitFault::IntOutOfRange })
    );
    let neg_u8 = PrefixLit::IntLit { negative: true, magnitude: 5, suffix: IntSuffix::SuffixU8 };
    assert_eq!(
        resolve_prefix(&neg_u8),
        Err(SchemaError::BadPrefixLiteral { fault: PrefixLitFault::NotABasicLiteral })
    );
}

#[test]
fn prefix_other_forms_are_rejected() {
    assert_eq!(
        resolve_prefix(&PrefixLit::FloatLit),
        Err(SchemaError::BadPrefixLiteral { fault: PrefixLitFault::FloatLiteral })
    );
    assert_eq!(
        resolve_prefix(&PrefixLit::VerbatimLit),
        Err(SchemaError::BadPrefixLiteral { fault: PrefixLitFault::VerbatimLiteral })
    );
    assert_eq!(
        resolve_prefix(&PrefixLit::OtherExpr),
        Err(SchemaError::BadPrefixLiteral { fault: PrefixLitFault::NotABasicLiteral })
    );
}

#[test]
fn duplicate_field_options_are_rejected() {
    let entries = vec![FieldAttrEntry::DefaultOnEofAttr, FieldAttrEntry::DefaultOnEofAttr];
    assert_eq!(
        build_field(&vec_u8(), &entries),
        Err(SchemaError::DuplicateOption { option: OptionKind::DefaultOnEofOpt })
    );
    let entries = vec![FieldAttrEntry::LengthAttr(1), FieldAttrEntry::LengthAttr(2)];
    assert_eq!(
        build_field(&vec_u8(), &entries),
        Err(SchemaError::DuplicateOption { option: OptionKind::LengthOpt })
    );
    let entries = vec![
        FieldAttrEntry::LengthTypeAttr(Width::W8),
        FieldAttrEntry::LengthTypeAttr(Width::W8),
    ];
    assert_eq!(
        build_field(&vec_u8(), &entries),
        Err(SchemaError::DuplicateOption { option: OptionKind::LengthTypeOpt })
    );
    let entries = vec![
        FieldAttrEntry::ConstantPrefixAttr(PrefixLit::ByteLit(1)),
        FieldAttrEntry::ConstantPrefixAttr(PrefixLit::ByteLit(2)),
    ];
    assert_eq!(
        build_field(&vec_u8(), &entries),
        Err(SchemaError::DuplicateOption { option: OptionKind::ConstantPrefixOpt })
    );
    // `skip` has no duplicate check.
    let entries = vec![FieldAttrEntry::SkipAttr, FieldAttrEntry::SkipAttr];
    let f = build_field(&vec_u8(), &entries).unwrap();
    assert!(f.skip);
}

#[test]
fn bad_literal_is_reported_before_a_duplicate() {
    let entries = vec![
        FieldAttrEntry::ConstantPrefixAttr(PrefixLit::ByteLit(1)),
        FieldAttrEntry::ConstantPrefixAttr(PrefixLit::FloatLit),
    ];
    assert_eq!(
        build_field(&vec_u8(), &entries),
        Err(SchemaError::BadPrefixLiteral { fault: PrefixLitFault::FloatLiteral })
    );
}

#[test]
fn length_and_length_type_conflict() {
    let entries = vec![
        FieldAttrEntry::LengthAttr(3),
        FieldAttrEntry::LengthTypeAttr(Width::W8),
    ];
    assert_eq!(build_field(&vec_u8(), &entries), Err(SchemaError::ConflictingLengthOptions));
}

#[test]
fn length_options_need_a_variable_size_node() {
    let entries = vec![FieldAttrEntry::LengthAttr(3)];
    assert_eq!(
        build_field(&TypeRef::Bare(PathName::PU8), &entries),
        Err(SchemaError::UnsupportedOption { option: OptionKind::LengthOpt })
    );
    // `length` does not allow optional wrapping; `length_type` does.
    let opt_vec = TypeRef::Generic(PathName::POption, vec![TypeArg::TyArg(vec_u8())]);
    assert_eq!(
        build_field(&opt_vec, &vec![FieldAttrEntry::LengthAttr(3)]),
        Err(SchemaError::UnsupportedOption { option: OptionKind::LengthOpt })
    );
    let f = build_field(&opt_vec, &vec![FieldAttrEntry::LengthTypeAttr(Width::W16)]).unwrap();
    assert_eq!(f.length_type, Some(Width::W16));
    assert!(matches!(f.ty, Opt::Wrapped(SchemaNode::OwnedSequence(_))));
    // `length_type` on a fixed array is rejected.
    let arr = TypeRef::ArrayShape(Box::new(TypeRef::Bare(PathName::PU8)), 2);
    assert_eq!(
        build_field(&arr, &vec![FieldAttrEntry::LengthTypeAttr(Width::W16)]),
        Err(SchemaError::UnsupportedOption { option: OptionKind::LengthTypeOpt })
    );
}

#[test]
fn empty_prefix_is_normalized_away() {
    let entries = vec![FieldAttrEntry::ConstantPrefixAttr(PrefixLit::TextLit(vec![]))];
    let f = build_field(&vec_u8(), &entries).unwrap();
    assert_eq!(f.constant_prefix, None);
    let entries = vec![FieldAttrEntry::ConstantPrefixAttr(PrefixLit::TextLit(vec![65]))];
    let f = build_field(&vec_u8(), &entries).unwrap();
    assert_eq!(f.constant_prefix, Some(vec![65]));
}

#[test]
fn resolved_field_defaults() {
    let f = build_field(&vec_u8(), &vec![]).unwrap();
    assert!(!f.skip);
    assert!(!f.default_on_eof);
    assert_eq!(f.length, None);
    assert_eq!(f.length_type, None);
    assert_eq!(f.constant_prefix, None);
}

#[test]
fn variant_attributes_collect() {
    assert_eq!(collect_variant_attributes(&vec![]).unwrap().tag, None);
    assert_eq!(
        collect_variant_attributes(&vec![VariantAttrEntry::TagAttr(7)]).unwrap().tag,
        Some(7)
    );
    assert_eq!(
        collect_variant_attributes(&vec![
            VariantAttrEntry::TagAttr(7),
            VariantAttrEntry::TagAttr(8)
        ]),
        Err(SchemaError::DuplicateOption { option: OptionKind::TagOpt })
    );
}

#[test]
fn enum_attributes_collect() {
    let a = collect_enum_attributes(&vec![]).unwrap();
    assert_eq!(a.tag_type, None);
    assert!(!a.peek_tag);
    let a = collect_enum_attributes(&vec![
        EnumAttrEntry::TagTypeAttr(Width::W8),
        EnumAttrEntry::PeekTagAttr,
    ])
    .unwrap();
    assert_eq!(a.tag_type, Some(Width::W8));
    assert!(a.peek_tag);
    assert_eq!(
        collect_enum_attributes(&vec![
            EnumAttrEntry::TagTypeAttr(Width::W8),
            EnumAttrEntry::TagTypeAttr(Width::W16)
        ]),
        Err(SchemaError::DuplicateOption { option: OptionKind::TagTypeOpt })
    );
    assert_eq!(
        collect_enum_attributes(&vec![EnumAttrEntry::PeekTagAttr, EnumAttrEntry::PeekTagAttr]),
        Err(SchemaError::DuplicateOption { option: OptionKind::PeekTagOpt })
    );
}

#[test]
fn struct_attributes_collect() {
    assert_eq!(collect_struct_attributes(&vec![]), Ok(StructAttributes {}));
}
