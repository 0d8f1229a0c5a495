//! The attribute resolver: raw configuration entries attached to a field,
//! variant, record or sum type are checked for duplicates and conflicts and
//! folded into a validated configuration bundle.

use vstd::prelude::*;

use crate::error::{OptionKind, PrefixLitFault, SchemaError};
use crate::schema::{node_is_variable_size, spec_classify, FieldDescriptor, FieldView, TypeRef};
use crate::schema::classify;
use crate::wire::Width;

verus! {

/// The suffix of an integer literal, reduced to what matters: `u8`, `i8`,
/// or anything else (including no suffix).
#[derive(Clone, Copy, Debug, PartialEq, Eq, Structural)]
pub enum IntSuffix {
    SuffixU8,
    SuffixI8,
    NoByteSuffix,
}

/// The literal form given to `constant_prefix`, as the front end hands it
/// over. Only basic scalar literals resolve to prefix bytes.
#[derive(Debug, PartialEq, Eq)]
pub enum PrefixLit {
    /// A text literal, as its UTF-8 bytes.
    TextLit(Vec<u8>),
    /// A byte-string literal.
    BytesLit(Vec<u8>),
    /// A single byte literal.
    ByteLit(u8),
    /// A single character literal.
    CharLit(char),
    /// A boolean literal.
    BoolLit(bool),
    /// An integer literal, possibly negated, with its suffix.
    IntLit { negative: bool, magnitude: u64, suffix: IntSuffix },
    /// A floating-point literal.
    FloatLit,
    /// A verbatim literal.
    VerbatimLit,
    /// Any other expression form.
    OtherExpr,
}

/// The UTF-8 encoding of one character.
pub open spec fn utf8_of_char(c: char) -> Seq<u8> {
    let u = c as u32;
    if u < 0x80 {
        seq![u as u8]
    } else if u < 0x800 {
        seq![(0xC0 + u / 64) as u8, (0x80 + u % 64) as u8]
    } else if u < 0x10000 {
        seq![(0xE0 + u / 4096) as u8, (0x80 + (u / 64) % 64) as u8, (0x80 + u % 64) as u8]
    } else {
        seq![
            (0xF0 + u / 0x40000) as u8,
            (0x80 + (u / 4096) % 64) as u8,
            (0x80 + (u / 64) % 64) as u8,
            (0x80 + u % 64) as u8,
        ]
    }
}

/// Encode one character as UTF-8.
pub fn char_utf8_bytes(c: char) -> (r: Vec<u8>)
    ensures
        r@ == utf8_of_char(c),
{
    let u = c as u32;
    let mut out: Vec<u8> = Vec::new();
    if u < 0x80 {
        out.push(u as u8);
    } else if u < 0x800 {
        out.push((0xC0 + u / 64) as u8);
        out.push((0x80 + u % 64) as u8);
    } else if u < 0x10000 {
        out.push((0xE0 + u / 4096) as u8);
        out.push((0x80 + (u / 64) % 64) as u8);
        out.push((0x80 + u % 64) as u8);
    } else {
        out.push((0xF0 + u / 0x40000) as u8);
        out.push((0x80 + (u / 4096) % 64) as u8);
        out.push((0x80 + (u / 64) % 64) as u8);
        out.push((0x80 + u % 64) as u8);
    }
    proof {
        assert(out@ =~= utf8_of_char(c));
    }
    out
}

/// Resolve a `constant_prefix` literal to its bytes. Text, byte-string,
/// byte, character and boolean literals are accepted; an integer only with
/// an explicit one-byte suffix (`u8`, or `i8` under negation) and a value
/// that fits; everything else is rejected, naming the unsupported form.
pub open spec fn spec_resolve_prefix(l: PrefixLit) -> Result<Seq<u8>, SchemaError> {
    match l {
        PrefixLit::TextLit(b) => Ok(b@),
        PrefixLit::BytesLit(b) => Ok(b@),
        PrefixLit::ByteLit(x) => Ok(seq![x]),
        PrefixLit::CharLit(c) => Ok(utf8_of_char(c)),
        PrefixLit::BoolLit(b) => Ok(seq![if b { 1u8 } else { 0u8 }]),
        PrefixLit::IntLit { negative, magnitude, suffix } => {
            if !negative {
                if suffix == IntSuffix::SuffixU8 {
                    if magnitude <= 255 {
                        Ok(seq![magnitude as u8])
                    } else {
                        Err(SchemaError::BadPrefixLiteral { fault: PrefixLitFault::IntOutOfRange })
                    }
                } else {
                    Err(
                        SchemaError::BadPrefixLiteral {
                            fault: PrefixLitFault::IntWithoutByteSuffix,
                        },
                    )
                }
            } else {
                if suffix == IntSuffix::SuffixI8 {
                    if magnitude <= 127 {
                        Ok(seq![((256 - magnitude) % 256) as u8])
                    } else {
                        Err(SchemaError::BadPrefixLiteral { fault: PrefixLitFault::IntOutOfRange })
                    }
                } else if suffix == IntSuffix::SuffixU8 {
                    Err(SchemaError::BadPrefixLiteral { fault: PrefixLitFault::NotABasicLiteral })
                } else {
                    Err(
                        SchemaError::BadPrefixLiteral {
                            fault: PrefixLitFault::IntWithoutByteSuffix,
                        },
                    )
                }
            }
        },
        PrefixLit::FloatLit => Err(
            SchemaError::BadPrefixLiteral { fault: PrefixLitFault::FloatLiteral },
        ),
        PrefixLit::VerbatimLit => Err(
            SchemaError::BadPrefixLiteral { fault: PrefixLitFault::VerbatimLiteral },
        ),
        PrefixLit::OtherExpr => Err(
            SchemaError::BadPrefixLiteral { fault: PrefixLitFault::NotABasicLiteral },
        ),
    }
}

pub fn resolve_prefix(l: &PrefixLit) -> (r: Result<Vec<u8>, SchemaError>)
    ensures
        r matches Ok(b) ==> spec_resolve_prefix(*l) == Ok::<Seq<u8>, SchemaError>(b@),
        r matches Err(e) ==> spec_resolve_prefix(*l) == Err::<Seq<u8>, SchemaError>(e),
{
    match l {
        PrefixLit::TextLit(b) => {
            let mut out: Vec<u8> = Vec::new();
            let mut i: usize = 0;
            while i < b.len()
                invariant
                    i <= b@.len(),
                    out@ == b@.subrange(0, i as int),
                decreases b@.len() - i,
            {
                out.push(b[i]);
                i = i + 1;
                proof {
                    assert(out@ =~= b@.subrange(0, i as int));
                }
            }
            proof {
                assert(out@ =~= b@);
            }
            Ok(out)
        },
        PrefixLit::BytesLit(b) => {
            let mut out: Vec<u8> = Vec::new();
            let mut i: usize = 0;
            while i < b.len()
                invariant
                    i <= b@.len(),
                    out@ == b@.subrange(0, i as int),
                decreases b@.len() - i,
            {
                out.push(b[i]);
                i = i + 1;
                proof {
                    assert(out@ =~= b@.subrange(0, i as int));
                }
            }
            proof {
                assert(out@ =~= b@);
            }
            Ok(out)
        },
        PrefixLit::ByteLit(x) => {
            let mut out: Vec<u8> = Vec::new();
            out.push(*x);
            proof {
                assert(out@ =~= seq![*x]);
            }
            Ok(out)
        },
        PrefixLit::CharLit(c) => Ok(char_utf8_bytes(*c)),
        PrefixLit::BoolLit(b) => {
            let mut out: Vec<u8> = Vec::new();
            out.push(if *b { 1 } else { 0 });
            proof {
                assert(out@ =~= seq![if *b { 1u8 } else { 0u8 }]);
            }
            Ok(out)
        },
        PrefixLit::IntLit { negative, magnitude, suffix } => {
            if !*negative {
                if *suffix == IntSuffix::SuffixU8 {
                    if *magnitude <= 255 {
                        let mut out: Vec<u8> = Vec::new();
                        out.push(*magnitude as u8);
                        proof {
                            assert(out@ =~= seq![*magnitude as u8]);
                        }
                        Ok(out)
                    } else {
                        Err(SchemaError::BadPrefixLiteral { fault: PrefixLitFault::IntOutOfRange })
                    }
                } else {
                    Err(
                        SchemaError::BadPrefixLiteral {
                            fault: PrefixLitFault::IntWithoutByteSuffix,
                        },
                    )
                }
            } else {
                if *suffix == IntSuffix::SuffixI8 {
                    if *magnitude <= 127 {
                        let mut out: Vec<u8> = Vec::new();
                        out.push(((256 - *magnitude) % 256) as u8);
                        proof {
                            assert(out@ =~= seq![((256 - *magnitude as int) % 256) as u8]);
                        }
                        Ok(out)
                    } else {
                        Err(SchemaError::BadPrefixLiteral { fault: PrefixLitFault::IntOutOfRange })
                    }
                } else if *suffix == IntSuffix::SuffixU8 {
                    Err(SchemaError::BadPrefixLiteral { fault: PrefixLitFault::NotABasicLiteral })
                } else {
                    Err(
                        SchemaError::BadPrefixLiteral {
                            fault: PrefixLitFault::IntWithoutByteSuffix,
                        },
                    )
                }
            }
        },
        PrefixLit::FloatLit => Err(
            SchemaError::BadPrefixLiteral { fault: PrefixLitFault::FloatLiteral },
        ),
        PrefixLit::VerbatimLit => Err(
            SchemaError::BadPrefixLiteral { fault: PrefixLitFault::VerbatimLiteral },
        ),
        PrefixLit::OtherExpr => Err(
            SchemaError::BadPrefixLiteral { fault: PrefixLitFault::NotABasicLiteral },
        ),
    }
}

/// One raw configuration entry on a field.
#[derive(Debug, PartialEq, Eq)]
pub enum FieldAttrEntry {
    DefaultOnEofAttr,
    LengthAttr(u64),
    LengthTypeAttr(Width),
    SkipAttr,
    ConstantPrefixAttr(PrefixLit),
}

/// One raw configuration entry on a variant.
#[derive(Clone, Copy, Debug, PartialEq, Eq, Structural)]
pub enum VariantAttrEntry {
    TagAttr(u64),
}

/// One raw configuration entry on a sum type.
#[derive(Clone, Copy, Debug, PartialEq, Eq, Structural)]
pub enum EnumAttrEntry {
    TagTypeAttr(Width),
    PeekTagAttr,
}

/// A raw configuration entry on a record. No record-level option is
/// recognized, so the front end never produces one; the category exists so
/// that record-level attribute groups are collected like the others, and
/// collecting ignores whatever it is handed.
#[derive(Clone, Copy, Debug, PartialEq, Eq, Structural)]
pub struct StructAttribute {}

/// The (empty) validated record-level configuration.
#[derive(Clone, Copy, Debug, PartialEq, Eq, Structural)]
pub struct StructAttributes {}

/// The validated variant-level configuration.
#[derive(Clone, Copy, Debug, PartialEq, Eq, Structural)]
pub struct VariantAttributes {
    pub tag: Option<u64>,
}

/// The validated sum-type-level configuration.
#[derive(Clone, Copy, Debug, PartialEq, Eq, Structural)]
pub struct EnumAttributes {
    pub tag_type: Option<Width>,
    pub peek_tag: bool,
}

/// The partially folded field configuration while entries are collected.
pub struct FieldConfig {
    pub default_on_eof: bool,
    pub length: Option<u64>,
    pub length_type: Option<Width>,
    pub skip: bool,
    pub constant_prefix: Option<Seq<u8>>,
}

pub open spec fn empty_field_config() -> FieldConfig {
    FieldConfig {
        default_on_eof: false,
        length: None,
        length_type: None,
        skip: false,
        constant_prefix: None,
    }
}

/// Fold one entry into the configuration; a second occurrence of the same
/// option (other than `skip`) is a duplicate-option error.
pub open spec fn spec_field_step(acc: FieldConfig, e: FieldAttrEntry) -> Result<
    FieldConfig,
    SchemaError,
> {
    match e {
        FieldAttrEntry::DefaultOnEofAttr => {
            if acc.default_on_eof {
                Err(SchemaError::DuplicateOption { option: OptionKind::DefaultOnEofOpt })
            } else {
                Ok(FieldConfig { default_on_eof: true, ..acc })
            }
        },
        FieldAttrEntry::LengthAttr(v) => {
            if acc.length is Some {
                Err(SchemaError::DuplicateOption { option: OptionKind::LengthOpt })
            } else {
                Ok(FieldConfig { length: Some(v), ..acc })
            }
        },
        FieldAttrEntry::LengthTypeAttr(w) => {
            if acc.length_type is Some {
                Err(SchemaError::DuplicateOption { option: OptionKind::LengthTypeOpt })
            } else {
                Ok(FieldConfig { length_type: Some(w), ..acc })
            }
        },
        FieldAttrEntry::SkipAttr => Ok(FieldConfig { skip: true, ..acc }),
        FieldAttrEntry::ConstantPrefixAttr(l) => {
            if acc.constant_prefix is Some {
                Err(SchemaError::DuplicateOption { option: OptionKind::ConstantPrefixOpt })
            } else {
                match spec_resolve_prefix(l) {
                    Ok(b) => Ok(FieldConfig { constant_prefix: Some(b), ..acc }),
                    Err(e) => Err(e),
                }
            }
        },
    }
}

/// Fold the entries from index `i` on into the configuration.
pub open spec fn spec_collect_field_from(
    entries: Seq<FieldAttrEntry>,
    i: int,
    acc: FieldConfig,
) -> Result<FieldConfig, SchemaError>
    decreases entries.len() - i,
{
    if i < 0 || i >= entries.len() {
        Ok(acc)
    } else {
        match spec_field_step(acc, entries[i]) {
            Ok(acc2) => spec_collect_field_from(entries, i + 1, acc2),
            Err(e) => Err(e),
        }
    }
}

/// The first unresolvable `constant_prefix` literal at or after index `i`,
/// if any. Literal faults are reported before duplicate detection, because
/// every entry is parsed before any is folded.
pub open spec fn spec_first_prefix_fault(entries: Seq<FieldAttrEntry>, i: int) -> Option<
    SchemaError,
>
    decreases entries.len() - i,
{
    if i < 0 || i >= entries.len() {
        None
    } else {
        match entries[i] {
            FieldAttrEntry::ConstantPrefixAttr(l) => match spec_resolve_prefix(l) {
                Err(e) => Some(e),
                Ok(_) => spec_first_prefix_fault(entries, i + 1),
            },
            _ => spec_first_prefix_fault(entries, i + 1),
        }
    }
}

/// Resolve a field: fold its configuration entries, normalize an empty
/// prefix away, reject `length` together with `length_type`, classify the
/// field's type, and reject `length`/`length_type` on nodes that do not
/// support them.
pub open spec fn spec_build_field(t: TypeRef, entries: Seq<FieldAttrEntry>) -> Result<
    FieldView,
    SchemaError,
> {
    if spec_first_prefix_fault(entries, 0) is Some {
        Err(spec_first_prefix_fault(entries, 0)->0)
    } else {
        match spec_collect_field_from(entries, 0, empty_field_config()) {
            Err(e) => Err(e),
            Ok(acc) => {
                let prefix = match acc.constant_prefix {
                    Some(b) => if b.len() == 0 {
                        None
                    } else {
                        Some(b)
                    },
                    None => None,
                };
                if acc.length is Some && acc.length_type is Some {
                    Err(SchemaError::ConflictingLengthOptions)
                } else {
                    let ty = spec_classify(t);
                    if acc.length is Some && !(ty is Plain && node_is_variable_size(
                        ty.spec_inner(),
                    )) {
                        Err(SchemaError::UnsupportedOption { option: OptionKind::LengthOpt })
                    } else if acc.length_type is Some && !node_is_variable_size(ty.spec_inner()) {
                        Err(SchemaError::UnsupportedOption { option: OptionKind::LengthTypeOpt })
                    } else {
                        Ok(
                            FieldView {
                                ty,
                                skip: acc.skip,
                                default_on_eof: acc.default_on_eof,
                                length: acc.length,
                                length_type: acc.length_type,
                                constant_prefix: prefix,
                            },
                        )
                    }
                }
            },
        }
    }
}

/// The configuration of the exec locals during collection.
pub open spec fn config_of(
    default_on_eof: bool,
    length: Option<u64>,
    length_type: Option<Width>,
    skip: bool,
    constant_prefix: Option<Vec<u8>>,
) -> FieldConfig {
    FieldConfig {
        default_on_eof,
        length,
        length_type,
        skip,
        constant_prefix: match constant_prefix {
            Some(p) => Some(p@),
            None => None,
        },
    }
}

/// Resolve one field's type reference and configuration entries into a
/// validated field descriptor.
pub fn build_field(t: &TypeRef, entries: &Vec<FieldAttrEntry>) -> (r: Result<
    FieldDescriptor,
    SchemaError,
>)
    ensures
        r matches Ok(f) ==> spec_build_field(*t, entries@) == Ok::<FieldView, SchemaError>(f@),
        r matches Err(e) ==> spec_build_field(*t, entries@) == Err::<FieldView, SchemaError>(e),
{
    // Every entry's literal is resolved before any entry is folded, so a bad
    // literal is reported ahead of a duplicate.
    let mut i: usize = 0;
    while i < entries.len()
        invariant
            i <= entries@.len(),
            spec_first_prefix_fault(entries@, 0) == spec_first_prefix_fault(entries@, i as int),
        decreases entries@.len() - i,
    {
        match &entries[i] {
            FieldAttrEntry::ConstantPrefixAttr(l) => {
                match resolve_prefix(l) {
                    Err(e) => {
                        return Err(e);
                    },
                    Ok(_) => {},
                }
            },
            _ => {},
        }
        i = i + 1;
    }
    let mut default_on_eof: bool = false;
    let mut length: Option<u64> = None;
    let mut length_type: Option<Width> = None;
    let mut skip: bool = false;
    let mut constant_prefix: Option<Vec<u8>> = None;
    let mut j: usize = 0;
    while j < entries.len()
        invariant
            j <= entries@.len(),
            spec_first_prefix_fault(entries@, 0) is None,
            spec_collect_field_from(entries@, 0, empty_field_config())
                == spec_collect_field_from(
                entries@,
                j as int,
                config_of(default_on_eof, length, length_type, skip, constant_prefix),
            ),
        decreases entries@.len() - j,
    {
        match &entries[j] {
            FieldAttrEntry::DefaultOnEofAttr => {
                if default_on_eof {
                    return Err(SchemaError::DuplicateOption { option: OptionKind::DefaultOnEofOpt });
                }
                default_on_eof = true;
            },
            FieldAttrEntry::LengthAttr(v) => {
                if length.is_some() {
                    return Err(SchemaError::DuplicateOption { option: OptionKind::LengthOpt });
                }
                length = Some(*v);
            },
            FieldAttrEntry::LengthTypeAttr(w) => {
                if length_type.is_some() {
                    return Err(SchemaError::DuplicateOption { option: OptionKind::LengthTypeOpt });
                }
                length_type = Some(*w);
            },
            FieldAttrEntry::SkipAttr => {
                skip = true;
            },
            FieldAttrEntry::ConstantPrefixAttr(l) => {
                if constant_prefix.is_some() {
                    return Err(
                        SchemaError::DuplicateOption { option: OptionKind::ConstantPrefixOpt },
                    );
                }
                match resolve_prefix(l) {
                    Ok(b) => {
                        constant_prefix = Some(b);
                    },
                    Err(e) => {
                        return Err(e);
                    },
                }
            },
        }
        j = j + 1;
    }
    let prefix = match constant_prefix {
        Some(b) => if b.len() == 0 {
            None
        } else {
            Some(b)
        },
        None => None,
    };
    if length.is_some() && length_type.is_some() {
        return Err(SchemaError::ConflictingLengthOptions);
    }
    let ty = classify(t);
    let variable = crate::schema::is_variable_size(ty.inner());
    let plain = match &ty {
        crate::schema::Opt::Plain(_) => true,
        crate::schema::Opt::Wrapped(_) => false,
    };
    if length.is_some() && !(plain && variable) {
        return Err(SchemaError::UnsupportedOption { option: OptionKind::LengthOpt });
    }
    if length_type.is_some() && !variable {
        return Err(SchemaError::UnsupportedOption { option: OptionKind::LengthTypeOpt });
    }
    Ok(
        FieldDescriptor {
            ty,
            skip,
            default_on_eof,
            length,
            length_type,
            constant_prefix: prefix,
        },
    )
}

/// Fold the variant entries from index `i` on; a second `tag` is a
/// duplicate-option error.
pub open spec fn spec_collect_variant_from(
    entries: Seq<VariantAttrEntry>,
    i: int,
    acc: Option<u64>,
) -> Result<VariantAttributes, SchemaError>
    decreases entries.len() - i,
{
    if i < 0 || i >= entries.len() {
        Ok(VariantAttributes { tag: acc })
    } else {
        match entries[i] {
            VariantAttrEntry::TagAttr(tag) => {
                if acc is Some {
                    Err(SchemaError::DuplicateOption { option: OptionKind::TagOpt })
                } else {
                    spec_collect_variant_from(entries, i + 1, Some(tag))
                }
            },
        }
    }
}

/// Collect a variant's configuration: at most one explicit `tag`.
pub fn collect_variant_attributes(entries: &Vec<VariantAttrEntry>) -> (r: Result<
    VariantAttributes,
    SchemaError,
>)
    ensures
        r == spec_collect_variant_from(entries@, 0, None),
{
    let mut tag: Option<u64> = None;
    let mut i: usize = 0;
    while i < entries.len()
        invariant
            i <= entries@.len(),
            spec_collect_variant_from(entries@, 0, None) == spec_collect_variant_from(
                entries@,
                i as int,
                tag,
            ),
        decreases entries@.len() - i,
    {
        match &entries[i] {
            VariantAttrEntry::TagAttr(t) => {
                if tag.is_some() {
                    return Err(SchemaError::DuplicateOption { option: OptionKind::TagOpt });
                }
                tag = Some(*t);
            },
        }
        i = i + 1;
    }
    Ok(VariantAttributes { tag })
}

/// Fold the sum-type entries from index `i` on; a second `tag_type` or
/// `peek_tag` is a duplicate-option error.
pub open spec fn spec_collect_enum_from(
    entries: Seq<EnumAttrEntry>,
    i: int,
    acc: EnumAttributes,
) -> Result<EnumAttributes, SchemaError>
    decreases entries.len() - i,
{
    if i < 0 || i >= entries.len() {
        Ok(acc)
    } else {
        match entries[i] {
            EnumAttrEntry::TagTypeAttr(w) => {
                if acc.tag_type is Some {
                    Err(SchemaError::DuplicateOption { option: OptionKind::TagTypeOpt })
                } else {
                    spec_collect_enum_from(
                        entries,
                        i + 1,
                        EnumAttributes { tag_type: Some(w), ..acc },
                    )
                }
            },
            EnumAttrEntry::PeekTagAttr => {
                if acc.peek_tag {
                    Err(SchemaError::DuplicateOption { option: OptionKind::PeekTagOpt })
                } else {
                    spec_collect_enum_from(entries, i + 1, EnumAttributes { peek_tag: true, ..acc })
                }
            },
        }
    }
}

/// Collect a sum type's configuration: at most one `tag_type` and one
/// `peek_tag`.
pub fn collect_enum_attributes(entries: &Vec<EnumAttrEntry>) -> (r: Result<
    EnumAttributes,
    SchemaError,
>)
    ensures
        r == spec_collect_enum_from(
            entries@,
            0,
            EnumAttributes { tag_type: None, peek_tag: false },
        ),
{
    let mut acc = EnumAttributes { tag_type: None, peek_tag: false };
    let mut i: usize = 0;
    while i < entries.len()
        invariant
            i <= entries@.len(),
            spec_collect_enum_from(
                entries@,
                0,
                EnumAttributes { tag_type: None, peek_tag: false },
            ) == spec_collect_enum_from(entries@, i as int, acc),
        decreases entries@.len() - i,
    {
        match &entries[i] {
            EnumAttrEntry::TagTypeAttr(w) => {
                if acc.tag_type.is_some() {
                    return Err(SchemaError::DuplicateOption { option: OptionKind::TagTypeOpt });
                }
                acc = EnumAttributes { tag_type: Some(*w), peek_tag: acc.peek_tag };
            },
            EnumAttrEntry::PeekTagAttr => {
                if acc.peek_tag {
                    return Err(SchemaError::DuplicateOption { option: OptionKind::PeekTagOpt });
                }
                acc = EnumAttributes { tag_type: acc.tag_type, peek_tag: true };
            },
        }
        i = i + 1;
    }
    Ok(acc)
}

/// The number of `tag` entries at or after index `i`.
pub open spec fn count_tag_entries(entries: Seq<VariantAttrEntry>, i: int) -> nat
    decreases entries.len() - i,
{
    if i < 0 || i >= entries.len() {
        0
    } else {
        1 + count_tag_entries(entries, i + 1)
    }
}

/// A variant's configuration resolves exactly when `tag` is given at most
/// once; the resolved tag is the unique entry's value.
pub proof fn lemma_collect_variant_ok_iff(entries: Seq<VariantAttrEntry>)
    ensures
        spec_collect_variant_from(entries, 0, None) is Ok <==> count_tag_entries(entries, 0) <= 1,
        spec_collect_variant_from(entries, 0, None) matches Ok(va) ==> (va.tag is Some
            <==> entries.len() >= 1),
{
    lemma_collect_variant_characterized(entries, 0, None);
}

proof fn lemma_collect_variant_characterized(
    entries: Seq<VariantAttrEntry>,
    i: int,
    acc: Option<u64>,
)
    requires
        0 <= i,
    ensures
        spec_collect_variant_from(entries, i, acc) is Ok <==> count_tag_entries(entries, i) + (
        if acc is Some {
            1nat
        } else {
            0nat
        }) <= 1,
        spec_collect_variant_from(entries, i, acc) matches Ok(va) ==> (va.tag is Some <==> (
        acc is Some || count_tag_entries(entries, i) >= 1)),
    decreases entries.len() - i,
{
    if i < entries.len() {
        match entries[i] {
            VariantAttrEntry::TagAttr(tag) => {
                if !(acc is Some) {
                    lemma_collect_variant_characterized(entries, i + 1, Some(tag));
                }
            },
        }
    }
}

/// The number of sum-type entries of the given form at or after index `i`:
/// `true` counts `tag_type`, `false` counts `peek_tag`.
pub open spec fn count_enum_entries(entries: Seq<EnumAttrEntry>, tag_type: bool, i: int) -> nat
    decreases entries.len() - i,
{
    if i < 0 || i >= entries.len() {
        0
    } else {
        (if (entries[i] is TagTypeAttr) == tag_type {
            1nat
        } else {
            0nat
        }) + count_enum_entries(entries, tag_type, i + 1)
    }
}

/// A sum type's configuration resolves exactly when `tag_type` and
/// `peek_tag` are each given at most once.
pub proof fn lemma_collect_enum_ok_iff(entries: Seq<EnumAttrEntry>)
    ensures
        spec_collect_enum_from(entries, 0, EnumAttributes { tag_type: None, peek_tag: false })
            is Ok <==> (count_enum_entries(entries, true, 0) <= 1 && count_enum_entries(
            entries,
            false,
            0,
        ) <= 1),
{
    lemma_collect_enum_characterized(
        entries,
        0,
        EnumAttributes { tag_type: None, peek_tag: false },
    );
}

proof fn lemma_collect_enum_characterized(entries: Seq<EnumAttrEntry>, i: int, acc: EnumAttributes)
    requires
        0 <= i,
    ensures
        spec_collect_enum_from(entries, i, acc) is Ok <==> ({
            &&& count_enum_entries(entries, true, i) + (if acc.tag_type is Some {
                1nat
            } else {
                0nat
            }) <= 1
            &&& count_enum_entries(entries, false, i) + (if acc.peek_tag {
                1nat
            } else {
                0nat
            }) <= 1
        }),
    decreases entries.len() - i,
{
    if i < entries.len() {
        match entries[i] {
            EnumAttrEntry::TagTypeAttr(w) => {
                if !(acc.tag_type is Some) {
                    lemma_collect_enum_characterized(
                        entries,
                        i + 1,
                        EnumAttributes { tag_type: Some(w), ..acc },
                    );
                }
            },
            EnumAttrEntry::PeekTagAttr => {
                if !acc.peek_tag {
                    lemma_collect_enum_characterized(
                        entries,
                        i + 1,
                        EnumAttributes { peek_tag: true, ..acc },
                    );
                }
            },
        }
    }
}

/// Whether an entry is an occurrence of the given option.
pub open spec fn entry_is(e: FieldAttrEntry, k: OptionKind) -> bool {
    match e {
        FieldAttrEntry::DefaultOnEofAttr => k == OptionKind::DefaultOnEofOpt,
        FieldAttrEntry::LengthAttr(_) => k == OptionKind::LengthOpt,
        FieldAttrEntry::LengthTypeAttr(_) => k == OptionKind::LengthTypeOpt,
        FieldAttrEntry::SkipAttr => k == OptionKind::SkipOpt,
        FieldAttrEntry::ConstantPrefixAttr(_) => k == OptionKind::ConstantPrefixOpt,
    }
}

/// How many entries of the given option stand at or after index `i`.
pub open spec fn count_entries(entries: Seq<FieldAttrEntry>, k: OptionKind, i: int) -> nat
    decreases entries.len() - i,
{
    if i < 0 || i >= entries.len() {
        0
    } else {
        (if entry_is(entries[i], k) {
            1nat
        } else {
            0nat
        }) + count_entries(entries, k, i + 1)
    }
}

/// Every `constant_prefix` entry carries a resolvable literal.
pub open spec fn prefixes_resolve(entries: Seq<FieldAttrEntry>) -> bool {
    forall|i: int|
        0 <= i < entries.len() ==> ((#[trigger] entries[i]) matches
        FieldAttrEntry::ConstantPrefixAttr(l) ==> spec_resolve_prefix(l) is Ok)
}

/// Exactly when a field's configuration resolves: every prefix literal is a
/// supported form, no option but `skip` is repeated, `length` and
/// `length_type` are not both given, and each is given only on a node that
/// supports it.
pub open spec fn field_config_clean(t: TypeRef, entries: Seq<FieldAttrEntry>) -> bool {
    let ty = spec_classify(t);
    &&& prefixes_resolve(entries)
    &&& count_entries(entries, OptionKind::DefaultOnEofOpt, 0) <= 1
    &&& count_entries(entries, OptionKind::LengthOpt, 0) <= 1
    &&& count_entries(entries, OptionKind::LengthTypeOpt, 0) <= 1
    &&& count_entries(entries, OptionKind::ConstantPrefixOpt, 0) <= 1
    &&& !(count_entries(entries, OptionKind::LengthOpt, 0) >= 1 && count_entries(
        entries,
        OptionKind::LengthTypeOpt,
        0,
    ) >= 1)
    &&& count_entries(entries, OptionKind::LengthOpt, 0) >= 1 ==> ty is Plain
        && node_is_variable_size(ty.spec_inner())
    &&& count_entries(entries, OptionKind::LengthTypeOpt, 0) >= 1 ==> node_is_variable_size(
        ty.spec_inner(),
    )
}

proof fn lemma_first_prefix_fault_none(entries: Seq<FieldAttrEntry>, i: int)
    requires
        0 <= i,
    ensures
        spec_first_prefix_fault(entries, i) is None <==> (forall|k: int|
            i <= k < entries.len() ==> ((#[trigger] entries[k]) matches
            FieldAttrEntry::ConstantPrefixAttr(l) ==> spec_resolve_prefix(l) is Ok)),
    decreases entries.len() - i,
{
    if i < entries.len() {
        lemma_first_prefix_fault_none(entries, i + 1);
    }
}

/// Whether the accumulator already holds an occurrence of the option.
spec fn acc_has(acc: FieldConfig, k: OptionKind) -> bool {
    match k {
        OptionKind::DefaultOnEofOpt => acc.default_on_eof,
        OptionKind::LengthOpt => acc.length is Some,
        OptionKind::LengthTypeOpt => acc.length_type is Some,
        OptionKind::ConstantPrefixOpt => acc.constant_prefix is Some,
        OptionKind::SkipOpt => acc.skip,
        _ => false,
    }
}

proof fn lemma_collect_characterized(entries: Seq<FieldAttrEntry>, i: int, acc: FieldConfig)
    requires
        0 <= i,
        forall|k: int|
            i <= k < entries.len() ==> ((#[trigger] entries[k]) matches
            FieldAttrEntry::ConstantPrefixAttr(l) ==> spec_resolve_prefix(l) is Ok),
    ensures
        spec_collect_field_from(entries, i, acc) is Ok <==> ({
            &&& count_entries(entries, OptionKind::DefaultOnEofOpt, i) + (if acc_has(
                acc,
                OptionKind::DefaultOnEofOpt,
            ) {
                1nat
            } else {
                0nat
            }) <= 1
            &&& count_entries(entries, OptionKind::LengthOpt, i) + (if acc_has(
                acc,
                OptionKind::LengthOpt,
            ) {
                1nat
            } else {
                0nat
            }) <= 1
            &&& count_entries(entries, OptionKind::LengthTypeOpt, i) + (if acc_has(
                acc,
                OptionKind::LengthTypeOpt,
            ) {
                1nat
            } else {
                0nat
            }) <= 1
            &&& count_entries(entries, OptionKind::ConstantPrefixOpt, i) + (if acc_has(
                acc,
                OptionKind::ConstantPrefixOpt,
            ) {
                1nat
            } else {
                0nat
            }) <= 1
        }),
        spec_collect_field_from(entries, i, acc) matches Ok(res) ==> {
            &&& res.length is Some <==> (acc.length is Some || count_entries(
                entries,
                OptionKind::LengthOpt,
                i,
            ) >= 1)
            &&& res.length_type is Some <==> (acc.length_type is Some || count_entries(
                entries,
                OptionKind::LengthTypeOpt,
                i,
            ) >= 1)
        },
    decreases entries.len() - i,
{
    if i < entries.len() {
        match spec_field_step(acc, entries[i]) {
            Ok(acc2) => {
                lemma_collect_characterized(entries, i + 1, acc2);
            },
            Err(_) => {
                lemma_collect_characterized(entries, i + 1, acc);
            },
        }
    }
}

/// A field's configuration resolves exactly when it is clean: no
/// unsupported prefix literal, no duplicate of a duplicate-checked option,
/// no `length` together with `length_type`, and the length options only on
/// nodes that support them.
pub proof fn lemma_build_field_ok_iff(t: TypeRef, entries: Seq<FieldAttrEntry>)
    ensures
        spec_build_field(t, entries) is Ok <==> field_config_clean(t, entries),
{
    lemma_first_prefix_fault_none(entries, 0);
    if spec_first_prefix_fault(entries, 0) is None {
        lemma_collect_characterized(entries, 0, empty_field_config());
    }
}

/// Collect a record's configuration. No record-level options are
/// recognized, so this always succeeds with the empty bundle.
pub fn collect_struct_attributes(attrs: &Vec<StructAttribute>) -> (r: Result<
    StructAttributes,
    SchemaError,
>)
    ensures
        r == Ok::<StructAttributes, SchemaError>(StructAttributes {  }),
{
    let mut i: usize = 0;
    while i < attrs.len()
        invariant
            i <= attrs@.len(),
        decreases attrs@.len() - i,
    {
        i = i + 1;
    }
    Ok(StructAttributes {  })
}

} // verus!
