//! The two error classes: schema-validation errors raised while resolving a
//! schema, and runtime errors raised while decoding or encoding values.

use vstd::prelude::*;

verus! {

/// A configuration option recognized on a field, variant or type.
#[derive(Clone, Copy, Debug, PartialEq, Eq, Structural)]
pub enum OptionKind {
    LengthOpt,
    LengthTypeOpt,
    DefaultOnEofOpt,
    SkipOpt,
    ConstantPrefixOpt,
    TagOpt,
    TagTypeOpt,
    PeekTagOpt,
}

/// Why a `constant_prefix` literal was rejected.
#[derive(Clone, Copy, Debug, PartialEq, Eq, Structural)]
pub enum PrefixLitFault {
    /// The expression is not one of the supported basic literal forms.
    NotABasicLiteral,
    /// An integer literal without a `u8` (or, when negated, `i8`) suffix.
    IntWithoutByteSuffix,
    /// A suffixed integer literal whose value does not fit in one byte.
    IntOutOfRange,
    /// Floating-point literals are not supported.
    FloatLiteral,
    /// Verbatim literals are not supported.
    VerbatimLiteral,
}

/// A schema-validation error: raised while resolving attributes, allocating
/// variant discriminants or classifying field types, always fatal to the
/// schema compilation at hand.
#[derive(Clone, Copy, Debug, PartialEq, Eq, Structural)]
pub enum SchemaError {
    /// The same option appeared twice on one element.
    DuplicateOption { option: OptionKind },
    /// `length` and `length_type` were both given for one field.
    ConflictingLengthOptions,
    /// The option is not supported on the field's schema node.
    UnsupportedOption { option: OptionKind },
    /// The `constant_prefix` literal has an unsupported form.
    BadPrefixLiteral { fault: PrefixLitFault },
    /// A variant's resolved discriminant exceeds the tag width's maximum.
    TagOverflow { variant: usize },
    /// Two variants resolved to the same discriminant value.
    DuplicateTag { tag: u64, first: usize, second: usize },
    /// A variant carries a source-level discriminant that is not an integer
    /// literal.
    UnsupportedDiscriminant { variant: usize },
}

/// Where in the schema a validation error was found.
#[derive(Clone, Copy, Debug, PartialEq, Eq, Structural)]
pub enum Loc {
    AtType,
    AtField { field: usize },
    AtVariant { variant: usize },
    /// A field of one variant of a sum type.
    AtVariantField { variant: usize, field: usize },
}

/// A schema-validation error together with the element it was found on.
#[derive(Clone, Copy, Debug, PartialEq, Eq, Structural)]
pub struct SchemaFault {
    pub loc: Loc,
    pub error: SchemaError,
}

/// A runtime error raised by a derived decode or encode procedure.
#[derive(Clone, Copy, Debug, PartialEq, Eq, Structural)]
pub enum CodecError {
    /// The input ended before the value was complete.
    UnexpectedEof,
    /// A decoded tag matches no variant of the sum type.
    InvalidVariantTag,
    /// The bytes read for a constant prefix differ from the declared prefix.
    PrefixMismatch,
    /// A length or integer does not fit the width it must be carried in.
    OutOfRange,
    /// On encode: the live collection's length differs from the field's
    /// `length` attribute.
    LengthMismatch,
    /// On encode: the value's shape does not match the schema node.
    ValueMismatch,
}

} // verus!
