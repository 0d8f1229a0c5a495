//! The schema model: schema nodes, field / variant / record / sum-type
//! descriptors, and the classification of a source type reference into
//! exactly one schema node.

use vstd::prelude::*;

use crate::wire::Width;

verus! {

/// A value that is either plain or wrapped in an `Option`-like container.
/// The wrapping is orthogonal to the inner classification.
#[derive(Debug, PartialEq, Eq)]
pub enum Opt<T> {
    Plain(T),
    Wrapped(T),
}

impl<T> Opt<T> {
    pub open spec fn spec_inner(self) -> T {
        match self {
            Opt::Plain(t) => t,
            Opt::Wrapped(t) => t,
        }
    }

    pub open spec fn is_wrapped(self) -> bool {
        self is Wrapped
    }

    /// The inner value, with the optional wrapping stripped.
    pub fn inner(&self) -> (r: &T)
        ensures
            *r == self.spec_inner(),
    {
        match self {
            Opt::Plain(inner) => inner,
            Opt::Wrapped(inner) => inner,
        }
    }
}

/// The structural classification of a type for codec purposes. Container
/// element, key and value types are themselves schema nodes; records and sum
/// types stand at the top of a schema and delegate nested user types to
/// opaque (externally-coded) leaves.
#[derive(Debug, PartialEq, Eq)]
pub enum SchemaNode {
    /// An integer with a built-in single-value codec of the given width.
    Primitive(Width),
    /// An owned string: length prefix, then that many bytes.
    OwnedString,
    /// A borrowed string; wire format identical to an owned string.
    BorrowedString,
    /// An owned sequence of elements: length prefix, then that many elements.
    OwnedSequence(Box<SchemaNode>),
    /// A borrowed slice; wire format identical to an owned sequence.
    BorrowedSlice(Box<SchemaNode>),
    /// A map: length prefix, then that many key/value pairs.
    MapNode(Box<SchemaNode>, Box<SchemaNode>),
    /// A set: length prefix, then that many elements.
    SetNode(Box<SchemaNode>),
    /// Exactly `N` consecutive elements, with no length prefix.
    FixedArray(Box<SchemaNode>, u32),
    /// A leaf delegated to an externally-defined codec, modelled as a byte
    /// span of the declared size; `min_size` is also its minimum-size
    /// contribution.
    Opaque { min_size: u64 },
}

/// Nodes that encode with a length prefix (or a `length` attribute): the
/// permitted node set for the `length` and `length_type` options.
pub open spec fn node_is_variable_size(n: SchemaNode) -> bool {
    ||| n is OwnedString
    ||| n is BorrowedString
    ||| n is OwnedSequence
    ||| n is BorrowedSlice
    ||| n is MapNode
    ||| n is SetNode
}

pub fn is_variable_size(n: &SchemaNode) -> (r: bool)
    ensures
        r == node_is_variable_size(*n),
{
    match n {
        SchemaNode::OwnedString => true,
        SchemaNode::BorrowedString => true,
        SchemaNode::OwnedSequence(_) => true,
        SchemaNode::BorrowedSlice(_) => true,
        SchemaNode::MapNode(_, _) => true,
        SchemaNode::SetNode(_) => true,
        _ => false,
    }
}

/// A field's schema node plus its resolved configuration bundle.
#[derive(Debug, PartialEq, Eq)]
pub struct FieldDescriptor {
    /// The field's node, possibly wrapped in an optional.
    pub ty: Opt<SchemaNode>,
    /// Never read or write this field; it decodes to its default value.
    pub skip: bool,
    /// On end-of-input while decoding this field, use the default value
    /// instead of failing.
    pub default_on_eof: bool,
    /// Use this value as the element count instead of a length prefix; on
    /// encode the live length must equal it.
    pub length: Option<u64>,
    /// The width of the field's length prefix, when it differs from the
    /// 32-bit default.
    pub length_type: Option<Width>,
    /// Fixed bytes required and emitted immediately before the field.
    pub constant_prefix: Option<Vec<u8>>,
}

impl FieldDescriptor {
    /// The width used to read and write this field's length prefix.
    pub fn length_width(&self) -> (r: Width)
        ensures
            r == self@.length_width(),
    {
        match self.length_type {
            Some(w) => w,
            None => Width::W32,
        }
    }

    pub open spec fn wf(self) -> bool {
        self@.wf()
    }
}

/// The mathematical model of a field descriptor: the same data with the
/// constant prefix as a byte sequence.
pub struct FieldView {
    pub ty: Opt<SchemaNode>,
    pub skip: bool,
    pub default_on_eof: bool,
    pub length: Option<u64>,
    pub length_type: Option<Width>,
    pub constant_prefix: Option<Seq<u8>>,
}

impl View for FieldDescriptor {
    type V = FieldView;

    open spec fn view(&self) -> FieldView {
        FieldView {
            ty: self.ty,
            skip: self.skip,
            default_on_eof: self.default_on_eof,
            length: self.length,
            length_type: self.length_type,
            constant_prefix: match self.constant_prefix {
                Some(ref p) => Some(p@),
                None => None,
            },
        }
    }
}

impl FieldView {
    /// The width used to read and write this field's length prefix.
    pub open spec fn length_width(self) -> Width {
        match self.length_type {
            Some(w) => w,
            None => Width::W32,
        }
    }

    /// The configuration invariants the attribute resolver establishes:
    /// `length` and `length_type` are mutually exclusive, `length` is valid
    /// only on plain variable-size nodes, and `length_type` also on
    /// optional-wrapped ones; an empty constant prefix is normalized away.
    pub open spec fn wf(self) -> bool {
        &&& !(self.length is Some && self.length_type is Some)
        &&& self.length is Some ==> !self.ty.is_wrapped() && node_is_variable_size(
            self.ty.spec_inner(),
        )
        &&& self.length_type is Some ==> node_is_variable_size(self.ty.spec_inner())
        &&& self.constant_prefix matches Some(p) ==> p.len() > 0
    }
}

/// How a record's fields are addressed; does not change the wire format.
#[derive(Clone, Copy, Debug, PartialEq, Eq, Structural)]
pub enum RecordKind {
    UnitRecord,
    NamedRecord,
    PositionalRecord,
}

/// An ordered sequence of fields; encodes as the concatenation of its
/// non-skipped fields' encodings, with no tag or length around the record.
#[derive(Debug, PartialEq, Eq)]
pub struct RecordDescriptor {
    pub kind: RecordKind,
    pub fields: Vec<FieldDescriptor>,
}

/// The mathematical model of a record descriptor.
pub struct RecordView {
    pub kind: RecordKind,
    pub fields: Seq<FieldView>,
}

impl View for RecordDescriptor {
    type V = RecordView;

    open spec fn view(&self) -> RecordView {
        RecordView { kind: self.kind, fields: self.fields@.map_values(|f: FieldDescriptor| f@) }
    }
}

impl RecordView {
    pub open spec fn wf(self) -> bool {
        forall|i: int| 0 <= i < self.fields.len() ==> (#[trigger] self.fields[i]).wf()
    }
}

/// One variant of a sum type: its resolved discriminant and payload shape.
#[derive(Debug, PartialEq, Eq)]
pub struct VariantDescriptor {
    pub tag: u64,
    pub record: RecordDescriptor,
}

/// A sum type: an ordered sequence of variants, the tag's width, and
/// whether the tag is only inspected (not consumed) by this type's decode.
#[derive(Debug, PartialEq, Eq)]
pub struct SumDescriptor {
    pub tag_width: Width,
    pub peek_tag: bool,
    pub variants: Vec<VariantDescriptor>,
}

/// The mathematical model of one variant.
pub struct VariantView {
    pub tag: u64,
    pub record: RecordView,
}

impl View for VariantDescriptor {
    type V = VariantView;

    open spec fn view(&self) -> VariantView {
        VariantView { tag: self.tag, record: self.record@ }
    }
}

/// The mathematical model of a sum-type descriptor.
pub struct SumView {
    pub tag_width: Width,
    pub peek_tag: bool,
    pub variants: Seq<VariantView>,
}

impl View for SumDescriptor {
    type V = SumView;

    open spec fn view(&self) -> SumView {
        SumView {
            tag_width: self.tag_width,
            peek_tag: self.peek_tag,
            variants: self.variants@.map_values(|v: VariantDescriptor| v@),
        }
    }
}

impl SumView {
    /// Discriminants fit the tag width, are unique, and every payload is
    /// well formed.
    pub open spec fn wf(self) -> bool {
        &&& forall|i: int|
            0 <= i < self.variants.len() ==> (#[trigger] self.variants[i]).tag
                <= crate::wire::spec_width_max(self.tag_width)
        &&& forall|i: int, j: int|
            0 <= i < j < self.variants.len() ==> self.variants[i].tag != self.variants[j].tag
        &&& forall|i: int| 0 <= i < self.variants.len() ==> (#[trigger] self.variants[i]).record.wf()
    }
}

/// The name of a single-segment type path, reduced to the names the
/// classifier distinguishes.
#[derive(Clone, Copy, Debug, PartialEq, Eq, Structural)]
pub enum PathName {
    PString,
    PStr,
    PVec,
    PHashMap,
    PHashSet,
    PBTreeMap,
    PBTreeSet,
    PCow,
    POption,
    PU8,
    PU16,
    PU32,
    PU64,
    POther,
}

/// One angle-bracketed generic argument of a type reference.
#[derive(Debug, PartialEq, Eq)]
pub enum TypeArg {
    LifetimeArg,
    TyArg(TypeRef),
    OtherArg,
}

/// A source type reference, reduced to the structure the classifier
/// inspects: single-segment paths with or without generic arguments, slices,
/// arrays with a literal length, and everything else.
#[derive(Debug, PartialEq, Eq)]
pub enum TypeRef {
    /// A single-segment path without generic arguments.
    Bare(PathName),
    /// A single-segment path with angle-bracketed generic arguments.
    Generic(PathName, Vec<TypeArg>),
    /// A slice `[T]`.
    SliceShape(Box<TypeRef>),
    /// An array `[T; N]` with an integer-literal length.
    ArrayShape(Box<TypeRef>, u32),
    /// Any other shape (multi-segment or qualified paths, references,
    /// tuples, pointers, arrays without a literal length, ...).
    OtherShape,
}

/// Classify a type reference into exactly one schema node. Total: every
/// reference gets a classification, and unrecognized shapes become opaque
/// leaves delegated to an external codec.
pub open spec fn spec_node_of(t: TypeRef) -> SchemaNode
    decreases t,
{
    match t {
        TypeRef::Bare(name) => match name {
            PathName::PString => SchemaNode::OwnedString,
            PathName::PU8 => SchemaNode::Primitive(Width::W8),
            PathName::PU16 => SchemaNode::Primitive(Width::W16),
            PathName::PU32 => SchemaNode::Primitive(Width::W32),
            PathName::PU64 => SchemaNode::Primitive(Width::W64),
            _ => SchemaNode::Opaque { min_size: 0 },
        },
        TypeRef::Generic(name, args) => {
            if name == PathName::PVec && args@.len() == 1 && args@[0] is TyArg {
                SchemaNode::OwnedSequence(Box::new(spec_node_of(args@[0]->TyArg_0)))
            } else if (name == PathName::PHashSet || name == PathName::PBTreeSet) && args@.len()
                == 1 && args@[0] is TyArg {
                SchemaNode::SetNode(Box::new(spec_node_of(args@[0]->TyArg_0)))
            } else if (name == PathName::PHashMap || name == PathName::PBTreeMap) && args@.len()
                == 2 && args@[0] is TyArg && args@[1] is TyArg {
                SchemaNode::MapNode(
                    Box::new(spec_node_of(args@[0]->TyArg_0)),
                    Box::new(spec_node_of(args@[1]->TyArg_0)),
                )
            } else if name == PathName::PCow && args@.len() == 2 && args@[0] is LifetimeArg
                && args@[1] is TyArg {
                spec_cow_node_of(args@[1]->TyArg_0)
            } else {
                SchemaNode::Opaque { min_size: 0 }
            }
        },
        TypeRef::ArrayShape(elem, len) => SchemaNode::FixedArray(
            Box::new(spec_node_of(*elem)),
            len,
        ),
        _ => SchemaNode::Opaque { min_size: 0 },
    }
}

/// Classify the type borrowed by a `Cow`-like reference: a slice, a bare
/// `str`, or one of the four collection shapes; anything else is opaque.
pub open spec fn spec_cow_node_of(inner: TypeRef) -> SchemaNode
    decreases inner,
{
    match inner {
        TypeRef::SliceShape(elem) => SchemaNode::BorrowedSlice(Box::new(spec_node_of(*elem))),
        TypeRef::Bare(name) => {
            if name == PathName::PStr {
                SchemaNode::BorrowedString
            } else {
                SchemaNode::Opaque { min_size: 0 }
            }
        },
        TypeRef::Generic(name, args) => {
            if (name == PathName::PHashSet || name == PathName::PBTreeSet) && args@.len() == 1
                && args@[0] is TyArg {
                SchemaNode::SetNode(Box::new(spec_node_of(args@[0]->TyArg_0)))
            } else if (name == PathName::PHashMap || name == PathName::PBTreeMap) && args@.len()
                == 2 && args@[0] is TyArg && args@[1] is TyArg {
                SchemaNode::MapNode(
                    Box::new(spec_node_of(args@[0]->TyArg_0)),
                    Box::new(spec_node_of(args@[1]->TyArg_0)),
                )
            } else {
                SchemaNode::Opaque { min_size: 0 }
            }
        },
        _ => SchemaNode::Opaque { min_size: 0 },
    }
}

/// Classify a field's type reference: an `Option`-like wrapper around a
/// recognized argument marks the field optional-wrapped, orthogonally to the
/// inner node's own classification.
pub open spec fn spec_classify(t: TypeRef) -> Opt<SchemaNode> {
    match t {
        TypeRef::Generic(name, args) => {
            if name == PathName::POption && args@.len() == 1 && args@[0] is TyArg {
                Opt::Wrapped(spec_node_of(args@[0]->TyArg_0))
            } else {
                Opt::Plain(spec_node_of(t))
            }
        },
        _ => Opt::Plain(spec_node_of(t)),
    }
}

/// Classify a type reference into a schema node.
pub fn node_of(t: &TypeRef) -> (r: SchemaNode)
    ensures
        r == spec_node_of(*t),
    decreases *t,
{
    match t {
        TypeRef::Bare(name) => match name {
            PathName::PString => SchemaNode::OwnedString,
            PathName::PU8 => SchemaNode::Primitive(Width::W8),
            PathName::PU16 => SchemaNode::Primitive(Width::W16),
            PathName::PU32 => SchemaNode::Primitive(Width::W32),
            PathName::PU64 => SchemaNode::Primitive(Width::W64),
            _ => SchemaNode::Opaque { min_size: 0 },
        },
        TypeRef::Generic(name, args) => {
            if (*name == PathName::PVec || *name == PathName::PHashSet || *name
                == PathName::PBTreeSet) && args.len() == 1 {
                match &args[0] {
                    TypeArg::TyArg(inner) => {
                        let elem = Box::new(node_of(inner));
                        if *name == PathName::PVec {
                            SchemaNode::OwnedSequence(elem)
                        } else {
                            SchemaNode::SetNode(elem)
                        }
                    },
                    _ => SchemaNode::Opaque { min_size: 0 },
                }
            } else if (*name == PathName::PHashMap || *name == PathName::PBTreeMap) && args.len()
                == 2 {
                match (&args[0], &args[1]) {
                    (TypeArg::TyArg(key), TypeArg::TyArg(value)) => SchemaNode::MapNode(
                        Box::new(node_of(key)),
                        Box::new(node_of(value)),
                    ),
                    _ => SchemaNode::Opaque { min_size: 0 },
                }
            } else if *name == PathName::PCow && args.len() == 2 {
                match (&args[0], &args[1]) {
                    (TypeArg::LifetimeArg, TypeArg::TyArg(inner)) => cow_node_of(inner),
                    _ => SchemaNode::Opaque { min_size: 0 },
                }
            } else {
                SchemaNode::Opaque { min_size: 0 }
            }
        },
        TypeRef::ArrayShape(elem, len) => SchemaNode::FixedArray(Box::new(node_of(elem)), *len),
        _ => SchemaNode::Opaque { min_size: 0 },
    }
}

fn cow_node_of(inner: &TypeRef) -> (r: SchemaNode)
    ensures
        r == spec_cow_node_of(*inner),
    decreases *inner,
{
    match inner {
        TypeRef::SliceShape(elem) => SchemaNode::BorrowedSlice(Box::new(node_of(elem))),
        TypeRef::Bare(name) => {
            if *name == PathName::PStr {
                SchemaNode::BorrowedString
            } else {
                SchemaNode::Opaque { min_size: 0 }
            }
        },
        TypeRef::Generic(name, args) => {
            if (*name == PathName::PHashSet || *name == PathName::PBTreeSet) && args.len() == 1 {
                match &args[0] {
                    TypeArg::TyArg(elem) => SchemaNode::SetNode(Box::new(node_of(elem))),
                    _ => SchemaNode::Opaque { min_size: 0 },
                }
            } else if (*name == PathName::PHashMap || *name == PathName::PBTreeMap) && args.len()
                == 2 {
                match (&args[0], &args[1]) {
                    (TypeArg::TyArg(key), TypeArg::TyArg(value)) => SchemaNode::MapNode(
                        Box::new(node_of(key)),
                        Box::new(node_of(value)),
                    ),
                    _ => SchemaNode::Opaque { min_size: 0 },
                }
            } else {
                SchemaNode::Opaque { min_size: 0 }
            }
        },
        _ => SchemaNode::Opaque { min_size: 0 },
    }
}

/// Classify a field's type reference, stripping one optional wrapper.
pub fn classify(t: &TypeRef) -> (r: Opt<SchemaNode>)
    ensures
        r == spec_classify(*t),
{
    match t {
        TypeRef::Generic(name, args) => {
            if *name == PathName::POption && args.len() == 1 {
                match &args[0] {
                    TypeArg::TyArg(inner) => Opt::Wrapped(node_of(inner)),
                    _ => Opt::Plain(node_of(t)),
                }
            } else {
                Opt::Plain(node_of(t))
            }
        },
        _ => Opt::Plain(node_of(t)),
    }
}

} // verus!
