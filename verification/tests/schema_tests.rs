use speedy_schema::schema::{
    classify, is_variable_size, node_of, Opt, PathName, SchemaNode, TypeArg, TypeRef,
};
use speedy_schema::wire::Width;

fn generic(name: PathName, args: Vec<TypeArg>) -> TypeRef {
    TypeRef::Generic(name, args)
}

fn ty_arg(t: TypeRef) -> TypeArg {
    TypeArg::TyArg(t)
}

fn bare_u8() -> TypeRef {
    TypeRef::Bare(PathName::PU8)
}

#[test]
fn classify_owned_string() {
    assert_eq!(node_of(&TypeRef::Bare(PathName::PString)), SchemaNode::OwnedString);
}

#[test]
fn classify_primitives() {
    assert_eq!(node_of(&TypeRef::Bare(PathName::PU8)), SchemaNode::Primitive(Width::W8));
    assert_eq!(node_of(&TypeRef::Bare(PathName::PU16)), SchemaNode::Primitive(Width::W16));
    assert_eq!(node_of(&TypeRef::Bare(PathName::PU32)), SchemaNode::Primitive(Width::W32));
    assert_eq!(node_of(&TypeRef::Bare(PathName::PU64)), SchemaNode::Primitive(Width::W64));
}

#[test]
fn classify_sequences_and_sets() {
    let v = generic(PathName::PVec, vec![ty_arg(bare_u8())]);
    assert_eq!(
        node_of(&v),
        SchemaNode::OwnedSequence(Box::new(SchemaNode::Primitive(Width::W8)))
    );
    let hs = generic(PathName::PHashSet, vec![ty_arg(bare_u8())]);
    assert_eq!(node_of(&hs), SchemaNode::SetNode(Box::new(SchemaNode::Primitive(Width::W8))));
    let bs = generic(PathName::PBTreeSet, vec![ty_arg(bare_u8())]);
    assert_eq!(node_of(&bs), SchemaNode::SetNode(Box::new(SchemaNode::Primitive(Width::W8))));
}

#[test]
fn classify_maps() {
    let m = generic(
        PathName::PHashMap,
        vec![ty_arg(bare_u8()), ty_arg(TypeRef::Bare(PathName::PString))],
    );
    assert_eq!(
        node_of(&m),
        SchemaNode::MapNode(
            Box::new(SchemaNode::Primitive(Width::W8)),
            Box::new(SchemaNode::OwnedString)
        )
    );
}

#[test]
fn classify_borrowed_shapes() {
    // Cow<'a, [u8]>
    let c = generic(
        PathName::PCow,
        vec![
            TypeArg::LifetimeArg,
            ty_arg(TypeRef::SliceShape(Box::new(bare_u8()))),
        ],
    );
    assert_eq!(
        node_of(&c),
        SchemaNode::BorrowedSlice(Box::new(SchemaNode::Primitive(Width::W8)))
    );
    // Cow<'a, str>
    let c = generic(
        PathName::PCow,
        vec![TypeArg::LifetimeArg, ty_arg(TypeRef::Bare(PathName::PStr))],
    );
    assert_eq!(node_of(&c), SchemaNode::BorrowedString);
    // Cow<'a, BTreeMap<u8, u8>>
    let inner = generic(PathName::PBTreeMap, vec![ty_arg(bare_u8()), ty_arg(bare_u8())]);
    let c = generic(PathName::PCow, vec![TypeArg::LifetimeArg, ty_arg(inner)]);
    assert!(matches!(node_of(&c), SchemaNode::MapNode(_, _)));
    // Cow of anything else is opaque.
    let c = generic(PathName::PCow, vec![TypeArg::LifetimeArg, ty_arg(bare_u8())]);
    assert_eq!(node_of(&c), SchemaNode::Opaque { min_size: 0 });
}

#[test]
fn classify_arrays() {
    let a = TypeRef::ArrayShape(Box::new(bare_u8()), 4);
    assert_eq!(
        node_of(&a),
        SchemaNode::FixedArray(Box::new(SchemaNode::Primitive(Width::W8)), 4)
    );
}

#[test]
fn unrecognized_shapes_are_opaque() {
    assert_eq!(node_of(&TypeRef::OtherShape), SchemaNode::Opaque { min_size: 0 });
    assert_eq!(node_of(&TypeRef::Bare(PathName::POther)), SchemaNode::Opaque { min_size: 0 });
    // A recognized name with the wrong number of arguments is opaque too.
    let v = generic(PathName::PVec, vec![ty_arg(bare_u8()), ty_arg(bare_u8())]);
    assert_eq!(node_of(&v), SchemaNode::Opaque { min_size: 0 });
    let v = generic(PathName::PVec, vec![TypeArg::LifetimeArg]);
    assert_eq!(node_of(&v), SchemaNode::Opaque { min_size: 0 });
    // An option that is not option-shaped is an opaque plain node.
    let o = generic(PathName::POption, vec![]);
    assert_eq!(classify(&o), Opt::Plain(SchemaNode::Opaque { min_size: 0 }));
}

#[test]
fn optional_wrapping_is_orthogonal() {
    let o = generic(
        PathName::POption,
        vec![ty_arg(generic(PathName::PVec, vec![ty_arg(bare_u8())]))],
    );
    assert_eq!(
        classify(&o),
        Opt::Wrapped(SchemaNode::OwnedSequence(Box::new(SchemaNode::Primitive(Width::W8))))
    );
    let plain = generic(PathName::PVec, vec![ty_arg(bare_u8())]);
    assert_eq!(
        classify(&plain),
        Opt::Plain(SchemaNode::OwnedSequence(Box::new(SchemaNode::Primitive(Width::W8))))
    );
}

#[test]
fn opt_inner_strips_the_wrapper() {
    let w: Opt<u32> = Opt::Wrapped(7);
    assert_eq!(*w.inner(), 7);
    let p: Opt<u32> = Opt::Plain(9);
    assert_eq!(*p.inner(), 9);
}

#[test]
fn variable_size_nodes() {
    assert!(is_variable_size(&SchemaNode::OwnedString));
    assert!(is_variable_size(&SchemaNode::BorrowedString));
    assert!(is_variable_size(&SchemaNode::SetNode(Box::new(SchemaNode::OwnedString))));
    assert!(!is_variable_size(&SchemaNode::Primitive(Width::W8)));
    assert!(!is_variable_size(&SchemaNode::FixedArray(Box::new(SchemaNode::OwnedString), 2)));
    assert!(!is_variable_size(&SchemaNode::Opaque { min_size: 3 }));
}
