//! Runtime values: what the derived decode procedures produce and the
//! derived encode procedures consume, together with their mathematical
//! model.

use vstd::prelude::*;

use crate::schema::{FieldView, SchemaNode};

verus! {

/// A runtime value, shaped by a schema node: an integer primitive, a byte
/// span (strings and opaque leaves), a list of elements (sequences, slices,
/// sets and fixed arrays), a list of key/value pairs (maps), or an optional.
#[derive(Debug, PartialEq, Eq)]
pub enum Value {
    UInt(u64),
    Bytes(Vec<u8>),
    ListVal(Vec<Value>),
    MapVal(Vec<(Value, Value)>),
    OptVal(Option<Box<Value>>),
}

/// The mathematical model of a runtime value.
#[verifier::ext_equal]
pub enum ValueV {
    VUInt(u64),
    VBytes(Seq<u8>),
    VList(Seq<ValueV>),
    VMap(Seq<(ValueV, ValueV)>),
    VOpt(Option<Box<ValueV>>),
}

pub open spec fn view_value(v: Value) -> ValueV
    decreases v, 1int, 0int,
{
    match v {
        Value::UInt(x) => ValueV::VUInt(x),
        Value::Bytes(b) => ValueV::VBytes(b@),
        Value::ListVal(items) => ValueV::VList(view_values(items@)),
        Value::MapVal(pairs) => ValueV::VMap(view_pairs(pairs@)),
        Value::OptVal(o) => match o {
            None => ValueV::VOpt(None),
            Some(b) => ValueV::VOpt(Some(Box::new(view_value(*b)))),
        },
    }
}

pub open spec fn view_values(s: Seq<Value>) -> Seq<ValueV>
    decreases s, 0int, s.len(),
{
    if s.len() == 0 {
        Seq::empty()
    } else {
        seq![view_value(s[0])] + view_values(s.skip(1))
    }
}

pub open spec fn view_pairs(s: Seq<(Value, Value)>) -> Seq<(ValueV, ValueV)>
    decreases s, 0int, s.len(),
{
    if s.len() == 0 {
        Seq::empty()
    } else {
        seq![(view_value(s[0].0), view_value(s[0].1))] + view_pairs(s.skip(1))
    }
}

impl View for Value {
    type V = ValueV;

    open spec fn view(&self) -> ValueV {
        view_value(*self)
    }
}

/// `view_values` maps the view over the sequence, element for element.
pub proof fn lemma_view_values_index(s: Seq<Value>, i: int)
    requires
        0 <= i < s.len(),
    ensures
        view_values(s).len() == s.len(),
        view_values(s)[i] == view_value(s[i]),
    decreases s.len(),
{
    lemma_view_values_len(s);
    if i > 0 {
        lemma_view_values_index(s.skip(1), i - 1);
    }
}

pub proof fn lemma_view_values_len(s: Seq<Value>)
    ensures
        view_values(s).len() == s.len(),
    decreases s.len(),
{
    if s.len() > 0 {
        lemma_view_values_len(s.skip(1));
    }
}

pub proof fn lemma_view_values_push(s: Seq<Value>, v: Value)
    ensures
        view_values(s.push(v)) == view_values(s).push(view_value(v)),
    decreases s.len(),
{
    if s.len() == 0 {
        assert(s.push(v).skip(1) =~= Seq::<Value>::empty());
        assert(s.push(v)[0] == v);
        assert(view_values(Seq::<Value>::empty()) =~= Seq::<ValueV>::empty());
        assert(view_values(s.push(v)) =~= view_values(s).push(view_value(v)));
    } else {
        assert(s.push(v).skip(1) =~= s.skip(1).push(v));
        assert(s.push(v)[0] == s[0]);
        lemma_view_values_push(s.skip(1), v);
        assert(view_values(s.push(v)) == seq![view_value(s[0])] + view_values(s.skip(1)).push(
            view_value(v),
        ));
        assert(view_values(s.push(v)) =~= view_values(s).push(view_value(v)));
    }
}

pub proof fn lemma_view_pairs_len(s: Seq<(Value, Value)>)
    ensures
        view_pairs(s).len() == s.len(),
    decreases s.len(),
{
    if s.len() > 0 {
        lemma_view_pairs_len(s.skip(1));
    }
}

pub proof fn lemma_view_pairs_index(s: Seq<(Value, Value)>, i: int)
    requires
        0 <= i < s.len(),
    ensures
        view_pairs(s).len() == s.len(),
        view_pairs(s)[i] == (view_value(s[i].0), view_value(s[i].1)),
    decreases s.len(),
{
    lemma_view_pairs_len(s);
    if i > 0 {
        lemma_view_pairs_index(s.skip(1), i - 1);
    }
}

pub proof fn lemma_view_pairs_push(s: Seq<(Value, Value)>, v: (Value, Value))
    ensures
        view_pairs(s.push(v)) == view_pairs(s).push((view_value(v.0), view_value(v.1))),
    decreases s.len(),
{
    if s.len() == 0 {
        assert(s.push(v).skip(1) =~= Seq::<(Value, Value)>::empty());
        assert(s.push(v)[0] == v);
        assert(view_pairs(Seq::<(Value, Value)>::empty()) =~= Seq::<(ValueV, ValueV)>::empty());
        assert(view_pairs(s.push(v)) =~= view_pairs(s).push((view_value(v.0), view_value(v.1))));
    } else {
        assert(s.push(v).skip(1) =~= s.skip(1).push(v));
        assert(s.push(v)[0] == s[0]);
        lemma_view_pairs_push(s.skip(1), v);
        assert(view_pairs(s.push(v)) == seq![(view_value(s[0].0), view_value(s[0].1))]
            + view_pairs(s.skip(1)).push((view_value(v.0), view_value(v.1))));
        assert(view_pairs(s.push(v)) =~= view_pairs(s).push((view_value(v.0), view_value(v.1))));
    }
}

/// The default value of a schema node: zero for primitives, empty for byte
/// spans and collections, element defaults for a fixed array, and a zero
/// blob of the declared size for an opaque leaf.
pub open spec fn default_of_node(n: SchemaNode) -> ValueV
    decreases n, 1int, 0int,
{
    match n {
        SchemaNode::Primitive(_) => ValueV::VUInt(0),
        SchemaNode::OwnedString => ValueV::VBytes(Seq::empty()),
        SchemaNode::BorrowedString => ValueV::VBytes(Seq::empty()),
        SchemaNode::OwnedSequence(_) => ValueV::VList(Seq::empty()),
        SchemaNode::BorrowedSlice(_) => ValueV::VList(Seq::empty()),
        SchemaNode::SetNode(_) => ValueV::VList(Seq::empty()),
        SchemaNode::MapNode(_, _) => ValueV::VMap(Seq::empty()),
        SchemaNode::FixedArray(e, len) => ValueV::VList(default_elems(*e, len as nat)),
        SchemaNode::Opaque { min_size } => ValueV::VBytes(
            Seq::new(min_size as nat, |i: int| 0u8),
        ),
    }
}

/// `count` copies of the element default.
pub open spec fn default_elems(e: SchemaNode, count: nat) -> Seq<ValueV>
    decreases e, 2int, count,
{
    if count == 0 {
        Seq::empty()
    } else {
        default_elems(e, (count - 1) as nat).push(default_of_node(e))
    }
}

pub proof fn lemma_default_elems_len(e: SchemaNode, count: nat)
    ensures
        default_elems(e, count).len() == count,
        forall|i: int| 0 <= i < count ==> default_elems(e, count)[i] == default_of_node(e),
    decreases count,
{
    if count > 0 {
        lemma_default_elems_len(e, (count - 1) as nat);
    }
}

/// The default value of a field: `None` for an optional-wrapped field, the
/// node's default otherwise.
pub open spec fn default_of_field(f: FieldView) -> ValueV {
    if f.ty.is_wrapped() {
        ValueV::VOpt(None)
    } else {
        default_of_node(f.ty.spec_inner())
    }
}

/// Construct a node's default value.
#[verifier::loop_isolation(false)]
pub fn default_value(n: &SchemaNode) -> (r: Value)
    ensures
        r@ == default_of_node(*n),
    decreases *n,
{
    match n {
        SchemaNode::Primitive(_) => Value::UInt(0),
        SchemaNode::OwnedString => {
            let b: Vec<u8> = Vec::new();
            proof {
                assert(b@ =~= Seq::<u8>::empty());
            }
            Value::Bytes(b)
        },
        SchemaNode::BorrowedString => {
            let b: Vec<u8> = Vec::new();
            proof {
                assert(b@ =~= Seq::<u8>::empty());
            }
            Value::Bytes(b)
        },
        SchemaNode::OwnedSequence(_) => {
            let items: Vec<Value> = Vec::new();
            proof {
                assert(view_values(items@) =~= Seq::<ValueV>::empty());
            }
            Value::ListVal(items)
        },
        SchemaNode::BorrowedSlice(_) => {
            let items: Vec<Value> = Vec::new();
            proof {
                assert(view_values(items@) =~= Seq::<ValueV>::empty());
            }
            Value::ListVal(items)
        },
        SchemaNode::SetNode(_) => {
            let items: Vec<Value> = Vec::new();
            proof {
                assert(view_values(items@) =~= Seq::<ValueV>::empty());
            }
            Value::ListVal(items)
        },
        SchemaNode::MapNode(_, _) => {
            let pairs: Vec<(Value, Value)> = Vec::new();
            proof {
                assert(view_pairs(pairs@) =~= Seq::<(ValueV, ValueV)>::empty());
            }
            Value::MapVal(pairs)
        },
        SchemaNode::FixedArray(e, len) => {
            let mut items: Vec<Value> = Vec::new();
            let mut i: u32 = 0;
            proof {
                lemma_default_elems_len(**e, *len as nat);
            }
            while i < *len
                invariant
                    i <= *len,
                    items@.len() == i,
                    view_values(items@) =~= default_elems(**e, i as nat),
                decreases *len - i,
            {
                let item = default_value(e);
                proof {
                    lemma_view_values_push(items@, item);
                }
                items.push(item);
                i = i + 1;
            }
            proof {
                assert(view_values(items@) =~= default_elems(**e, *len as nat));
            }
            Value::ListVal(items)
        },
        SchemaNode::Opaque { min_size } => {
            let mut b: Vec<u8> = Vec::new();
            let total: u64 = *min_size;
            let mut i: u64 = 0;
            while i < total
                invariant
                    i <= total,
                    b@.len() == i,
                    forall|k: int| 0 <= k < i ==> b@[k] == 0u8,
                decreases total - i,
            {
                b.push(0);
                i = i + 1;
            }
            proof {
                assert(b@ =~= Seq::new(total as nat, |k: int| 0u8));
            }
            Value::Bytes(b)
        },
    }
}

} // verus!
