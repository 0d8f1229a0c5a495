//! The executable decoders, proved equal to the spec decoding. Each takes
//! the buffer and a position and returns the decoded value with the position
//! after it, or the error with the position at which the failing read began.

use vstd::prelude::*;

use crate::codec::{
    spec_dec_byte_span, spec_dec_field, spec_dec_field_body, spec_dec_field_raw, spec_dec_fields,
    spec_dec_len, spec_dec_node, spec_dec_pairs, spec_dec_record, spec_dec_sum, spec_dec_elems,
    spec_find_variant,
};
use crate::error::CodecError;
use crate::schema::{
    is_variable_size, FieldDescriptor, Opt, RecordDescriptor, SchemaNode, SumDescriptor,
};
use crate::value::{
    default_of_field, default_value, lemma_view_pairs_push, lemma_view_values_push, view_pairs,
    view_values, Value, ValueV,
};
use crate::wire::read_uint;

verus! {

/// Read `count` raw bytes at `pos`.
fn read_bytes(data: &Vec<u8>, pos: usize, count: usize) -> (r: Result<
    (Vec<u8>, usize),
    (CodecError, usize),
>)
    ensures
        r matches Ok((b, p)) ==> spec_dec_byte_span(data@, pos as int, count as nat) == Ok::<
            (ValueV, int),
            (CodecError, int),
        >((ValueV::VBytes(b@), p as int)),
        r matches Err((e, p)) ==> spec_dec_byte_span(data@, pos as int, count as nat) == Err::<
            (ValueV, int),
            (CodecError, int),
        >((e, p as int)),
{
    let dl = data.len();
    if pos > dl || count > dl - pos {
        return Err((CodecError::UnexpectedEof, pos));
    }
    let mut b: Vec<u8> = Vec::new();
    let mut i: usize = 0;
    while i < count
        invariant
            i <= count,
            pos + count <= data@.len(),
            data@.len() <= usize::MAX,
            b@ == data@.subrange(pos as int, pos + i),
        decreases count - i,
    {
        b.push(data[pos + i]);
        i = i + 1;
        proof {
            assert(b@ =~= data@.subrange(pos as int, pos + i));
        }
    }
    Ok((b, pos + count))
}

/// Read a length of width `w` and check that it can index a buffer.
fn decode_len(w: crate::wire::Width, data: &Vec<u8>, pos: usize) -> (r: Result<
    (usize, usize),
    (CodecError, usize),
>)
    ensures
        r matches Ok((count, p)) ==> spec_dec_len(w, data@, pos as int) == Ok::<
            (nat, int),
            (CodecError, int),
        >((count as nat, p as int)),
        r matches Err((e, p)) ==> spec_dec_len(w, data@, pos as int) == Err::<
            (nat, int),
            (CodecError, int),
        >((e, p as int)),
{
    match read_uint(w, data, pos) {
        Err(e) => Err(e),
        Ok((x, p)) => {
            if x > usize::MAX as u64 {
                Err((CodecError::OutOfRange, p))
            } else {
                Ok((x as usize, p))
            }
        },
    }
}

/// Decode one value of node `n` at `pos`.
#[verifier::loop_isolation(false)]
pub fn decode_node(n: &SchemaNode, data: &Vec<u8>, pos: usize) -> (r: Result<
    (Value, usize),
    (CodecError, usize),
>)
    ensures
        r matches Ok((v, p)) ==> spec_dec_node(*n, data@, pos as int) == Ok::<
            (ValueV, int),
            (CodecError, int),
        >((v@, p as int)),
        r matches Err((e, p)) ==> spec_dec_node(*n, data@, pos as int) == Err::<
            (ValueV, int),
            (CodecError, int),
        >((e, p as int)),
    decreases *n, 1int, 0int,
{
    match n {
        SchemaNode::Primitive(w) => match read_uint(*w, data, pos) {
            Ok((x, p)) => Ok((Value::UInt(x), p)),
            Err(e) => Err(e),
        },
        SchemaNode::OwnedString | SchemaNode::BorrowedString => {
            match decode_len(crate::wire::Width::W32, data, pos) {
                Err(e) => Err(e),
                Ok((count, p)) => match read_bytes(data, p, count) {
                    Ok((b, p2)) => Ok((Value::Bytes(b), p2)),
                    Err(e) => Err(e),
                },
            }
        },
        SchemaNode::OwnedSequence(e) | SchemaNode::BorrowedSlice(e) | SchemaNode::SetNode(e) => {
            match decode_len(crate::wire::Width::W32, data, pos) {
                Err(err) => Err(err),
                Ok((count, p)) => match decode_elems(e, count, data, p) {
                    Ok((items, p2)) => Ok((Value::ListVal(items), p2)),
                    Err(err) => Err(err),
                },
            }
        },
        SchemaNode::MapNode(_, _) => match decode_len(crate::wire::Width::W32, data, pos) {
            Err(err) => Err(err),
            Ok((count, p)) => match decode_pairs(n, count, data, p) {
                Ok((pairs, p2)) => Ok((Value::MapVal(pairs), p2)),
                Err(err) => Err(err),
            },
        },
        SchemaNode::FixedArray(e, len) => {
            match decode_elems(e, *len as usize, data, pos) {
                Ok((items, p2)) => Ok((Value::ListVal(items), p2)),
                Err(err) => Err(err),
            }
        },
        SchemaNode::Opaque { min_size } => {
            let dl = data.len();
            if pos > dl || *min_size > (dl - pos) as u64 {
                return Err((CodecError::UnexpectedEof, pos));
            }
            match read_bytes(data, pos, *min_size as usize) {
                Ok((b, p2)) => Ok((Value::Bytes(b), p2)),
                Err(e) => Err(e),
            }
        },
    }
}

/// Decode `count` consecutive elements of node `e`.
#[verifier::loop_isolation(false)]
fn decode_elems(e: &SchemaNode, count: usize, data: &Vec<u8>, pos: usize) -> (r: Result<
    (Vec<Value>, usize),
    (CodecError, usize),
>)
    ensures
        r matches Ok((items, p)) ==> spec_dec_elems(*e, count as nat, data@, pos as int) == Ok::<
            (Seq<ValueV>, int),
            (CodecError, int),
        >((view_values(items@), p as int)),
        r matches Err((err, p)) ==> spec_dec_elems(*e, count as nat, data@, pos as int) == Err::<
            (Seq<ValueV>, int),
            (CodecError, int),
        >((err, p as int)),
    decreases *e, 2int, 0int,
{
    let mut items: Vec<Value> = Vec::new();
    let mut cur: usize = pos;
    let mut i: usize = 0;
    while i < count
        invariant
            i <= count,
            items@.len() == i,
            spec_dec_elems(*e, count as nat, data@, pos as int) == (match spec_dec_elems(
                *e,
                (count - i) as nat,
                data@,
                cur as int,
            ) {
                Ok((rest, p)) => Ok::<(Seq<ValueV>, int), (CodecError, int)>(
                    (view_values(items@) + rest, p),
                ),
                Err(err) => Err(err),
            }),
        decreases count - i,
    {
        match decode_node(e, data, cur) {
            Err(err) => {
                return Err(err);
            },
            Ok((v, p)) => {
                proof {
                    let before = view_values(items@);
                    lemma_view_values_push(items@, v);
                    match spec_dec_elems(*e, (count - i - 1) as nat, data@, p as int) {
                        Ok((rest2, p2)) => {
                            assert(before + (seq![v@] + rest2) =~= before.push(v@) + rest2);
                        },
                        Err(_) => {},
                    }
                }
                items.push(v);
                cur = p;
            },
        }
        i = i + 1;
    }
    proof {
        match spec_dec_elems(*e, 0, data@, cur as int) {
            Ok((rest, p)) => {
                assert(view_values(items@) + rest =~= view_values(items@));
            },
            Err(_) => {},
        }
    }
    Ok((items, cur))
}

/// Decode `count` consecutive key/value pairs of the map node `m`.
#[verifier::loop_isolation(false)]
fn decode_pairs(m: &SchemaNode, count: usize, data: &Vec<u8>, pos: usize) -> (r: Result<
    (Vec<(Value, Value)>, usize),
    (CodecError, usize),
>)
    ensures
        r matches Ok((pairs, p)) ==> spec_dec_pairs(*m, count as nat, data@, pos as int) == Ok::<
            (Seq<(ValueV, ValueV)>, int),
            (CodecError, int),
        >((view_pairs(pairs@), p as int)),
        r matches Err((err, p)) ==> spec_dec_pairs(*m, count as nat, data@, pos as int) == Err::<
            (Seq<(ValueV, ValueV)>, int),
            (CodecError, int),
        >((err, p as int)),
    decreases *m, 0int, 0int,
{
    let (kn, vn) = match m {
        SchemaNode::MapNode(k, v) => (k, v),
        _ => {
            return Err((CodecError::ValueMismatch, pos));
        },
    };
    let mut pairs: Vec<(Value, Value)> = Vec::new();
    let mut cur: usize = pos;
    let mut i: usize = 0;
    while i < count
        invariant
            i <= count,
            pairs@.len() == i,
            spec_dec_pairs(*m, count as nat, data@, pos as int) == (match spec_dec_pairs(
                *m,
                (count - i) as nat,
                data@,
                cur as int,
            ) {
                Ok((rest, p)) => Ok::<(Seq<(ValueV, ValueV)>, int), (CodecError, int)>(
                    (view_pairs(pairs@) + rest, p),
                ),
                Err(err) => Err(err),
            }),
        decreases count - i,
    {
        let kv = match decode_node(kn, data, cur) {
            Err(err) => {
                return Err(err);
            },
            Ok(kv) => kv,
        };
        let vv = match decode_node(vn, data, kv.1) {
            Err(err) => {
                return Err(err);
            },
            Ok(vv) => vv,
        };
        proof {
            let before = view_pairs(pairs@);
            lemma_view_pairs_push(pairs@, (kv.0, vv.0));
            match spec_dec_pairs(*m, (count - i - 1) as nat, data@, vv.1 as int) {
                Ok((rest2, p2)) => {
                    assert(before + (seq![(kv.0@, vv.0@)] + rest2) =~= before.push((kv.0@, vv.0@))
                        + rest2);
                },
                Err(_) => {},
            }
        }
        cur = vv.1;
        pairs.push((kv.0, vv.0));
        i = i + 1;
    }
    proof {
        match spec_dec_pairs(*m, 0, data@, cur as int) {
            Ok((rest, p)) => {
                assert(view_pairs(pairs@) + rest =~= view_pairs(pairs@));
            },
            Err(_) => {},
        }
    }
    Ok((pairs, cur))
}

/// Decode a field's body: the node under the field's length configuration.
#[verifier::loop_isolation(false)]
fn decode_field_body(f: &FieldDescriptor, n: &SchemaNode, data: &Vec<u8>, pos: usize) -> (r: Result<
    (Value, usize),
    (CodecError, usize),
>)
    ensures
        r matches Ok((v, p)) ==> spec_dec_field_body(f@, *n, data@, pos as int) == Ok::<
            (ValueV, int),
            (CodecError, int),
        >((v@, p as int)),
        r matches Err((e, p)) ==> spec_dec_field_body(f@, *n, data@, pos as int) == Err::<
            (ValueV, int),
            (CodecError, int),
        >((e, p as int)),
{
    if !is_variable_size(n) {
        return decode_node(n, data, pos);
    }
    let (count, p): (usize, usize) = match f.length {
        Some(l) => {
            if l > usize::MAX as u64 {
                return Err((CodecError::OutOfRange, pos));
            }
            (l as usize, pos)
        },
        None => {
            match decode_len(f.length_width(), data, pos) {
                Err(e) => {
                    return Err(e);
                },
                Ok(cp) => cp,
            }
        },
    };
    match n {
        SchemaNode::OwnedString | SchemaNode::BorrowedString => {
            match read_bytes(data, p, count) {
                Ok((b, p2)) => Ok((Value::Bytes(b), p2)),
                Err(e) => Err(e),
            }
        },
        SchemaNode::OwnedSequence(e) | SchemaNode::BorrowedSlice(e) | SchemaNode::SetNode(e) => {
            match decode_elems(e, count, data, p) {
                Ok((items, p2)) => Ok((Value::ListVal(items), p2)),
                Err(err) => Err(err),
            }
        },
        SchemaNode::MapNode(_, _) => match decode_pairs(n, count, data, p) {
            Ok((pairs, p2)) => Ok((Value::MapVal(pairs), p2)),
            Err(err) => Err(err),
        },
        _ => Err((CodecError::ValueMismatch, p)),
    }
}

/// Decode a field without end-of-input recovery: constant prefix, presence
/// flag, body.
#[verifier::loop_isolation(false)]
fn decode_field_raw(f: &FieldDescriptor, data: &Vec<u8>, pos: usize) -> (r: Result<
    (Value, usize),
    (CodecError, usize),
>)
    ensures
        r matches Ok((v, p)) ==> spec_dec_field_raw(f@, data@, pos as int) == Ok::<
            (ValueV, int),
            (CodecError, int),
        >((v@, p as int)),
        r matches Err((e, p)) ==> spec_dec_field_raw(f@, data@, pos as int) == Err::<
            (ValueV, int),
            (CodecError, int),
        >((e, p as int)),
{
    let p2: usize = match &f.constant_prefix {
        Some(pref) => {
            let dl = data.len();
            if pos > dl || pref.len() > dl - pos {
                return Err((CodecError::UnexpectedEof, pos));
            }
            let mut k: usize = 0;
            while k < pref.len()
                invariant
                    k <= pref@.len(),
                    pos + pref@.len() <= data@.len(),
                    data@.subrange(pos as int, pos + k) == pref@.subrange(0, k as int),
                decreases pref@.len() - k,
            {
                if data[pos + k] != pref[k] {
                    proof {
                        let whole = data@.subrange(pos as int, pos + pref@.len());
                        assert(whole[k as int] != pref@[k as int]);
                        assert(whole != pref@);
                    }
                    return Err((CodecError::PrefixMismatch, pos));
                }
                k = k + 1;
                proof {
                    assert(data@.subrange(pos as int, pos + k) =~= pref@.subrange(0, k as int));
                }
            }
            proof {
                assert(data@.subrange(pos as int, pos + pref@.len()) =~= pref@.subrange(
                    0,
                    pref@.len() as int,
                ));
                assert(pref@.subrange(0, pref@.len() as int) =~= pref@);
            }
            pos + pref.len()
        },
        None => pos,
    };
    match &f.ty {
        Opt::Plain(n) => decode_field_body(f, n, data, p2),
        Opt::Wrapped(n) => {
            if p2 >= data.len() {
                return Err((CodecError::UnexpectedEof, p2));
            }
            let flag = data[p2];
            if flag != 0 {
                match decode_field_body(f, n, data, p2 + 1) {
                    Ok((v, p3)) => Ok((Value::OptVal(Some(Box::new(v))), p3)),
                    Err(err) => Err(err),
                }
            } else {
                Ok((Value::OptVal(None), p2 + 1))
            }
        },
    }
}

/// Decode one field: a skipped field consumes nothing and takes its default
/// value; an end-of-input failure on a field marked `default_on_eof` yields
/// the default value and decoding resumes at the failing read's position.
#[verifier::loop_isolation(false)]
pub fn decode_field(f: &FieldDescriptor, data: &Vec<u8>, pos: usize) -> (r: Result<
    (Value, usize),
    (CodecError, usize),
>)
    ensures
        r matches Ok((v, p)) ==> spec_dec_field(f@, data@, pos as int) == Ok::<
            (ValueV, int),
            (CodecError, int),
        >((v@, p as int)),
        r matches Err((e, p)) ==> spec_dec_field(f@, data@, pos as int) == Err::<
            (ValueV, int),
            (CodecError, int),
        >((e, p as int)),
{
    if f.skip {
        let v = match &f.ty {
            Opt::Wrapped(_) => Value::OptVal(None),
            Opt::Plain(inner) => default_value(inner),
        };
        proof {
            assert(v@ == default_of_field(f@));
        }
        return Ok((v, pos));
    }
    match decode_field_raw(f, data, pos) {
        Ok(r) => Ok(r),
        Err((e, p)) => {
            let eof = match e {
                CodecError::UnexpectedEof => true,
                _ => false,
            };
            if f.default_on_eof && eof {
                let v = match &f.ty {
                    Opt::Wrapped(_) => Value::OptVal(None),
                    Opt::Plain(inner) => default_value(inner),
                };
                proof {
                    assert(v@ == default_of_field(f@));
                }
                Ok((v, p))
            } else {
                Err((e, p))
            }
        },
    }
}

/// Decode a record: every field in declaration order, each at the position
/// the previous one ended; the record's values exist only if every field
/// decodes.
#[verifier::loop_isolation(false)]
pub fn decode_record(r: &RecordDescriptor, data: &Vec<u8>, pos: usize) -> (res: Result<
    (Vec<Value>, usize),
    (CodecError, usize),
>)
    ensures
        res matches Ok((vals, p)) ==> spec_dec_record(r@, data@, pos as int) == Ok::<
            (Seq<ValueV>, int),
            (CodecError, int),
        >((view_values(vals@), p as int)),
        res matches Err((e, p)) ==> spec_dec_record(r@, data@, pos as int) == Err::<
            (Seq<ValueV>, int),
            (CodecError, int),
        >((e, p as int)),
{
    let ghost fieldsv = r@.fields;
    let mut vals: Vec<Value> = Vec::new();
    let mut cur: usize = pos;
    let mut i: usize = 0;
    proof {
        assert(fieldsv.len() == r.fields@.len());
    }
    while i < r.fields.len()
        invariant
            i <= r.fields@.len(),
            vals@.len() == i,
            spec_dec_fields(fieldsv, data@, pos as int, 0) == (match spec_dec_fields(
                fieldsv,
                data@,
                cur as int,
                i as int,
            ) {
                Ok((rest, p)) => Ok::<(Seq<ValueV>, int), (CodecError, int)>(
                    (view_values(vals@) + rest, p),
                ),
                Err(err) => Err(err),
            }),
        decreases r.fields@.len() - i,
    {
        proof {
            assert(fieldsv[i as int] == r.fields@[i as int]@);
        }
        match decode_field(&r.fields[i], data, cur) {
            Err(err) => {
                return Err(err);
            },
            Ok((v, p)) => {
                proof {
                    let before = view_values(vals@);
                    lemma_view_values_push(vals@, v);
                    match spec_dec_fields(fieldsv, data@, p as int, i + 1) {
                        Ok((rest2, p2)) => {
                            assert(before + (seq![v@] + rest2) =~= before.push(v@) + rest2);
                        },
                        Err(_) => {},
                    }
                }
                vals.push(v);
                cur = p;
            },
        }
        i = i + 1;
    }
    proof {
        match spec_dec_fields(fieldsv, data@, cur as int, fieldsv.len() as int) {
            Ok((rest, p)) => {
                assert(view_values(vals@) + rest =~= view_values(vals@));
            },
            Err(_) => {},
        }
    }
    Ok((vals, cur))
}

fn find_variant(s: &SumDescriptor, tag: u64) -> (r: Option<usize>)
    ensures
        r matches Some(j) ==> spec_find_variant(s@.variants, tag, 0) == j as int && j
            < s.variants@.len(),
        r is None ==> spec_find_variant(s@.variants, tag, 0) == -1,
{
    let mut i: usize = 0;
    proof {
        assert(s@.variants.len() == s.variants@.len());
    }
    while i < s.variants.len()
        invariant
            i <= s.variants@.len(),
            s@.variants.len() == s.variants@.len(),
            spec_find_variant(s@.variants, tag, 0) == spec_find_variant(s@.variants, tag, i as int),
        decreases s.variants@.len() - i,
    {
        proof {
            assert(s@.variants[i as int] == s.variants@[i as int]@);
        }
        if s.variants[i].tag == tag {
            return Some(i);
        }
        i = i + 1;
    }
    None
}

/// Decode a sum-type value: read the tag in the configured width — without
/// consuming it when `peek_tag` is set — then decode the matching variant's
/// record; a tag that matches no variant is an error. Returns the variant's
/// index with its field values.
#[verifier::loop_isolation(false)]
pub fn decode_sum(s: &SumDescriptor, data: &Vec<u8>, pos: usize) -> (res: Result<
    ((usize, Vec<Value>), usize),
    (CodecError, usize),
>)
    ensures
        res matches Ok(((j, vals), p)) ==> spec_dec_sum(s@, data@, pos as int) == Ok::<
            ((int, Seq<ValueV>), int),
            (CodecError, int),
        >(((j as int, view_values(vals@)), p as int)),
        res matches Err((e, p)) ==> spec_dec_sum(s@, data@, pos as int) == Err::<
            ((int, Seq<ValueV>), int),
            (CodecError, int),
        >((e, p as int)),
{
    let (tag, ptag) = match read_uint(s.tag_width, data, pos) {
        Err(e) => {
            return Err(e);
        },
        Ok(tp) => tp,
    };
    let body_pos: usize = if s.peek_tag {
        pos
    } else {
        ptag
    };
    let j = match find_variant(s, tag) {
        None => {
            return Err((CodecError::InvalidVariantTag, pos));
        },
        Some(j) => j,
    };
    proof {
        assert(s@.variants[j as int] == s.variants@[j as int]@);
    }
    match decode_record(&s.variants[j].record, data, body_pos) {
        Err(err) => Err(err),
        Ok((vals, p)) => Ok(((j, vals), p)),
    }
}

} // verus!
