//! The executable encoders, proved equal to the spec encoding: each either
//! appends exactly the value's encoding to the output buffer, or reports the
//! error and leaves the buffer as it was — no partial write survives a
//! failure.

use vstd::prelude::*;

use crate::codec::{
    spec_enc_elems, spec_enc_field, spec_enc_field_body, spec_enc_fields, spec_enc_node,
    spec_enc_pairs, spec_enc_record, spec_enc_sum, spec_enc_with_len,
};
use crate::error::CodecError;
use crate::schema::{
    is_variable_size, FieldDescriptor, Opt, RecordDescriptor, SchemaNode, SumDescriptor,
};
use crate::value::{
    lemma_view_pairs_index, lemma_view_pairs_len, lemma_view_values_index, lemma_view_values_len,
    view_pairs, view_values, Value, ValueV,
};
use crate::wire::{spec_enc_uint, write_uint, Width};

verus! {

/// Splitting a sequence splits its elements' encoding.
proof fn lemma_enc_elems_split(e: SchemaNode, s: Seq<ValueV>, i: int)
    requires
        0 <= i <= s.len(),
    ensures
        spec_enc_elems(e, s) == (match spec_enc_elems(e, s.take(i)) {
            Err(x) => Err(x),
            Ok(a) => match spec_enc_elems(e, s.skip(i)) {
                Err(x) => Err(x),
                Ok(b) => Ok(a + b),
            },
        }),
    decreases i,
{
    if i == 0 {
        assert(s.take(0) =~= Seq::<ValueV>::empty());
        assert(s.skip(0) =~= s);
        match spec_enc_elems(e, s) {
            Ok(b) => {
                assert(Seq::<u8>::empty() + b =~= b);
            },
            Err(_) => {},
        }
    } else {
        // Peel the first element off both sides.
        assert(s.take(i)[0] == s[0]);
        assert(s.take(i).skip(1) =~= s.skip(1).take(i - 1));
        assert(s.skip(i) =~= s.skip(1).skip(i - 1));
        lemma_enc_elems_split(e, s.skip(1), i - 1);
        match spec_enc_node(e, s[0]) {
            Err(_) => {},
            Ok(first) => {
                match spec_enc_elems(e, s.skip(1).take(i - 1)) {
                    Err(_) => {},
                    Ok(a) => {
                        match spec_enc_elems(e, s.skip(1).skip(i - 1)) {
                            Err(_) => {},
                            Ok(b) => {
                                assert(first + (a + b) =~= (first + a) + b);
                            },
                        }
                    },
                }
            },
        }
    }
}

/// Splitting a pair sequence splits its encoding.
proof fn lemma_enc_pairs_split(m: SchemaNode, s: Seq<(ValueV, ValueV)>, i: int)
    requires
        0 <= i <= s.len(),
        m is MapNode,
    ensures
        spec_enc_pairs(m, s) == (match spec_enc_pairs(m, s.take(i)) {
            Err(x) => Err(x),
            Ok(a) => match spec_enc_pairs(m, s.skip(i)) {
                Err(x) => Err(x),
                Ok(b) => Ok(a + b),
            },
        }),
    decreases i,
{
    if i == 0 {
        assert(s.take(0) =~= Seq::<(ValueV, ValueV)>::empty());
        assert(s.skip(0) =~= s);
        match spec_enc_pairs(m, s) {
            Ok(b) => {
                assert(Seq::<u8>::empty() + b =~= b);
            },
            Err(_) => {},
        }
    } else {
        assert(s.take(i)[0] == s[0]);
        assert(s.take(i).skip(1) =~= s.skip(1).take(i - 1));
        assert(s.skip(i) =~= s.skip(1).skip(i - 1));
        lemma_enc_pairs_split(m, s.skip(1), i - 1);
        let (k, v) = (m->MapNode_0, m->MapNode_1);
        match spec_enc_node(*k, s[0].0) {
            Err(_) => {},
            Ok(kb) => {
                match spec_enc_node(*v, s[0].1) {
                    Err(_) => {},
                    Ok(vb) => {
                        match spec_enc_pairs(m, s.skip(1).take(i - 1)) {
                            Err(_) => {},
                            Ok(a) => {
                                match spec_enc_pairs(m, s.skip(1).skip(i - 1)) {
                                    Err(_) => {},
                                    Ok(b) => {
                                        assert(kb + vb + (a + b) =~= (kb + vb + a) + b);
                                    },
                                }
                            },
                        }
                    },
                }
            },
        }
    }
}

/// Append every byte of `b`.
fn push_bytes(out: &mut Vec<u8>, b: &Vec<u8>)
    ensures
        final(out)@ == old(out)@ + b@,
{
    let mut i: usize = 0;
    while i < b.len()
        invariant
            i <= b@.len(),
            out@ == old(out)@ + b@.take(i as int),
        decreases b@.len() - i,
    {
        out.push(b[i]);
        i = i + 1;
        proof {
            assert(old(out)@ + b@.take(i - 1) + seq![b@[i - 1]] =~= old(out)@ + b@.take(i as int));
        }
    }
    proof {
        assert(old(out)@ + b@.take(b@.len() as int) =~= old(out)@ + b@);
    }
}

/// Append the encoding of a value of node `n`, or report the error and
/// leave the buffer unchanged.
#[verifier::loop_isolation(false)]
pub fn encode_node(n: &SchemaNode, v: &Value, out: &mut Vec<u8>) -> (r: Result<(), CodecError>)
    ensures
        spec_enc_node(*n, v@) matches Ok(bs) ==> r is Ok && final(out)@ == old(out)@ + bs,
        spec_enc_node(*n, v@) matches Err(e) ==> r == Err::<(), CodecError>(e) && final(out)@
            == old(out)@,
    decreases *n, 1int, 0int,
{
    let start = out.len();
    match (n, v) {
        (SchemaNode::Primitive(w), Value::UInt(x)) => write_uint(*w, *x, out),
        (SchemaNode::OwnedString, Value::Bytes(b)) | (SchemaNode::BorrowedString, Value::Bytes(b)) => {
            match write_uint(Width::W32, b.len() as u64, out) {
                Err(e) => Err(e),
                Ok(()) => {
                    push_bytes(out, b);
                    proof {
                        let lb = spec_enc_uint(Width::W32, b@.len() as u64)->Ok_0;
                        assert(old(out)@ + lb + b@ =~= old(out)@ + (lb + b@));
                    }
                    Ok(())
                },
            }
        },
        (SchemaNode::OwnedSequence(e), Value::ListVal(items)) | (
            SchemaNode::BorrowedSlice(e),
            Value::ListVal(items),
        ) | (SchemaNode::SetNode(e), Value::ListVal(items)) => {
            proof {
                lemma_view_values_len(items@);
            }
            match write_uint(Width::W32, items.len() as u64, out) {
                Err(e) => Err(e),
                Ok(()) => {
                    match encode_elems(e, items, out) {
                        Err(e2) => {
                            out.truncate(start);
                            proof {
                                assert(out@ =~= old(out)@);
                            }
                            Err(e2)
                        },
                        Ok(()) => {
                            proof {
                                let vv = view_values(items@);
                                let lb = spec_enc_uint(Width::W32, vv.len() as u64)->Ok_0;
                                let cb = spec_enc_elems(**e, vv)->Ok_0;
                                assert(old(out)@ + lb + cb =~= old(out)@ + (lb + cb));
                            }
                            Ok(())
                        },
                    }
                },
            }
        },
        (SchemaNode::MapNode(_, _), Value::MapVal(pairs)) => {
            proof {
                lemma_view_pairs_len(pairs@);
            }
            match write_uint(Width::W32, pairs.len() as u64, out) {
                Err(e) => Err(e),
                Ok(()) => {
                    match encode_pairs(n, pairs, out) {
                        Err(e2) => {
                            out.truncate(start);
                            proof {
                                assert(out@ =~= old(out)@);
                            }
                            Err(e2)
                        },
                        Ok(()) => {
                            proof {
                                let vv = view_pairs(pairs@);
                                let lb = spec_enc_uint(Width::W32, vv.len() as u64)->Ok_0;
                                let cb = spec_enc_pairs(*n, vv)->Ok_0;
                                assert(old(out)@ + lb + cb =~= old(out)@ + (lb + cb));
                            }
                            Ok(())
                        },
                    }
                },
            }
        },
        (SchemaNode::FixedArray(e, len), Value::ListVal(items)) => {
            proof {
                lemma_view_values_len(items@);
            }
            if items.len() != *len as usize {
                Err(CodecError::ValueMismatch)
            } else {
                encode_elems(e, items, out)
            }
        },
        (SchemaNode::Opaque { min_size }, Value::Bytes(b)) => {
            if b.len() as u64 == *min_size {
                push_bytes(out, b);
                Ok(())
            } else {
                Err(CodecError::ValueMismatch)
            }
        },
        _ => Err(CodecError::ValueMismatch),
    }
}

/// Append the encodings of all elements, or report the first error and
/// leave the buffer unchanged.
#[verifier::loop_isolation(false)]
fn encode_elems(e: &SchemaNode, items: &Vec<Value>, out: &mut Vec<u8>) -> (r: Result<
    (),
    CodecError,
>)
    ensures
        spec_enc_elems(*e, view_values(items@)) matches Ok(bs) ==> r is Ok && final(out)@ == old(
            out,
        )@ + bs,
        spec_enc_elems(*e, view_values(items@)) matches Err(err) ==> r == Err::<(), CodecError>(err)
            && final(out)@ == old(out)@,
    decreases *e, 2int, 0int,
{
    let ghost vv = view_values(items@);
    proof {
        lemma_view_values_len(items@);
    }
    let start = out.len();
    let mut i: usize = 0;
    while i < items.len()
        invariant
            i <= items@.len(),
            spec_enc_elems(*e, vv.take(i as int)) matches Ok(a) && out@ == old(out)@ + a,
        decreases items@.len() - i,
    {
        let ghost prefix = spec_enc_elems(*e, vv.take(i as int))->Ok_0;
        proof {
            lemma_view_values_index(items@, i as int);
        }
        match encode_node(e, &items[i], out) {
            Ok(()) => {},
            Err(err) => {
                proof {
                    lemma_enc_elems_split(*e, vv, i as int);
                    assert(vv.skip(i as int)[0] == vv[i as int]);
                    assert(spec_enc_elems(*e, vv) == Err::<Seq<u8>, CodecError>(err));
                }
                out.truncate(start);
                proof {
                    assert(out@ =~= old(out)@);
                }
                return Err(err);
            },
        }
        i = i + 1;
        proof {
            let iint = i as int;
            lemma_enc_elems_split(*e, vv.take(iint), iint - 1);
            assert(vv.take(iint).take(iint - 1) =~= vv.take(iint - 1));
            let last = vv.take(iint).skip(iint - 1);
            assert(last =~= seq![vv[iint - 1]]);
            assert(last[0] == vv[iint - 1]);
            assert(last.skip(1) =~= Seq::<ValueV>::empty());
            let nb = spec_enc_node(*e, vv[iint - 1])->Ok_0;
            assert(spec_enc_elems(*e, last.skip(1)) == Ok::<Seq<u8>, CodecError>(
                Seq::<u8>::empty(),
            ));
            assert(spec_enc_elems(*e, last) == Ok::<Seq<u8>, CodecError>(nb + Seq::<u8>::empty()));
            assert(nb + Seq::<u8>::empty() =~= nb);
            assert(spec_enc_elems(*e, vv.take(iint)) == Ok::<Seq<u8>, CodecError>(prefix + nb));
            assert(out@ == old(out)@ + prefix + nb);
            assert(old(out)@ + prefix + nb =~= old(out)@ + (prefix + nb));
        }
    }
    proof {
        assert(vv.take(items@.len() as int) =~= vv);
    }
    Ok(())
}

/// Append the encodings of all pairs, key then value, or report the first
/// error and leave the buffer unchanged.
#[verifier::loop_isolation(false)]
fn encode_pairs(m: &SchemaNode, pairs: &Vec<(Value, Value)>, out: &mut Vec<u8>) -> (r: Result<
    (),
    CodecError,
>)
    ensures
        spec_enc_pairs(*m, view_pairs(pairs@)) matches Ok(bs) ==> r is Ok && final(out)@ == old(
            out,
        )@ + bs,
        spec_enc_pairs(*m, view_pairs(pairs@)) matches Err(err) ==> r == Err::<(), CodecError>(err)
            && final(out)@ == old(out)@,
    decreases *m, 0int, 0int,
{
    let (kn, vn) = match m {
        SchemaNode::MapNode(k, v) => (k, v),
        _ => {
            return Err(CodecError::ValueMismatch);
        },
    };
    let ghost vv = view_pairs(pairs@);
    proof {
        lemma_view_pairs_len(pairs@);
    }
    let start = out.len();
    let mut i: usize = 0;
    while i < pairs.len()
        invariant
            i <= pairs@.len(),
            spec_enc_pairs(*m, vv.take(i as int)) matches Ok(a) && out@ == old(out)@ + a,
        decreases pairs@.len() - i,
    {
        let ghost prefix = spec_enc_pairs(*m, vv.take(i as int))->Ok_0;
        proof {
            lemma_view_pairs_index(pairs@, i as int);
        }
        let kb_err = encode_node(kn, &pairs[i].0, out);
        match kb_err {
            Ok(()) => {},
            Err(err) => {
                proof {
                    lemma_enc_pairs_split(*m, vv, i as int);
                    assert(vv.skip(i as int)[0] == vv[i as int]);
                    assert(spec_enc_pairs(*m, vv) == Err::<Seq<u8>, CodecError>(err));
                }
                out.truncate(start);
                proof {
                    assert(out@ =~= old(out)@);
                }
                return Err(err);
            },
        }
        match encode_node(vn, &pairs[i].1, out) {
            Ok(()) => {},
            Err(err) => {
                proof {
                    lemma_enc_pairs_split(*m, vv, i as int);
                    assert(vv.skip(i as int)[0] == vv[i as int]);
                    assert(spec_enc_pairs(*m, vv) == Err::<Seq<u8>, CodecError>(err));
                }
                out.truncate(start);
                proof {
                    assert(out@ =~= old(out)@);
                }
                return Err(err);
            },
        }
        i = i + 1;
        proof {
            let iint = i as int;
            lemma_enc_pairs_split(*m, vv.take(iint), iint - 1);
            assert(vv.take(iint).take(iint - 1) =~= vv.take(iint - 1));
            let last = vv.take(iint).skip(iint - 1);
            assert(last =~= seq![vv[iint - 1]]);
            assert(last[0] == vv[iint - 1]);
            assert(last.skip(1) =~= Seq::<(ValueV, ValueV)>::empty());
            let kb = spec_enc_node(**kn, vv[iint - 1].0)->Ok_0;
            let vb = spec_enc_node(**vn, vv[iint - 1].1)->Ok_0;
            assert(spec_enc_pairs(*m, last.skip(1)) == Ok::<Seq<u8>, CodecError>(
                Seq::<u8>::empty(),
            ));
            assert(spec_enc_pairs(*m, last) == Ok::<Seq<u8>, CodecError>(
                kb + vb + Seq::<u8>::empty(),
            ));
            assert(kb + vb + Seq::<u8>::empty() =~= kb + vb);
            assert(spec_enc_pairs(*m, vv.take(iint)) == Ok::<Seq<u8>, CodecError>(
                prefix + (kb + vb),
            ));
            assert(out@ == old(out)@ + prefix + kb + vb);
            assert(old(out)@ + prefix + kb + vb =~= old(out)@ + (prefix + (kb + vb)));
        }
    }
    proof {
        assert(vv.take(pairs@.len() as int) =~= vv);
    }
    Ok(())
}

/// Append a field's body: the node's encoding under the field's length
/// configuration.
#[verifier::loop_isolation(false)]
#[verifier::rlimit(60)]
fn encode_field_body(f: &FieldDescriptor, n: &SchemaNode, v: &Value, out: &mut Vec<u8>) -> (r:
    Result<(), CodecError>)
    ensures
        spec_enc_field_body(f@, *n, v@) matches Ok(bs) ==> r is Ok && final(out)@ == old(out)@ + bs,
        spec_enc_field_body(f@, *n, v@) matches Err(e) ==> r == Err::<(), CodecError>(e)
            && final(out)@ == old(out)@,
{
    if !is_variable_size(n) {
        return encode_node(n, v, out);
    }
    let start = out.len();
    // The element count, with a shape mismatch reported before anything is
    // written.
    let count: usize = match (n, v) {
        (SchemaNode::OwnedString, Value::Bytes(b)) => b.len(),
        (SchemaNode::BorrowedString, Value::Bytes(b)) => b.len(),
        (SchemaNode::OwnedSequence(_), Value::ListVal(items)) => items.len(),
        (SchemaNode::BorrowedSlice(_), Value::ListVal(items)) => items.len(),
        (SchemaNode::SetNode(_), Value::ListVal(items)) => items.len(),
        (SchemaNode::MapNode(_, _), Value::MapVal(pairs)) => pairs.len(),
        _ => {
            return Err(CodecError::ValueMismatch);
        },
    };
    proof {
        match v {
            Value::ListVal(items) => lemma_view_values_len(items@),
            Value::MapVal(pairs) => lemma_view_pairs_len(pairs@),
            _ => (),
        }
    }
    match f.length {
        Some(l) => {
            if count as u64 != l {
                return Err(CodecError::LengthMismatch);
            }
        },
        None => {
            match write_uint(f.length_width(), count as u64, out) {
                Err(e) => {
                    return Err(e);
                },
                Ok(()) => {},
            }
        },
    }
    let ghost lb = out@.skip(old(out)@.len() as int);
    let content = match (n, v) {
        (SchemaNode::OwnedString, Value::Bytes(b)) => {
            push_bytes(out, b);
            Ok(())
        },
        (SchemaNode::BorrowedString, Value::Bytes(b)) => {
            push_bytes(out, b);
            Ok(())
        },
        (SchemaNode::OwnedSequence(e), Value::ListVal(items)) => encode_elems(e, items, out),
        (SchemaNode::BorrowedSlice(e), Value::ListVal(items)) => encode_elems(e, items, out),
        (SchemaNode::SetNode(e), Value::ListVal(items)) => encode_elems(e, items, out),
        (SchemaNode::MapNode(_, _), Value::MapVal(pairs)) => encode_pairs(n, pairs, out),
        _ => Err(CodecError::ValueMismatch),
    };
    match content {
        Ok(()) => {
            proof {
                let cb = out@.skip((old(out)@.len() + lb.len()) as int);
                assert(out@ =~= old(out)@ + (lb + cb));
            }
            Ok(())
        },
        Err(e) => {
            out.truncate(start);
            proof {
                assert(out@ =~= old(out)@);
            }
            Err(e)
        },
    }
}

/// Append a field's encoding: nothing for a skipped field, else the
/// constant prefix, the optional presence flag, and the body; on a failure
/// the buffer is left unchanged.
#[verifier::loop_isolation(false)]
pub fn encode_field(f: &FieldDescriptor, v: &Value, out: &mut Vec<u8>) -> (r: Result<
    (),
    CodecError,
>)
    ensures
        spec_enc_field(f@, v@) matches Ok(bs) ==> r is Ok && final(out)@ == old(out)@ + bs,
        spec_enc_field(f@, v@) matches Err(e) ==> r == Err::<(), CodecError>(e) && final(out)@
            == old(out)@,
{
    if f.skip {
        proof {
            assert(old(out)@ + Seq::<u8>::empty() =~= old(out)@);
        }
        return Ok(());
    }
    let start = out.len();
    match &f.constant_prefix {
        Some(p) => push_bytes(out, p),
        None => {},
    }
    let ghost prefix: Seq<u8> = match f@.constant_prefix {
        Some(p) => p,
        None => Seq::empty(),
    };
    proof {
        assert(out@ == old(out)@ + prefix);
    }
    let body = match &f.ty {
        Opt::Plain(n) => encode_field_body(f, n, v, out),
        Opt::Wrapped(n) => match v {
            Value::OptVal(o) => match o {
                None => {
                    out.push(0);
                    proof {
                        assert(out@ =~= old(out)@ + prefix + seq![0u8]);
                    }
                    Ok(())
                },
                Some(inner) => {
                    out.push(1);
                    match encode_field_body(f, n, inner, out) {
                        Ok(()) => {
                            proof {
                                let bs = spec_enc_field_body(f@, *n, inner@)->Ok_0;
                                assert(out@ =~= old(out)@ + prefix + (seq![1u8] + bs));
                            }
                            Ok(())
                        },
                        Err(e) => Err(e),
                    }
                },
            },
            _ => Err(CodecError::ValueMismatch),
        },
    };
    match body {
        Ok(()) => {
            proof {
                let bs = match f@.ty {
                    Opt::Plain(n) => spec_enc_field_body(f@, n, v@)->Ok_0,
                    Opt::Wrapped(n) => match v@ {
                        ValueV::VOpt(o) => match o {
                            None => seq![0u8],
                            Some(inner) => seq![1u8] + spec_enc_field_body(f@, n, *inner)->Ok_0,
                        },
                        _ => Seq::<u8>::empty(),
                    },
                };
                assert(out@ =~= old(out)@ + (prefix + bs));
            }
            Ok(())
        },
        Err(e) => {
            out.truncate(start);
            proof {
                assert(out@ =~= old(out)@);
            }
            Err(e)
        },
    }
}

/// The encoding of fields `i` (inclusive) up to `j` (exclusive).
pub open spec fn spec_enc_fields_upto(
    fields: Seq<crate::schema::FieldView>,
    vals: Seq<ValueV>,
    i: int,
    j: int,
) -> Result<Seq<u8>, CodecError>
    decreases j - i,
{
    if i < 0 || i >= j {
        Ok(Seq::empty())
    } else {
        match spec_enc_field(fields[i], vals[i]) {
            Err(e) => Err(e),
            Ok(first) => match spec_enc_fields_upto(fields, vals, i + 1, j) {
                Err(e) => Err(e),
                Ok(rest) => Ok(first + rest),
            },
        }
    }
}

/// Splitting the field range splits the record's encoding.
proof fn lemma_enc_fields_split(
    fields: Seq<crate::schema::FieldView>,
    vals: Seq<ValueV>,
    i: int,
    j: int,
)
    requires
        0 <= i <= j <= fields.len(),
    ensures
        spec_enc_fields(fields, vals, i) == (match spec_enc_fields_upto(fields, vals, i, j) {
            Err(x) => Err::<Seq<u8>, CodecError>(x),
            Ok(a) => match spec_enc_fields(fields, vals, j) {
                Err(x) => Err(x),
                Ok(b) => Ok(a + b),
            },
        }),
    decreases j - i,
{
    if i == j {
        match spec_enc_fields(fields, vals, j) {
            Ok(b) => {
                assert(Seq::<u8>::empty() + b =~= b);
            },
            Err(_) => {},
        }
    } else {
        lemma_enc_fields_split(fields, vals, i + 1, j);
        match spec_enc_field(fields[i], vals[i]) {
            Err(_) => {},
            Ok(first) => {
                match spec_enc_fields_upto(fields, vals, i + 1, j) {
                    Err(_) => {},
                    Ok(a) => {
                        match spec_enc_fields(fields, vals, j) {
                            Err(_) => {},
                            Ok(b) => {
                                assert(first + (a + b) =~= (first + a) + b);
                            },
                        }
                    },
                }
            },
        }
    }
}

proof fn lemma_enc_fields_upto_snoc(
    fields: Seq<crate::schema::FieldView>,
    vals: Seq<ValueV>,
    j: int,
)
    requires
        0 < j <= fields.len(),
    ensures
        spec_enc_fields_upto(fields, vals, 0, j) == (match spec_enc_fields_upto(
            fields,
            vals,
            0,
            j - 1,
        ) {
            Err(x) => Err::<Seq<u8>, CodecError>(x),
            Ok(a) => match spec_enc_field(fields[j - 1], vals[j - 1]) {
                Err(x) => Err(x),
                Ok(b) => Ok(a + b),
            },
        }),
{
    lemma_enc_fields_upto_snoc_from(fields, vals, 0, j);
}

proof fn lemma_enc_fields_upto_snoc_from(
    fields: Seq<crate::schema::FieldView>,
    vals: Seq<ValueV>,
    i: int,
    j: int,
)
    requires
        0 <= i < j <= fields.len(),
    ensures
        spec_enc_fields_upto(fields, vals, i, j) == (match spec_enc_fields_upto(
            fields,
            vals,
            i,
            j - 1,
        ) {
            Err(x) => Err::<Seq<u8>, CodecError>(x),
            Ok(a) => match spec_enc_field(fields[j - 1], vals[j - 1]) {
                Err(x) => Err(x),
                Ok(b) => Ok(a + b),
            },
        }),
    decreases j - i,
{
    if i + 1 < j {
        lemma_enc_fields_upto_snoc_from(fields, vals, i + 1, j);
        match spec_enc_field(fields[i], vals[i]) {
            Err(_) => {},
            Ok(first) => {
                match spec_enc_fields_upto(fields, vals, i + 1, j - 1) {
                    Err(_) => {},
                    Ok(a) => {
                        match spec_enc_field(fields[j - 1], vals[j - 1]) {
                            Err(_) => {},
                            Ok(b) => {
                                assert(first + (a + b) =~= (first + a) + b);
                            },
                        }
                    },
                }
            },
        }
    } else {
        assert(spec_enc_fields_upto(fields, vals, i + 1, j) == Ok::<Seq<u8>, CodecError>(
            Seq::<u8>::empty(),
        ));
        assert(spec_enc_fields_upto(fields, vals, i, j - 1) == Ok::<Seq<u8>, CodecError>(
            Seq::<u8>::empty(),
        ));
        match spec_enc_field(fields[i], vals[i]) {
            Err(_) => {},
            Ok(first) => {
                assert(first + Seq::<u8>::empty() =~= first);
                assert(Seq::<u8>::empty() + first =~= first);
            },
        }
    }
}

/// Encode a record's fields into a fresh buffer: the concatenation of the
/// non-skipped fields' encodings in declaration order, with one value per
/// field expected; on a failure nothing is returned — no partial write
/// survives.
#[verifier::loop_isolation(false)]
pub fn encode_record(r: &RecordDescriptor, vals: &Vec<Value>) -> (res: Result<Vec<u8>, CodecError>)
    ensures
        res matches Ok(out) ==> spec_enc_record(r@, view_values(vals@)) == Ok::<Seq<u8>, CodecError>(
            out@,
        ),
        res matches Err(e) ==> spec_enc_record(r@, view_values(vals@)) == Err::<Seq<u8>, CodecError>(
            e,
        ),
{
    let mut out: Vec<u8> = Vec::new();
    match encode_record_into(r, vals, &mut out) {
        Ok(()) => {
            proof {
                assert(Seq::<u8>::empty() + spec_enc_record(r@, view_values(vals@))->Ok_0 =~= out@);
            }
            Ok(out)
        },
        Err(e) => Err(e),
    }
}

/// Append a record's encoding, or report the error and leave the buffer
/// unchanged.
#[verifier::loop_isolation(false)]
pub fn encode_record_into(r: &RecordDescriptor, vals: &Vec<Value>, out: &mut Vec<u8>) -> (res:
    Result<(), CodecError>)
    ensures
        spec_enc_record(r@, view_values(vals@)) matches Ok(bs) ==> res is Ok && final(out)@ == old(
            out,
        )@ + bs,
        spec_enc_record(r@, view_values(vals@)) matches Err(e) ==> res == Err::<(), CodecError>(e)
            && final(out)@ == old(out)@,
{
    let ghost fieldsv = r@.fields;
    let ghost vv = view_values(vals@);
    proof {
        lemma_view_values_len(vals@);
    }
    if vals.len() != r.fields.len() {
        return Err(CodecError::ValueMismatch);
    }
    let start = out.len();
    let mut i: usize = 0;
    while i < r.fields.len()
        invariant
            i <= r.fields@.len(),
            spec_enc_fields_upto(fieldsv, vv, 0, i as int) matches Ok(a) && out@ == old(out)@ + a,
        decreases r.fields@.len() - i,
    {
        let ghost prefix = spec_enc_fields_upto(fieldsv, vv, 0, i as int)->Ok_0;
        proof {
            lemma_view_values_index(vals@, i as int);
            assert(fieldsv[i as int] == r.fields@[i as int]@);
        }
        match encode_field(&r.fields[i], &vals[i], out) {
            Ok(()) => {},
            Err(e) => {
                proof {
                    lemma_enc_fields_split(fieldsv, vv, 0, i as int);
                    assert(spec_enc_fields(fieldsv, vv, 0) == Err::<Seq<u8>, CodecError>(e));
                }
                out.truncate(start);
                proof {
                    assert(out@ =~= old(out)@);
                }
                return Err(e);
            },
        }
        i = i + 1;
        proof {
            lemma_enc_fields_upto_snoc(fieldsv, vv, i as int);
            let fb = spec_enc_field(fieldsv[i - 1], vv[i - 1])->Ok_0;
            assert(spec_enc_fields_upto(fieldsv, vv, 0, i as int) == Ok::<Seq<u8>, CodecError>(
                prefix + fb,
            ));
            assert(out@ == old(out)@ + prefix + fb);
            assert(old(out)@ + prefix + fb =~= old(out)@ + (prefix + fb));
        }
    }
    proof {
        lemma_enc_fields_split(fieldsv, vv, 0, fieldsv.len() as int);
        match spec_enc_fields(fieldsv, vv, fieldsv.len() as int) {
            Ok(b) => {
                let a = spec_enc_fields_upto(fieldsv, vv, 0, fieldsv.len() as int)->Ok_0;
                assert(b =~= Seq::<u8>::empty());
                assert(a + b =~= a);
            },
            Err(_) => {},
        }
    }
    Ok(())
}

/// Encode a sum-type value — the live variant's index and its field values —
/// into a fresh buffer: the variant's tag in the configured width (omitted
/// when the tag is peeked), then the payload record; on a failure nothing is
/// returned.
#[verifier::loop_isolation(false)]
pub fn encode_sum(s: &SumDescriptor, variant: usize, vals: &Vec<Value>) -> (res: Result<
    Vec<u8>,
    CodecError,
>)
    ensures
        res matches Ok(out) ==> spec_enc_sum(s@, variant as int, view_values(vals@)) == Ok::<
            Seq<u8>,
            CodecError,
        >(out@),
        res matches Err(e) ==> spec_enc_sum(s@, variant as int, view_values(vals@)) == Err::<
            Seq<u8>,
            CodecError,
        >(e),
{
    proof {
        assert(s@.variants.len() == s.variants@.len());
    }
    if variant >= s.variants.len() {
        return Err(CodecError::ValueMismatch);
    }
    proof {
        assert(s@.variants[variant as int] == s.variants@[variant as int]@);
    }
    let mut out: Vec<u8> = Vec::new();
    let v = &s.variants[variant];
    if !s.peek_tag {
        match write_uint(s.tag_width, v.tag, &mut out) {
            Err(e) => {
                return Err(e);
            },
            Ok(()) => {},
        }
    }
    let ghost tb = out@;
    match encode_record_into(&v.record, vals, &mut out) {
        Err(e) => Err(e),
        Ok(()) => {
            proof {
                let body = spec_enc_record(s@.variants[variant as int].record, view_values(vals@))
                    ->Ok_0;
                assert(out@ =~= tb + body);
                if !s.peek_tag {
                    assert(tb =~= Seq::<u8>::empty() + spec_enc_uint(
                        s@.tag_width,
                        s@.variants[variant as int].tag,
                    )->Ok_0);
                    assert(tb =~= spec_enc_uint(s@.tag_width, s@.variants[variant as int].tag)
                        ->Ok_0);
                } else {
                    assert(tb =~= Seq::<u8>::empty());
                }
            }
            Ok(out)
        },
    }
}

} // verus!
