//! Round-trip laws: decoding an encoded value, at any position inside any
//! larger buffer, yields the value back and consumes exactly its bytes.
//!
//! The hypotheses are what encoding itself establishes: the encoding
//! succeeded, every collection in the value is addressable in memory, and a
//! skipped field holds its default (a skipped field writes no bytes, so no
//! other value could come back).

use vstd::prelude::*;

use crate::codec::{
    spec_dec_byte_span, spec_dec_elems, spec_dec_field, spec_dec_field_body, spec_dec_fields,
    spec_dec_len, spec_dec_node, spec_dec_pairs, spec_dec_record, spec_dec_sum,
    spec_enc_elems, spec_enc_field, spec_enc_field_body, spec_enc_fields, spec_enc_node,
    spec_enc_pairs, spec_enc_record, spec_enc_sum, spec_enc_with_len, spec_find_variant,
};
use crate::error::CodecError;
use crate::schema::{node_is_variable_size, FieldView, RecordView, SchemaNode, SumView, VariantView};
use crate::value::{default_of_field, ValueV};
use crate::wire::{lemma_uint_round_trip, spec_dec_uint, spec_enc_uint, Width};

verus! {

/// Every collection in the value is small enough to exist in memory: its
/// length fits a `usize`. Every value built at run time satisfies this; it
/// rules out only unrepresentable mathematical values.
pub open spec fn value_fits(v: ValueV) -> bool
    decreases v, 1int, 0int,
{
    match v {
        ValueV::VUInt(_) => true,
        ValueV::VBytes(b) => b.len() <= usize::MAX,
        ValueV::VList(items) => items.len() <= usize::MAX && fits_list(items),
        ValueV::VMap(pairs) => pairs.len() <= usize::MAX && fits_pairs(pairs),
        ValueV::VOpt(o) => match o {
            None => true,
            Some(inner) => value_fits(*inner),
        },
    }
}

pub open spec fn fits_list(s: Seq<ValueV>) -> bool
    decreases s, 0int, s.len(),
{
    s.len() == 0 || (value_fits(s[0]) && fits_list(s.skip(1)))
}

pub open spec fn fits_pairs(s: Seq<(ValueV, ValueV)>) -> bool
    decreases s, 0int, s.len(),
{
    s.len() == 0 || (value_fits(s[0].0) && value_fits(s[0].1) && fits_pairs(s.skip(1)))
}

/// Decoding an encoded node value, embedded between any `pre` and `suf`,
/// yields the value back and consumes exactly its encoding.
pub proof fn lemma_node_round_trip(n: SchemaNode, v: ValueV, pre: Seq<u8>, suf: Seq<u8>)
    requires
        spec_enc_node(n, v) is Ok,
        value_fits(v),
    ensures
        ({
            let enc = spec_enc_node(n, v)->Ok_0;
            spec_dec_node(n, pre + enc + suf, pre.len() as int) == Ok::<
                (ValueV, int),
                (CodecError, int),
            >((v, pre.len() + enc.len() as int))
        }),
    decreases n, 1int, 0int,
{
    let enc = spec_enc_node(n, v)->Ok_0;
    let data = pre + enc + suf;
    let pos = pre.len() as int;
    match n {
        SchemaNode::Primitive(w) => {
            let x = v->VUInt_0;
            lemma_uint_round_trip(w, x, pre, suf);
        },
        SchemaNode::OwnedString | SchemaNode::BorrowedString => {
            let b = v->VBytes_0;
            lemma_len_prefixed_bytes(Width::W32, b, pre, suf);
        },
        SchemaNode::OwnedSequence(e) | SchemaNode::BorrowedSlice(e) | SchemaNode::SetNode(e) => {
            let items = v->VList_0;
            let lb = spec_enc_uint(Width::W32, items.len() as u64)->Ok_0;
            let cb = spec_enc_elems(*e, items)->Ok_0;
            assert(pre + (lb + cb) + suf =~= pre + lb + (cb + suf));
            lemma_uint_round_trip(Width::W32, items.len() as u64, pre, cb + suf);
            assert(spec_dec_len(Width::W32, data, pos) == Ok::<(nat, int), (CodecError, int)>(
                (items.len(), pos + lb.len()),
            ));
            assert(pre + (lb + cb) + suf =~= (pre + lb) + cb + suf);
            lemma_elems_round_trip(*e, items, pre + lb, suf);
        },
        SchemaNode::MapNode(_, _) => {
            let pairs = v->VMap_0;
            let lb = spec_enc_uint(Width::W32, pairs.len() as u64)->Ok_0;
            let cb = spec_enc_pairs(n, pairs)->Ok_0;
            assert(pre + (lb + cb) + suf =~= pre + lb + (cb + suf));
            lemma_uint_round_trip(Width::W32, pairs.len() as u64, pre, cb + suf);
            assert(spec_dec_len(Width::W32, data, pos) == Ok::<(nat, int), (CodecError, int)>(
                (pairs.len(), pos + lb.len()),
            ));
            assert(pre + (lb + cb) + suf =~= (pre + lb) + cb + suf);
            lemma_pairs_round_trip(n, pairs, pre + lb, suf);
        },
        SchemaNode::FixedArray(e, len) => {
            let items = v->VList_0;
            lemma_elems_round_trip(*e, items, pre, suf);
        },
        SchemaNode::Opaque { min_size } => {
            let b = v->VBytes_0;
            assert(data.subrange(pos, pos + b.len()) =~= b);
        },
    }
}

/// A length prefix of width `w` followed by raw bytes decodes to the bytes.
proof fn lemma_len_prefixed_bytes(w: Width, b: Seq<u8>, pre: Seq<u8>, suf: Seq<u8>)
    requires
        spec_enc_with_len(w, b.len(), Ok(b)) is Ok,
        b.len() <= usize::MAX,
    ensures
        ({
            let enc = spec_enc_with_len(w, b.len(), Ok(b))->Ok_0;
            let data = pre + enc + suf;
            let pos = pre.len() as int;
            &&& spec_dec_len(w, data, pos) matches Ok((count, p)) && count == b.len() && p == pos
                + spec_enc_uint(w, b.len() as u64)->Ok_0.len()
            &&& spec_dec_byte_span(data, pos + spec_enc_uint(w, b.len() as u64)->Ok_0.len(), b.len())
                == Ok::<(ValueV, int), (CodecError, int)>(
                (ValueV::VBytes(b), pos + enc.len() as int),
            )
        }),
{
    let lb = spec_enc_uint(w, b.len() as u64)->Ok_0;
    let enc = spec_enc_with_len(w, b.len(), Ok(b))->Ok_0;
    let data = pre + enc + suf;
    let pos = pre.len() as int;
    assert(enc == lb + b);
    assert(pre + (lb + b) + suf =~= pre + lb + (b + suf));
    lemma_uint_round_trip(w, b.len() as u64, pre, b + suf);
    assert(data.subrange(pos + lb.len(), pos + lb.len() + b.len()) =~= b);
}

/// Decoding the encodings of `items.len()` consecutive elements yields the
/// elements back.
pub proof fn lemma_elems_round_trip(e: SchemaNode, items: Seq<ValueV>, pre: Seq<u8>, suf: Seq<u8>)
    requires
        spec_enc_elems(e, items) is Ok,
        fits_list(items),
    ensures
        ({
            let enc = spec_enc_elems(e, items)->Ok_0;
            spec_dec_elems(e, items.len(), pre + enc + suf, pre.len() as int) == Ok::<
                (Seq<ValueV>, int),
                (CodecError, int),
            >((items, pre.len() + enc.len() as int))
        }),
    decreases e, 2int, items.len(),
{
    let enc = spec_enc_elems(e, items)->Ok_0;
    if items.len() == 0 {
        assert(enc =~= Seq::<u8>::empty());
        assert(pre + enc + suf =~= pre + suf);
        assert(items =~= Seq::<ValueV>::empty());
    } else {
        let first = spec_enc_node(e, items[0])->Ok_0;
        let rest = spec_enc_elems(e, items.skip(1))->Ok_0;
        assert(enc == first + rest);
        assert(pre + (first + rest) + suf =~= pre + first + (rest + suf));
        lemma_node_round_trip(e, items[0], pre, rest + suf);
        assert(pre + (first + rest) + suf =~= (pre + first) + rest + suf);
        lemma_elems_round_trip(e, items.skip(1), pre + first, suf);
        assert(seq![items[0]] + items.skip(1) =~= items);
    }
}

/// Decoding the encodings of `pairs.len()` consecutive key/value pairs
/// yields the pairs back.
pub proof fn lemma_pairs_round_trip(
    m: SchemaNode,
    pairs: Seq<(ValueV, ValueV)>,
    pre: Seq<u8>,
    suf: Seq<u8>,
)
    requires
        spec_enc_pairs(m, pairs) is Ok,
        fits_pairs(pairs),
    ensures
        ({
            let enc = spec_enc_pairs(m, pairs)->Ok_0;
            spec_dec_pairs(m, pairs.len(), pre + enc + suf, pre.len() as int) == Ok::<
                (Seq<(ValueV, ValueV)>, int),
                (CodecError, int),
            >((pairs, pre.len() + enc.len() as int))
        }),
    decreases m, 0int, pairs.len(),
{
    let enc = spec_enc_pairs(m, pairs)->Ok_0;
    let k = m->MapNode_0;
    let v = m->MapNode_1;
    if pairs.len() == 0 {
        assert(enc =~= Seq::<u8>::empty());
        assert(pre + enc + suf =~= pre + suf);
        assert(pairs =~= Seq::<(ValueV, ValueV)>::empty());
    } else {
        let kb = spec_enc_node(*k, pairs[0].0)->Ok_0;
        let vb = spec_enc_node(*v, pairs[0].1)->Ok_0;
        let rest = spec_enc_pairs(m, pairs.skip(1))->Ok_0;
        assert(enc == kb + vb + rest);
        assert(pre + (kb + vb + rest) + suf =~= pre + kb + (vb + (rest + suf)));
        lemma_node_round_trip(*k, pairs[0].0, pre, vb + (rest + suf));
        assert(pre + kb + (vb + (rest + suf)) =~= (pre + kb) + vb + (rest + suf));
        lemma_node_round_trip(*v, pairs[0].1, pre + kb, rest + suf);
        assert((pre + kb) + vb + (rest + suf) =~= ((pre + kb) + vb) + rest + suf);
        lemma_pairs_round_trip(m, pairs.skip(1), (pre + kb) + vb, suf);
        assert(pre + enc + suf =~= ((pre + kb) + vb) + rest + suf);
        assert(seq![pairs[0]] + pairs.skip(1) =~= pairs);
        assert(seq![(pairs[0].0, pairs[0].1)] + pairs.skip(1) =~= pairs);
    }
}

/// Decoding an encoded field body yields the value back.
#[verifier::rlimit(80)]
proof fn lemma_field_body_round_trip(
    f: FieldView,
    n: SchemaNode,
    v: ValueV,
    pre: Seq<u8>,
    suf: Seq<u8>,
)
    requires
        spec_enc_field_body(f, n, v) is Ok,
        value_fits(v),
    ensures
        ({
            let enc = spec_enc_field_body(f, n, v)->Ok_0;
            spec_dec_field_body(f, n, pre + enc + suf, pre.len() as int) == Ok::<
                (ValueV, int),
                (CodecError, int),
            >((v, pre.len() + enc.len() as int))
        }),
{
    let enc = spec_enc_field_body(f, n, v)->Ok_0;
    let data = pre + enc + suf;
    let pos = pre.len() as int;
    if !node_is_variable_size(n) {
        lemma_node_round_trip(n, v, pre, suf);
    } else {
        match f.length {
            Some(l) => {
                // No length prefix on the wire: the count is the attribute's
                // value, which encoding checked against the live length.
                match (n, v) {
                    (SchemaNode::OwnedString, ValueV::VBytes(b))
                    | (SchemaNode::BorrowedString, ValueV::VBytes(b)) => {
                        assert(b.len() == l);
                        assert(data.subrange(pos, pos + b.len()) =~= b);
                    },
                    (SchemaNode::OwnedSequence(e), ValueV::VList(items))
                    | (SchemaNode::BorrowedSlice(e), ValueV::VList(items))
                    | (SchemaNode::SetNode(e), ValueV::VList(items)) => {
                        assert(items.len() == l);
                        lemma_elems_round_trip(*e, items, pre, suf);
                    },
                    (SchemaNode::MapNode(_, _), ValueV::VMap(pairs)) => {
                        assert(pairs.len() == l);
                        lemma_pairs_round_trip(n, pairs, pre, suf);
                    },
                    _ => {
                        assert(false);
                    },
                }
            },
            None => {
                let w = f.length_width();
                match (n, v) {
                    (SchemaNode::OwnedString, ValueV::VBytes(b))
                    | (SchemaNode::BorrowedString, ValueV::VBytes(b)) => {
                        lemma_len_prefixed_bytes(w, b, pre, suf);
                    },
                    (SchemaNode::OwnedSequence(e), ValueV::VList(items))
                    | (SchemaNode::BorrowedSlice(e), ValueV::VList(items))
                    | (SchemaNode::SetNode(e), ValueV::VList(items)) => {
                        let lb = spec_enc_uint(w, items.len() as u64)->Ok_0;
                        let cb = spec_enc_elems(*e, items)->Ok_0;
                        assert(pre + (lb + cb) + suf =~= pre + lb + (cb + suf));
                        lemma_uint_round_trip(w, items.len() as u64, pre, cb + suf);
                        assert(spec_dec_len(w, data, pos) == Ok::<(nat, int), (CodecError, int)>(
                            (items.len(), pos + lb.len()),
                        ));
                        assert(pre + (lb + cb) + suf =~= (pre + lb) + cb + suf);
                        lemma_elems_round_trip(*e, items, pre + lb, suf);
                    },
                    (SchemaNode::MapNode(_, _), ValueV::VMap(pairs)) => {
                        let lb = spec_enc_uint(w, pairs.len() as u64)->Ok_0;
                        let cb = spec_enc_pairs(n, pairs)->Ok_0;
                        assert(pre + (lb + cb) + suf =~= pre + lb + (cb + suf));
                        lemma_uint_round_trip(w, pairs.len() as u64, pre, cb + suf);
                        assert(spec_dec_len(w, data, pos) == Ok::<(nat, int), (CodecError, int)>(
                            (pairs.len(), pos + lb.len()),
                        ));
                        assert(pre + (lb + cb) + suf =~= (pre + lb) + cb + suf);
                        lemma_pairs_round_trip(n, pairs, pre + lb, suf);
                    },
                    _ => {
                        assert(false);
                    },
                }
            },
        }
    }
}

/// Decoding an encoded field yields the value back: the field round-trips.
/// A skipped field writes no bytes and decodes to its default, so its value
/// must be the default.
pub proof fn lemma_field_round_trip(f: FieldView, v: ValueV, pre: Seq<u8>, suf: Seq<u8>)
    requires
        spec_enc_field(f, v) is Ok,
        value_fits(v),
        f.skip ==> v == default_of_field(f),
    ensures
        ({
            let enc = spec_enc_field(f, v)->Ok_0;
            spec_dec_field(f, pre + enc + suf, pre.len() as int) == Ok::<
                (ValueV, int),
                (CodecError, int),
            >((v, pre.len() + enc.len() as int))
        }),
{
    let enc = spec_enc_field(f, v)->Ok_0;
    let data = pre + enc + suf;
    let pos = pre.len() as int;
    if f.skip {
        assert(enc =~= Seq::<u8>::empty());
    } else {
        let prefix: Seq<u8> = match f.constant_prefix {
            Some(p) => p,
            None => Seq::empty(),
        };
        let body: Seq<u8> = enc.skip(prefix.len() as int);
        assert(enc == prefix + body) by {
            assert(prefix + body =~= enc);
        }
        assert(data.subrange(pos, pos + prefix.len()) =~= prefix);
        let p2 = pos + prefix.len() as int;
        match f.ty {
            crate::schema::Opt::Plain(n) => {
                let bs = spec_enc_field_body(f, n, v)->Ok_0;
                assert(body == bs);
                assert(pre + (prefix + bs) + suf =~= (pre + prefix) + bs + suf);
                lemma_field_body_round_trip(f, n, v, pre + prefix, suf);
            },
            crate::schema::Opt::Wrapped(n) => {
                match v {
                    ValueV::VOpt(o) => match o {
                        None => {
                            assert(body == seq![0u8]);
                            assert(data[p2] == 0u8);
                        },
                        Some(inner) => {
                            let bs = spec_enc_field_body(f, n, *inner)->Ok_0;
                            assert(body == seq![1u8] + bs);
                            assert(data[p2] == 1u8);
                            assert(pre + (prefix + (seq![1u8] + bs)) + suf =~= ((pre + prefix)
                                + seq![1u8]) + bs + suf);
                            lemma_field_body_round_trip(f, n, *inner, (pre + prefix) + seq![1u8], suf);
                        },
                    },
                    _ => {
                        assert(false);
                    },
                }
            },
        }
    }
}

/// Decoding the encodings of the fields from `i` on yields the values back.
proof fn lemma_fields_round_trip(
    fields: Seq<FieldView>,
    vals: Seq<ValueV>,
    i: int,
    pre: Seq<u8>,
    suf: Seq<u8>,
)
    requires
        spec_enc_fields(fields, vals, i) is Ok,
        vals.len() == fields.len(),
        0 <= i <= fields.len(),
        forall|k: int| i <= k < fields.len() ==> value_fits(#[trigger] vals[k]),
        forall|k: int|
            i <= k < fields.len() && (#[trigger] fields[k]).skip ==> vals[k] == default_of_field(
                fields[k],
            ),
    ensures
        ({
            let enc = spec_enc_fields(fields, vals, i)->Ok_0;
            spec_dec_fields(fields, pre + enc + suf, pre.len() as int, i) == Ok::<
                (Seq<ValueV>, int),
                (CodecError, int),
            >((vals.skip(i), pre.len() + enc.len() as int))
        }),
    decreases fields.len() - i,
{
    let enc = spec_enc_fields(fields, vals, i)->Ok_0;
    if i >= fields.len() {
        assert(enc =~= Seq::<u8>::empty());
        assert(pre + enc + suf =~= pre + suf);
        assert(vals.skip(i) =~= Seq::<ValueV>::empty());
    } else {
        let first = spec_enc_field(fields[i], vals[i])->Ok_0;
        let rest = spec_enc_fields(fields, vals, i + 1)->Ok_0;
        assert(enc == first + rest);
        assert(pre + (first + rest) + suf =~= pre + first + (rest + suf));
        lemma_field_round_trip(fields[i], vals[i], pre, rest + suf);
        assert(pre + (first + rest) + suf =~= (pre + first) + rest + suf);
        lemma_fields_round_trip(fields, vals, i + 1, pre + first, suf);
        assert(seq![vals[i]] + vals.skip(i + 1) =~= vals.skip(i));
    }
}

/// Round trip for records: decoding an encoded record, at any position in
/// any buffer, yields every field's value back and consumes exactly the
/// record's encoding.
pub proof fn lemma_record_round_trip(r: RecordView, vals: Seq<ValueV>, pre: Seq<u8>, suf: Seq<u8>)
    requires
        spec_enc_record(r, vals) is Ok,
        forall|k: int| 0 <= k < vals.len() ==> value_fits(#[trigger] vals[k]),
        forall|k: int|
            0 <= k < r.fields.len() && (#[trigger] r.fields[k]).skip ==> vals[k] == default_of_field(
                r.fields[k],
            ),
    ensures
        ({
            let enc = spec_enc_record(r, vals)->Ok_0;
            spec_dec_record(r, pre + enc + suf, pre.len() as int) == Ok::<
                (Seq<ValueV>, int),
                (CodecError, int),
            >((vals, pre.len() + enc.len() as int))
        }),
{
    lemma_fields_round_trip(r.fields, vals, 0, pre, suf);
    assert(vals.skip(0) =~= vals);
}

/// With pairwise-distinct tags, the variant found for a tag is the variant
/// that carries it.
proof fn lemma_find_variant_exact(variants: Seq<VariantView>, j: int, i: int)
    requires
        0 <= i <= j < variants.len(),
        forall|k: int, l: int| 0 <= k < l < variants.len() ==> variants[k].tag != variants[l].tag,
    ensures
        spec_find_variant(variants, variants[j].tag, i) == j,
    decreases j - i,
{
    if i < j {
        assert(variants[i].tag != variants[j].tag);
        lemma_find_variant_exact(variants, j, i + 1);
    }
}

/// Round trip for sum types whose tag is written by the type itself (not
/// peeked) and whose variant tags are distinct: decoding an encoded variant
/// yields the same variant and field values back.
pub proof fn lemma_sum_round_trip(
    s: SumView,
    variant: int,
    vals: Seq<ValueV>,
    pre: Seq<u8>,
    suf: Seq<u8>,
)
    requires
        spec_enc_sum(s, variant, vals) is Ok,
        !s.peek_tag,
        forall|k: int, l: int|
            0 <= k < l < s.variants.len() ==> s.variants[k].tag != s.variants[l].tag,
        forall|k: int| 0 <= k < vals.len() ==> value_fits(#[trigger] vals[k]),
        forall|k: int|
            0 <= k < s.variants[variant].record.fields.len() && (#[trigger] s.variants[
                variant
            ].record.fields[k]).skip ==> vals[k] == default_of_field(
                s.variants[variant].record.fields[k],
            ),
    ensures
        ({
            let enc = spec_enc_sum(s, variant, vals)->Ok_0;
            spec_dec_sum(s, pre + enc + suf, pre.len() as int) == Ok::<
                ((int, Seq<ValueV>), int),
                (CodecError, int),
            >(((variant, vals), pre.len() + enc.len() as int))
        }),
{
    let tag = s.variants[variant].tag;
    let tb = spec_enc_uint(s.tag_width, tag)->Ok_0;
    let body = spec_enc_record(s.variants[variant].record, vals)->Ok_0;
    let enc = spec_enc_sum(s, variant, vals)->Ok_0;
    assert(enc == tb + body);
    assert(pre + (tb + body) + suf =~= pre + tb + (body + suf));
    lemma_uint_round_trip(s.tag_width, tag, pre, body + suf);
    let data = pre + enc + suf;
    let pos = pre.len() as int;
    assert(spec_dec_uint(s.tag_width, data, pos) == Ok::<(u64, int), (CodecError, int)>(
        (tag, pos + tb.len()),
    ));
    lemma_find_variant_exact(s.variants, variant, 0);
    assert(pre + (tb + body) + suf =~= (pre + tb) + body + suf);
    lemma_record_round_trip(s.variants[variant].record, vals, pre + tb, suf);
}

/// A sum type with a peeked tag and a unit payload consumes no bytes: the
/// tag's bytes stay in place for an enclosing structure to read again, so
/// the sum decodes identically whether or not the encloser re-reads them.
pub proof fn lemma_peek_sum_consumes_nothing(s: SumView, data: Seq<u8>, pos: int)
    requires
        s.peek_tag,
        spec_dec_uint(s.tag_width, data, pos) is Ok,
        ({
            let tag = spec_dec_uint(s.tag_width, data, pos)->Ok_0.0;
            let j = spec_find_variant(s.variants, tag, 0);
            j >= 0 && s.variants[j].record.fields.len() == 0
        }),
    ensures
        ({
            let tag = spec_dec_uint(s.tag_width, data, pos)->Ok_0.0;
            let j = spec_find_variant(s.variants, tag, 0);
            spec_dec_sum(s, data, pos) == Ok::<((int, Seq<ValueV>), int), (CodecError, int)>(
                ((j, Seq::empty()), pos),
            )
        }),
{
    let tag = spec_dec_uint(s.tag_width, data, pos)->Ok_0.0;
    let j = spec_find_variant(s.variants, tag, 0);
    assert(spec_dec_record(s.variants[j].record, data, pos) == Ok::<
        (Seq<ValueV>, int),
        (CodecError, int),
    >((Seq::empty(), pos)));
}

/// The element count a variable-size node sees in a value.
pub open spec fn spec_container_count(n: SchemaNode, v: ValueV) -> Option<nat> {
    match (n, v) {
        (SchemaNode::OwnedString, ValueV::VBytes(b)) => Some(b.len()),
        (SchemaNode::BorrowedString, ValueV::VBytes(b)) => Some(b.len()),
        (SchemaNode::OwnedSequence(_), ValueV::VList(items)) => Some(items.len()),
        (SchemaNode::BorrowedSlice(_), ValueV::VList(items)) => Some(items.len()),
        (SchemaNode::SetNode(_), ValueV::VList(items)) => Some(items.len()),
        (SchemaNode::MapNode(_, _), ValueV::VMap(pairs)) => Some(pairs.len()),
        _ => None,
    }
}

/// Encoding a field whose `length` attribute disagrees with the live
/// collection's length fails with a length-mismatch error — and by the
/// encoders' contracts a failing encode writes nothing.
pub proof fn lemma_length_attribute_enforced(f: FieldView, v: ValueV)
    requires
        !f.skip,
        f.ty matches crate::schema::Opt::Plain(n) && spec_container_count(n, v) matches Some(c)
            && f.length matches Some(l) && c != l,
    ensures
        spec_enc_field(f, v) == Err::<Seq<u8>, CodecError>(CodecError::LengthMismatch),
{
}

} // verus!
