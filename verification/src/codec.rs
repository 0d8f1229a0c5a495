//! The codec derivation engine, as a schema interpreter: for each schema
//! node, field, record and sum type, the exact byte sequence a value encodes
//! to and the exact value (and consumed byte range) a buffer decodes to.
//!
//! The spec functions in this module are the wire format's definition; the
//! executable functions are proved equal to them. Decoding returns, with an
//! error, the position at which the failing read began, so that a field
//! marked `default_on_eof` can resume there.

use vstd::prelude::*;

use crate::error::CodecError;
use crate::schema::{node_is_variable_size, FieldView, RecordView, SchemaNode, SumView, VariantView};
use crate::value::{default_of_field, ValueV};
use crate::wire::{spec_dec_uint, spec_enc_uint, Width};

verus! {

/// The byte sequence a value of node `n` encodes to, with default (32-bit)
/// length prefixes, or the error: a value of the wrong shape, an integer
/// that does not fit its width, or a length that does not fit its prefix.
pub open spec fn spec_enc_node(n: SchemaNode, v: ValueV) -> Result<Seq<u8>, CodecError>
    decreases n, 1int, 0int,
{
    match n {
        SchemaNode::Primitive(w) => match v {
            ValueV::VUInt(x) => spec_enc_uint(w, x),
            _ => Err(CodecError::ValueMismatch),
        },
        SchemaNode::OwnedString | SchemaNode::BorrowedString => match v {
            ValueV::VBytes(b) => spec_enc_with_len(Width::W32, b.len(), Ok(b)),
            _ => Err(CodecError::ValueMismatch),
        },
        SchemaNode::OwnedSequence(e) | SchemaNode::BorrowedSlice(e) | SchemaNode::SetNode(e) => {
            match v {
                ValueV::VList(items) => spec_enc_with_len(
                    Width::W32,
                    items.len(),
                    spec_enc_elems(*e, items),
                ),
                _ => Err(CodecError::ValueMismatch),
            }
        },
        SchemaNode::MapNode(_, _) => match v {
            ValueV::VMap(pairs) => spec_enc_with_len(
                Width::W32,
                pairs.len(),
                spec_enc_pairs(n, pairs),
            ),
            _ => Err(CodecError::ValueMismatch),
        },
        SchemaNode::FixedArray(e, len) => match v {
            ValueV::VList(items) => if items.len() == len {
                spec_enc_elems(*e, items)
            } else {
                Err(CodecError::ValueMismatch)
            },
            _ => Err(CodecError::ValueMismatch),
        },
        SchemaNode::Opaque { min_size } => match v {
            ValueV::VBytes(b) => if b.len() == min_size {
                Ok(b)
            } else {
                Err(CodecError::ValueMismatch)
            },
            _ => Err(CodecError::ValueMismatch),
        },
    }
}

/// A length prefix of width `w` followed by the content; the length is
/// checked against the width before the content's own error is consulted.
pub open spec fn spec_enc_with_len(w: Width, count: nat, content: Result<Seq<u8>, CodecError>) -> Result<
    Seq<u8>,
    CodecError,
> {
    if count > u64::MAX {
        Err(CodecError::OutOfRange)
    } else {
        match spec_enc_uint(w, count as u64) {
            Err(e) => Err(e),
            Ok(lb) => match content {
                Ok(c) => Ok(lb + c),
                Err(e) => Err(e),
            },
        }
    }
}

/// The concatenation of the elements' encodings.
pub open spec fn spec_enc_elems(e: SchemaNode, items: Seq<ValueV>) -> Result<Seq<u8>, CodecError>
    decreases e, 2int, items.len(),
{
    if items.len() == 0 {
        Ok(Seq::empty())
    } else {
        match spec_enc_node(e, items[0]) {
            Err(err) => Err(err),
            Ok(first) => match spec_enc_elems(e, items.skip(1)) {
                Err(err) => Err(err),
                Ok(rest) => Ok(first + rest),
            },
        }
    }
}

/// The concatenation of the pairs' encodings, key then value; `m` is the
/// map node the pairs belong to.
pub open spec fn spec_enc_pairs(m: SchemaNode, pairs: Seq<(ValueV, ValueV)>) -> Result<
    Seq<u8>,
    CodecError,
>
    decreases m, 0int, pairs.len(),
{
    match m {
        SchemaNode::MapNode(k, v) => {
            if pairs.len() == 0 {
                Ok(Seq::empty())
            } else {
                match spec_enc_node(*k, pairs[0].0) {
                    Err(err) => Err(err),
                    Ok(kb) => match spec_enc_node(*v, pairs[0].1) {
                        Err(err) => Err(err),
                        Ok(vb) => match spec_enc_pairs(m, pairs.skip(1)) {
                            Err(err) => Err(err),
                            Ok(rest) => Ok(kb + vb + rest),
                        },
                    },
                }
            }
        },
        _ => Err(CodecError::ValueMismatch),
    }
}

/// The body of a field: its node's encoding, with the field's length
/// configuration applied to a variable-size node — an explicit `length`
/// writes no prefix but demands that exact element count, and `length_type`
/// changes the prefix's width.
pub open spec fn spec_enc_field_body(f: FieldView, n: SchemaNode, v: ValueV) -> Result<
    Seq<u8>,
    CodecError,
> {
    if node_is_variable_size(n) {
        let parts: Result<(nat, Result<Seq<u8>, CodecError>), CodecError> = match (n, v) {
            (SchemaNode::OwnedString, ValueV::VBytes(b)) => Ok((b.len(), Ok(b))),
            (SchemaNode::BorrowedString, ValueV::VBytes(b)) => Ok((b.len(), Ok(b))),
            (SchemaNode::OwnedSequence(e), ValueV::VList(items)) => Ok(
                (items.len(), spec_enc_elems(*e, items)),
            ),
            (SchemaNode::BorrowedSlice(e), ValueV::VList(items)) => Ok(
                (items.len(), spec_enc_elems(*e, items)),
            ),
            (SchemaNode::SetNode(e), ValueV::VList(items)) => Ok(
                (items.len(), spec_enc_elems(*e, items)),
            ),
            (SchemaNode::MapNode(_, _), ValueV::VMap(pairs)) => Ok(
                (pairs.len(), spec_enc_pairs(n, pairs)),
            ),
            _ => Err(CodecError::ValueMismatch),
        };
        match parts {
            Err(e) => Err(e),
            Ok((count, content)) => match f.length {
                Some(l) => if count == l {
                    match content {
                        Ok(c) => Ok(c),
                        Err(e) => Err(e),
                    }
                } else {
                    Err(CodecError::LengthMismatch)
                },
                None => spec_enc_with_len(f.length_width(), count, content),
            },
        }
    } else {
        spec_enc_node(n, v)
    }
}

/// A field's encoding: nothing for a skipped field; otherwise the constant
/// prefix, then — for an optional-wrapped field — a one-byte presence flag,
/// then the body when present.
pub open spec fn spec_enc_field(f: FieldView, v: ValueV) -> Result<Seq<u8>, CodecError> {
    if f.skip {
        Ok(Seq::empty())
    } else {
        let prefix: Seq<u8> = match f.constant_prefix {
            Some(p) => p,
            None => Seq::empty(),
        };
        let body: Result<Seq<u8>, CodecError> = match f.ty {
            crate::schema::Opt::Plain(n) => spec_enc_field_body(f, n, v),
            crate::schema::Opt::Wrapped(n) => match v {
                ValueV::VOpt(o) => match o {
                    None => Ok(seq![0u8]),
                    Some(inner) => match spec_enc_field_body(f, n, *inner) {
                        Ok(bs) => Ok(seq![1u8] + bs),
                        Err(e) => Err(e),
                    },
                },
                _ => Err(CodecError::ValueMismatch),
            },
        };
        match body {
            Ok(bs) => Ok(prefix + bs),
            Err(e) => Err(e),
        }
    }
}

/// The concatenation of the fields' encodings from index `i` on, in
/// declaration order.
pub open spec fn spec_enc_fields(fields: Seq<FieldView>, vals: Seq<ValueV>, i: int) -> Result<
    Seq<u8>,
    CodecError,
>
    decreases fields.len() - i,
{
    if i < 0 || i >= fields.len() {
        Ok(Seq::empty())
    } else {
        match spec_enc_field(fields[i], vals[i]) {
            Err(e) => Err(e),
            Ok(first) => match spec_enc_fields(fields, vals, i + 1) {
                Err(e) => Err(e),
                Ok(rest) => Ok(first + rest),
            },
        }
    }
}

/// A record's encoding: its fields' encodings concatenated, with no tag or
/// length around the record itself. The value list must have one value per
/// field, skipped fields included.
pub open spec fn spec_enc_record(r: RecordView, vals: Seq<ValueV>) -> Result<Seq<u8>, CodecError> {
    if vals.len() != r.fields.len() {
        Err(CodecError::ValueMismatch)
    } else {
        spec_enc_fields(r.fields, vals, 0)
    }
}

/// A sum-type value's encoding: the variant's tag in the configured width
/// (omitted when the tag is peeked, since an enclosing structure owns those
/// bytes), then the variant's payload record.
pub open spec fn spec_enc_sum(s: SumView, variant: int, vals: Seq<ValueV>) -> Result<
    Seq<u8>,
    CodecError,
> {
    if !(0 <= variant < s.variants.len()) {
        Err(CodecError::ValueMismatch)
    } else {
        let tag_bytes: Result<Seq<u8>, CodecError> = if s.peek_tag {
            Ok(Seq::empty())
        } else {
            spec_enc_uint(s.tag_width, s.variants[variant].tag)
        };
        match tag_bytes {
            Err(e) => Err(e),
            Ok(tb) => match spec_enc_record(s.variants[variant].record, vals) {
                Err(e) => Err(e),
                Ok(body) => Ok(tb + body),
            },
        }
    }
}

/// The value decoded from `data` at `pos` for node `n`, and the position
/// after it; on failure, the error and the position at which the failing
/// read began.
pub open spec fn spec_dec_node(n: SchemaNode, data: Seq<u8>, pos: int) -> Result<
    (ValueV, int),
    (CodecError, int),
>
    decreases n, 1int, 0int,
{
    match n {
        SchemaNode::Primitive(w) => match spec_dec_uint(w, data, pos) {
            Ok((x, p)) => Ok((ValueV::VUInt(x), p)),
            Err(e) => Err(e),
        },
        SchemaNode::OwnedString | SchemaNode::BorrowedString => {
            match spec_dec_len(Width::W32, data, pos) {
                Err(e) => Err(e),
                Ok((count, p)) => spec_dec_byte_span(data, p, count),
            }
        },
        SchemaNode::OwnedSequence(e) | SchemaNode::BorrowedSlice(e) | SchemaNode::SetNode(e) => {
            match spec_dec_len(Width::W32, data, pos) {
                Err(err) => Err(err),
                Ok((count, p)) => match spec_dec_elems(*e, count, data, p) {
                    Ok((items, p2)) => Ok((ValueV::VList(items), p2)),
                    Err(err) => Err(err),
                },
            }
        },
        SchemaNode::MapNode(_, _) => match spec_dec_len(Width::W32, data, pos) {
            Err(err) => Err(err),
            Ok((count, p)) => match spec_dec_pairs(n, count, data, p) {
                Ok((pairs, p2)) => Ok((ValueV::VMap(pairs), p2)),
                Err(err) => Err(err),
            },
        },
        SchemaNode::FixedArray(e, len) => match spec_dec_elems(*e, len as nat, data, pos) {
            Ok((items, p2)) => Ok((ValueV::VList(items), p2)),
            Err(err) => Err(err),
        },
        SchemaNode::Opaque { min_size } => spec_dec_byte_span(data, pos, min_size as nat),
    }
}

/// Read a length of width `w` and check that it can index a buffer.
pub open spec fn spec_dec_len(w: Width, data: Seq<u8>, pos: int) -> Result<
    (nat, int),
    (CodecError, int),
> {
    match spec_dec_uint(w, data, pos) {
        Err(e) => Err(e),
        Ok((x, p)) => if x > usize::MAX {
            Err((CodecError::OutOfRange, p))
        } else {
            Ok((x as nat, p))
        },
    }
}

/// Read `count` raw bytes as a byte-span value.
pub open spec fn spec_dec_byte_span(data: Seq<u8>, pos: int, count: nat) -> Result<
    (ValueV, int),
    (CodecError, int),
> {
    if 0 <= pos && pos + count <= data.len() {
        Ok((ValueV::VBytes(data.subrange(pos, pos + count)), pos + count))
    } else {
        Err((CodecError::UnexpectedEof, pos))
    }
}

/// Decode `count` consecutive elements.
pub open spec fn spec_dec_elems(e: SchemaNode, count: nat, data: Seq<u8>, pos: int) -> Result<
    (Seq<ValueV>, int),
    (CodecError, int),
>
    decreases e, 2int, count,
{
    if count == 0 {
        Ok((Seq::empty(), pos))
    } else {
        match spec_dec_node(e, data, pos) {
            Err(err) => Err(err),
            Ok((v, p)) => match spec_dec_elems(e, (count - 1) as nat, data, p) {
                Err(err) => Err(err),
                Ok((rest, p2)) => Ok((seq![v] + rest, p2)),
            },
        }
    }
}

/// Decode `count` consecutive key/value pairs of the map node `m`.
pub open spec fn spec_dec_pairs(m: SchemaNode, count: nat, data: Seq<u8>, pos: int) -> Result<
    (Seq<(ValueV, ValueV)>, int),
    (CodecError, int),
>
    decreases m, 0int, count,
{
    match m {
        SchemaNode::MapNode(k, v) => {
            if count == 0 {
                Ok((Seq::empty(), pos))
            } else {
                match spec_dec_node(*k, data, pos) {
                    Err(err) => Err(err),
                    Ok((kv, p)) => match spec_dec_node(*v, data, p) {
                        Err(err) => Err(err),
                        Ok((vv, p2)) => match spec_dec_pairs(m, (count - 1) as nat, data, p2) {
                            Err(err) => Err(err),
                            Ok((rest, p3)) => Ok((seq![(kv, vv)] + rest, p3)),
                        },
                    },
                }
            }
        },
        _ => Err((CodecError::ValueMismatch, pos)),
    }
}

/// The body of a field decode: the node's decoding, with the field's length
/// configuration applied to a variable-size node.
pub open spec fn spec_dec_field_body(f: FieldView, n: SchemaNode, data: Seq<u8>, pos: int) -> Result<
    (ValueV, int),
    (CodecError, int),
>
    decreases n, 3int, 0int,
{
    if node_is_variable_size(n) {
        let len_read: Result<(nat, int), (CodecError, int)> = match f.length {
            Some(l) => if l > usize::MAX {
                Err((CodecError::OutOfRange, pos))
            } else {
                Ok((l as nat, pos))
            },
            None => spec_dec_len(f.length_width(), data, pos),
        };
        match len_read {
            Err(err) => Err(err),
            Ok((count, p)) => match n {
                SchemaNode::OwnedString | SchemaNode::BorrowedString => spec_dec_byte_span(
                    data,
                    p,
                    count,
                ),
                SchemaNode::OwnedSequence(e) | SchemaNode::BorrowedSlice(e)
                    | SchemaNode::SetNode(e) => match spec_dec_elems(*e, count, data, p) {
                    Ok((items, p2)) => Ok((ValueV::VList(items), p2)),
                    Err(err) => Err(err),
                },
                SchemaNode::MapNode(_, _) => match spec_dec_pairs(n, count, data, p) {
                    Ok((pairs, p2)) => Ok((ValueV::VMap(pairs), p2)),
                    Err(err) => Err(err),
                },
                _ => Err((CodecError::ValueMismatch, p)),
            },
        }
    } else {
        spec_dec_node(n, data, pos)
    }
}

/// A field's decoding without end-of-input recovery: the constant prefix is
/// consumed and checked first, then — for an optional-wrapped field — the
/// presence flag, then the body.
pub open spec fn spec_dec_field_raw(f: FieldView, data: Seq<u8>, pos: int) -> Result<
    (ValueV, int),
    (CodecError, int),
> {
    let after_prefix: Result<int, (CodecError, int)> = match f.constant_prefix {
        Some(p) => if !(0 <= pos && pos + p.len() <= data.len()) {
            Err((CodecError::UnexpectedEof, pos))
        } else if data.subrange(pos, pos + p.len()) != p {
            Err((CodecError::PrefixMismatch, pos))
        } else {
            Ok(pos + p.len())
        },
        None => Ok(pos),
    };
    match after_prefix {
        Err(err) => Err(err),
        Ok(p2) => match f.ty {
            crate::schema::Opt::Plain(n) => spec_dec_field_body(f, n, data, p2),
            crate::schema::Opt::Wrapped(n) => {
                if !(0 <= p2 < data.len()) {
                    Err((CodecError::UnexpectedEof, p2))
                } else if data[p2] != 0 {
                    match spec_dec_field_body(f, n, data, p2 + 1) {
                        Ok((v, p3)) => Ok((ValueV::VOpt(Some(Box::new(v))), p3)),
                        Err(err) => Err(err),
                    }
                } else {
                    Ok((ValueV::VOpt(None), p2 + 1))
                }
            },
        },
    }
}

/// A field's decoding: a skipped field consumes nothing and takes its
/// default value; an end-of-input failure on a field marked
/// `default_on_eof` is converted into the default value, and decoding
/// resumes at the position the failing read began.
pub open spec fn spec_dec_field(f: FieldView, data: Seq<u8>, pos: int) -> Result<
    (ValueV, int),
    (CodecError, int),
> {
    if f.skip {
        Ok((default_of_field(f), pos))
    } else {
        match spec_dec_field_raw(f, data, pos) {
            Ok(r) => Ok(r),
            Err((e, p)) => if f.default_on_eof && e == CodecError::UnexpectedEof {
                Ok((default_of_field(f), p))
            } else {
                Err((e, p))
            },
        }
    }
}

/// Decode the fields from index `i` on, each at the position the previous
/// one ended.
pub open spec fn spec_dec_fields(fields: Seq<FieldView>, data: Seq<u8>, pos: int, i: int) -> Result<
    (Seq<ValueV>, int),
    (CodecError, int),
>
    decreases fields.len() - i,
{
    if i < 0 || i >= fields.len() {
        Ok((Seq::empty(), pos))
    } else {
        match spec_dec_field(fields[i], data, pos) {
            Err(err) => Err(err),
            Ok((v, p)) => match spec_dec_fields(fields, data, p, i + 1) {
                Err(err) => Err(err),
                Ok((rest, p2)) => Ok((seq![v] + rest, p2)),
            },
        }
    }
}

/// A record's decoding: all fields in declaration order; the record value
/// exists only if every field decodes.
pub open spec fn spec_dec_record(r: RecordView, data: Seq<u8>, pos: int) -> Result<
    (Seq<ValueV>, int),
    (CodecError, int),
> {
    spec_dec_fields(r.fields, data, pos, 0)
}

/// The first variant whose tag is `tag`, or -1.
pub open spec fn spec_find_variant(variants: Seq<VariantView>, tag: u64, i: int) -> int
    decreases variants.len() - i,
{
    if i < 0 || i >= variants.len() {
        -1
    } else if variants[i].tag == tag {
        i
    } else {
        spec_find_variant(variants, tag, i + 1)
    }
}

/// A sum type's decoding: read the tag in the configured width — without
/// consuming it when `peek_tag` is set — then decode the matching variant's
/// record; a tag that matches no variant is an error.
pub open spec fn spec_dec_sum(s: SumView, data: Seq<u8>, pos: int) -> Result<
    ((int, Seq<ValueV>), int),
    (CodecError, int),
> {
    match spec_dec_uint(s.tag_width, data, pos) {
        Err(err) => Err(err),
        Ok((tag, ptag)) => {
            let body_pos: int = if s.peek_tag {
                pos
            } else {
                ptag
            };
            let j = spec_find_variant(s.variants, tag, 0);
            if j < 0 {
                Err((CodecError::InvalidVariantTag, pos))
            } else {
                match spec_dec_record(s.variants[j].record, data, body_pos) {
                    Err(err) => Err(err),
                    Ok((vals, p)) => Ok(((j, vals), p)),
                }
            }
        },
    }
}

} // verus!
