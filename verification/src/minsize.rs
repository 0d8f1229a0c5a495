//! The minimum-size analyzer: a conservative lower bound, per schema node,
//! record and sum type, on the bytes required to decode a value, used to
//! reject obviously truncated input before decoding.

use vstd::prelude::*;

use crate::codec::{
    spec_dec_elems, spec_dec_field, spec_dec_field_body, spec_dec_field_raw, spec_dec_fields,
    spec_dec_len, spec_dec_node, spec_dec_pairs, spec_dec_record,
};
use crate::schema::{
    node_is_variable_size, FieldDescriptor, FieldView, RecordDescriptor, RecordKind,
    RecordView, SchemaNode, SumDescriptor, SumView,
};
use crate::wire::{lemma_dec_uint_consumes, spec_width_min_bytes, width_min_bytes};

verus! {

/// Clamp an exact byte count into a 64-bit result.
pub open spec fn sat64(x: nat) -> u64 {
    if x > u64::MAX {
        u64::MAX
    } else {
        x as u64
    }
}

/// The minimum bytes a value of this node occupies, with default length
/// prefixes: the exact width of a primitive, the 32-bit default length
/// prefix of a variable-size node, the element minimum times the length of
/// a fixed array, and an opaque leaf's declared minimum.
pub open spec fn spec_min_node(n: SchemaNode) -> nat
    decreases n,
{
    match n {
        SchemaNode::Primitive(w) => spec_width_min_bytes(w) as nat,
        SchemaNode::FixedArray(e, len) => spec_min_node(*e) * (len as nat),
        SchemaNode::Opaque { min_size } => min_size as nat,
        _ => 4,
    }
}

/// A field's contribution: nothing when the field is skipped, defaulted on
/// end-of-input or carries an explicit `length` (its effective minimum
/// cannot be statically bounded); one byte for an optional field's presence
/// flag; otherwise the length prefix's width for variable-size nodes or the
/// node's own minimum, plus the constant prefix's length.
pub open spec fn spec_min_field(f: FieldView) -> nat {
    if f.skip || f.default_on_eof || f.length is Some {
        0
    } else {
        let base: nat = if f.ty.is_wrapped() {
            1
        } else if crate::schema::node_is_variable_size(f.ty.spec_inner()) {
            spec_width_min_bytes(f.length_width()) as nat
        } else {
            spec_min_node(f.ty.spec_inner())
        };
        let prefix: nat = match f.constant_prefix {
            Some(p) => p.len(),
            None => 0,
        };
        base + prefix
    }
}

/// The sum of the first `i` fields' contributions.
pub open spec fn spec_min_fields_prefix(fields: Seq<FieldView>, i: int) -> nat
    decreases i,
{
    if i <= 0 {
        0
    } else {
        spec_min_fields_prefix(fields, i - 1) + spec_min_field(fields[i - 1])
    }
}

/// A record's minimum: the sum of its fields' contributions.
pub open spec fn spec_min_record(r: RecordView) -> nat {
    spec_min_fields_prefix(r.fields, r.fields.len() as int)
}

/// The least record minimum among the first `i` variants whose payload is
/// not a unit record; `None` when there is no such variant.
pub open spec fn spec_min_variants_prefix(s: SumView, i: int) -> Option<nat>
    decreases i,
{
    if i <= 0 {
        None
    } else {
        let rest = spec_min_variants_prefix(s, i - 1);
        if s.variants[i - 1].record.kind == RecordKind::UnitRecord {
            rest
        } else {
            let m = spec_min_record(s.variants[i - 1].record);
            match rest {
                None => Some(m),
                Some(cur) => Some(if m < cur {
                    m
                } else {
                    cur
                }),
            }
        }
    }
}

/// A sum type's minimum: the least non-unit variant minimum (zero when all
/// variants are unit records), plus the tag's byte width — or the larger of
/// the two when the tag is only peeked, since the tag's bytes then overlap
/// the payload's.
pub open spec fn spec_min_sum(s: SumView) -> nat {
    let m: nat = match spec_min_variants_prefix(s, s.variants.len() as int) {
        None => 0,
        Some(m) => m,
    };
    let tag: nat = spec_width_min_bytes(s.tag_width) as nat;
    if s.peek_tag {
        if m > tag {
            m
        } else {
            tag
        }
    } else {
        m + tag
    }
}

/// The minimum bytes needed to decode a value of this node, clamped to 64
/// bits.
pub fn min_node(n: &SchemaNode) -> (r: u64)
    ensures
        r == sat64(spec_min_node(*n)),
    decreases *n,
{
    match n {
        SchemaNode::Primitive(w) => width_min_bytes(*w),
        SchemaNode::FixedArray(e, len) => {
            let m = min_node(e);
            let l = *len as u64;
            if l == 0 {
                0
            } else if m > u64::MAX / l {
                proof {
                    let exact = spec_min_node(**e);
                    assert((m as nat) * (l as nat) > u64::MAX) by (nonlinear_arith)
                        requires
                            (m as nat) > ((u64::MAX as nat) / (l as nat)),
                            l >= 1,
                    ;
                    assert(exact * (l as nat) >= (m as nat) * (l as nat)) by (nonlinear_arith)
                        requires
                            exact >= m as nat,
                            l >= 1,
                    ;
                }
                u64::MAX
            } else {
                proof {
                    let exact = spec_min_node(**e);
                    assert((m as nat) * (l as nat) <= u64::MAX) by (nonlinear_arith)
                        requires
                            (m as nat) <= ((u64::MAX as nat) / (l as nat)),
                            l >= 1,
                    ;
                    if exact > u64::MAX {
                        // Only possible when the element minimum saturated;
                        // then the quotient bound forces a length of one.
                        assert(m == u64::MAX);
                        assert(l == 1) by (nonlinear_arith)
                            requires
                                l >= 1,
                                (u64::MAX as nat) <= ((u64::MAX as nat) / (l as nat)),
                        ;
                        assert(exact * (l as nat) == exact) by (nonlinear_arith)
                            requires
                                l == 1,
                        ;
                    } else {
                        assert(m == exact);
                    }
                }
                m * l
            }
        },
        SchemaNode::Opaque { min_size } => *min_size,
        _ => 4,
    }
}

/// The minimum bytes this field contributes, clamped to 64 bits.
pub fn min_field(f: &FieldDescriptor) -> (r: u64)
    ensures
        r == sat64(spec_min_field(f@)),
{
    if f.skip || f.default_on_eof || f.length.is_some() {
        return 0;
    }
    let base: u64 = match &f.ty {
        crate::schema::Opt::Wrapped(_) => 1,
        crate::schema::Opt::Plain(inner) => {
            if crate::schema::is_variable_size(inner) {
                width_min_bytes(f.length_width())
            } else {
                min_node(inner)
            }
        },
    };
    let prefix: u64 = match &f.constant_prefix {
        Some(p) => {
            proof {
                assert(p.len() == p@.len());
            }
            if p.len() as u64 > u64::MAX - base {
                return u64::MAX;
            }
            p.len() as u64
        },
        None => 0,
    };
    base + prefix
}

/// The minimum bytes needed to decode this record, clamped to 64 bits.
pub fn minimum_size_record(r: &RecordDescriptor) -> (m: u64)
    ensures
        m == sat64(spec_min_record(r@)),
{
    let mut acc: u64 = 0;
    let mut i: usize = 0;
    while i < r.fields.len()
        invariant
            i <= r.fields@.len(),
            r@.fields.len() == r.fields@.len(),
            acc == sat64(spec_min_fields_prefix(r@.fields, i as int)),
        decreases r.fields@.len() - i,
    {
        let fm = min_field(&r.fields[i]);
        proof {
            assert(r@.fields[i as int] == r.fields@[i as int]@);
        }
        if fm > u64::MAX - acc {
            acc = u64::MAX;
        } else {
            acc = acc + fm;
        }
        i = i + 1;
    }
    acc
}

/// The minimum bytes needed to decode this sum type, clamped to 64 bits.
pub fn minimum_size_sum(s: &SumDescriptor) -> (m: u64)
    ensures
        m == sat64(spec_min_sum(s@)),
{
    let mut least: Option<u64> = None;
    let mut i: usize = 0;
    while i < s.variants.len()
        invariant
            i <= s.variants@.len(),
            s@.variants.len() == s.variants@.len(),
            match least {
                None => spec_min_variants_prefix(s@, i as int) is None,
                Some(v) => spec_min_variants_prefix(s@, i as int) matches Some(e) && v == sat64(e),
            },
        decreases s.variants@.len() - i,
    {
        proof {
            assert(s@.variants[i as int] == s.variants@[i as int]@);
        }
        let vi = &s.variants[i];
        let unit = match vi.record.kind {
            RecordKind::UnitRecord => true,
            _ => false,
        };
        if !unit {
            let m = minimum_size_record(&vi.record);
            least = match least {
                None => Some(m),
                Some(cur) => Some(if m < cur {
                    m
                } else {
                    cur
                }),
            };
        }
        i = i + 1;
    }
    let base: u64 = match least {
        None => 0,
        Some(m) => m,
    };
    let tag = width_min_bytes(s.tag_width);
    if s.peek_tag {
        if base > tag {
            base
        } else {
            tag
        }
    } else {
        if base > u64::MAX - tag {
            u64::MAX
        } else {
            base + tag
        }
    }
}

/// A record's minimum is the sum of its fields' contributions, so it is at
/// least each field's individually computed minimum.
pub proof fn lemma_record_min_at_least_each_field(r: RecordView, i: int)
    requires
        0 <= i < r.fields.len(),
    ensures
        spec_min_record(r) >= spec_min_field(r.fields[i]),
{
    lemma_min_fields_prefix_at_least(r.fields, i, r.fields.len() as int);
}

proof fn lemma_min_fields_prefix_at_least(fields: Seq<FieldView>, i: int, n: int)
    requires
        0 <= i < n,
    ensures
        spec_min_fields_prefix(fields, n) >= spec_min_field(fields[i]),
    decreases n,
{
    if i < n - 1 {
        lemma_min_fields_prefix_at_least(fields, i, n - 1);
    }
}

/// Replacing one field by a version with a smaller contribution cannot
/// increase the record's minimum.
proof fn lemma_min_fields_prefix_update(fields: Seq<FieldView>, i: int, f2: FieldView, n: int)
    requires
        0 <= i < fields.len(),
        n <= fields.len(),
        spec_min_field(f2) <= spec_min_field(fields[i]),
    ensures
        spec_min_fields_prefix(fields.update(i, f2), n) <= spec_min_fields_prefix(fields, n),
    decreases n,
{
    if n > 0 {
        lemma_min_fields_prefix_update(fields, i, f2, n - 1);
        if i == n - 1 {
            assert(fields.update(i, f2)[n - 1] == f2);
        } else {
            assert(fields.update(i, f2)[n - 1] == fields[n - 1]);
        }
    }
}

/// Marking any field `default_on_eof` cannot increase the record's computed
/// minimum.
pub proof fn lemma_default_on_eof_cannot_increase_min(r: RecordView, i: int)
    requires
        0 <= i < r.fields.len(),
    ensures
        ({
            let f2 = FieldView { default_on_eof: true, ..r.fields[i] };
            spec_min_record(RecordView { kind: r.kind, fields: r.fields.update(i, f2) })
                <= spec_min_record(r)
        }),
{
    let f2 = FieldView { default_on_eof: true, ..r.fields[i] };
    assert(spec_min_field(f2) == 0);
    lemma_min_fields_prefix_update(r.fields, i, f2, r.fields.len() as int);
}

/// Giving any field an explicit `length` cannot increase the record's
/// computed minimum.
pub proof fn lemma_length_attr_cannot_increase_min(r: RecordView, i: int, len: u64)
    requires
        0 <= i < r.fields.len(),
    ensures
        ({
            let f2 = FieldView { length: Some(len), ..r.fields[i] };
            spec_min_record(RecordView { kind: r.kind, fields: r.fields.update(i, f2) })
                <= spec_min_record(r)
        }),
{
    let f2 = FieldView { length: Some(len), ..r.fields[i] };
    assert(spec_min_field(f2) == 0);
    lemma_min_fields_prefix_update(r.fields, i, f2, r.fields.len() as int);
}

/// The sum of the fields' contributions from index `i` on.
pub open spec fn spec_min_fields_from(fields: Seq<FieldView>, i: int) -> nat
    decreases fields.len() - i,
{
    if i < 0 || i >= fields.len() {
        0
    } else {
        spec_min_field(fields[i]) + spec_min_fields_from(fields, i + 1)
    }
}

proof fn lemma_min_fields_split(fields: Seq<FieldView>, i: int)
    requires
        0 <= i <= fields.len(),
    ensures
        spec_min_fields_prefix(fields, fields.len() as int) == spec_min_fields_prefix(fields, i)
            + spec_min_fields_from(fields, i),
    decreases fields.len() - i,
{
    if i < fields.len() {
        lemma_min_fields_split(fields, i + 1);
    }
}

/// A successful node decode consumes at least the node's minimum and stays
/// within the buffer; a failing one reports a position within the buffer,
/// at or after where it began.
pub proof fn lemma_dec_node_consumes_min(n: SchemaNode, data: Seq<u8>, pos: int)
    requires
        0 <= pos <= data.len(),
    ensures
        spec_dec_node(n, data, pos) matches Ok((v, p)) ==> pos + spec_min_node(n) <= p
            <= data.len(),
        spec_dec_node(n, data, pos) matches Err((e, p)) ==> pos <= p <= data.len(),
    decreases n, 1int, 0int,
{
    match n {
        SchemaNode::Primitive(w) => {
            lemma_dec_uint_consumes(w, data, pos);
        },
        SchemaNode::OwnedString | SchemaNode::BorrowedString => {
            lemma_dec_uint_consumes(crate::wire::Width::W32, data, pos);
        },
        SchemaNode::OwnedSequence(e) | SchemaNode::BorrowedSlice(e) | SchemaNode::SetNode(e) => {
            lemma_dec_uint_consumes(crate::wire::Width::W32, data, pos);
            match spec_dec_len(crate::wire::Width::W32, data, pos) {
                Ok((count, p)) => {
                    lemma_dec_elems_consumes_min(*e, count, data, p);
                },
                Err(_) => {},
            }
        },
        SchemaNode::MapNode(_, _) => {
            lemma_dec_uint_consumes(crate::wire::Width::W32, data, pos);
            match spec_dec_len(crate::wire::Width::W32, data, pos) {
                Ok((count, p)) => {
                    lemma_dec_pairs_consumes_min(n, count, data, p);
                },
                Err(_) => {},
            }
        },
        SchemaNode::FixedArray(e, len) => {
            lemma_dec_elems_consumes_min(*e, len as nat, data, pos);
        },
        SchemaNode::Opaque { min_size } => {},
    }
}

proof fn lemma_dec_elems_consumes_min(e: SchemaNode, count: nat, data: Seq<u8>, pos: int)
    requires
        0 <= pos <= data.len(),
    ensures
        spec_dec_elems(e, count, data, pos) matches Ok((items, p)) ==> pos + count * spec_min_node(
            e,
        ) <= p <= data.len(),
        spec_dec_elems(e, count, data, pos) matches Err((err, p)) ==> pos <= p <= data.len(),
    decreases e, 2int, count,
{
    if count > 0 {
        lemma_dec_node_consumes_min(e, data, pos);
        match spec_dec_node(e, data, pos) {
            Ok((v, p1)) => {
                lemma_dec_elems_consumes_min(e, (count - 1) as nat, data, p1);
                let m = spec_min_node(e);
                assert(m + (count - 1) * m == count * m) by (nonlinear_arith)
                    requires
                        count >= 1,
                ;
            },
            Err(_) => {},
        }
    } else {
        assert(count * spec_min_node(e) == 0) by (nonlinear_arith)
            requires
                count == 0,
        ;
    }
}

proof fn lemma_dec_pairs_consumes_min(
    m: SchemaNode,
    count: nat,
    data: Seq<u8>,
    pos: int,
)
    requires
        0 <= pos <= data.len(),
    ensures
        spec_dec_pairs(m, count, data, pos) matches Ok((pairs, p)) ==> pos <= p <= data.len(),
        spec_dec_pairs(m, count, data, pos) matches Err((err, p)) ==> pos <= p <= data.len(),
    decreases m, 0int, count,
{
    match m {
        SchemaNode::MapNode(k, v) => {
            if count > 0 {
                lemma_dec_node_consumes_min(*k, data, pos);
                match spec_dec_node(*k, data, pos) {
                    Ok((kv, p1)) => {
                        lemma_dec_node_consumes_min(*v, data, p1);
                        match spec_dec_node(*v, data, p1) {
                            Ok((vv, p2)) => {
                                lemma_dec_pairs_consumes_min(m, (count - 1) as nat, data, p2);
                            },
                            Err(_) => {},
                        }
                    },
                    Err(_) => {},
                }
            }
        },
        _ => {},
    }
}

/// The minimum a field body must consume: the length prefix's width for a
/// variable-size node without an explicit `length`, else the node's own
/// minimum.
spec fn body_min(f: FieldView, n: SchemaNode) -> nat {
    if node_is_variable_size(n) {
        if f.length is Some {
            0
        } else {
            spec_width_min_bytes(f.length_width()) as nat
        }
    } else {
        spec_min_node(n)
    }
}

proof fn lemma_dec_field_body_consumes_min(f: FieldView, n: SchemaNode, data: Seq<u8>, pos: int)
    requires
        0 <= pos <= data.len(),
    ensures
        spec_dec_field_body(f, n, data, pos) matches Ok((v, p)) ==> pos + body_min(f, n) <= p
            <= data.len(),
        spec_dec_field_body(f, n, data, pos) matches Err((e, p)) ==> pos <= p <= data.len(),
{
    if !node_is_variable_size(n) {
        lemma_dec_node_consumes_min(n, data, pos);
    } else {
        let len_read = match f.length {
            Some(l) => if l > usize::MAX {
                Err((crate::error::CodecError::OutOfRange, pos))
            } else {
                Ok((l as nat, pos))
            },
            None => spec_dec_len(f.length_width(), data, pos),
        };
        if f.length is None {
            lemma_dec_uint_consumes(f.length_width(), data, pos);
        }
        match len_read {
            Ok((count, p)) => {
                match n {
                    SchemaNode::OwnedSequence(e) | SchemaNode::BorrowedSlice(e)
                        | SchemaNode::SetNode(e) => {
                        lemma_dec_elems_consumes_min(*e, count, data, p);
                        assert(count * spec_min_node(*e) >= 0);
                    },
                    SchemaNode::MapNode(_, _) => {
                        lemma_dec_pairs_consumes_min(n, count, data, p);
                    },
                    _ => {},
                }
            },
            Err(_) => {},
        }
    }
}

proof fn lemma_dec_field_raw_consumes_min(f: FieldView, data: Seq<u8>, pos: int)
    requires
        0 <= pos <= data.len(),
    ensures
        spec_dec_field_raw(f, data, pos) matches Ok((v, p)) ==> pos + spec_min_field(f) <= p
            <= data.len(),
        spec_dec_field_raw(f, data, pos) matches Err((e, p)) ==> pos <= p <= data.len(),
{
    let after_prefix: int = match f.constant_prefix {
        Some(pfx) => pos + pfx.len(),
        None => pos,
    };
    let prefix_ok = match f.constant_prefix {
        Some(pfx) => 0 <= pos && pos + pfx.len() <= data.len() && data.subrange(
            pos,
            pos + pfx.len(),
        ) == pfx,
        None => true,
    };
    if prefix_ok {
        match f.ty {
            crate::schema::Opt::Plain(n) => {
                lemma_dec_field_body_consumes_min(f, n, data, after_prefix);
            },
            crate::schema::Opt::Wrapped(n) => {
                if 0 <= after_prefix < data.len() && data[after_prefix] != 0 {
                    lemma_dec_field_body_consumes_min(f, n, data, after_prefix + 1);
                }
            },
        }
    }
}

/// A successful field decode consumes at least the field's minimum-size
/// contribution.
pub proof fn lemma_dec_field_consumes_min(f: FieldView, data: Seq<u8>, pos: int)
    requires
        0 <= pos <= data.len(),
    ensures
        spec_dec_field(f, data, pos) matches Ok((v, p)) ==> pos + spec_min_field(f) <= p
            <= data.len(),
        spec_dec_field(f, data, pos) matches Err((e, p)) ==> pos <= p <= data.len(),
{
    if !f.skip {
        lemma_dec_field_raw_consumes_min(f, data, pos);
    }
}

proof fn lemma_dec_fields_consumes_min(fields: Seq<FieldView>, data: Seq<u8>, pos: int, i: int)
    requires
        0 <= pos <= data.len(),
        0 <= i,
    ensures
        spec_dec_fields(fields, data, pos, i) matches Ok((vals, p)) ==> pos + spec_min_fields_from(
            fields,
            i,
        ) <= p <= data.len(),
        spec_dec_fields(fields, data, pos, i) matches Err((e, p)) ==> pos <= p <= data.len(),
    decreases fields.len() - i,
{
    if i < fields.len() {
        lemma_dec_field_consumes_min(fields[i], data, pos);
        match spec_dec_field(fields[i], data, pos) {
            Ok((v, p1)) => {
                lemma_dec_fields_consumes_min(fields, data, p1, i + 1);
            },
            Err(_) => {},
        }
    }
}

/// The minimum-size analysis is sound for the decoder: a record that
/// decodes successfully consumed at least `minimum_size` bytes.
pub proof fn lemma_dec_record_consumes_min(r: RecordView, data: Seq<u8>, pos: int)
    requires
        0 <= pos <= data.len(),
    ensures
        spec_dec_record(r, data, pos) matches Ok((vals, p)) ==> pos + spec_min_record(r) <= p
            <= data.len(),
        spec_dec_record(r, data, pos) matches Err((e, p)) ==> pos <= p <= data.len(),
{
    lemma_dec_fields_consumes_min(r.fields, data, pos, 0);
    lemma_min_fields_split(r.fields, 0);
}

/// A sum type that writes its own tag consumes at least the tag's width.
pub proof fn lemma_dec_sum_consumes_tag(s: SumView, data: Seq<u8>, pos: int)
    requires
        0 <= pos <= data.len(),
        !s.peek_tag,
    ensures
        crate::codec::spec_dec_sum(s, data, pos) matches Ok((jv, p)) ==> pos
            + spec_width_min_bytes(s.tag_width) <= p <= data.len(),
{
    lemma_dec_uint_consumes(s.tag_width, data, pos);
    match crate::wire::spec_dec_uint(s.tag_width, data, pos) {
        Ok((tag, ptag)) => {
            let j = crate::codec::spec_find_variant(s.variants, tag, 0);
            if j >= 0 {
                lemma_dec_record_consumes_min(s.variants[j].record, data, ptag);
            }
        },
        Err(_) => {},
    }
}

/// Input shorter than a record's minimum size cannot decode: a corrupt
/// length header that leaves too few bytes is rejected.
pub proof fn lemma_truncated_input_rejected(r: RecordView, data: Seq<u8>, pos: int)
    requires
        0 <= pos <= data.len(),
        data.len() - pos < spec_min_record(r),
    ensures
        spec_dec_record(r, data, pos) is Err,
{
    lemma_dec_record_consumes_min(r, data, pos);
}

} // verus!
