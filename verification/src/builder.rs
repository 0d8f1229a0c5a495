//! The schema builders: one pass over the incoming declaration's raw
//! material — type references and attribute entries — that resolves and
//! validates everything and yields immutable record and sum-type
//! descriptors, or the first fault with its location.

use vstd::prelude::*;

use crate::attrs::{
    collect_struct_attributes, collect_variant_attributes, spec_build_field,
    spec_collect_enum_from, spec_collect_variant_from, EnumAttrEntry, EnumAttributes,
    FieldAttrEntry, StructAttribute,
};
use crate::attrs::collect_enum_attributes;
use crate::attrs::build_field;
use crate::attrs::VariantAttrEntry;
use crate::error::{Loc, SchemaError, SchemaFault};
use crate::schema::{
    FieldDescriptor, FieldView, RecordDescriptor, RecordKind, RecordView, SumDescriptor, SumView,
    TypeRef, VariantDescriptor, VariantView,
};
use crate::tags::{find_tag, spec_variant_tag, SourceDiscriminant, TagSource};
use crate::wire::{spec_width_max, width_max, Width};

verus! {

/// One field as the front end hands it over: its type reference and its raw
/// configuration entries.
#[derive(Debug, PartialEq, Eq)]
pub struct RawField {
    pub ty: TypeRef,
    pub attrs: Vec<FieldAttrEntry>,
}

/// One variant as the front end hands it over.
#[derive(Debug, PartialEq, Eq)]
pub struct RawVariant {
    pub attrs: Vec<VariantAttrEntry>,
    pub disc: SourceDiscriminant,
    pub kind: RecordKind,
    pub fields: Vec<RawField>,
}

/// Where a field fault is located: on the record itself, or on a field of
/// the given variant.
pub open spec fn field_loc(vloc: Option<usize>, i: int) -> Loc {
    match vloc {
        None => Loc::AtField { field: i as usize },
        Some(v) => Loc::AtVariantField { variant: v, field: i as usize },
    }
}

/// Resolve the fields from index `i` on, stopping at the first fault.
pub open spec fn spec_build_fields(raw: Seq<RawField>, i: int, vloc: Option<usize>) -> Result<
    Seq<FieldView>,
    SchemaFault,
>
    decreases raw.len() - i,
{
    if i < 0 || i >= raw.len() {
        Ok(Seq::empty())
    } else {
        match spec_build_field(raw[i].ty, raw[i].attrs@) {
            Err(e) => Err(SchemaFault { loc: field_loc(vloc, i), error: e }),
            Ok(f) => match spec_build_fields(raw, i + 1, vloc) {
                Err(fault) => Err(fault),
                Ok(rest) => Ok(seq![f] + rest),
            },
        }
    }
}

/// Resolve a record: collect its (empty) record-level configuration and
/// each field in declaration order.
pub open spec fn spec_build_record(kind: RecordKind, raw: Seq<RawField>) -> Result<
    RecordView,
    SchemaFault,
> {
    match spec_build_fields(raw, 0, None) {
        Err(fault) => Err(fault),
        Ok(fields) => Ok(RecordView { kind, fields }),
    }
}

/// Every resolved field is well formed.
pub proof fn lemma_build_field_wf(t: TypeRef, entries: Seq<FieldAttrEntry>)
    requires
        spec_build_field(t, entries) is Ok,
    ensures
        spec_build_field(t, entries)->Ok_0.wf(),
{
}

proof fn lemma_build_fields_wf(raw: Seq<RawField>, i: int, vloc: Option<usize>)
    requires
        spec_build_fields(raw, i, vloc) is Ok,
    ensures
        ({
            let fs = spec_build_fields(raw, i, vloc)->Ok_0;
            forall|k: int| 0 <= k < fs.len() ==> (#[trigger] fs[k]).wf()
        }),
    decreases raw.len() - i,
{
    if 0 <= i < raw.len() {
        lemma_build_field_wf(raw[i].ty, raw[i].attrs@);
        lemma_build_fields_wf(raw, i + 1, vloc);
        let f = spec_build_field(raw[i].ty, raw[i].attrs@)->Ok_0;
        let rest = spec_build_fields(raw, i + 1, vloc)->Ok_0;
        let fs = spec_build_fields(raw, i, vloc)->Ok_0;
        assert(fs == seq![f] + rest);
        assert(forall|k: int| 0 <= k < fs.len() ==> (#[trigger] fs[k]).wf()) by {
            assert(fs[0] == f);
            assert(forall|k: int| 1 <= k < fs.len() ==> fs[k] == rest[k - 1]);
        }
    }
}

/// Resolve the fields of one record or variant.
fn build_fields(raw: &Vec<RawField>, vloc: Option<usize>) -> (res: Result<
    Vec<FieldDescriptor>,
    SchemaFault,
>)
    ensures
        res matches Ok(fs) ==> spec_build_fields(raw@, 0, vloc) == Ok::<Seq<FieldView>, SchemaFault>(
            fs@.map_values(|f: FieldDescriptor| f@),
        ),
        res matches Err(fault) ==> spec_build_fields(raw@, 0, vloc) == Err::<
            Seq<FieldView>,
            SchemaFault,
        >(fault),
{
    let mut fs: Vec<FieldDescriptor> = Vec::new();
    let mut i: usize = 0;
    while i < raw.len()
        invariant
            i <= raw@.len(),
            fs@.len() == i,
            spec_build_fields(raw@, 0, vloc) == (match spec_build_fields(raw@, i as int, vloc) {
                Ok(rest) => Ok::<Seq<FieldView>, SchemaFault>(
                    fs@.map_values(|f: FieldDescriptor| f@) + rest,
                ),
                Err(fault) => Err(fault),
            }),
        decreases raw@.len() - i,
    {
        match build_field(&raw[i].ty, &raw[i].attrs) {
            Err(e) => {
                let loc = match vloc {
                    None => Loc::AtField { field: i },
                    Some(v) => Loc::AtVariantField { variant: v, field: i },
                };
                return Err(SchemaFault { loc, error: e });
            },
            Ok(f) => {
                proof {
                    let before = fs@.map_values(|x: FieldDescriptor| x@);
                    let after = fs@.push(f).map_values(|x: FieldDescriptor| x@);
                    assert(after =~= before.push(f@));
                    match spec_build_fields(raw@, i + 1, vloc) {
                        Ok(rest2) => {
                            assert(before + (seq![f@] + rest2) =~= before.push(f@) + rest2);
                        },
                        Err(_) => {},
                    }
                }
                fs.push(f);
            },
        }
        i = i + 1;
    }
    proof {
        match spec_build_fields(raw@, raw@.len() as int, vloc) {
            Ok(rest) => {
                assert(fs@.map_values(|f: FieldDescriptor| f@) + rest =~= fs@.map_values(
                    |f: FieldDescriptor| f@,
                ));
            },
            Err(_) => {},
        }
    }
    Ok(fs)
}

/// Resolve a record declaration into a validated record descriptor.
pub fn build_record(
    kind: RecordKind,
    struct_attrs: &Vec<StructAttribute>,
    raw: &Vec<RawField>,
) -> (res: Result<RecordDescriptor, SchemaFault>)
    ensures
        res matches Ok(rec) ==> spec_build_record(kind, raw@) == Ok::<RecordView, SchemaFault>(rec@)
            && rec@.wf(),
        res matches Err(fault) ==> spec_build_record(kind, raw@) == Err::<RecordView, SchemaFault>(
            fault,
        ),
{
    let _ = collect_struct_attributes(struct_attrs);
    match build_fields(raw, None) {
        Err(fault) => Err(fault),
        Ok(fields) => {
            let rec = RecordDescriptor { kind, fields };
            proof {
                lemma_build_fields_wf(raw@, 0, None);
            }
            Ok(rec)
        },
    }
}

/// Resolve the variants from index `i` on: collect each variant's
/// configuration, resolve its discriminant against the previously resolved
/// one and the width's maximum, reject collisions naming both variants, and
/// resolve the payload fields.
pub open spec fn spec_build_variants(
    raw: Seq<RawVariant>,
    i: int,
    prev: Option<u64>,
    acc_tags: Seq<u64>,
    max: u64,
) -> Result<Seq<VariantView>, SchemaFault>
    decreases raw.len() - i,
{
    if i < 0 || i >= raw.len() {
        Ok(Seq::empty())
    } else {
        match spec_collect_variant_from(raw[i].attrs@, 0, None) {
            Err(e) => Err(SchemaFault { loc: Loc::AtVariant { variant: i as usize }, error: e }),
            Ok(va) => {
                let src = TagSource { explicit: va.tag, disc: raw[i].disc };
                match spec_variant_tag(src, prev, max, i) {
                    Err(e) => Err(
                        SchemaFault { loc: Loc::AtVariant { variant: i as usize }, error: e },
                    ),
                    Ok(t) => {
                        let j = find_tag(acc_tags, t, 0);
                        if j >= 0 {
                            Err(
                                SchemaFault {
                                    loc: Loc::AtVariant { variant: i as usize },
                                    error: SchemaError::DuplicateTag {
                                        tag: t,
                                        first: j as usize,
                                        second: i as usize,
                                    },
                                },
                            )
                        } else {
                            match spec_build_fields(raw[i].fields@, 0, Some(i as usize)) {
                                Err(fault) => Err(fault),
                                Ok(fields) => {
                                    match spec_build_variants(
                                        raw,
                                        i + 1,
                                        Some(t),
                                        acc_tags.push(t),
                                        max,
                                    ) {
                                        Err(fault) => Err(fault),
                                        Ok(rest) => Ok(
                                            seq![
                                                VariantView {
                                                    tag: t,
                                                    record: RecordView {
                                                        kind: raw[i].kind,
                                                        fields,
                                                    },
                                                },
                                            ] + rest,
                                        ),
                                    }
                                },
                            }
                        }
                    },
                }
            },
        }
    }
}

/// Resolve a sum-type declaration: its type-level configuration (tag width,
/// peek mode), then every variant in declaration order.
pub open spec fn spec_build_sum(entries: Seq<EnumAttrEntry>, raw: Seq<RawVariant>) -> Result<
    SumView,
    SchemaFault,
> {
    match spec_collect_enum_from(entries, 0, EnumAttributes { tag_type: None, peek_tag: false }) {
        Err(e) => Err(SchemaFault { loc: Loc::AtType, error: e }),
        Ok(attrs) => {
            let tag_width = match attrs.tag_type {
                Some(w) => w,
                None => Width::W32,
            };
            match spec_build_variants(raw, 0, None, Seq::empty(), spec_width_max(tag_width)) {
                Err(fault) => Err(fault),
                Ok(variants) => Ok(SumView { tag_width, peek_tag: attrs.peek_tag, variants }),
            }
        },
    }
}

/// Successful variant resolution yields one variant per declaration, tags
/// within the maximum and pairwise distinct, and well-formed payloads.
proof fn lemma_build_variants_wf(
    raw: Seq<RawVariant>,
    i: int,
    prev: Option<u64>,
    acc_tags: Seq<u64>,
    max: u64,
)
    requires
        spec_build_variants(raw, i, prev, acc_tags, max) is Ok,
        0 <= i <= raw.len(),
    ensures
        ({
            let vs = spec_build_variants(raw, i, prev, acc_tags, max)->Ok_0;
            &&& vs.len() == raw.len() - i
            &&& forall|k: int| 0 <= k < vs.len() ==> (#[trigger] vs[k]).tag <= max
            &&& forall|k: int, l: int| 0 <= k < l < vs.len() ==> vs[k].tag != vs[l].tag
            &&& forall|k: int, l: int|
                0 <= k < vs.len() && 0 <= l < acc_tags.len() ==> (#[trigger] vs[k]).tag != (
                #[trigger] acc_tags[l])
            &&& forall|k: int| 0 <= k < vs.len() ==> (#[trigger] vs[k]).record.wf()
        }),
    decreases raw.len() - i,
{
    if i < raw.len() {
        let va = spec_collect_variant_from(raw[i].attrs@, 0, None)->Ok_0;
        let src = TagSource { explicit: va.tag, disc: raw[i].disc };
        let t = spec_variant_tag(src, prev, max, i)->Ok_0;
        crate::tags::lemma_find_tag_none(acc_tags, t, 0);
        lemma_build_fields_wf(raw[i].fields@, 0, Some(i as usize));
        lemma_build_variants_wf(raw, i + 1, Some(t), acc_tags.push(t), max);
        let fields = spec_build_fields(raw[i].fields@, 0, Some(i as usize))->Ok_0;
        let head = VariantView { tag: t, record: RecordView { kind: raw[i].kind, fields } };
        let rest = spec_build_variants(raw, i + 1, Some(t), acc_tags.push(t), max)->Ok_0;
        let vs = spec_build_variants(raw, i, prev, acc_tags, max)->Ok_0;
        assert(vs == seq![head] + rest);
        assert(vs[0] == head);
        assert(forall|k: int| 1 <= k < vs.len() ==> vs[k] == rest[k - 1]);
        assert(forall|l: int| 0 <= l < acc_tags.len() ==> acc_tags.push(t)[l] == acc_tags[l]);
        assert(acc_tags.push(t)[acc_tags.len() as int] == t);
    }
}

/// What a variant's tag is derived from, once its configuration entries are
/// collected: the explicit `tag` override and the source discriminant.
pub open spec fn tag_source_of(rv: RawVariant) -> TagSource {
    TagSource {
        explicit: match spec_collect_variant_from(rv.attrs@, 0, None) {
            Ok(va) => va.tag,
            Err(_) => None,
        },
        disc: rv.disc,
    }
}

/// The sum builder assigns exactly the tags the discriminant allocator
/// assigns, so the allocator's laws — distinctness, sequential numbering,
/// collision rejection — hold of every built sum type.
pub proof fn lemma_build_sum_uses_allocator(entries: Seq<EnumAttrEntry>, raw: Seq<RawVariant>)
    requires
        spec_build_sum(entries, raw) is Ok,
    ensures
        ({
            let s = spec_build_sum(entries, raw)->Ok_0;
            crate::tags::spec_allocate(
                raw.map_values(|rv: RawVariant| tag_source_of(rv)),
                spec_width_max(s.tag_width),
            ) == Ok::<Seq<u64>, SchemaError>(
                s.variants.map_values(|v: VariantView| v.tag),
            )
        }),
{
    let s = spec_build_sum(entries, raw)->Ok_0;
    let max = spec_width_max(s.tag_width);
    lemma_build_variants_allocate(raw, 0, None, Seq::empty(), max);
    let vs = spec_build_variants(raw, 0, None, Seq::empty(), max)->Ok_0;
    assert(s.variants == vs);
    assert(Seq::<u64>::empty() + vs.map_values(|v: VariantView| v.tag) =~= vs.map_values(
        |v: VariantView| v.tag,
    ));
}

proof fn lemma_build_variants_allocate(
    raw: Seq<RawVariant>,
    i: int,
    prev: Option<u64>,
    acc_tags: Seq<u64>,
    max: u64,
)
    requires
        spec_build_variants(raw, i, prev, acc_tags, max) is Ok,
        0 <= i <= raw.len(),
    ensures
        ({
            let vs = spec_build_variants(raw, i, prev, acc_tags, max)->Ok_0;
            crate::tags::spec_allocate_from(
                raw.map_values(|rv: RawVariant| tag_source_of(rv)),
                i,
                prev,
                acc_tags,
                max,
            ) == Ok::<Seq<u64>, SchemaError>(
                acc_tags + vs.map_values(|v: VariantView| v.tag),
            )
        }),
    decreases raw.len() - i,
{
    let srcs = raw.map_values(|rv: RawVariant| tag_source_of(rv));
    let vs = spec_build_variants(raw, i, prev, acc_tags, max)->Ok_0;
    if i >= raw.len() {
        assert(acc_tags + vs.map_values(|v: VariantView| v.tag) =~= acc_tags);
    } else {
        let va = spec_collect_variant_from(raw[i].attrs@, 0, None)->Ok_0;
        let src = TagSource { explicit: va.tag, disc: raw[i].disc };
        assert(srcs[i] == tag_source_of(raw[i]));
        assert(srcs[i] == src);
        let t = spec_variant_tag(src, prev, max, i)->Ok_0;
        lemma_build_variants_allocate(raw, i + 1, Some(t), acc_tags.push(t), max);
        let rest = spec_build_variants(raw, i + 1, Some(t), acc_tags.push(t), max)->Ok_0;
        let fields = spec_build_fields(raw[i].fields@, 0, Some(i as usize))->Ok_0;
        let head = VariantView { tag: t, record: RecordView { kind: raw[i].kind, fields } };
        assert(vs == seq![head] + rest);
        assert(vs.map_values(|v: VariantView| v.tag) =~= seq![t] + rest.map_values(
            |v: VariantView| v.tag,
        ));
        assert(acc_tags.push(t) + rest.map_values(|v: VariantView| v.tag) =~= acc_tags + (seq![t]
            + rest.map_values(|v: VariantView| v.tag)));
    }
}

/// Resolve a sum-type declaration into a validated sum descriptor.
#[verifier::loop_isolation(false)]
pub fn build_sum(entries: &Vec<EnumAttrEntry>, raw: &Vec<RawVariant>) -> (res: Result<
    SumDescriptor,
    SchemaFault,
>)
    ensures
        res matches Ok(s) ==> spec_build_sum(entries@, raw@) == Ok::<SumView, SchemaFault>(s@)
            && s@.wf(),
        res matches Err(fault) ==> spec_build_sum(entries@, raw@) == Err::<SumView, SchemaFault>(
            fault,
        ),
{
    let attrs = match collect_enum_attributes(entries) {
        Err(e) => {
            return Err(SchemaFault { loc: Loc::AtType, error: e });
        },
        Ok(attrs) => attrs,
    };
    let tag_width = match attrs.tag_type {
        Some(w) => w,
        None => Width::W32,
    };
    let max = width_max(tag_width);
    let mut variants: Vec<VariantDescriptor> = Vec::new();
    let mut acc_tags: Vec<u64> = Vec::new();
    let mut prev: Option<u64> = None;
    let mut i: usize = 0;
    while i < raw.len()
        invariant
            i <= raw@.len(),
            variants@.len() == i,
            acc_tags@.len() == i,
            max == spec_width_max(tag_width),
            spec_build_variants(raw@, 0, None, Seq::empty(), max) == (match spec_build_variants(
                raw@,
                i as int,
                prev,
                acc_tags@,
                max,
            ) {
                Ok(rest) => Ok::<Seq<VariantView>, SchemaFault>(
                    variants@.map_values(|v: VariantDescriptor| v@) + rest,
                ),
                Err(fault) => Err(fault),
            }),
        decreases raw@.len() - i,
    {
        let va = match collect_variant_attributes(&raw[i].attrs) {
            Err(e) => {
                return Err(SchemaFault { loc: Loc::AtVariant { variant: i }, error: e });
            },
            Ok(va) => va,
        };
        let t: u64 = match va.tag {
            Some(t) => {
                if t > max {
                    return Err(
                        SchemaFault {
                            loc: Loc::AtVariant { variant: i },
                            error: SchemaError::TagOverflow { variant: i },
                        },
                    );
                }
                t
            },
            None => match raw[i].disc {
                SourceDiscriminant::DiscLit(t) => {
                    if t > max {
                        return Err(
                            SchemaFault {
                                loc: Loc::AtVariant { variant: i },
                                error: SchemaError::TagOverflow { variant: i },
                            },
                        );
                    }
                    t
                },
                SourceDiscriminant::NoDiscriminant => match prev {
                    Some(p) => {
                        if p >= max {
                            return Err(
                                SchemaFault {
                                    loc: Loc::AtVariant { variant: i },
                                    error: SchemaError::TagOverflow { variant: i },
                                },
                            );
                        }
                        p + 1
                    },
                    None => 0,
                },
                SourceDiscriminant::DiscOther => {
                    return Err(
                        SchemaFault {
                            loc: Loc::AtVariant { variant: i },
                            error: SchemaError::UnsupportedDiscriminant { variant: i },
                        },
                    );
                },
            },
        };
        match crate::tags::find_first_tag(&acc_tags, t) {
            Some(j) => {
                return Err(
                    SchemaFault {
                        loc: Loc::AtVariant { variant: i },
                        error: SchemaError::DuplicateTag { tag: t, first: j, second: i },
                    },
                );
            },
            None => {},
        }
        let fields = match build_fields(&raw[i].fields, Some(i)) {
            Err(fault) => {
                return Err(fault);
            },
            Ok(fields) => fields,
        };
        let vd = VariantDescriptor {
            tag: t,
            record: RecordDescriptor { kind: raw[i].kind, fields },
        };
        proof {
            let before = variants@.map_values(|v: VariantDescriptor| v@);
            let after = variants@.push(vd).map_values(|v: VariantDescriptor| v@);
            assert(after =~= before.push(vd@));
            match spec_build_variants(raw@, i + 1, Some(t), acc_tags@.push(t), max) {
                Ok(rest2) => {
                    assert(before + (seq![vd@] + rest2) =~= before.push(vd@) + rest2);
                },
                Err(_) => {},
            }
        }
        variants.push(vd);
        acc_tags.push(t);
        prev = Some(t);
        i = i + 1;
    }
    proof {
        match spec_build_variants(raw@, raw@.len() as int, prev, acc_tags@, max) {
            Ok(rest) => {
                assert(variants@.map_values(|v: VariantDescriptor| v@) + rest =~= variants@
                    .map_values(|v: VariantDescriptor| v@));
            },
            Err(_) => {},
        }
    }
    let s = SumDescriptor { tag_width, peek_tag: attrs.peek_tag, variants };
    proof {
        lemma_build_variants_wf(raw@, 0, None, Seq::empty(), max);
    }
    Ok(s)
}

} // verus!
