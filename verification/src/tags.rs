//! The discriminant allocator: assigns each sum-type variant its tag, in
//! declaration order, from an explicit override, a source-level literal, or
//! sequential numbering, and rejects overflow and collisions.

use vstd::prelude::*;

use crate::error::SchemaError;

verus! {

/// A variant's source-level discriminant, as the front end hands it over.
#[derive(Clone, Copy, Debug, PartialEq, Eq, Structural)]
pub enum SourceDiscriminant {
    /// The variant has no source-level discriminant.
    NoDiscriminant,
    /// An integer-literal discriminant.
    DiscLit(u64),
    /// A discriminant of any other expression form: unsupported.
    DiscOther,
}

/// What the tag of one variant is derived from: an explicit `tag` override
/// (which wins), or the source-level discriminant.
#[derive(Clone, Copy, Debug, PartialEq, Eq, Structural)]
pub struct TagSource {
    pub explicit: Option<u64>,
    pub disc: SourceDiscriminant,
}

/// The tag of one variant: the explicit override if present, else the
/// source literal, else the previous variant's resolved tag plus one (zero
/// for the first variant); every resolved tag must fit the width's maximum.
pub open spec fn spec_variant_tag(src: TagSource, prev: Option<u64>, max: u64, idx: int) -> Result<
    u64,
    SchemaError,
> {
    match src.explicit {
        Some(t) => if t <= max {
            Ok(t)
        } else {
            Err(SchemaError::TagOverflow { variant: idx as usize })
        },
        None => match src.disc {
            SourceDiscriminant::DiscLit(t) => if t <= max {
                Ok(t)
            } else {
                Err(SchemaError::TagOverflow { variant: idx as usize })
            },
            SourceDiscriminant::NoDiscriminant => match prev {
                Some(p) => if p >= max {
                    Err(SchemaError::TagOverflow { variant: idx as usize })
                } else {
                    Ok((p + 1) as u64)
                },
                None => Ok(0),
            },
            SourceDiscriminant::DiscOther => Err(
                SchemaError::UnsupportedDiscriminant { variant: idx as usize },
            ),
        },
    }
}

/// The first index at or after `i` holding `t`, or -1.
pub open spec fn find_tag(s: Seq<u64>, t: u64, i: int) -> int
    decreases s.len() - i,
{
    if i < 0 || i >= s.len() {
        -1
    } else if s[i] == t {
        i
    } else {
        find_tag(s, t, i + 1)
    }
}

/// Allocate tags for the variants from index `i` on, given the previously
/// resolved tag and the tags allocated so far; a tag equal to an earlier
/// one is a duplicate-tag error naming both variants.
pub open spec fn spec_allocate_from(
    srcs: Seq<TagSource>,
    i: int,
    prev: Option<u64>,
    acc: Seq<u64>,
    max: u64,
) -> Result<Seq<u64>, SchemaError>
    decreases srcs.len() - i,
{
    if i < 0 || i >= srcs.len() {
        Ok(acc)
    } else {
        match spec_variant_tag(srcs[i], prev, max, i) {
            Err(e) => Err(e),
            Ok(t) => {
                let j = find_tag(acc, t, 0);
                if j >= 0 {
                    Err(
                        SchemaError::DuplicateTag {
                            tag: t,
                            first: j as usize,
                            second: i as usize,
                        },
                    )
                } else {
                    spec_allocate_from(srcs, i + 1, Some(t), acc.push(t), max)
                }
            },
        }
    }
}

/// Allocate every variant's tag.
pub open spec fn spec_allocate(srcs: Seq<TagSource>, max: u64) -> Result<Seq<u64>, SchemaError> {
    spec_allocate_from(srcs, 0, None, Seq::empty(), max)
}

pub fn find_first_tag(acc: &Vec<u64>, t: u64) -> (r: Option<usize>)
    ensures
        r matches Some(j) ==> find_tag(acc@, t, 0) == j as int,
        r is None ==> find_tag(acc@, t, 0) == -1,
{
    let mut i: usize = 0;
    while i < acc.len()
        invariant
            i <= acc@.len(),
            find_tag(acc@, t, 0) == find_tag(acc@, t, i as int),
        decreases acc@.len() - i,
    {
        if acc[i] == t {
            return Some(i);
        }
        i = i + 1;
    }
    None
}

/// Allocate the discriminants of a sum type's variants in declaration
/// order, against the tag width's maximum `max`.
pub fn allocate_tags(srcs: &Vec<TagSource>, max: u64) -> (r: Result<Vec<u64>, SchemaError>)
    ensures
        r matches Ok(tags) ==> spec_allocate(srcs@, max) == Ok::<Seq<u64>, SchemaError>(tags@),
        r matches Err(e) ==> spec_allocate(srcs@, max) == Err::<Seq<u64>, SchemaError>(e),
{
    let mut acc: Vec<u64> = Vec::new();
    let mut prev: Option<u64> = None;
    let mut i: usize = 0;
    while i < srcs.len()
        invariant
            i <= srcs@.len(),
            acc@.len() == i,
            spec_allocate(srcs@, max) == spec_allocate_from(srcs@, i as int, prev, acc@, max),
        decreases srcs@.len() - i,
    {
        let src = srcs[i];
        let t: u64 = match src.explicit {
            Some(t) => {
                if t > max {
                    return Err(SchemaError::TagOverflow { variant: i });
                }
                t
            },
            None => match src.disc {
                SourceDiscriminant::DiscLit(t) => {
                    if t > max {
                        return Err(SchemaError::TagOverflow { variant: i });
                    }
                    t
                },
                SourceDiscriminant::NoDiscriminant => match prev {
                    Some(p) => {
                        if p >= max {
                            return Err(SchemaError::TagOverflow { variant: i });
                        }
                        p + 1
                    },
                    None => 0,
                },
                SourceDiscriminant::DiscOther => {
                    return Err(SchemaError::UnsupportedDiscriminant { variant: i });
                },
            },
        };
        match find_first_tag(&acc, t) {
            Some(j) => {
                return Err(SchemaError::DuplicateTag { tag: t, first: j, second: i });
            },
            None => {},
        }
        prev = Some(t);
        acc.push(t);
        i = i + 1;
    }
    Ok(acc)
}

/// `find_tag` finds exactly the matches: -1 means no index holds `t`.
pub proof fn lemma_find_tag_none(s: Seq<u64>, t: u64, i: int)
    requires
        0 <= i,
        find_tag(s, t, i) < 0,
    ensures
        forall|k: int| i <= k < s.len() ==> s[k] != t,
    decreases s.len() - i,
{
    if 0 <= i < s.len() {
        lemma_find_tag_none(s, t, i + 1);
    }
}

/// Successful allocation assigns one tag per variant, each within the
/// width's maximum, and no two variants share a tag.
pub proof fn lemma_allocation_distinct(srcs: Seq<TagSource>, max: u64)
    requires
        spec_allocate(srcs, max) is Ok,
    ensures
        ({
            let tags = spec_allocate(srcs, max)->Ok_0;
            &&& tags.len() == srcs.len()
            &&& forall|i: int| 0 <= i < tags.len() ==> tags[i] <= max
            &&& forall|i: int, j: int| 0 <= i < j < tags.len() ==> tags[i] != tags[j]
        }),
{
    lemma_allocation_distinct_from(srcs, 0, None, Seq::empty(), max);
}

proof fn lemma_allocation_distinct_from(
    srcs: Seq<TagSource>,
    i: int,
    prev: Option<u64>,
    acc: Seq<u64>,
    max: u64,
)
    requires
        spec_allocate_from(srcs, i, prev, acc, max) is Ok,
        forall|k: int| 0 <= k < acc.len() ==> acc[k] <= max,
        forall|k: int, l: int| 0 <= k < l < acc.len() ==> acc[k] != acc[l],
        0 <= i <= srcs.len(),
        acc.len() == i,
    ensures
        ({
            let tags = spec_allocate_from(srcs, i, prev, acc, max)->Ok_0;
            &&& tags.len() == srcs.len()
            &&& forall|k: int| 0 <= k < tags.len() ==> tags[k] <= max
            &&& forall|k: int, l: int| 0 <= k < l < tags.len() ==> tags[k] != tags[l]
        }),
    decreases srcs.len() - i,
{
    if i >= srcs.len() {
    } else {
        let t = spec_variant_tag(srcs[i], prev, max, i)->Ok_0;
        lemma_find_tag_none(acc, t, 0);
        lemma_allocation_distinct_from(srcs, i + 1, Some(t), acc.push(t), max);
    }
}

/// Explicit tags resolve to themselves: a successful allocation gives every
/// variant with an explicit in-range override exactly that tag.
proof fn lemma_explicit_tag_kept(srcs: Seq<TagSource>, i: int, prev: Option<u64>, acc: Seq<u64>, max: u64, k: int)
    requires
        spec_allocate_from(srcs, i, prev, acc, max) is Ok,
        0 <= i <= k < srcs.len(),
        acc.len() == i,
        srcs[k].explicit is Some,
    ensures
        spec_allocate_from(srcs, i, prev, acc, max)->Ok_0[k] == srcs[k].explicit->0,
    decreases srcs.len() - i,
{
    let t = spec_variant_tag(srcs[i], prev, max, i)->Ok_0;
    if i == k {
        lemma_allocation_stable(srcs, i + 1, Some(t), acc.push(t), max);
    } else {
        lemma_explicit_tag_kept(srcs, i + 1, Some(t), acc.push(t), max, k);
    }
}

/// Allocation only appends: the tags already allocated stay in place.
proof fn lemma_allocation_stable(srcs: Seq<TagSource>, i: int, prev: Option<u64>, acc: Seq<u64>, max: u64)
    requires
        spec_allocate_from(srcs, i, prev, acc, max) is Ok,
        i >= 0,
    ensures
        ({
            let tags = spec_allocate_from(srcs, i, prev, acc, max)->Ok_0;
            &&& tags.len() >= acc.len()
            &&& forall|k: int| 0 <= k < acc.len() ==> tags[k] == acc[k]
        }),
    decreases srcs.len() - i,
{
    if i < srcs.len() {
        let t = spec_variant_tag(srcs[i], prev, max, i)->Ok_0;
        lemma_allocation_stable(srcs, i + 1, Some(t), acc.push(t), max);
    }
}

/// Two variants that both carry the same explicit `tag` override are a
/// validation failure, wherever in the declaration order the two stand.
pub proof fn lemma_duplicate_explicit_tags_rejected(
    srcs: Seq<TagSource>,
    max: u64,
    i: int,
    j: int,
)
    requires
        0 <= i < j < srcs.len(),
        srcs[i].explicit is Some,
        srcs[i].explicit == srcs[j].explicit,
    ensures
        !(spec_allocate(srcs, max) is Ok),
{
    if spec_allocate(srcs, max) is Ok {
        lemma_explicit_tag_kept(srcs, 0, None, Seq::empty(), max, i);
        lemma_explicit_tag_kept(srcs, 0, None, Seq::empty(), max, j);
        lemma_allocation_distinct(srcs, max);
    }
}

/// With sequential numbering throughout, the variants get tags 0, 1, 2, ...
/// as long as they fit, and the first variant whose tag would exceed the
/// width's maximum is a validation failure: with an 8-bit tag, variant 255
/// is the last that succeeds.
pub proof fn lemma_sequential_numbering(srcs: Seq<TagSource>, max: u64)
    requires
        forall|k: int| 0 <= k < srcs.len() ==> srcs[k] == (TagSource {
            explicit: None,
            disc: SourceDiscriminant::NoDiscriminant,
        }),
    ensures
        srcs.len() <= max + 1 ==> (spec_allocate(srcs, max) matches Ok(tags) && tags.len()
            == srcs.len() && (forall|k: int| 0 <= k < tags.len() ==> tags[k] == k)),
        srcs.len() > max + 1 ==> spec_allocate(srcs, max) == Err::<Seq<u64>, SchemaError>(
            SchemaError::TagOverflow { variant: (max + 1) as usize },
        ),
{
    let ramp = Seq::<u64>::new(srcs.len(), |k: int| k as u64);
    lemma_sequential_numbering_from(srcs, 0, max);
    if srcs.len() <= max + 1 {
        let tags = spec_allocate_from(srcs, 0, None, ramp.subrange(0, 0), max)->Ok_0;
        assert(ramp.subrange(0, 0) =~= Seq::<u64>::empty());
        assert(tags =~= ramp);
    } else {
        assert(ramp.subrange(0, 0) =~= Seq::<u64>::empty());
    }
}

proof fn lemma_sequential_numbering_from(srcs: Seq<TagSource>, i: int, max: u64)
    requires
        forall|k: int| 0 <= k < srcs.len() ==> srcs[k] == (TagSource {
            explicit: None,
            disc: SourceDiscriminant::NoDiscriminant,
        }),
        0 <= i <= srcs.len(),
        i <= max + 1,
    ensures
        ({
            let ramp = Seq::<u64>::new(srcs.len(), |k: int| k as u64);
            let prev: Option<u64> = if i == 0 {
                None
            } else {
                Some((i - 1) as u64)
            };
            &&& srcs.len() <= max + 1 ==> spec_allocate_from(srcs, i, prev, ramp.subrange(0, i), max)
                == Ok::<Seq<u64>, SchemaError>(ramp)
            &&& srcs.len() > max + 1 ==> spec_allocate_from(srcs, i, prev, ramp.subrange(0, i), max)
                == Err::<Seq<u64>, SchemaError>(
                SchemaError::TagOverflow { variant: (max + 1) as usize },
            )
        }),
    decreases srcs.len() - i,
{
    let ramp = Seq::<u64>::new(srcs.len(), |k: int| k as u64);
    let prev: Option<u64> = if i == 0 {
        None
    } else {
        Some((i - 1) as u64)
    };
    let acc = ramp.subrange(0, i);
    if i >= srcs.len() {
        assert(acc =~= ramp);
    } else {
        if i > 0 && (i - 1) as u64 >= max {
            assert(i == max + 1);
        } else {
            let t: u64 = if i == 0 {
                0
            } else {
                ((i - 1) as u64 + 1) as u64
            };
            assert(spec_variant_tag(srcs[i], prev, max, i) == Ok::<u64, SchemaError>(t));
            assert(t == i as u64);
            lemma_ramp_find_none(acc, t, 0, i);
            assert(acc.push(t) =~= ramp.subrange(0, i + 1));
            lemma_sequential_numbering_from(srcs, i + 1, max);
        }
    }
}

/// A strictly increasing prefix 0..i does not contain i.
proof fn lemma_ramp_find_none(acc: Seq<u64>, t: u64, from: int, i: int)
    requires
        acc.len() == i,
        0 <= from,
        forall|k: int| 0 <= k < i ==> acc[k] == k as u64,
        t == i as u64,
        i <= u64::MAX,
    ensures
        find_tag(acc, t, from) == -1,
    decreases acc.len() - from,
{
    if from < acc.len() {
        assert(acc[from] == from as u64);
        assert(from < i);
        lemma_ramp_find_none(acc, t, from + 1, i);
    }
}

} // verus!
