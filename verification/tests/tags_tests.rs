use speedy_schema::error::SchemaError;
use speedy_schema::tags::{allocate_tags, SourceDiscriminant, TagSource};

fn implicit() -> TagSource {
    TagSource { explicit: None, disc: SourceDiscriminant::NoDiscriminant }
}

fn explicit(t: u64) -> TagSource {
    TagSource { explicit: Some(t), disc: SourceDiscriminant::NoDiscriminant }
}

fn literal(t: u64) -> TagSource {
    TagSource { explicit: None, disc: SourceDiscriminant::DiscLit(t) }
}

#[test]
fn implicit_numbering_starts_at_zero() {
    let tags = allocate_tags(&vec![implicit(), implicit(), implicit()], 255).unwrap();
    assert_eq!(tags, vec![0, 1, 2]);
}

#[test]
fn numbering_resumes_after_any_resolved_tag() {
    let tags = allocate_tags(&vec![implicit(), explicit(10), implicit(), literal(20), implicit()], 255)
        .unwrap();
    assert_eq!(tags, vec![0, 10, 11, 20, 21]);
}

#[test]
fn explicit_overrides_beat_source_literals() {
    let srcs = vec![TagSource { explicit: Some(9), disc: SourceDiscriminant::DiscLit(5) }];
    assert_eq!(allocate_tags(&srcs, 255).unwrap(), vec![9]);
}

#[test]
fn collision_names_both_variants() {
    // Implicit numbering running into an explicit tag.
    let srcs = vec![explicit(2), literal(1), implicit()];
    assert_eq!(
        allocate_tags(&srcs, 255),
        Err(SchemaError::DuplicateTag { tag: 2, first: 0, second: 2 })
    );
    // The same pair in the other order still collides, naming both.
    let srcs = vec![literal(1), implicit(), explicit(2)];
    assert_eq!(
        allocate_tags(&srcs, 255),
        Err(SchemaError::DuplicateTag { tag: 2, first: 1, second: 2 })
    );
    // Two explicit tags.
    let srcs = vec![explicit(2), explicit(2)];
    assert_eq!(
        allocate_tags(&srcs, 255),
        Err(SchemaError::DuplicateTag { tag: 2, first: 0, second: 1 })
    );
}

#[test]
fn eight_bit_tags_overflow_at_the_257th_variant() {
    // 256 sequentially numbered variants fit an 8-bit tag; the last one
    // resolves to 255.
    let srcs: Vec<TagSource> = (0..256).map(|_| implicit()).collect();
    let tags = allocate_tags(&srcs, 255).unwrap();
    assert_eq!(tags.len(), 256);
    assert_eq!(tags[255], 255);
    // A 257th variant fails validation.
    let srcs: Vec<TagSource> = (0..257).map(|_| implicit()).collect();
    assert_eq!(allocate_tags(&srcs, 255), Err(SchemaError::TagOverflow { variant: 256 }));
}

#[test]
fn explicit_and_literal_tags_respect_the_maximum() {
    assert_eq!(
        allocate_tags(&vec![explicit(256)], 255),
        Err(SchemaError::TagOverflow { variant: 0 })
    );
    assert_eq!(
        allocate_tags(&vec![literal(70000)], 65535),
        Err(SchemaError::TagOverflow { variant: 0 })
    );
    assert_eq!(allocate_tags(&vec![explicit(255)], 255).unwrap(), vec![255]);
}

#[test]
fn unsupported_discriminants_are_rejected() {
    let srcs = vec![TagSource { explicit: None, disc: SourceDiscriminant::DiscOther }];
    assert_eq!(
        allocate_tags(&srcs, 255),
        Err(SchemaError::UnsupportedDiscriminant { variant: 0 })
    );
    // An explicit override wins before the discriminant is looked at.
    let srcs = vec![TagSource { explicit: Some(1), disc: SourceDiscriminant::DiscOther }];
    assert_eq!(allocate_tags(&srcs, 255).unwrap(), vec![1]);
}
