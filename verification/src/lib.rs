//! Derivation of binary encode/decode procedures from a declarative schema.
//!
//! A schema describes the shape of a data type: a record with fields, or a
//! sum type with tagged variants, each field classified as a primitive,
//! string, sequence, map, set, fixed array, or an opaque delegated codec.
//! Per-field and per-variant configuration (length attributes, constant
//! prefixes, skip and default-on-eof markers, explicit discriminants) is
//! validated up front, and the validated schema is then interpreted against
//! a byte buffer to decode or encode values.
//!
//! - [`schema`]: schema nodes, descriptors, and type-reference
//!   classification.
//! - [`attrs`]: the attribute resolver for field, variant, record and
//!   sum-type configuration.
//! - [`tags`]: the discriminant allocator for sum-type variants.
//! - [`builder`]: one pass from raw declarations to validated descriptors.
//! - [`wire`]: the integer width classes and their byte-level codecs.
//! - [`value`]: runtime values and their mathematical model.
//! - [`codec`]: the wire format's definition, as spec functions.
//! - [`encode`], [`decode`]: the executable codecs, proved equal to it.
//! - [`minsize`]: the minimum-decodable-size analysis.
//! - [`roundtrip`]: the proved round-trip and enforcement laws.

pub mod attrs;
pub mod builder;
pub mod codec;
pub mod decode;
pub mod encode;
pub mod error;
pub mod minsize;
pub mod roundtrip;
pub mod schema;
pub mod tags;
pub mod value;
pub mod wire;
