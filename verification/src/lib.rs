//! Deterministic generation of structurally valid JSON-like document values
//! from a finite buffer of fuzzer-supplied bytes.
//!
//! A [`ByteCursor`] owns the buffer and a read position. One generation call
//! consumes bytes from it and either returns a recursively nested, well-formed
//! [`Value`] or fails — with [`DecodeError::InsufficientData`] when the
//! buffer runs out before a required read, or
//! [`DecodeError::IncorrectFormat`] when eight bytes decode to a non-finite
//! floating point pattern. The whole outcome, including the final cursor
//! position, is a pure function of the buffer and start position, stated by
//! [`spec_value`]; the executable generator is proved to compute exactly it.

use vstd::prelude::*;

pub mod cursor;
pub mod decode;
pub mod value;

pub use cursor::ByteCursor;
pub use cursor::CursorModel;
pub use decode::lemma_decode_progress;
pub use decode::lemma_decode_wf;
pub use decode::spec_chars;
pub use decode::spec_elements;
pub use decode::spec_members;
pub use decode::spec_number;
pub use decode::spec_value;
pub use value::build_object;
pub use value::unique_keys;
pub use value::view_elements;
pub use value::view_fields;
pub use value::view_value;
pub use value::wf;
pub use value::wf_all;
pub use value::wf_all_fields;
pub use value::DecodeError;
pub use value::Number;
pub use value::SpecValue;
pub use value::Value;

verus! {

/// A document value generated from raw bytes.
pub struct ArbitraryValue(pub Value);

/// An array of document values generated from raw bytes.
pub struct ArbitraryArray(pub Vec<Value>);

/// An object of unique-keyed document values generated from raw bytes.
pub struct ArbitraryObject(pub Vec<(String, Value)>);

impl ArbitraryValue {
    /// Generates one document value from the cursor.
    ///
    /// The outcome — value or failure, and the cursor position after the
    /// call — equals [`spec_value`] of the cursor's bytes and position, a
    /// pure function: repeated generation over equal buffers from equal
    /// positions yields identical results. A generated value is always
    /// structurally well-formed, and a successful call consumes at least the
    /// selector byte.
    pub fn arbitrary(u: &mut ByteCursor) -> (r: Result<ArbitraryValue, DecodeError>)
        requires
            old(u).inv(),
        ensures
            final(u).inv(),
            final(u)@.bytes == old(u)@.bytes,
            final(u)@.pos == spec_value(old(u)@.bytes, old(u)@.pos).1,
            r is Ok ==> old(u)@.pos < final(u)@.pos,
            ({
                let (sr, _) = spec_value(old(u)@.bytes, old(u)@.pos);
                match (r, sr) {
                    (Ok(av), Ok(sv)) => av.0@ == sv && wf(sv),
                    (Err(e), Err(se)) => e == se,
                    _ => false,
                }
            }),
    {
        let pos = u.position();
        let (r, p2) = decode::value_at(u.buffer(), pos);
        proof {
            lemma_decode_wf(old(u)@.bytes, old(u)@.pos);
        }
        u.advance_to(p2);
        match r {
            Ok(v) => Ok(ArbitraryValue(v)),
            Err(e) => Err(e),
        }
    }
}

impl ArbitraryArray {
    /// Generates a run of array elements from the cursor, without a leading
    /// variant selector: one continuation byte per element (odd continues,
    /// even stops; an exhausted cursor stops), then the element itself.
    pub fn arbitrary(u: &mut ByteCursor) -> (r: Result<ArbitraryArray, DecodeError>)
        requires
            old(u).inv(),
        ensures
            final(u).inv(),
            final(u)@.bytes == old(u)@.bytes,
            final(u)@.pos == spec_elements(old(u)@.bytes, old(u)@.pos).1,
            ({
                let (sr, _) = spec_elements(old(u)@.bytes, old(u)@.pos);
                match (r, sr) {
                    (Ok(aa), Ok(vs)) => view_elements(aa.0@) == vs && wf_all(vs),
                    (Err(e), Err(se)) => e == se,
                    _ => false,
                }
            }),
    {
        let pos = u.position();
        let (r, p2) = decode::elements_at(u.buffer(), pos);
        proof {
            lemma_decode_wf(old(u)@.bytes, old(u)@.pos);
        }
        u.advance_to(p2);
        match r {
            Ok(es) => Ok(ArbitraryArray(es)),
            Err(e) => Err(e),
        }
    }
}

impl ArbitraryObject {
    /// Generates a run of object members from the cursor, without a leading
    /// variant selector: one continuation byte per member, then a string key
    /// and a full value. A later duplicate key overwrites the earlier value
    /// in place, so the object's keys are unique.
    pub fn arbitrary(u: &mut ByteCursor) -> (r: Result<ArbitraryObject, DecodeError>)
        requires
            old(u).inv(),
        ensures
            final(u).inv(),
            final(u)@.bytes == old(u)@.bytes,
            final(u)@.pos == spec_members(old(u)@.bytes, old(u)@.pos).1,
            ({
                let (sr, _) = spec_members(old(u)@.bytes, old(u)@.pos);
                match (r, sr) {
                    (Ok(ao), Ok(ms)) => view_fields(ao.0@) == build_object(ms) && unique_keys(
                        build_object(ms),
                    ) && wf_all_fields(build_object(ms)),
                    (Err(e), Err(se)) => e == se,
                    _ => false,
                }
            }),
    {
        let pos = u.position();
        let (r, p2) = decode::members_at(u.buffer(), pos);
        proof {
            lemma_decode_wf(old(u)@.bytes, old(u)@.pos);
            let (sr, _) = spec_members(old(u)@.bytes, old(u)@.pos);
            if sr is Ok {
                value::lemma_build_object_wf(sr->Ok_0);
            }
        }
        u.advance_to(p2);
        match r {
            Ok(fs) => Ok(ArbitraryObject(fs)),
            Err(e) => Err(e),
        }
    }
}

/// Determinism of generation: the outcome, including the position after the
/// call, is a function of the buffer and start position alone, so two
/// generation runs over equal bytes from equal positions are equal in every
/// respect. The contract of [`ArbitraryValue::arbitrary`] pins the executable
/// result to this function.
pub proof fn lemma_generation_deterministic(b1: Seq<u8>, p1: int, b2: Seq<u8>, p2: int)
    requires
        b1 == b2,
        p1 == p2,
    ensures
        spec_value(b1, p1) == spec_value(b2, p2),
{
}

} // verus!
