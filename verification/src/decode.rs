//! The byte-to-document decoder: variant selection, numeric construction,
//! and the recursive, budget-terminated generation of strings, arrays and
//! objects.
//!
//! One explicit continuation rule drives every variable-length construct
//! (string, array, object): read one byte; an odd byte means "continue", an
//! even byte means "stop", and an exhausted cursor also means "stop". When a
//! continuation byte asked for one more element but the element's own bytes
//! run out, the failure propagates and aborts the whole generation call.

use crate::cursor::spec_read_u8;
use crate::cursor::spec_read_u64;
use crate::cursor::read_u8_at;
use crate::cursor::read_u64_at;
use crate::value::build_object;
use crate::value::has_key;
use crate::value::lemma_build_object_wf;
use crate::value::wf;
use crate::value::wf_all;
use crate::value::wf_all_fields;
use crate::value::lemma_object_insert_found;
use crate::value::lemma_object_insert_missing;
use crate::value::lemma_view_elements_push;
use crate::value::lemma_view_fields_iff;
use crate::value::lemma_view_fields_push;
use crate::value::lemma_view_fields_update;
use crate::value::object_insert;
use crate::value::spec_f64_bits_finite;
use crate::value::spec_number_from_i64;
use crate::value::view_elements;
use crate::value::view_fields;
use crate::value::view_value;
use crate::value::DecodeError;
use crate::value::Number;
use crate::value::SpecValue;
use crate::value::Value;
use vstd::pervasive::VecAdditionalExecFns;
use vstd::prelude::*;

verus! {

/// Relies on `alloc::string::String::push`: appends the given character to
/// the end of the string.
pub assume_specification[ std::string::String::push ](s: &mut std::string::String, ch: char)
    ensures
        final(s)@ == old(s)@.push(ch),
;

/// The character a raw byte decodes to: the Unicode scalar value with that
/// code point (the first 256 code points are all valid).
pub open spec fn byte_char(b: u8) -> char {
    b as char
}

/// What decoding a character run at `pos` yields, and the position after it.
/// Each character costs two bytes: a continuation byte (odd continues, even
/// stops; an exhausted cursor stops) and the character byte itself. A
/// continuation byte that is the last byte of the buffer asks for a character
/// that is not there: insufficient data.
pub open spec fn spec_chars(bytes: Seq<u8>, pos: int) -> (Result<Seq<char>, DecodeError>, int)
    decreases bytes.len() - pos,
{
    let (kr, p1) = spec_read_u8(bytes, pos);
    match kr {
        Err(_) => (Ok(Seq::empty()), pos),
        Ok(k) => if k & 1 == 0 {
            (Ok(Seq::empty()), p1)
        } else {
            let (cr, p2) = spec_read_u8(bytes, p1);
            match cr {
                Err(e) => (Err(e), p2),
                Ok(b) => {
                    let (rest, p3) = spec_chars(bytes, p2);
                    match rest {
                        Ok(cs) => (Ok(seq![byte_char(b)] + cs), p3),
                        Err(e) => (Err(e), p3),
                    }
                },
            }
        },
    }
}

/// Prepends already-decoded characters to the outcome of decoding the rest.
pub open spec fn with_text_prefix(
    prefix: Seq<char>,
    r: (Result<Seq<char>, DecodeError>, int),
) -> (Result<Seq<char>, DecodeError>, int) {
    match r.0 {
        Ok(cs) => (Ok(prefix + cs), r.1),
        Err(e) => (Err(e), r.1),
    }
}

/// What decoding a number at `pos` yields, and the position after it. One
/// selector byte reduced modulo 3 picks the kind, then eight bytes give the
/// value: 0 is a floating point bit pattern (rejected as incorrect format
/// when it is not finite), 1 an unsigned integer, 2 a signed integer.
pub open spec fn spec_number(bytes: Seq<u8>, pos: int) -> (Result<Number, DecodeError>, int) {
    let (kr, p1) = spec_read_u8(bytes, pos);
    match kr {
        Err(e) => (Err(e), p1),
        Ok(k) => {
            let (ur, p2) = spec_read_u64(bytes, p1);
            match ur {
                Err(e) => (Err(e), p2),
                Ok(u) => if k % 3 == 0 {
                    if spec_f64_bits_finite(u) {
                        (Ok(Number::FloatBits(u)), p2)
                    } else {
                        (Err(DecodeError::IncorrectFormat), p2)
                    }
                } else if k % 3 == 1 {
                    (Ok(Number::PosInt(u)), p2)
                } else {
                    (Ok(spec_number_from_i64(u as i64)), p2)
                },
            }
        },
    }
}

/// Decodes a number at `pos`.
pub(crate) fn number_at(bytes: &Vec<u8>, pos: usize) -> (r: (Result<Number, DecodeError>, usize))
    requires
        pos <= bytes@.len(),
    ensures
        ({
            let (sr, sp) = spec_number(bytes@, pos as int);
            &&& r.0 == sr
            &&& r.1 as int == sp
            &&& pos <= r.1 <= bytes@.len()
        }),
{
    let (kr, p1) = read_u8_at(bytes, pos);
    let k = match kr {
        Ok(k) => k,
        Err(e) => {
            return (Err(e), p1);
        },
    };
    let (ur, p2) = read_u64_at(bytes, p1);
    let u = match ur {
        Ok(u) => u,
        Err(e) => {
            return (Err(e), p2);
        },
    };
    match k % 3 {
        0 => match Number::from_f64_bits(u) {
            Some(n) => (Ok(n), p2),
            None => (Err(DecodeError::IncorrectFormat), p2),
        },
        1 => (Ok(Number::from_u64(u)), p2),
        _ => (Ok(Number::from_i64(u as i64)), p2),
    }
}

/// Decodes a character run at `pos`.
pub(crate) fn chars_at(bytes: &Vec<u8>, pos: usize) -> (r: (Result<String, DecodeError>, usize))
    requires
        pos <= bytes@.len(),
    ensures
        ({
            let (sr, sp) = spec_chars(bytes@, pos as int);
            &&& r.1 as int == sp
            &&& pos <= r.1 <= bytes@.len()
            &&& match (r.0, sr) {
                (Ok(s), Ok(cs)) => s@ == cs,
                (Err(e), Err(se)) => e == se,
                _ => false,
            }
        }),
{
    let mut s = String::new();
    let mut p = pos;
    loop
        invariant
            pos <= p <= bytes@.len(),
            spec_chars(bytes@, pos as int) == with_text_prefix(
                s@,
                spec_chars(bytes@, p as int),
            ),
        decreases bytes@.len() - p,
    {
        let (kr, pk) = read_u8_at(bytes, p);
        let k = match kr {
            Ok(k) => k,
            Err(_) => {
                proof {
                    assert(s@ + Seq::<char>::empty() =~= s@);
                }
                return (Ok(s), p);
            },
        };
        if k & 1 == 0 {
            proof {
                assert(s@ + Seq::<char>::empty() =~= s@);
            }
            return (Ok(s), pk);
        }
        let (cr, pc) = read_u8_at(bytes, pk);
        let b = match cr {
            Ok(b) => b,
            Err(e) => {
                return (Err(e), pc);
            },
        };
        proof {
            let (rest, _) = spec_chars(bytes@, pc as int);
            if rest is Ok {
                assert(s@ + (seq![byte_char(b)] + rest->Ok_0) =~= s@.push(byte_char(b))
                    + rest->Ok_0);
            }
        }
        s.push(b as char);
        p = pc;
    }
}

/// What generating one document value at `pos` yields, and the position
/// after it. One selector byte reduced modulo 6 picks the variant, in the
/// fixed order 0 null, 1 boolean, 2 number, 3 string, 4 array, 5 object.
pub open spec fn spec_value(bytes: Seq<u8>, pos: int) -> (Result<SpecValue, DecodeError>, int)
    decreases bytes.len() - pos,
{
    let (selr, p1) = spec_read_u8(bytes, pos);
    match selr {
        Err(e) => (Err(e), p1),
        Ok(sel) => if sel % 6 == 0 {
            (Ok(SpecValue::Null), p1)
        } else if sel % 6 == 1 {
            let (br, p2) = spec_read_u8(bytes, p1);
            match br {
                Err(e) => (Err(e), p2),
                Ok(b) => (Ok(SpecValue::Bool(b & 1 == 1)), p2),
            }
        } else if sel % 6 == 2 {
            let (nr, p2) = spec_number(bytes, p1);
            match nr {
                Err(e) => (Err(e), p2),
                Ok(n) => (Ok(SpecValue::Number(n)), p2),
            }
        } else if sel % 6 == 3 {
            let (cr, p2) = spec_chars(bytes, p1);
            match cr {
                Err(e) => (Err(e), p2),
                Ok(cs) => (Ok(SpecValue::Text(cs)), p2),
            }
        } else if sel % 6 == 4 {
            let (er, p2) = spec_elements(bytes, p1);
            match er {
                Err(e) => (Err(e), p2),
                Ok(vs) => (Ok(SpecValue::Array(vs)), p2),
            }
        } else {
            let (mr, p2) = spec_members(bytes, p1);
            match mr {
                Err(e) => (Err(e), p2),
                Ok(ms) => (Ok(SpecValue::Object(build_object(ms))), p2),
            }
        },
    }
}

/// What generating a run of array elements at `pos` yields. Each iteration
/// reads one continuation byte (odd continues, even stops; an exhausted
/// cursor stops), then generates one full value. Every reachable outcome of
/// the nested generation moves the position forward and stays inside the
/// buffer; the final arm only completes the definition.
pub open spec fn spec_elements(bytes: Seq<u8>, pos: int) -> (Result<Seq<SpecValue>, DecodeError>, int)
    decreases bytes.len() - pos,
{
    let (kr, p1) = spec_read_u8(bytes, pos);
    match kr {
        Err(_) => (Ok(Seq::empty()), pos),
        Ok(k) => if k & 1 == 0 {
            (Ok(Seq::empty()), p1)
        } else {
            let (vr, p2) = spec_value(bytes, p1);
            match vr {
                Err(e) => (Err(e), p2),
                Ok(v) => if p1 < p2 <= bytes.len() {
                    let (rest, p3) = spec_elements(bytes, p2);
                    match rest {
                        Ok(vs) => (Ok(seq![v] + vs), p3),
                        Err(e) => (Err(e), p3),
                    }
                } else {
                    (Err(DecodeError::InsufficientData), p2)
                },
            }
        },
    }
}

/// What generating a run of object members at `pos` yields: the raw member
/// list, in generation order, duplicate keys and all. Each iteration reads
/// one continuation byte, then a key (a character run) and one full value.
/// As in [`spec_elements`], the bound checks on nested outcomes hold of every
/// reachable outcome and only complete the definition.
pub open spec fn spec_members(bytes: Seq<u8>, pos: int) -> (Result<
    Seq<(Seq<char>, SpecValue)>,
    DecodeError,
>, int)
    decreases bytes.len() - pos,
{
    let (kr, p1) = spec_read_u8(bytes, pos);
    match kr {
        Err(_) => (Ok(Seq::empty()), pos),
        Ok(k) => if k & 1 == 0 {
            (Ok(Seq::empty()), p1)
        } else {
            let (keyr, p2) = spec_chars(bytes, p1);
            match keyr {
                Err(e) => (Err(e), p2),
                Ok(key) => if pos < p2 <= bytes.len() {
                    let (vr, p3) = spec_value(bytes, p2);
                    match vr {
                        Err(e) => (Err(e), p3),
                        Ok(v) => if p2 < p3 <= bytes.len() {
                            let (rest, p4) = spec_members(bytes, p3);
                            match rest {
                                Ok(ms) => (Ok(seq![(key, v)] + ms), p4),
                                Err(e) => (Err(e), p4),
                            }
                        } else {
                            (Err(DecodeError::InsufficientData), p3)
                        },
                    }
                } else {
                    (Err(DecodeError::InsufficientData), p2)
                },
            }
        },
    }
}

/// Prepends already-generated elements to the outcome of generating the rest.
pub open spec fn with_elements_prefix(
    prefix: Seq<SpecValue>,
    r: (Result<Seq<SpecValue>, DecodeError>, int),
) -> (Result<Seq<SpecValue>, DecodeError>, int) {
    match r.0 {
        Ok(vs) => (Ok(prefix + vs), r.1),
        Err(e) => (Err(e), r.1),
    }
}

/// Prepends already-generated members to the outcome of generating the rest.
pub open spec fn with_members_prefix(
    prefix: Seq<(Seq<char>, SpecValue)>,
    r: (Result<Seq<(Seq<char>, SpecValue)>, DecodeError>, int),
) -> (Result<Seq<(Seq<char>, SpecValue)>, DecodeError>, int) {
    match r.0 {
        Ok(ms) => (Ok(prefix + ms), r.1),
        Err(e) => (Err(e), r.1),
    }
}

/// Writes one generated member into the object under construction, with
/// mapping semantics: it replaces the value of the first field holding an
/// equal key, or appends a new field when no field holds the key.
fn object_write(fields: &mut Vec<(String, Value)>, key: String, v: Value)
    ensures
        view_fields(final(fields)@) == object_insert(view_fields(old(fields)@), key@, v@),
{
    let ghost gfields = old(fields)@;
    let mut i: usize = 0;
    while i < fields.len()
        invariant
            gfields == old(fields)@,
            fields@ == gfields,
            i <= gfields.len(),
            forall|j: int| 0 <= j < i ==> (#[trigger] gfields[j]).0@ != key@,
        decreases gfields.len() - i,
    {
        if fields[i].0 == key {
            proof {
                lemma_view_fields_iff(gfields);
                assert(view_fields(gfields)[i as int].0 == key@);
                assert forall|j: int| 0 <= j < i implies (#[trigger] view_fields(gfields)[j]).0
                    != key@ by {
                    assert(view_fields(gfields)[j] == (gfields[j].0@, view_value(gfields[j].1)));
                }
                lemma_object_insert_found(view_fields(gfields), key@, v@, i as int);
                lemma_view_fields_update(gfields, i as int, (key, v));
            }
            fields.set(i, (key, v));
            return ;
        }
        i += 1;
    }
    proof {
        lemma_view_fields_iff(gfields);
        assert(!has_key(view_fields(gfields), key@)) by {
            if has_key(view_fields(gfields), key@) {
                let w = choose|w: int|
                    0 <= w < view_fields(gfields).len() && view_fields(gfields)[w].0 == key@;
                assert(gfields[w].0@ == key@);
            }
        }
        lemma_object_insert_missing(view_fields(gfields), key@, v@);
        lemma_view_fields_push(gfields, (key, v));
    }
    fields.push((key, v));
}

/// Generates a run of array elements at `pos`.
pub(crate) fn elements_at(bytes: &Vec<u8>, pos: usize) -> (r: (
    Result<Vec<Value>, DecodeError>,
    usize,
))
    requires
        pos <= bytes@.len(),
    ensures
        ({
            let (sr, sp) = spec_elements(bytes@, pos as int);
            &&& r.1 as int == sp
            &&& pos <= r.1 <= bytes@.len()
            &&& match (r.0, sr) {
                (Ok(es), Ok(vs)) => view_elements(es@) == vs,
                (Err(e), Err(se)) => e == se,
                _ => false,
            }
        }),
    decreases bytes@.len() - pos,
{
    let mut out: Vec<Value> = Vec::new();
    let mut p = pos;
    proof {
        assert(view_elements(out@) =~= Seq::<SpecValue>::empty());
        let (sr, _) = spec_elements(bytes@, pos as int);
        if sr is Ok {
            assert(Seq::<SpecValue>::empty() + sr->Ok_0 =~= sr->Ok_0);
        }
    }
    loop
        invariant
            pos <= p <= bytes@.len(),
            spec_elements(bytes@, pos as int) == with_elements_prefix(
                view_elements(out@),
                spec_elements(bytes@, p as int),
            ),
        decreases bytes@.len() - p,
    {
        let (kr, pk) = read_u8_at(bytes, p);
        let k = match kr {
            Ok(k) => k,
            Err(_) => {
                proof {
                    assert(view_elements(out@) + Seq::<SpecValue>::empty() =~= view_elements(
                        out@,
                    ));
                }
                return (Ok(out), p);
            },
        };
        if k & 1 == 0 {
            proof {
                assert(view_elements(out@) + Seq::<SpecValue>::empty() =~= view_elements(out@));
            }
            return (Ok(out), pk);
        }
        let (vr, pv) = value_at(bytes, pk);
        let v = match vr {
            Ok(v) => v,
            Err(e) => {
                return (Err(e), pv);
            },
        };
        proof {
            lemma_view_elements_push(out@, v);
            let (rest, _) = spec_elements(bytes@, pv as int);
            if rest is Ok {
                assert(view_elements(out@) + (seq![v@] + rest->Ok_0) =~= view_elements(
                    out@,
                ).push(v@) + rest->Ok_0);
            }
        }
        out.push(v);
        p = pv;
    }
}

/// Generates a run of object members at `pos` and folds them into an object
/// as they come, a later duplicate key overwriting the earlier value.
pub(crate) fn members_at(bytes: &Vec<u8>, pos: usize) -> (r: (
    Result<Vec<(String, Value)>, DecodeError>,
    usize,
))
    requires
        pos <= bytes@.len(),
    ensures
        ({
            let (sr, sp) = spec_members(bytes@, pos as int);
            &&& r.1 as int == sp
            &&& pos <= r.1 <= bytes@.len()
            &&& match (r.0, sr) {
                (Ok(fs), Ok(ms)) => view_fields(fs@) == build_object(ms),
                (Err(e), Err(se)) => e == se,
                _ => false,
            }
        }),
    decreases bytes@.len() - pos,
{
    let mut out: Vec<(String, Value)> = Vec::new();
    let ghost mut raw: Seq<(Seq<char>, SpecValue)> = Seq::empty();
    let mut p = pos;
    proof {
        assert(view_fields(out@) =~= Seq::<(Seq<char>, SpecValue)>::empty());
        let (sr, _) = spec_members(bytes@, pos as int);
        if sr is Ok {
            assert(Seq::<(Seq<char>, SpecValue)>::empty() + sr->Ok_0 =~= sr->Ok_0);
        }
    }
    loop
        invariant
            pos <= p <= bytes@.len(),
            spec_members(bytes@, pos as int) == with_members_prefix(
                raw,
                spec_members(bytes@, p as int),
            ),
            view_fields(out@) == build_object(raw),
        decreases bytes@.len() - p,
    {
        let (kr, pk) = read_u8_at(bytes, p);
        let k = match kr {
            Ok(k) => k,
            Err(_) => {
                proof {
                    assert(raw + Seq::<(Seq<char>, SpecValue)>::empty() =~= raw);
                }
                return (Ok(out), p);
            },
        };
        if k & 1 == 0 {
            proof {
                assert(raw + Seq::<(Seq<char>, SpecValue)>::empty() =~= raw);
            }
            return (Ok(out), pk);
        }
        let (keyr, pkey) = chars_at(bytes, pk);
        let key = match keyr {
            Ok(s) => s,
            Err(e) => {
                return (Err(e), pkey);
            },
        };
        let (vr, pv) = value_at(bytes, pkey);
        let v = match vr {
            Ok(v) => v,
            Err(e) => {
                return (Err(e), pv);
            },
        };
        let ghost m = (key@, v@);
        proof {
            let (rest, _) = spec_members(bytes@, pv as int);
            if rest is Ok {
                assert(raw + (seq![m] + rest->Ok_0) =~= raw.push(m) + rest->Ok_0);
            }
            assert(raw.push(m).drop_last() =~= raw);
        }
        object_write(&mut out, key, v);
        proof {
            raw = raw.push(m);
        }
        p = pv;
    }
}

/// Generation makes bounded progress: no read ever moves the position
/// backwards or past the end of the buffer, and a successfully generated
/// value consumes at least one byte. On a finite buffer the remaining budget
/// therefore shrinks through every step, which bounds the work of a
/// generation call by the length of the buffer.
pub proof fn lemma_decode_progress(bytes: Seq<u8>, pos: int)
    requires
        0 <= pos <= bytes.len(),
    ensures
        pos <= spec_value(bytes, pos).1 <= bytes.len(),
        spec_value(bytes, pos).0 is Ok ==> pos < spec_value(bytes, pos).1,
        pos <= spec_chars(bytes, pos).1 <= bytes.len(),
        pos <= spec_elements(bytes, pos).1 <= bytes.len(),
        pos <= spec_members(bytes, pos).1 <= bytes.len(),
    decreases bytes.len() - pos,
{
    if pos < bytes.len() {
        lemma_decode_progress(bytes, pos + 1);
        if pos + 2 <= bytes.len() {
            lemma_decode_progress(bytes, pos + 2);
        }
        let pe = spec_value(bytes, pos + 1).1;
        if pos + 1 < pe <= bytes.len() {
            lemma_decode_progress(bytes, pe);
        }
        let pk = spec_chars(bytes, pos + 1).1;
        if pos < pk <= bytes.len() {
            lemma_decode_progress(bytes, pk);
            let pv = spec_value(bytes, pk).1;
            if pk < pv <= bytes.len() {
                lemma_decode_progress(bytes, pv);
            }
        }
    }
}

/// Every document value the generator yields is structurally well-formed:
/// recursively, every number is finite and canonical, every object has
/// unique keys, and every array element and object field value is itself
/// well-formed.
/// Inductive step of well-formedness for one generated value.
proof fn lemma_value_wf_rec(bytes: Seq<u8>, pos: int)
    requires
        0 <= pos <= bytes.len(),
    ensures
        spec_value(bytes, pos).0 is Ok ==> wf(spec_value(bytes, pos).0->Ok_0),
    decreases bytes.len() - pos,
{
    if pos < bytes.len() {
        let sel = bytes[pos] % 6;
        if sel == 4 {
            lemma_elements_wf_rec(bytes, pos + 1);
        } else if sel == 5 {
            lemma_members_wf_rec(bytes, pos + 1);
            let (mr, _) = spec_members(bytes, pos + 1);
            if mr is Ok {
                lemma_build_object_wf(mr->Ok_0);
            }
        }
    }
}

/// Inductive step of well-formedness for a run of array elements.
proof fn lemma_elements_wf_rec(bytes: Seq<u8>, pos: int)
    requires
        0 <= pos <= bytes.len(),
    ensures
        spec_elements(bytes, pos).0 is Ok ==> wf_all(spec_elements(bytes, pos).0->Ok_0),
    decreases bytes.len() - pos,
{
    if pos < bytes.len() && !(bytes[pos] & 1 == 0) {
        lemma_value_wf_rec(bytes, pos + 1);
        let (vr, pe) = spec_value(bytes, pos + 1);
        if vr is Ok && pos + 1 < pe <= bytes.len() {
            lemma_elements_wf_rec(bytes, pe);
            let (rest, _) = spec_elements(bytes, pe);
            if rest is Ok {
                let vs = seq![vr->Ok_0] + rest->Ok_0;
                assert(spec_elements(bytes, pos).0 == Ok::<_, DecodeError>(vs));
                assert(vs.subrange(1, vs.len() as int) =~= rest->Ok_0);
                assert(wf(vs[0]));
                assert(wf_all(vs));
            }
        }
    }
}

/// Inductive step of well-formedness for a run of raw object members.
proof fn lemma_members_wf_rec(bytes: Seq<u8>, pos: int)
    requires
        0 <= pos <= bytes.len(),
    ensures
        spec_members(bytes, pos).0 is Ok ==> wf_all_fields(spec_members(bytes, pos).0->Ok_0),
    decreases bytes.len() - pos,
{
    if pos < bytes.len() && !(bytes[pos] & 1 == 0) {
        let (keyr, pk) = spec_chars(bytes, pos + 1);
        if keyr is Ok && pos < pk <= bytes.len() {
            lemma_value_wf_rec(bytes, pk);
            let (vr, pv) = spec_value(bytes, pk);
            if vr is Ok && pk < pv <= bytes.len() {
                lemma_members_wf_rec(bytes, pv);
                let (rest, _) = spec_members(bytes, pv);
                if rest is Ok {
                    let ms = seq![(keyr->Ok_0, vr->Ok_0)] + rest->Ok_0;
                    assert(spec_members(bytes, pos).0 == Ok::<_, DecodeError>(ms));
                    assert(ms.subrange(1, ms.len() as int) =~= rest->Ok_0);
                    assert(wf(ms[0].1));
                    assert(wf_all_fields(ms));
                }
            }
        }
    }
}

/// Every document value the generator yields is structurally well-formed:
/// recursively, every number is finite and canonical, every object has
/// unique keys, and every array element and object field value is itself
/// well-formed.
pub proof fn lemma_decode_wf(bytes: Seq<u8>, pos: int)
    requires
        0 <= pos <= bytes.len(),
    ensures
        spec_value(bytes, pos).0 matches Ok(v) ==> wf(v),
        spec_elements(bytes, pos).0 matches Ok(vs) ==> wf_all(vs),
        spec_members(bytes, pos).0 matches Ok(ms) ==> wf_all_fields(ms),
{
    lemma_value_wf_rec(bytes, pos);
    lemma_elements_wf_rec(bytes, pos);
    lemma_members_wf_rec(bytes, pos);
}

/// Generates one document value at `pos`.
pub(crate) fn value_at(bytes: &Vec<u8>, pos: usize) -> (r: (Result<Value, DecodeError>, usize))
    requires
        pos <= bytes@.len(),
    ensures
        ({
            let (sr, sp) = spec_value(bytes@, pos as int);
            &&& r.1 as int == sp
            &&& pos <= r.1 <= bytes@.len()
            &&& (r.0 is Ok ==> pos < r.1)
            &&& match (r.0, sr) {
                (Ok(v), Ok(sv)) => v@ == sv,
                (Err(e), Err(se)) => e == se,
                _ => false,
            }
        }),
    decreases bytes@.len() - pos,
{
    let (selr, p1) = read_u8_at(bytes, pos);
    let sel = match selr {
        Ok(sel) => sel,
        Err(e) => {
            return (Err(e), p1);
        },
    };
    match sel % 6 {
        0 => (Ok(Value::Null), p1),
        1 => {
            let (br, p2) = read_u8_at(bytes, p1);
            match br {
                Ok(b) => (Ok(Value::Bool(b & 1 == 1)), p2),
                Err(e) => (Err(e), p2),
            }
        },
        2 => {
            let (nr, p2) = number_at(bytes, p1);
            match nr {
                Ok(n) => (Ok(Value::Number(n)), p2),
                Err(e) => (Err(e), p2),
            }
        },
        3 => {
            let (cr, p2) = chars_at(bytes, p1);
            match cr {
                Ok(s) => (Ok(Value::String(s)), p2),
                Err(e) => (Err(e), p2),
            }
        },
        4 => {
            let (er, p2) = elements_at(bytes, p1);
            match er {
                Ok(es) => (Ok(Value::Array(es)), p2),
                Err(e) => (Err(e), p2),
            }
        },
        _ => {
            let (mr, p2) = members_at(bytes, p1);
            match mr {
                Ok(fs) => (Ok(Value::Object(fs)), p2),
                Err(e) => (Err(e), p2),
            }
        },
    }
}

} // verus!
