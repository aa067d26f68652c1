//! The document value model: a recursively nested tagged union over null,
//! booleans, numbers, strings, arrays and objects, together with its
//! mathematical counterpart and the well-formedness predicate.

use vstd::prelude::*;

verus! {

/// Why a generation call failed. Any failure aborts the whole call: no
/// partial document is ever returned.
#[derive(Clone, Copy, Debug, PartialEq, Eq, Structural)]
pub enum DecodeError {
    /// The cursor was exhausted before a required read.
    InsufficientData,
    /// A read succeeded at the byte level but decoded to a value outside the
    /// legal domain (a non-finite floating point bit pattern).
    IncorrectFormat,
}

/// A numeric document value. A number is exactly one of: an unsigned 64-bit
/// integer, a strictly negative signed 64-bit integer, or a finite 64-bit
/// floating point value carried as its IEEE 754 bit pattern.
#[derive(Clone, Debug, PartialEq, Eq, Structural)]
pub enum Number {
    /// A non-negative integer.
    PosInt(u64),
    /// A negative integer (always `< 0` in a well-formed number).
    NegInt(i64),
    /// The bit pattern of a finite `f64` (exponent bits never all ones in a
    /// well-formed number).
    FloatBits(u64),
}

/// A document value: the output of the generator and the element type of the
/// two container variants.
#[derive(Debug, PartialEq)]
pub enum Value {
    Null,
    Bool(bool),
    Number(Number),
    String(String),
    Array(Vec<Value>),
    Object(Vec<(String, Value)>),
}

/// The mathematical model of a document value, with strings as character
/// sequences and containers as sequences.
pub enum SpecValue {
    Null,
    Bool(bool),
    Number(Number),
    Text(Seq<char>),
    Array(Seq<SpecValue>),
    Object(Seq<(Seq<char>, SpecValue)>),
}

/// The model of a concrete document value.
pub open spec fn view_value(v: Value) -> SpecValue
    decreases v, 1int,
{
    match v {
        Value::Null => SpecValue::Null,
        Value::Bool(b) => SpecValue::Bool(b),
        Value::Number(n) => SpecValue::Number(n),
        Value::String(s) => SpecValue::Text(s@),
        Value::Array(elems) => SpecValue::Array(view_elements(elems@)),
        Value::Object(fields) => SpecValue::Object(view_fields(fields@)),
    }
}

/// The models of the elements of an array, in order.
pub open spec fn view_elements(elems: Seq<Value>) -> Seq<SpecValue>
    decreases elems, 0int,
{
    if elems.len() == 0 {
        Seq::empty()
    } else {
        seq![view_value(elems[0])] + view_elements(elems.subrange(1, elems.len() as int))
    }
}

/// The models of the fields of an object, in order.
pub open spec fn view_fields(fields: Seq<(String, Value)>) -> Seq<(Seq<char>, SpecValue)>
    decreases fields, 0int,
{
    if fields.len() == 0 {
        Seq::empty()
    } else {
        seq![(fields[0].0@, view_value(fields[0].1))] + view_fields(
            fields.subrange(1, fields.len() as int),
        )
    }
}

impl View for Value {
    type V = SpecValue;

    open spec fn view(&self) -> SpecValue {
        view_value(*self)
    }
}

/// Whether the exponent bits of an `f64` bit pattern denote a finite value
/// (neither an infinity nor a NaN).
pub open spec fn spec_f64_bits_finite(bits: u64) -> bool {
    (bits >> 52) & 0x7ff != 0x7ff
}

/// Whether the exponent bits of an `f64` bit pattern denote a finite value.
pub fn f64_bits_finite(bits: u64) -> (r: bool)
    ensures
        r == spec_f64_bits_finite(bits),
{
    (bits >> 52) & 0x7ff != 0x7ff
}

/// The number a signed 64-bit integer becomes: integers that fit in `u64`
/// are carried unsigned, so a number has one canonical representation.
pub open spec fn spec_number_from_i64(i: i64) -> Number {
    if i >= 0 {
        Number::PosInt(i as u64)
    } else {
        Number::NegInt(i)
    }
}

impl Number {
    /// Builds the number of an unsigned 64-bit integer.
    pub fn from_u64(u: u64) -> (n: Number)
        ensures
            n == Number::PosInt(u),
            wf_number(n),
    {
        Number::PosInt(u)
    }

    /// Builds the number of a signed 64-bit integer, in canonical form.
    pub fn from_i64(i: i64) -> (n: Number)
        ensures
            n == spec_number_from_i64(i),
            wf_number(n),
    {
        if i >= 0 {
            Number::PosInt(i as u64)
        } else {
            Number::NegInt(i)
        }
    }

    /// Builds the number of an `f64` bit pattern, or `None` when the pattern
    /// denotes an infinity or a NaN.
    pub fn from_f64_bits(bits: u64) -> (r: Option<Number>)
        ensures
            r is Some <==> spec_f64_bits_finite(bits),
            r matches Some(n) ==> n == Number::FloatBits(bits) && wf_number(n),
    {
        if f64_bits_finite(bits) {
            Some(Number::FloatBits(bits))
        } else {
            None
        }
    }
}

/// A well-formed number is finite and keeps its canonical kind: integers that
/// fit in `u64` are never carried as signed.
pub open spec fn wf_number(n: Number) -> bool {
    match n {
        Number::PosInt(_) => true,
        Number::NegInt(i) => i < 0,
        Number::FloatBits(bits) => spec_f64_bits_finite(bits),
    }
}

/// No two fields of an object share a key.
pub open spec fn unique_keys(fields: Seq<(Seq<char>, SpecValue)>) -> bool {
    forall|i: int, j: int|
        0 <= i < j < fields.len() ==> #[trigger] fields[i].0 != #[trigger] fields[j].0
}

/// Whether some field of `fields` has the key `key`.
pub open spec fn has_key(fields: Seq<(Seq<char>, SpecValue)>, key: Seq<char>) -> bool {
    exists|i: int| 0 <= i < fields.len() && fields[i].0 == key
}

/// Mapping semantics of object construction: writing `key` to `v` replaces
/// the value of the first field with that key in place, or appends a new
/// field when no field has the key.
pub open spec fn object_insert(
    fields: Seq<(Seq<char>, SpecValue)>,
    key: Seq<char>,
    v: SpecValue,
) -> Seq<(Seq<char>, SpecValue)>
    decreases fields.len(),
{
    if fields.len() == 0 {
        seq![(key, v)]
    } else if fields[0].0 == key {
        seq![(key, v)] + fields.subrange(1, fields.len() as int)
    } else {
        seq![fields[0]] + object_insert(fields.subrange(1, fields.len() as int), key, v)
    }
}

/// The object a raw run of generated members builds: each member is written
/// in order, a later duplicate key overwriting the earlier value.
pub open spec fn build_object(
    members: Seq<(Seq<char>, SpecValue)>,
) -> Seq<(Seq<char>, SpecValue)>
    decreases members.len(),
{
    if members.len() == 0 {
        Seq::empty()
    } else {
        object_insert(
            build_object(members.drop_last()),
            members.last().0,
            members.last().1,
        )
    }
}

/// Structural well-formedness of a document value: every number is finite and
/// canonical, every object has unique keys, and the same holds recursively of
/// every array element and object field value.
pub open spec fn wf(v: SpecValue) -> bool
    decreases v, 1int,
{
    match v {
        SpecValue::Null => true,
        SpecValue::Bool(_) => true,
        SpecValue::Number(n) => wf_number(n),
        SpecValue::Text(_) => true,
        SpecValue::Array(elems) => wf_all(elems),
        SpecValue::Object(fields) => unique_keys(fields) && wf_all_fields(fields),
    }
}

/// Every value of a sequence of document values is well-formed.
pub open spec fn wf_all(elems: Seq<SpecValue>) -> bool
    decreases elems, 0int,
{
    if elems.len() == 0 {
        true
    } else {
        wf(elems[0]) && wf_all(elems.subrange(1, elems.len() as int))
    }
}

/// Every field value of a sequence of object fields is well-formed.
pub open spec fn wf_all_fields(fields: Seq<(Seq<char>, SpecValue)>) -> bool
    decreases fields, 0int,
{
    if fields.len() == 0 {
        true
    } else {
        wf(fields[0].1) && wf_all_fields(fields.subrange(1, fields.len() as int))
    }
}

/// The model of an array's elements, pointwise.
pub proof fn lemma_view_elements_iff(es: Seq<Value>)
    ensures
        view_elements(es).len() == es.len(),
        forall|i: int| 0 <= i < es.len() ==> view_elements(es)[i] == view_value(#[trigger] es[i]),
    decreases es.len(),
{
    if es.len() > 0 {
        let sub = es.subrange(1, es.len() as int);
        lemma_view_elements_iff(sub);
        assert forall|i: int| 0 <= i < es.len() implies view_elements(es)[i] == view_value(
            #[trigger] es[i],
        ) by {
            if i > 0 {
                assert(sub[i - 1] == es[i]);
                assert(view_elements(es)[i] == view_elements(sub)[i - 1]);
            }
        }
    }
}

/// The model of an object's fields, pointwise.
pub proof fn lemma_view_fields_iff(fs: Seq<(String, Value)>)
    ensures
        view_fields(fs).len() == fs.len(),
        forall|i: int|
            0 <= i < fs.len() ==> view_fields(fs)[i] == ((#[trigger] fs[i]).0@, view_value(
                fs[i].1,
            )),
    decreases fs.len(),
{
    if fs.len() > 0 {
        let sub = fs.subrange(1, fs.len() as int);
        lemma_view_fields_iff(sub);
        assert forall|i: int| 0 <= i < fs.len() implies view_fields(fs)[i] == ((
        #[trigger] fs[i]).0@, view_value(fs[i].1)) by {
            if i > 0 {
                assert(sub[i - 1] == fs[i]);
                assert(view_fields(fs)[i] == view_fields(sub)[i - 1]);
            }
        }
    }
}

/// Appending an element appends its model.
pub proof fn lemma_view_elements_push(es: Seq<Value>, v: Value)
    ensures
        view_elements(es.push(v)) == view_elements(es).push(view_value(v)),
{
    lemma_view_elements_iff(es);
    lemma_view_elements_iff(es.push(v));
    let a = view_elements(es.push(v));
    let b = view_elements(es).push(view_value(v));
    assert forall|i: int| 0 <= i < a.len() implies a[i] == b[i] by {
        if i < es.len() {
            assert(es.push(v)[i] == es[i]);
        } else {
            assert(es.push(v)[i] == v);
        }
    }
    assert(a =~= b);
}

/// Appending a field appends its model.
pub proof fn lemma_view_fields_push(fs: Seq<(String, Value)>, f: (String, Value))
    ensures
        view_fields(fs.push(f)) == view_fields(fs).push((f.0@, view_value(f.1))),
{
    lemma_view_fields_iff(fs);
    lemma_view_fields_iff(fs.push(f));
    let a = view_fields(fs.push(f));
    let b = view_fields(fs).push((f.0@, view_value(f.1)));
    assert forall|i: int| 0 <= i < a.len() implies a[i] == b[i] by {
        if i < fs.len() {
            assert(fs.push(f)[i] == fs[i]);
        } else {
            assert(fs.push(f)[i] == f);
        }
    }
    assert(a =~= b);
}

/// Overwriting a field overwrites its model.
pub proof fn lemma_view_fields_update(fs: Seq<(String, Value)>, i: int, f: (String, Value))
    requires
        0 <= i < fs.len(),
    ensures
        view_fields(fs.update(i, f)) == view_fields(fs).update(i, (f.0@, view_value(f.1))),
{
    lemma_view_fields_iff(fs);
    lemma_view_fields_iff(fs.update(i, f));
    let a = view_fields(fs.update(i, f));
    let b = view_fields(fs).update(i, (f.0@, view_value(f.1)));
    assert forall|j: int| 0 <= j < a.len() implies a[j] == b[j] by {
        if j == i {
            assert(fs.update(i, f)[j] == f);
        } else {
            assert(fs.update(i, f)[j] == fs[j]);
        }
    }
    assert(a =~= b);
}

/// Well-formedness of a run of fields, pointwise.
pub proof fn lemma_wf_all_fields_iff(fs: Seq<(Seq<char>, SpecValue)>)
    ensures
        wf_all_fields(fs) <==> (forall|i: int| 0 <= i < fs.len() ==> wf((#[trigger] fs[i]).1)),
    decreases fs.len(),
{
    if fs.len() > 0 {
        let sub = fs.subrange(1, fs.len() as int);
        lemma_wf_all_fields_iff(sub);
        if wf_all_fields(fs) {
            assert forall|i: int| 0 <= i < fs.len() implies wf((#[trigger] fs[i]).1) by {
                if i > 0 {
                    assert(sub[i - 1] == fs[i]);
                }
            }
        }
        if forall|i: int| 0 <= i < fs.len() ==> wf((#[trigger] fs[i]).1) {
            assert forall|j: int| 0 <= j < sub.len() implies wf((#[trigger] sub[j]).1) by {
                assert(sub[j] == fs[j + 1]);
            }
        }
    }
}

/// Writing a key that the first matching field holds replaces that field in
/// place.
pub proof fn lemma_object_insert_found(
    fields: Seq<(Seq<char>, SpecValue)>,
    key: Seq<char>,
    v: SpecValue,
    i: int,
)
    requires
        0 <= i < fields.len(),
        fields[i].0 == key,
        forall|j: int| 0 <= j < i ==> (#[trigger] fields[j]).0 != key,
    ensures
        object_insert(fields, key, v) == fields.update(i, (key, v)),
    decreases i,
{
    if i == 0 {
        assert(object_insert(fields, key, v) =~= fields.update(0, (key, v)));
    } else {
        let sub = fields.subrange(1, fields.len() as int);
        assert(fields[0].0 != key);
        lemma_object_insert_found(sub, key, v, i - 1);
        assert(object_insert(fields, key, v) =~= fields.update(i, (key, v)));
    }
}

/// Writing a key no field holds appends a new field.
pub proof fn lemma_object_insert_missing(
    fields: Seq<(Seq<char>, SpecValue)>,
    key: Seq<char>,
    v: SpecValue,
)
    requires
        !has_key(fields, key),
    ensures
        object_insert(fields, key, v) == fields.push((key, v)),
    decreases fields.len(),
{
    if fields.len() == 0 {
        assert(object_insert(fields, key, v) =~= fields.push((key, v)));
    } else {
        let sub = fields.subrange(1, fields.len() as int);
        assert(fields[0].0 != key);
        assert(!has_key(sub, key)) by {
            if has_key(sub, key) {
                let w = choose|w: int| 0 <= w < sub.len() && sub[w].0 == key;
                assert(fields[w + 1].0 == key);
            }
        }
        lemma_object_insert_missing(sub, key, v);
        assert(object_insert(fields, key, v) =~= fields.push((key, v)));
    }
}

/// Whether some field of `fields` has the key `key`, decided by the first
/// field when there is one.
pub proof fn lemma_has_key_first(fields: Seq<(Seq<char>, SpecValue)>, key: Seq<char>)
    requires
        has_key(fields, key),
    ensures
        exists|i: int|
            0 <= i < fields.len() && (#[trigger] fields[i]).0 == key && forall|j: int|
                0 <= j < i ==> (#[trigger] fields[j]).0 != key,
    decreases fields.len(),
{
    if fields[0].0 == key {
        assert(fields[0].0 == key && forall|j: int| 0 <= j < 0 ==> (#[trigger] fields[j]).0 != key);
    } else {
        let sub = fields.subrange(1, fields.len() as int);
        assert(has_key(sub, key)) by {
            let w = choose|w: int| 0 <= w < fields.len() && fields[w].0 == key;
            assert(sub[w - 1].0 == key);
        }
        lemma_has_key_first(sub, key);
        let i = choose|i: int|
            0 <= i < sub.len() && (#[trigger] sub[i]).0 == key && forall|j: int|
                0 <= j < i ==> (#[trigger] sub[j]).0 != key;
        assert(fields[i + 1].0 == key);
        assert(forall|j: int| 0 <= j < i + 1 ==> (#[trigger] fields[j]).0 != key) by {
            assert(forall|j: int| 1 <= j < i + 1 ==> fields[j] == sub[j - 1]);
        }
    }
}

/// Writing one member into a well-formed object keeps it well-formed: keys
/// stay unique, every field value stays well-formed, and the keys afterwards
/// are the keys before plus the written one.
pub proof fn lemma_object_insert_wf(
    fields: Seq<(Seq<char>, SpecValue)>,
    key: Seq<char>,
    v: SpecValue,
)
    requires
        unique_keys(fields),
        wf_all_fields(fields),
        wf(v),
    ensures
        unique_keys(object_insert(fields, key, v)),
        wf_all_fields(object_insert(fields, key, v)),
        forall|k: Seq<char>|
            #[trigger] has_key(object_insert(fields, key, v), k) <==> (has_key(fields, k) || k
                == key),
{
    lemma_wf_all_fields_iff(fields);
    if has_key(fields, key) {
        lemma_has_key_first(fields, key);
        let i = choose|i: int|
            0 <= i < fields.len() && (#[trigger] fields[i]).0 == key && forall|j: int|
                0 <= j < i ==> (#[trigger] fields[j]).0 != key;
        lemma_object_insert_found(fields, key, v, i);
        let out = fields.update(i, (key, v));
        lemma_wf_all_fields_iff(out);
        assert forall|k: Seq<char>| #[trigger] has_key(out, k) implies has_key(fields, k) || k
            == key by {
            let w = choose|w: int| 0 <= w < out.len() && out[w].0 == k;
            if w != i {
                assert(fields[w].0 == k);
            }
        }
        assert forall|k: Seq<char>| has_key(fields, k) || k == key implies #[trigger] has_key(
            out,
            k,
        ) by {
            if k == key {
                assert(out[i].0 == k);
            } else {
                let w = choose|w: int| 0 <= w < fields.len() && fields[w].0 == k;
                assert(out[w].0 == k);
            }
        }
    } else {
        lemma_object_insert_missing(fields, key, v);
        let out = fields.push((key, v));
        lemma_wf_all_fields_iff(out);
        assert forall|k: Seq<char>| #[trigger] has_key(out, k) implies has_key(fields, k) || k
            == key by {
            let w = choose|w: int| 0 <= w < out.len() && out[w].0 == k;
            if w < fields.len() {
                assert(fields[w].0 == k);
            }
        }
        assert forall|k: Seq<char>| has_key(fields, k) || k == key implies #[trigger] has_key(
            out,
            k,
        ) by {
            if k == key {
                assert(out[fields.len() as int].0 == k);
            } else {
                let w = choose|w: int| 0 <= w < fields.len() && fields[w].0 == k;
                assert(out[w].0 == k);
            }
        }
        assert(unique_keys(out)) by {
            assert forall|i: int, j: int| 0 <= i < j < out.len() implies (#[trigger] out[i]).0 != (
            #[trigger] out[j]).0 by {
                if j == fields.len() {
                    assert(fields[i].0 != key) by {
                        if fields[i].0 == key {
                            assert(has_key(fields, key));
                        }
                    }
                }
            }
        }
    }
}

/// The object a raw member run builds is well-formed: unique keys, every
/// value well-formed, provided every raw member value was.
pub proof fn lemma_build_object_wf(members: Seq<(Seq<char>, SpecValue)>)
    requires
        wf_all_fields(members),
    ensures
        unique_keys(build_object(members)),
        wf_all_fields(build_object(members)),
    decreases members.len(),
{
    lemma_wf_all_fields_iff(members);
    if members.len() == 0 {
    } else {
        let front = members.drop_last();
        lemma_wf_all_fields_iff(front);
        lemma_build_object_wf(front);
        lemma_object_insert_wf(build_object(front), members.last().0, members.last().1);
    }
}

} // verus!
