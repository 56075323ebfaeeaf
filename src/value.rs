//! Typed values: primitives, homogeneous vectors and structs, and their value codec.
use crate::metadata::{
    has_field, lemma_metadata_kinds, struct_metadata_is_wf, lemma_metadata_view, XbfMetadataUpcast,
    metadata_eq, metadata_text, record_fields, write_metadata_text, vector_inner, Metadata, XbfMetadata, XbfStructMetadata,
    XbfVecMetadata,
};
use crate::primitive::{
    lemma_primitive_round_trip, lemma_primitive_view_wf, parse_primitive, primitive_bytes,
    primitive_fits, primitive_kind, primitive_wf, PrimitiveValue, XbfPrimitive,
};
use crate::wire::{
    byte_range, decimal, le_bytes, lemma_byte_ranges, lemma_encode_concat, lemma_le_bytes_len,
    lemma_le_value_of_bytes, parse_le, push_decimal, push_str, push_u64, read_u64, utf8_text,
    XbfError, XbfReader,
};
use vstd::prelude::*;
use vstd::utf8::encode_utf8;

verus! {

/// A value as the format sees it.
pub enum Value {
    Primitive(PrimitiveValue),
    /// A vector, by the metadata of its elements and the elements in order.
    Vector(Metadata, Seq<Value>),
    /// A struct, by its metadata and the values of its fields in declaration order.
    Record(Metadata, Seq<Value>),
}

/// The metadata that a value carries.
pub open spec fn metadata_of(v: Value) -> Metadata {
    match v {
        Value::Primitive(p) => Metadata::Primitive(primitive_kind(p)),
        Value::Vector(inner, _) => Metadata::Vector(Box::new(inner)),
        Value::Record(m, _) => m,
    }
}

/// A value of a consistent shape: every vector is homogeneous, and every struct has one value
/// per field, each of the field's metadata.
pub open spec fn value_wf(v: Value) -> bool
    decreases v,
{
    match v {
        Value::Primitive(p) => primitive_wf(p),
        Value::Vector(inner, xs) => forall|i: int|
            0 <= i < xs.len() ==> metadata_of(#[trigger] xs[i]) == inner && value_wf(xs[i]),
        Value::Record(m, xs) => {
            &&& m is Record
            &&& xs.len() == record_fields(m).len()
            &&& forall|i: int|
                0 <= i < xs.len() ==> metadata_of(#[trigger] xs[i]) == record_fields(m)[i].1
                    && value_wf(xs[i])
        },
    }
}

/// A value whose lengths all fit the `u64` prefixes.
pub open spec fn value_fits(v: Value) -> bool
    decreases v,
{
    match v {
        Value::Primitive(p) => primitive_fits(p),
        Value::Vector(_, xs) => xs.len() < byte_range(8) && forall|i: int|
            0 <= i < xs.len() ==> value_fits(#[trigger] xs[i]),
        Value::Record(_, xs) => forall|i: int| 0 <= i < xs.len() ==> value_fits(#[trigger] xs[i]),
    }
}

/// The payload bytes of a value; no metadata is part of them.
pub open spec fn value_bytes(v: Value) -> Seq<u8>
    decreases v,
{
    match v {
        Value::Primitive(p) => primitive_bytes(p),
        Value::Vector(_, xs) => le_bytes(xs.len(), 8) + values_bytes(xs),
        Value::Record(_, xs) => values_bytes(xs),
    }
}

/// The payloads of values one after the other.
pub open spec fn values_bytes(xs: Seq<Value>) -> Seq<u8>
    decreases xs,
{
    if xs.len() == 0 {
        seq![]
    } else {
        values_bytes(xs.drop_last()) + value_bytes(xs.last())
    }
}

/// What reading a value described by `m` at `pos` gives: the value and the position after it.
pub open spec fn parse_value(m: Metadata, b: Seq<u8>, pos: int) -> Result<(Value, int), XbfError>
    decreases m, 1int, 0int,
{
    match m {
        Metadata::Primitive(k) => match parse_primitive(k, b, pos) {
            Ok((p, q)) => Ok((Value::Primitive(p), q)),
            Err(e) => Err(e),
        },
        Metadata::Vector(inner) => match parse_le(b, pos, 8) {
            Ok((n, p)) => match parse_elements(m, b, p, n as int) {
                Ok((xs, q)) => Ok((Value::Vector(*inner, xs), q)),
                Err(e) => Err(e),
            },
            Err(e) => Err(e),
        },
        Metadata::Record(_, fields) => match parse_field_values(m, b, pos, fields.len() as int) {
            Ok((xs, q)) => Ok((Value::Record(m, xs), q)),
            Err(e) => Err(e),
        },
    }
}

/// What reading `n` elements of the vector described by `m` at `pos` gives.
pub open spec fn parse_elements(m: Metadata, b: Seq<u8>, pos: int, n: int) -> Result<
    (Seq<Value>, int),
    XbfError,
>
    decreases m, 0int, n,
{
    if n <= 0 {
        Ok((seq![], pos))
    } else {
        match parse_elements(m, b, pos, n - 1) {
            Ok((xs, p)) => match m {
                Metadata::Vector(inner) => match parse_value(*inner, b, p) {
                    Ok((x, q)) => Ok((xs.push(x), q)),
                    Err(e) => Err(e),
                },
                _ => Err(XbfError::UnexpectedEof),
            },
            Err(e) => Err(e),
        }
    }
}

/// What reading the values of the first `k` fields of the struct described by `m` at `pos`
/// gives.
pub open spec fn parse_field_values(m: Metadata, b: Seq<u8>, pos: int, k: int) -> Result<
    (Seq<Value>, int),
    XbfError,
>
    decreases m, 0int, k,
{
    if k <= 0 {
        Ok((seq![], pos))
    } else {
        match parse_field_values(m, b, pos, k - 1) {
            Ok((xs, p)) => match m {
                Metadata::Record(_, fields) => if k - 1 < fields.len() {
                    match parse_value(fields[k - 1].1, b, p) {
                        Ok((x, q)) => Ok((xs.push(x), q)),
                        Err(e) => Err(e),
                    }
                } else {
                    Err(XbfError::UnexpectedEof)
                },
                _ => Err(XbfError::UnexpectedEof),
            },
            Err(e) => Err(e),
        }
    }
}

pub proof fn lemma_values_bytes_push(xs: Seq<Value>, x: Value)
    ensures
        values_bytes(xs.push(x)) == values_bytes(xs) + value_bytes(x),
{
    assert(xs.push(x).drop_last() =~= xs);
}

/// A value is read back from its payload under its own metadata, whatever follows it.
pub proof fn lemma_value_round_trip(v: Value, b: Seq<u8>, pos: int)
    requires
        value_wf(v),
        value_fits(v),
        0 <= pos,
        pos + value_bytes(v).len() <= b.len(),
        b.subrange(pos, pos + value_bytes(v).len()) == value_bytes(v),
    ensures
        parse_value(metadata_of(v), b, pos) == Ok::<(Value, int), XbfError>(
            (v, pos + value_bytes(v).len()),
        ),
    decreases v,
{
    match v {
        Value::Primitive(p) => {
            lemma_primitive_round_trip(p, b, pos);
        },
        Value::Vector(inner, xs) => {
            let w = value_bytes(v);
            let lb = le_bytes(xs.len(), 8);
            let eb = values_bytes(xs);
            lemma_le_bytes_len(xs.len(), 8);
            lemma_le_value_of_bytes(xs.len(), 8);
            assert(b.subrange(pos, pos + 8) =~= w.subrange(0, 8));
            assert(w.subrange(0, 8) =~= lb);
            assert(b.subrange(pos + 8, pos + 8 + eb.len()) =~= w.subrange(8, w.len() as int));
            assert(w.subrange(8, w.len() as int) =~= eb);
            lemma_elements_round_trip(inner, xs, b, pos + 8);
        },
        Value::Record(m, xs) => {
            lemma_field_values_round_trip(m, xs, b, pos);
        },
    }
}

/// The elements of a homogeneous vector are read back from their payloads.
pub proof fn lemma_elements_round_trip(inner: Metadata, xs: Seq<Value>, b: Seq<u8>, pos: int)
    requires
        forall|i: int|
            0 <= i < xs.len() ==> metadata_of(#[trigger] xs[i]) == inner && value_wf(xs[i])
                && value_fits(xs[i]),
        0 <= pos,
        pos + values_bytes(xs).len() <= b.len(),
        b.subrange(pos, pos + values_bytes(xs).len()) == values_bytes(xs),
    ensures
        parse_elements(Metadata::Vector(Box::new(inner)), b, pos, xs.len() as int) == Ok::<
            (Seq<Value>, int),
            XbfError,
        >((xs, pos + values_bytes(xs).len())),
    decreases xs,
{
    if xs.len() == 0 {
        assert(xs =~= seq![]);
    } else {
        let prev = xs.drop_last();
        let last = xs.last();
        lemma_values_bytes_push(prev, last);
        assert(prev.push(last) =~= xs);
        let pw = values_bytes(prev);
        let lw = value_bytes(last);
        let w = values_bytes(xs);
        let pl = pw.len() as int;
        let wl = w.len() as int;
        assert(b.subrange(pos, pos + pl) =~= w.subrange(0, pl));
        assert(w.subrange(0, pl) =~= pw);
        assert forall|i: int| 0 <= i < prev.len() implies metadata_of(#[trigger] prev[i]) == inner
            && value_wf(prev[i]) && value_fits(prev[i]) by {
            assert(prev[i] == xs[i]);
        }
        lemma_elements_round_trip(inner, prev, b, pos);
        assert(b.subrange(pos + pl, pos + wl) =~= w.subrange(pl, wl));
        assert(w.subrange(pl, wl) =~= lw);
        assert(last == xs[xs.len() - 1]);
        lemma_value_round_trip(last, b, pos + pl);
        assert(xs.len() - 1 == prev.len());
    }
}

/// The values of a struct's fields are read back from their payloads.
pub proof fn lemma_field_values_round_trip(m: Metadata, xs: Seq<Value>, b: Seq<u8>, pos: int)
    requires
        m is Record,
        xs.len() <= record_fields(m).len(),
        forall|i: int|
            0 <= i < xs.len() ==> metadata_of(#[trigger] xs[i]) == record_fields(m)[i].1
                && value_wf(xs[i]) && value_fits(xs[i]),
        0 <= pos,
        pos + values_bytes(xs).len() <= b.len(),
        b.subrange(pos, pos + values_bytes(xs).len()) == values_bytes(xs),
    ensures
        parse_field_values(m, b, pos, xs.len() as int) == Ok::<(Seq<Value>, int), XbfError>(
            (xs, pos + values_bytes(xs).len()),
        ),
    decreases xs,
{
    if xs.len() == 0 {
        assert(xs =~= seq![]);
    } else {
        let prev = xs.drop_last();
        let last = xs.last();
        lemma_values_bytes_push(prev, last);
        assert(prev.push(last) =~= xs);
        let pw = values_bytes(prev);
        let lw = value_bytes(last);
        let w = values_bytes(xs);
        let pl = pw.len() as int;
        let wl = w.len() as int;
        assert(b.subrange(pos, pos + pl) =~= w.subrange(0, pl));
        assert(w.subrange(0, pl) =~= pw);
        assert forall|i: int| 0 <= i < prev.len() implies metadata_of(#[trigger] prev[i])
            == record_fields(m)[i].1 && value_wf(prev[i]) && value_fits(prev[i]) by {
            assert(prev[i] == xs[i]);
        }
        lemma_field_values_round_trip(m, prev, b, pos);
        assert(b.subrange(pos + pl, pos + wl) =~= w.subrange(pl, wl));
        assert(w.subrange(pl, wl) =~= lw);
        assert(last == xs[xs.len() - 1]);
        lemma_value_round_trip(last, b, pos + pl);
        assert(xs.len() - 1 == prev.len());
    }
}

/// A value read under metadata `m` carries `m` and has a consistent shape.
pub proof fn lemma_parsed_value(m: Metadata, b: Seq<u8>, pos: int)
    ensures
        parse_value(m, b, pos) matches Ok((v, _)) ==> metadata_of(v) == m && value_wf(v),
    decreases m, 1int, 0int,
{
    match m {
        Metadata::Primitive(k) => {},
        Metadata::Vector(inner) => {
            if let Ok((n, p)) = parse_le(b, pos, 8) {
                lemma_parsed_elements(m, b, p, n as int);
            }
        },
        Metadata::Record(_, fields) => {
            lemma_parsed_field_values(m, b, pos, fields.len() as int);
        },
    }
}

pub proof fn lemma_parsed_elements(m: Metadata, b: Seq<u8>, pos: int, n: int)
    requires
        m is Vector,
    ensures
        parse_elements(m, b, pos, n) matches Ok((xs, _)) ==> forall|i: int|
            0 <= i < xs.len() ==> metadata_of(#[trigger] xs[i]) == vector_inner(m) && value_wf(
                xs[i],
            ),
    decreases m, 0int, n,
{
    if n > 0 {
        lemma_parsed_elements(m, b, pos, n - 1);
        if let Ok((xs, p)) = parse_elements(m, b, pos, n - 1) {
            let inner = vector_inner(m);
            lemma_parsed_value(inner, b, p);
            if let Ok((x, q)) = parse_value(inner, b, p) {
                let ys = xs.push(x);
                assert forall|i: int| 0 <= i < ys.len() implies metadata_of(#[trigger] ys[i])
                    == inner && value_wf(ys[i]) by {
                    if i < xs.len() {
                        assert(ys[i] == xs[i]);
                    }
                }
            }
        }
    }
}

pub proof fn lemma_parsed_field_values(m: Metadata, b: Seq<u8>, pos: int, k: int)
    requires
        m is Record,
        k <= record_fields(m).len(),
    ensures
        parse_field_values(m, b, pos, k) matches Ok((xs, _)) ==> xs.len() == if k < 0 {
            0
        } else {
            k
        } && forall|i: int|
            0 <= i < xs.len() ==> metadata_of(#[trigger] xs[i]) == record_fields(m)[i].1
                && value_wf(xs[i]),
    decreases m, 0int, k,
{
    if k > 0 {
        lemma_parsed_field_values(m, b, pos, k - 1);
        if let Ok((xs, p)) = parse_field_values(m, b, pos, k - 1) {
            let fm = record_fields(m)[k - 1].1;
            lemma_parsed_value(fm, b, p);
            if let Ok((x, q)) = parse_value(fm, b, p) {
                let ys = xs.push(x);
                assert forall|i: int| 0 <= i < ys.len() implies metadata_of(#[trigger] ys[i])
                    == record_fields(m)[i].1 && value_wf(ys[i]) by {
                    if i < xs.len() {
                        assert(ys[i] == xs[i]);
                    }
                }
            }
        }
    }
}

/// Once reading the first `k` elements fails, reading more fails the same way.
pub proof fn lemma_parse_elements_err(m: Metadata, b: Seq<u8>, pos: int, k: int, n: int)
    requires
        0 <= k <= n,
        parse_elements(m, b, pos, k) is Err,
    ensures
        parse_elements(m, b, pos, n) == parse_elements(m, b, pos, k),
    decreases n - k,
{
    if k < n {
        lemma_parse_elements_err(m, b, pos, k, n - 1);
    }
}

/// Once reading the first `k` field values fails, reading more fails the same way.
pub proof fn lemma_parse_field_values_err(m: Metadata, b: Seq<u8>, pos: int, k: int, n: int)
    requires
        0 <= k <= n,
        parse_field_values(m, b, pos, k) is Err,
    ensures
        parse_field_values(m, b, pos, n) == parse_field_values(m, b, pos, k),
    decreases n - k,
{
    if k < n {
        lemma_parse_field_values_err(m, b, pos, k, n - 1);
    }
}

/// A homogeneous vector of values: every element carries the vector's element metadata.
#[derive(Debug, PartialEq)]
pub struct XbfVec {
    metadata: XbfVecMetadata,
    elements: Vec<XbfType>,
}

/// A struct value: its metadata and one value per field, in declaration order.
#[derive(Debug, PartialEq)]
pub struct XbfStruct {
    metadata: XbfStructMetadata,
    fields: Vec<XbfType>,
}

/// A value of any kind.
#[derive(Debug, PartialEq)]
pub enum XbfType {
    Primitive(XbfPrimitive),
    Vec(XbfVec),
    Struct(XbfStruct),
}

/// What a value is.
pub closed spec fn type_view(t: XbfType) -> Value
    decreases t,
{
    match t {
        XbfType::Primitive(p) => Value::Primitive(p@),
        XbfType::Vec(v) => Value::Vector(vector_inner(v.metadata@), types_view(v.elements@)),
        XbfType::Struct(s) => Value::Record(s.metadata@, types_view(s.fields@)),
    }
}

/// What a list of values is.
pub open spec fn types_view(xs: Seq<XbfType>) -> Seq<Value>
    decreases xs,
{
    if xs.len() == 0 {
        seq![]
    } else {
        types_view(xs.drop_last()).push(type_view(xs.last()))
    }
}

pub proof fn lemma_types_view(xs: Seq<XbfType>)
    ensures
        types_view(xs).len() == xs.len(),
        forall|i: int| 0 <= i < xs.len() ==> #[trigger] types_view(xs)[i] == type_view(xs[i]),
    decreases xs.len(),
{
    if xs.len() > 0 {
        lemma_types_view(xs.drop_last());
    }
}

pub proof fn lemma_types_view_push(xs: Seq<XbfType>, x: XbfType)
    ensures
        types_view(xs.push(x)) == types_view(xs).push(type_view(x)),
{
    assert(xs.push(x).drop_last() =~= xs);
}

impl View for XbfType {
    type V = Value;

    open spec fn view(&self) -> Value {
        type_view(*self)
    }
}

impl View for XbfVec {
    type V = Value;

    open spec fn view(&self) -> Value {
        type_view(XbfType::Vec(*self))
    }
}

impl View for XbfStruct {
    type V = Value;

    open spec fn view(&self) -> Value {
        type_view(XbfType::Struct(*self))
    }
}

impl XbfVec {
    #[verifier::type_invariant]
    spec fn inv(&self) -> bool {
        value_wf(self@)
    }
}

impl XbfStruct {
    #[verifier::type_invariant]
    spec fn inv(&self) -> bool {
        value_wf(self@)
    }
}

/// The elements of a vector value, or the field values of a struct value.
pub open spec fn value_items(v: Value) -> Seq<Value> {
    match v {
        Value::Vector(_, xs) => xs,
        Value::Record(_, xs) => xs,
        _ => seq![],
    }
}

/// Every value that can be built has a consistent shape.
pub fn value_is_wf(t: &XbfType)
    ensures
        value_wf(t@),
{
    match t {
        XbfType::Primitive(p) => {
            proof {
                lemma_primitive_view_wf(p);
            }
        },
        XbfType::Vec(v) => {
            proof {
                use_type_invariant(v);
            }
        },
        XbfType::Struct(s) => {
            proof {
                use_type_invariant(s);
            }
        },
    }
}

/// Building a vector whose elements do not all carry its element metadata.
#[derive(Debug, PartialEq, Eq, Structural)]
pub struct ElementsNotHomogenousError;

/// A value given for a struct field whose metadata differs from the field's.
#[derive(Debug)]
pub struct StructFieldMismatchError {
    pub field_name: String,
    pub expected_field_type: XbfMetadata,
    pub actual_field_type: XbfMetadata,
}

/// Why values do not make a struct of given metadata.
#[derive(Debug)]
pub enum StructError {
    FieldMismatch(StructFieldMismatchError),
    DifferentLengths { metadata_len: usize, fields_len: usize },
}

impl StructError {
    /// A description of the error for people: a field mismatch names the field and the text of
    /// both metadata, a count mismatch names both counts.
    pub fn message(&self) -> (r: String)
        ensures
            *self matches StructError::FieldMismatch(e) ==> r@ == "Provided value for field "@
                + e.field_name@ + " is of type "@ + metadata_text(e.actual_field_type@)
                + ", expected "@ + metadata_text(e.expected_field_type@),
            *self matches StructError::DifferentLengths { metadata_len, fields_len } ==> r@
                == "Provided fields have length: "@ + decimal(fields_len as nat) + ", expected: "@
                + decimal(metadata_len as nat),
    {
        match self {
            StructError::FieldMismatch(e) => {
                let head = "Provided value for field ";
                let mid = " is of type ";
                let tail = ", expected ";
                let ghost actual = metadata_text(e.actual_field_type@);
                let ghost expected = metadata_text(e.expected_field_type@);
                let mut v: Vec<u8> = Vec::new();
                push_str(&mut v, head);
                push_str(&mut v, e.field_name.as_str());
                push_str(&mut v, mid);
                write_metadata_text(&e.actual_field_type, &mut v);
                push_str(&mut v, tail);
                write_metadata_text(&e.expected_field_type, &mut v);
                proof {
                    let f = e.field_name@;
                    lemma_encode_concat(head@, f);
                    lemma_encode_concat(head@ + f, mid@);
                    lemma_encode_concat(head@ + f + mid@, actual);
                    lemma_encode_concat(head@ + f + mid@ + actual, tail@);
                    lemma_encode_concat(head@ + f + mid@ + actual + tail@, expected);
                    assert(v@ =~= encode_utf8(head@ + f + mid@ + actual + tail@ + expected));
                }
                utf8_text(v, Ghost(head@ + e.field_name@ + mid@ + actual + tail@ + expected))
            },
            StructError::DifferentLengths { metadata_len, fields_len } => {
                let head = "Provided fields have length: ";
                let mid = ", expected: ";
                let ghost found = decimal(*fields_len as nat);
                let ghost wanted = decimal(*metadata_len as nat);
                let mut v: Vec<u8> = Vec::new();
                push_str(&mut v, head);
                push_decimal(&mut v, *fields_len as u64);
                push_str(&mut v, mid);
                push_decimal(&mut v, *metadata_len as u64);
                proof {
                    lemma_encode_concat(head@, found);
                    lemma_encode_concat(head@ + found, mid@);
                    lemma_encode_concat(head@ + found + mid@, wanted);
                    assert(v@ =~= encode_utf8(head@ + found + mid@ + wanted));
                }
                utf8_text(v, Ghost(head@ + found + mid@ + wanted))
            },
        }
    }
}

impl XbfType {
    /// The metadata that this value carries.
    pub fn get_metadata(&self) -> (r: XbfMetadata)
        ensures
            r@ == metadata_of(self@),
    {
        match self {
            XbfType::Primitive(p) => p.get_metadata().into_base_metadata(),
            XbfType::Vec(v) => XbfMetadata::Vec(v.get_metadata()),
            XbfType::Struct(s) => XbfMetadata::Struct(s.get_metadata()),
        }
    }

    /// Appends the payload of this value; no metadata is written.
    pub fn serialize_base_type(&self, writer: &mut Vec<u8>)
        ensures
            final(writer)@ == old(writer)@ + value_bytes(self@),
        decreases self,
    {
        match self {
            XbfType::Primitive(p) => p.serialize_primitive_type(writer),
            XbfType::Vec(v) => v.serialize_vec_type(writer),
            XbfType::Struct(s) => s.serialize_struct_type(writer),
        }
    }

    /// Reads the payload of a value described by `metadata`.
    pub fn deserialize_base_type(metadata: &XbfMetadata, reader: &mut XbfReader) -> (r: Result<
        XbfType,
        XbfError,
    >)
        ensures
            final(reader).bytes == old(reader).bytes,
            match parse_value(metadata@, old(reader).bytes@, old(reader).pos as int) {
                Ok((v, p)) => r matches Ok(x) && x@ == v && final(reader).pos == p,
                Err(e) => r == Err::<XbfType, XbfError>(e),
            },
        decreases metadata@, 1int,
    {
        proof {
            lemma_metadata_view(*metadata);
        }
        match metadata {
            XbfMetadata::Primitive(k) => {
                let p = XbfPrimitive::deserialize_primitive_type(k, reader)?;
                Ok(XbfType::Primitive(p))
            },
            XbfMetadata::Vec(vm) => {
                let v = XbfVec::deserialize_vec_type(vm, reader)?;
                Ok(XbfType::Vec(v))
            },
            XbfMetadata::Struct(sm) => {
                let s = XbfStruct::deserialize_struct_type(sm, reader)?;
                Ok(XbfType::Struct(s))
            },
        }
    }
}

/// Whether every element carries the metadata `inner`.
fn all_carry(elements: &Vec<XbfType>, inner: &XbfMetadata) -> (r: bool)
    ensures
        r == forall|i: int| 0 <= i < elements@.len() ==> metadata_of(#[trigger] elements@[i]@) == inner@,
{
    let mut i: usize = 0;
    while i < elements.len()
        invariant
            i <= elements@.len(),
            forall|k: int| 0 <= k < i ==> metadata_of(#[trigger] elements@[k]@) == inner@,
        decreases elements@.len() - i,
    {
        let m = elements[i].get_metadata();
        if !metadata_eq(&m, inner) {
            return false;
        }
        i += 1;
    }
    true
}

impl XbfVec {
    /// A vector with element metadata `metadata` holding `elements`; fails unless every element
    /// carries that metadata.
    pub fn new(metadata: XbfVecMetadata, elements: Vec<XbfType>) -> (r: Result<
        XbfVec,
        ElementsNotHomogenousError,
    >)
        ensures
            r is Ok <==> forall|i: int|
                0 <= i < elements@.len() ==> metadata_of(#[trigger] elements@[i]@) == vector_inner(
                    metadata@,
                ),
            r matches Ok(v) ==> v@ == Value::Vector(vector_inner(metadata@), types_view(elements@)),
    {
        if all_carry(&elements, metadata.inner_type()) {
            Ok(XbfVec::new_unchecked(metadata, elements))
        } else {
            Err(ElementsNotHomogenousError)
        }
    }

    /// A vector of elements already known to carry the element metadata.
    pub fn new_unchecked(metadata: XbfVecMetadata, elements: Vec<XbfType>) -> (r: XbfVec)
        requires
            forall|i: int|
                0 <= i < elements@.len() ==> metadata_of(#[trigger] elements@[i]@) == vector_inner(
                    metadata@,
                ),
        ensures
            r@ == Value::Vector(vector_inner(metadata@), types_view(elements@)),
    {
        let mut i: usize = 0;
        while i < elements.len()
            invariant
                i <= elements@.len(),
                forall|k: int| 0 <= k < i ==> value_wf(#[trigger] elements@[k]@),
            decreases elements@.len() - i,
        {
            value_is_wf(&elements[i]);
            i += 1;
        }
        proof {
            lemma_types_view(elements@);
            let xs = types_view(elements@);
            assert forall|k: int| 0 <= k < xs.len() implies metadata_of(#[trigger] xs[k])
                == vector_inner(metadata@) && value_wf(xs[k]) by {
                assert(xs[k] == elements@[k]@);
            }
        }
        XbfVec { metadata, elements }
    }

    /// The metadata of this vector.
    pub fn get_metadata(&self) -> (r: XbfVecMetadata)
        ensures
            r@ == metadata_of(self@),
    {
        proof {
            lemma_metadata_kinds(self.metadata, arbitrary());
        }
        self.metadata.clone()
    }

    /// The number of elements.
    pub fn len(&self) -> (r: usize)
        ensures
            r == value_items(self@).len(),
    {
        proof {
            lemma_types_view(self.elements@);
        }
        self.elements.len()
    }

    /// The element at position `i`, if there is one.
    pub fn get(&self, i: usize) -> (r: Option<&XbfType>)
        ensures
            match r {
                Some(x) => i < value_items(self@).len() && x@ == value_items(self@)[i as int],
                None => i >= value_items(self@).len(),
            },
    {
        proof {
            lemma_types_view(self.elements@);
        }
        if i < self.elements.len() {
            Some(&self.elements[i])
        } else {
            None
        }
    }

    /// Appends the element count as a `u64` and then each element's payload in order.
    pub fn serialize_vec_type(&self, writer: &mut Vec<u8>)
        ensures
            final(writer)@ == old(writer)@ + value_bytes(self@),
        decreases self,
    {
        proof {
            lemma_types_view(self.elements@);
        }
        let elements = &self.elements;
        push_u64(writer, elements.len() as u64);
        let ghost start = writer@;
        let mut i: usize = 0;
        while i < elements.len()
            invariant
                i <= elements@.len(),
                elements == &self.elements,
                writer@ == start + values_bytes(types_view(elements@.take(i as int))),
            decreases elements@.len() - i,
        {
            proof {
                assert(decreases_to!(self.elements => self.elements[i as int]));
            }
            elements[i].serialize_base_type(writer);
            proof {
                assert(elements@.take(i + 1) =~= elements@.take(i as int).push(elements@[i as int]));
                lemma_types_view_push(elements@.take(i as int), elements@[i as int]);
                lemma_values_bytes_push(types_view(elements@.take(i as int)), elements@[i as int]@);
            }
            i += 1;
        }
        proof {
            assert(elements@.take(i as int) =~= elements@);
        }
        assert(writer@ =~= old(writer)@ + value_bytes(self@));
    }

    /// Reads a `u64` element count and then that many elements described by the element
    /// metadata of `metadata`.
    pub fn deserialize_vec_type(metadata: &XbfVecMetadata, reader: &mut XbfReader) -> (r: Result<
        XbfVec,
        XbfError,
    >)
        ensures
            final(reader).bytes == old(reader).bytes,
            match parse_value(metadata@, old(reader).bytes@, old(reader).pos as int) {
                Ok((v, p)) => r matches Ok(x) && x@ == v && final(reader).pos == p,
                Err(e) => r == Err::<XbfVec, XbfError>(e),
            },
        decreases metadata@, 0int,
    {
        let ghost b = reader.bytes@;
        let ghost b0 = reader.bytes;
        let inner = metadata.inner_type();
        let n = read_u64(reader)?;
        let ghost p = reader.pos as int;
        let mut elements: Vec<XbfType> = Vec::new();
        let mut i: u64 = 0;
        proof {
            assert(types_view(elements@) =~= Seq::<Value>::empty());
        }
        while i < n
            invariant
                reader.bytes == b0,
                b0 == old(reader).bytes,
                b == b0@,
                metadata@ == Metadata::Vector(Box::new(inner@)),
                parse_value(metadata@, b, old(reader).pos as int) == match parse_elements(
                    metadata@,
                    b,
                    p,
                    n as int,
                ) {
                    Ok((xs, q)) => Ok((Value::Vector(inner@, xs), q)),
                    Err(e) => Err(e),
                },
                i <= n,
                elements@.len() == i,
                parse_elements(metadata@, b, p, i as int) == Ok::<(Seq<Value>, int), XbfError>(
                    (types_view(elements@), reader.pos as int),
                ),
                forall|k: int|
                    0 <= k < elements@.len() ==> metadata_of(#[trigger] elements@[k]@) == inner@,
            decreases n - i,
        {
            let ghost q = reader.pos as int;
            let x = match XbfType::deserialize_base_type(inner, reader) {
                Ok(x) => x,
                Err(e) => {
                    proof {
                        lemma_parse_elements_err(metadata@, b, p, i + 1, n as int);
                    }
                    return Err(e);
                },
            };
            proof {
                lemma_parsed_value(inner@, b, q);
            }
            let ghost old_elements = elements@;
            elements.push(x);
            proof {
                assert(elements@ =~= old_elements.push(x));
                lemma_types_view_push(old_elements, x);
                assert forall|k: int|
                    0 <= k < elements@.len() implies metadata_of(#[trigger] elements@[k]@)
                    == inner@ by {
                    if k < old_elements.len() {
                        assert(elements@[k] == old_elements[k]);
                    }
                }
            }
            i += 1;
        }
        let r = XbfVec::new_unchecked(metadata.clone(), elements);
        Ok(r)
    }
}

/// Each value carries the metadata of the struct field at its position.
pub open spec fn fields_match(m: Metadata, xs: Seq<Value>) -> bool {
    &&& xs.len() == record_fields(m).len()
    &&& forall|i: int| 0 <= i < xs.len() ==> metadata_of(#[trigger] xs[i]) == record_fields(m)[i].1
}

/// Replaces the element at `i`, handing back the one that stood there.
fn replace_at(v: &mut Vec<XbfType>, i: usize, mut x: XbfType) -> (r: XbfType)
    requires
        i < old(v)@.len(),
    ensures
        r == old(v)@[i as int],
        final(v)@ == old(v)@.update(i as int, x),
        types_view(final(v)@) == types_view(old(v)@).update(i as int, x@),
    no_unwind
{
    let ghost incoming = x;
    std::mem::swap(&mut v[i], &mut x);
    proof {
        assert(v@ =~= old(v)@.update(i as int, incoming));
        lemma_types_view(v@);
        lemma_types_view(old(v)@);
        assert(types_view(v@) =~= types_view(old(v)@).update(i as int, incoming@));
    }
    x
}

impl XbfStruct {
    /// A struct of metadata `metadata` holding `fields` in declaration order. Fails when the
    /// number of values differs from the number of fields, or else at the first value whose
    /// metadata differs from its field's.
    pub fn new(metadata: XbfStructMetadata, fields: Vec<XbfType>) -> (r: Result<
        XbfStruct,
        StructError,
    >)
        ensures
            r is Ok <==> fields_match(metadata@, types_view(fields@)),
            r matches Ok(s) ==> s@ == Value::Record(metadata@, types_view(fields@)),
            r matches Err(StructError::DifferentLengths { .. }) <==> fields@.len() != record_fields(
                metadata@,
            ).len(),
            r matches Err(StructError::DifferentLengths { metadata_len, fields_len })
                ==> metadata_len == record_fields(metadata@).len() && fields_len == fields@.len(),
            r matches Err(StructError::FieldMismatch(e)) ==> exists|i: int|
                0 <= i < fields@.len() && e.field_name@ == record_fields(metadata@)[i].0
                    && e.expected_field_type@ == record_fields(metadata@)[i].1
                    && e.actual_field_type@ == metadata_of(fields@[i]@)
                    && e.expected_field_type@ != e.actual_field_type@ && forall|k: int|
                    0 <= k < i ==> metadata_of(#[trigger] fields@[k]@) == record_fields(
                        metadata@,
                    )[k].1,
    {
        proof {
            lemma_types_view(fields@);
        }
        let n = metadata.field_count();
        if fields.len() != n {
            return Err(StructError::DifferentLengths { metadata_len: n, fields_len: fields.len() });
        }
        let mut i: usize = 0;
        while i < n
            invariant
                i <= n,
                n == fields@.len(),
                n == record_fields(metadata@).len(),
                types_view(fields@).len() == fields@.len(),
                forall|k: int| 0 <= k < fields@.len() ==> #[trigger] types_view(fields@)[k] == fields@[k]@,
                forall|k: int|
                    0 <= k < i ==> metadata_of(#[trigger] fields@[k]@) == record_fields(
                        metadata@,
                    )[k].1,
            decreases n - i,
        {
            let expected = metadata.field_type(i);
            let actual = fields[i].get_metadata();
            if !metadata_eq(expected, &actual) {
                let e = StructFieldMismatchError {
                    field_name: metadata.field_name(i).clone(),
                    expected_field_type: expected.clone(),
                    actual_field_type: actual,
                };
                proof {
                    assert(metadata_of(types_view(fields@)[i as int]) != record_fields(
                        metadata@,
                    )[i as int].1);
                }
                return Err(StructError::FieldMismatch(e));
            }
            i += 1;
        }
        Ok(XbfStruct::new_unchecked(metadata, fields))
    }

    /// A struct of values already known to carry the metadata of their fields.
    pub fn new_unchecked(metadata: XbfStructMetadata, fields: Vec<XbfType>) -> (r: XbfStruct)
        requires
            fields_match(metadata@, types_view(fields@)),
        ensures
            r@ == Value::Record(metadata@, types_view(fields@)),
    {
        let mut i: usize = 0;
        while i < fields.len()
            invariant
                i <= fields@.len(),
                forall|k: int| 0 <= k < i ==> value_wf(#[trigger] fields@[k]@),
            decreases fields@.len() - i,
        {
            value_is_wf(&fields[i]);
            i += 1;
        }
        proof {
            lemma_types_view(fields@);
            lemma_metadata_kinds(arbitrary(), metadata);
            let xs = types_view(fields@);
            assert forall|k: int| 0 <= k < xs.len() implies metadata_of(#[trigger] xs[k])
                == record_fields(metadata@)[k].1 && value_wf(xs[k]) by {
                assert(xs[k] == fields@[k]@);
            }
        }
        XbfStruct { metadata, fields }
    }

    /// The metadata of this struct.
    pub fn get_metadata(&self) -> (r: XbfStructMetadata)
        ensures
            r@ == metadata_of(self@),
    {
        self.metadata.clone()
    }

    /// The value of the field called `field_name`, if there is one.
    pub fn get(&self, field_name: &str) -> (r: Option<&XbfType>)
        ensures
            match r {
                Some(x) => exists|i: int|
                    0 <= i < record_fields(metadata_of(self@)).len() && record_fields(
                        metadata_of(self@),
                    )[i].0 == field_name@ && x@ == value_items(self@)[i],
                None => !has_field(record_fields(metadata_of(self@)), field_name@),
            },
    {
        proof {
            use_type_invariant(self);
            lemma_types_view(self.fields@);
        }
        match self.metadata.index_of(field_name) {
            Some(i) => {
                let x = &self.fields[i];
                assert(record_fields(metadata_of(self@))[i as int].0 == field_name@ && x@
                    == value_items(self@)[i as int]);
                Some(x)
            },
            None => None,
        }
    }

    /// Replaces the value of the field called `field_name` by `field_data` and hands back the
    /// value it held, when there is such a field and `field_data` carries its metadata; otherwise
    /// changes nothing and returns `None`.
    pub fn set(&mut self, field_name: &str, field_data: XbfType) -> (r: Option<XbfType>)
        ensures
            match r {
                Some(prev) => exists|i: int|
                    0 <= i < record_fields(metadata_of(old(self)@)).len() && record_fields(
                        metadata_of(old(self)@),
                    )[i].0 == field_name@ && metadata_of(field_data@) == record_fields(
                        metadata_of(old(self)@),
                    )[i].1 && prev@ == value_items(old(self)@)[i] && final(self)@
                        == Value::Record(
                        metadata_of(old(self)@),
                        value_items(old(self)@).update(i, field_data@),
                    ),
                None => final(self)@ == old(self)@ && forall|i: int|
                    0 <= i < record_fields(metadata_of(old(self)@)).len() && record_fields(
                        metadata_of(old(self)@),
                    )[i].0 == field_name@ ==> metadata_of(field_data@) != record_fields(
                        metadata_of(old(self)@),
                    )[i].1,
            },
    {
        proof {
            use_type_invariant(&*self);
            lemma_types_view(self.fields@);
        }
        struct_metadata_is_wf(&self.metadata);
        match self.metadata.index_of(field_name) {
            Some(i) => {
                let current = self.metadata.field_type(i);
                let incoming = field_data.get_metadata();
                if !metadata_eq(current, &incoming) {
                    proof {
                        let fs = record_fields(self.metadata@);
                        assert forall|k: int|
                            0 <= k < fs.len() && fs[k].0 == field_name@ implies metadata_of(
                                field_data@,
                            ) != fs[k].1 by {
                            if k != i {
                                assert(fs[k].0 == fs[i as int].0);
                            }
                        }
                    }
                    return None;
                }
                value_is_wf(&field_data);
                let ghost data = field_data;
                let prev = replace_at(&mut self.fields, i, field_data);
                proof {
                    lemma_types_view(old(self).fields@);
                    let fs = record_fields(metadata_of(old(self)@));
                    assert(fs[i as int].0 == field_name@ && metadata_of(data@) == fs[i as int].1
                        && prev@ == value_items(old(self)@)[i as int]);
                }
                Some(prev)
            },
            None => None,
        }
    }

    /// Appends the payload of each field in declaration order, with nothing between them.
    pub fn serialize_struct_type(&self, writer: &mut Vec<u8>)
        ensures
            final(writer)@ == old(writer)@ + value_bytes(self@),
        decreases self,
    {
        let fields = &self.fields;
        let ghost start = writer@;
        let mut i: usize = 0;
        proof {
            assert(types_view(fields@.take(0)) =~= Seq::<Value>::empty());
            assert(writer@ =~= start + values_bytes(types_view(fields@.take(0))));
        }
        while i < fields.len()
            invariant
                i <= fields@.len(),
                fields == &self.fields,
                writer@ == start + values_bytes(types_view(fields@.take(i as int))),
            decreases fields@.len() - i,
        {
            proof {
                assert(decreases_to!(self.fields => self.fields[i as int]));
            }
            fields[i].serialize_base_type(writer);
            proof {
                assert(fields@.take(i + 1) =~= fields@.take(i as int).push(fields@[i as int]));
                lemma_types_view_push(fields@.take(i as int), fields@[i as int]);
                lemma_values_bytes_push(types_view(fields@.take(i as int)), fields@[i as int]@);
            }
            i += 1;
        }
        proof {
            assert(fields@.take(i as int) =~= fields@);
        }
        assert(writer@ =~= old(writer)@ + value_bytes(self@));
    }

    /// Reads, for each field of `metadata` in declaration order, a value described by the
    /// field's metadata.
    pub fn deserialize_struct_type(metadata: &XbfStructMetadata, reader: &mut XbfReader) -> (r:
        Result<XbfStruct, XbfError>)
        ensures
            final(reader).bytes == old(reader).bytes,
            match parse_value(metadata@, old(reader).bytes@, old(reader).pos as int) {
                Ok((v, p)) => r matches Ok(x) && x@ == v && final(reader).pos == p,
                Err(e) => r == Err::<XbfStruct, XbfError>(e),
            },
        decreases metadata@, 0int,
    {
        proof {
            lemma_metadata_kinds(arbitrary(), *metadata);
        }
        let ghost b = reader.bytes@;
        let ghost b0 = reader.bytes;
        let ghost p = reader.pos as int;
        let n = metadata.field_count();
        let mut fields: Vec<XbfType> = Vec::new();
        let mut i: usize = 0;
        proof {
            assert(types_view(fields@) =~= Seq::<Value>::empty());
        }
        while i < n
            invariant
                reader.bytes == b0,
                b0 == old(reader).bytes,
                b == b0@,
                p == old(reader).pos,
                metadata@ is Record,
                n == record_fields(metadata@).len(),
                i <= n,
                fields@.len() == i,
                parse_field_values(metadata@, b, p, i as int) == Ok::<
                    (Seq<Value>, int),
                    XbfError,
                >((types_view(fields@), reader.pos as int)),
                forall|k: int|
                    0 <= k < fields@.len() ==> metadata_of(#[trigger] fields@[k]@) == record_fields(
                        metadata@,
                    )[k].1,
            decreases n - i,
        {
            let ghost q = reader.pos as int;
            let ft = metadata.field_type(i);
            let x = match XbfType::deserialize_base_type(ft, reader) {
                Ok(x) => x,
                Err(e) => {
                    proof {
                        lemma_parse_field_values_err(metadata@, b, p, i + 1, n as int);
                    }
                    return Err(e);
                },
            };
            proof {
                lemma_parsed_value(ft@, b, q);
            }
            let ghost old_fields = fields@;
            fields.push(x);
            proof {
                assert(fields@ =~= old_fields.push(x));
                lemma_types_view_push(old_fields, x);
                assert forall|k: int|
                    0 <= k < fields@.len() implies metadata_of(#[trigger] fields@[k]@)
                    == record_fields(metadata@)[k].1 by {
                    if k < old_fields.len() {
                        assert(fields@[k] == old_fields[k]);
                    }
                }
            }
            i += 1;
        }
        proof {
            lemma_types_view(fields@);
            assert forall|k: int| 0 <= k < types_view(fields@).len() implies metadata_of(
                #[trigger] types_view(fields@)[k],
            ) == record_fields(metadata@)[k].1 by {
                assert(types_view(fields@)[k] == fields@[k]@);
            }
        }
        let r = XbfStruct::new_unchecked(metadata.clone(), fields);
        Ok(r)
    }
}

/// A copy of a list of values.
fn clone_values(xs: &Vec<XbfType>) -> (r: Vec<XbfType>)
    ensures
        types_view(r@) == types_view(xs@),
    decreases xs,
{
    let mut out: Vec<XbfType> = Vec::new();
    let mut i: usize = 0;
    while i < xs.len()
        invariant
            i <= xs@.len(),
            out@.len() == i,
            forall|k: int| 0 <= k < i ==> #[trigger] out@[k]@ == xs@[k]@,
        decreases xs@.len() - i,
    {
        proof {
            assert(decreases_to!(*xs => xs[i as int]));
        }
        let x = clone_value(&xs[i]);
        out.push(x);
        i += 1;
    }
    proof {
        lemma_types_view(out@);
        lemma_types_view(xs@);
        assert forall|k: int| 0 <= k < out@.len() implies #[trigger] types_view(out@)[k]
            == types_view(xs@)[k] by {
            assert(out@[k]@ == xs@[k]@);
        }
        assert(types_view(out@) =~= types_view(xs@));
    }
    out
}

/// A copy of a value.
fn clone_value(t: &XbfType) -> (r: XbfType)
    ensures
        r@ == t@,
    decreases t,
{
    match t {
        XbfType::Primitive(p) => XbfType::Primitive(clone_primitive(p)),
        XbfType::Vec(v) => {
            proof {
                use_type_invariant(v);
                assert(decreases_to!(*t => v.elements));
            }
            let elements = clone_values(&v.elements);
            XbfType::Vec(XbfVec { metadata: v.metadata.clone(), elements })
        },
        XbfType::Struct(s) => {
            proof {
                use_type_invariant(s);
                assert(decreases_to!(*t => s.fields));
            }
            let fields = clone_values(&s.fields);
            XbfType::Struct(XbfStruct { metadata: s.metadata.clone(), fields })
        },
    }
}

/// A copy of a primitive value.
fn clone_primitive(p: &XbfPrimitive) -> (r: XbfPrimitive)
    ensures
        r@ == p@,
{
    match p {
        XbfPrimitive::Bool(x) => XbfPrimitive::Bool(*x),
        XbfPrimitive::U8(x) => XbfPrimitive::U8(*x),
        XbfPrimitive::U16(x) => XbfPrimitive::U16(*x),
        XbfPrimitive::U32(x) => XbfPrimitive::U32(*x),
        XbfPrimitive::U64(x) => XbfPrimitive::U64(*x),
        XbfPrimitive::U128(x) => XbfPrimitive::U128(*x),
        XbfPrimitive::U256(x) => XbfPrimitive::U256(*x),
        XbfPrimitive::I8(x) => XbfPrimitive::I8(*x),
        XbfPrimitive::I16(x) => XbfPrimitive::I16(*x),
        XbfPrimitive::I32(x) => XbfPrimitive::I32(*x),
        XbfPrimitive::I64(x) => XbfPrimitive::I64(*x),
        XbfPrimitive::I128(x) => XbfPrimitive::I128(*x),
        XbfPrimitive::I256(x) => XbfPrimitive::I256(*x),
        XbfPrimitive::F32(x) => XbfPrimitive::F32(*x),
        XbfPrimitive::F64(x) => XbfPrimitive::F64(*x),
        XbfPrimitive::Bytes(x) => {
            let mut out: Vec<u8> = Vec::new();
            let mut i: usize = 0;
            while i < x.len()
                invariant
                    i <= x@.len(),
                    out@ == x@.subrange(0, i as int),
                decreases x@.len() - i,
            {
                out.push(x[i]);
                i += 1;
                assert(out@ =~= x@.subrange(0, i as int));
            }
            assert(out@ =~= x@);
            XbfPrimitive::Bytes(out)
        },
        XbfPrimitive::String(x) => XbfPrimitive::String(x.clone()),
    }
}

impl Clone for XbfType {
    /// A copy of this value; the metadata inside is shared.
    fn clone(&self) -> (r: Self)
        ensures
            r@ == self@,
    {
        clone_value(self)
    }
}

impl Clone for XbfVec {
    /// A copy of this vector; the metadata inside is shared.
    fn clone(&self) -> (r: Self)
        ensures
            r@ == self@,
    {
        proof {
            use_type_invariant(self);
        }
        XbfVec { metadata: self.metadata.clone(), elements: clone_values(&self.elements) }
    }
}

impl Clone for XbfStruct {
    /// A copy of this struct; the metadata inside is shared.
    fn clone(&self) -> (r: Self)
        ensures
            r@ == self@,
    {
        proof {
            use_type_invariant(self);
        }
        XbfStruct { metadata: self.metadata.clone(), fields: clone_values(&self.fields) }
    }
}

/// Marks the types that convert into [`XbfType`].
pub trait XbfTypeSealed {}

impl XbfTypeSealed for XbfPrimitive {}

impl XbfTypeSealed for XbfVec {}

impl XbfTypeSealed for XbfStruct {}

/// Conversion of each kind of value into a value of any kind.
pub trait XbfTypeUpcast: XbfTypeSealed + Sized {
    /// What the converted value is.
    spec fn upcast_view(&self) -> Value;

    fn into_base_type(self) -> (r: XbfType)
        ensures
            r@ == self.upcast_view(),
    ;

    fn to_base_type(&self) -> (r: XbfType)
        ensures
            r@ == self.upcast_view(),
    ;
}

impl XbfTypeUpcast for XbfPrimitive {
    open spec fn upcast_view(&self) -> Value {
        Value::Primitive(self@)
    }

    fn into_base_type(self) -> (r: XbfType) {
        XbfType::Primitive(self)
    }

    fn to_base_type(&self) -> (r: XbfType) {
        XbfType::Primitive(clone_primitive(self))
    }
}

impl XbfTypeUpcast for XbfVec {
    open spec fn upcast_view(&self) -> Value {
        self@
    }

    fn into_base_type(self) -> (r: XbfType) {
        XbfType::Vec(self)
    }

    fn to_base_type(&self) -> (r: XbfType) {
        XbfType::Vec(self.clone())
    }
}

impl XbfTypeUpcast for XbfStruct {
    open spec fn upcast_view(&self) -> Value {
        self@
    }

    fn into_base_type(self) -> (r: XbfType) {
        XbfType::Struct(self)
    }

    fn to_base_type(&self) -> (r: XbfType) {
        XbfType::Struct(self.clone())
    }
}

/// The payload of every primitive that exists in memory fits the `u64` length prefix.
pub fn primitive_fits_prefix(p: &XbfPrimitive)
    ensures
        primitive_fits(p@),
{
    proof {
        lemma_byte_ranges();
    }
    match p {
        XbfPrimitive::Bytes(v) => {
            let n = v.len();
        },
        XbfPrimitive::String(s) => {
            let n = s.as_str().as_bytes().len();
        },
        _ => {},
    }
}

/// Every value that exists in memory has lengths that fit the `u64` prefixes, so the round-trip
/// laws apply to it.
pub fn value_fits_prefixes(t: &XbfType)
    ensures
        value_fits(t@),
    decreases t,
{
    match t {
        XbfType::Primitive(p) => primitive_fits_prefix(p),
        XbfType::Vec(v) => {
            proof {
                assert(decreases_to!(*t => v.elements));
            }
            values_fit_prefixes(&v.elements);
        },
        XbfType::Struct(s) => {
            proof {
                assert(decreases_to!(*t => s.fields));
            }
            values_fit_prefixes(&s.fields);
        },
    }
}

/// Every list of values that exists in memory is shorter than the `u64` prefix allows, and each
/// of its values fits.
fn values_fit_prefixes(xs: &Vec<XbfType>)
    ensures
        types_view(xs@).len() < byte_range(8),
        forall|i: int| 0 <= i < types_view(xs@).len() ==> value_fits(#[trigger] types_view(xs@)[i]),
    decreases xs,
{
    proof {
        lemma_byte_ranges();
        lemma_types_view(xs@);
    }
    let n = xs.len();
    let mut i: usize = 0;
    while i < n
        invariant
            i <= n,
            n == xs@.len(),
            forall|k: int| 0 <= k < i ==> value_fits(#[trigger] xs@[k]@),
        decreases n - i,
    {
        proof {
            assert(decreases_to!(*xs => xs[i as int]));
        }
        value_fits_prefixes(&xs[i]);
        i += 1;
    }
    proof {
        lemma_types_view(xs@);
        assert forall|k: int| 0 <= k < types_view(xs@).len() implies value_fits(
            #[trigger] types_view(xs@)[k],
        ) by {
            assert(types_view(xs@)[k] == xs@[k]@);
        }
    }
}

} // verus!
