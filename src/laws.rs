//! Properties that tie the codecs together.
use crate::legacy::{
    lemma_xdl_metadata_round_trip, xdl_metadata_bytes, xdl_metadata_wf, xdl_parse_metadata,
};
use crate::metadata::{
    lemma_metadata_round_trip, metadata_bytes, metadata_wf, parse_metadata, record_fields, Metadata,
};
use crate::value::{
    lemma_parsed_value, lemma_value_round_trip, metadata_of, parse_value, value_bytes, value_fits,
    value_wf, Value,
};
use crate::wire::XbfError;
use vstd::prelude::*;

verus! {

/// Metadata round trip: reading the bytes of metadata gives the same metadata back.
pub proof fn metadata_round_trip(m: Metadata)
    requires
        metadata_wf(m),
    ensures
        parse_metadata(metadata_bytes(m), 0) == Ok::<(Metadata, int), XbfError>(
            (m, metadata_bytes(m).len() as int),
        ),
{
    let b = metadata_bytes(m);
    assert(b.subrange(0, b.len() as int) =~= b);
    lemma_metadata_round_trip(m, b, 0);
}

/// Value round trip: reading the payload of a value under the value's own metadata gives the
/// same value back. Every value in memory meets both conditions: see `value_is_wf` and
/// `value_fits_prefixes`.
pub proof fn value_round_trip(v: Value)
    requires
        value_wf(v),
        value_fits(v),
    ensures
        parse_value(metadata_of(v), value_bytes(v), 0) == Ok::<(Value, int), XbfError>(
            (v, value_bytes(v).len() as int),
        ),
{
    let b = value_bytes(v);
    assert(b.subrange(0, b.len() as int) =~= b);
    lemma_value_round_trip(v, b, 0);
}

/// End-to-end round trip: from the metadata of a value followed by its payload, reading the
/// metadata and then a value under it gives the value back, and consumes every byte.
pub proof fn end_to_end_round_trip(v: Value)
    requires
        value_wf(v),
        value_fits(v),
        metadata_wf(metadata_of(v)),
    ensures
        ({
            let b = metadata_bytes(metadata_of(v)) + value_bytes(v);
            let n = metadata_bytes(metadata_of(v)).len() as int;
            &&& parse_metadata(b, 0) == Ok::<(Metadata, int), XbfError>((metadata_of(v), n))
            &&& parse_value(metadata_of(v), b, n) == Ok::<(Value, int), XbfError>(
                (v, b.len() as int),
            )
        }),
{
    let mb = metadata_bytes(metadata_of(v));
    let vb = value_bytes(v);
    let b = mb + vb;
    assert(b.subrange(0, mb.len() as int) =~= mb);
    lemma_metadata_round_trip(metadata_of(v), b, 0);
    assert(b.subrange(mb.len() as int, b.len() as int) =~= vb);
    lemma_value_round_trip(v, b, mb.len() as int);
}

/// Determinism: the bytes of metadata and of a value depend on what they describe alone, so
/// equal inputs give identical outputs.
pub proof fn serialization_deterministic(m1: Metadata, m2: Metadata, v1: Value, v2: Value)
    requires
        m1 == m2,
        v1 == v2,
    ensures
        metadata_bytes(m1) == metadata_bytes(m2),
        value_bytes(v1) == value_bytes(v2),
{
}

/// Metadata projection: a value read under metadata `m` carries `m`.
pub proof fn parsed_value_carries_metadata(m: Metadata, b: Seq<u8>, pos: int)
    ensures
        parse_value(m, b, pos) matches Ok((v, _)) ==> metadata_of(v) == m && value_wf(v),
{
    lemma_parsed_value(m, b, pos);
}

/// Setting a struct field keeps its type: once the value at position `i` of a struct's fields
/// is replaced by one that carries the field's metadata, the struct still has a consistent
/// shape, and the field's value carries the new value's metadata, which is the field's.
pub proof fn set_preserves_type(m: Metadata, xs: Seq<Value>, i: int, new: Value)
    requires
        value_wf(Value::Record(m, xs)),
        0 <= i < xs.len(),
        value_wf(new),
        metadata_of(new) == record_fields(m)[i].1,
    ensures
        value_wf(Value::Record(m, xs.update(i, new))),
        metadata_of(xs.update(i, new)[i]) == metadata_of(new),
        metadata_of(xs.update(i, new)[i]) == metadata_of(xs[i]),
{
}

/// An unknown discriminant: a first byte of 19 or more is refused as metadata, and the error
/// names that byte.
pub proof fn unknown_discriminant(b: Seq<u8>)
    requires
        b.len() >= 1,
        b[0] >= 19,
    ensures
        parse_metadata(b, 0) == Err::<(Metadata, int), XbfError>(
            XbfError::InvalidDiscriminant(b[0]),
        ),
{
}

/// Metadata round trip in XDL: reading the XDL bytes of metadata gives the same metadata back.
pub proof fn xdl_metadata_round_trip(m: Metadata)
    requires
        xdl_metadata_wf(m),
    ensures
        xdl_parse_metadata(xdl_metadata_bytes(m), 0) == Ok::<(Metadata, int), XbfError>(
            (m, xdl_metadata_bytes(m).len() as int),
        ),
{
    let b = xdl_metadata_bytes(m);
    assert(b.subrange(0, b.len() as int) =~= b);
    lemma_xdl_metadata_round_trip(m, b, 0);
}

} // verus!
