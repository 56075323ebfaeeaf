//! The earlier XDL interface to the same format. It has no byte-string primitive; every other
//! discriminant keeps its number (string 16, vector metadata 17, struct metadata 18), and names,
//! strings and vectors carry a `u64` length, as in the rest of the format.
use crate::metadata::{has_field, names_unique, Metadata};
use crate::primitive::{parse_primitive, primitive_bytes, PrimitiveValue, XbfPrimitiveMetadata};
use crate::value::{ElementsNotHomogenousError, Value};
use crate::wire::{
    byte_range, le_bytes, lemma_byte_ranges, lemma_le_bytes_len, lemma_le_value_of_bytes,
    lemma_parse_lp_string, lp_string, parse_le, parse_lp_string, push_u16, push_u64, read_string,
    read_u16, read_u64, read_u8, write_string, XbfError, XbfReader,
};
use vstd::prelude::*;
use vstd::utf8::{decode_utf8, encode_utf8, valid_utf8};

verus! {

/// The kinds of XDL primitives, in the order of their discriminants.
#[derive(PartialEq, Eq, Debug, Copy, Clone, Structural)]
pub enum XdlPrimitiveId {
    Bool,
    U8,
    U16,
    U32,
    U64,
    U128,
    U256,
    I8,
    I16,
    I32,
    I64,
    I128,
    I256,
    F32,
    F64,
    String,
}

/// The discriminant byte of each XDL primitive kind.
pub open spec fn xdl_discriminant(id: XdlPrimitiveId) -> u8 {
    match id {
        XdlPrimitiveId::Bool => 0,
        XdlPrimitiveId::U8 => 1,
        XdlPrimitiveId::U16 => 2,
        XdlPrimitiveId::U32 => 3,
        XdlPrimitiveId::U64 => 4,
        XdlPrimitiveId::U128 => 5,
        XdlPrimitiveId::U256 => 6,
        XdlPrimitiveId::I8 => 7,
        XdlPrimitiveId::I16 => 8,
        XdlPrimitiveId::I32 => 9,
        XdlPrimitiveId::I64 => 10,
        XdlPrimitiveId::I128 => 11,
        XdlPrimitiveId::I256 => 12,
        XdlPrimitiveId::F32 => 13,
        XdlPrimitiveId::F64 => 14,
        XdlPrimitiveId::String => 16,
    }
}

/// The kind of the type system that an XDL primitive kind stands for.
pub open spec fn xdl_kind(id: XdlPrimitiveId) -> XbfPrimitiveMetadata {
    match id {
        XdlPrimitiveId::Bool => XbfPrimitiveMetadata::Bool,
        XdlPrimitiveId::U8 => XbfPrimitiveMetadata::U8,
        XdlPrimitiveId::U16 => XbfPrimitiveMetadata::U16,
        XdlPrimitiveId::U32 => XbfPrimitiveMetadata::U32,
        XdlPrimitiveId::U64 => XbfPrimitiveMetadata::U64,
        XdlPrimitiveId::U128 => XbfPrimitiveMetadata::U128,
        XdlPrimitiveId::U256 => XbfPrimitiveMetadata::U256,
        XdlPrimitiveId::I8 => XbfPrimitiveMetadata::I8,
        XdlPrimitiveId::I16 => XbfPrimitiveMetadata::I16,
        XdlPrimitiveId::I32 => XbfPrimitiveMetadata::I32,
        XdlPrimitiveId::I64 => XbfPrimitiveMetadata::I64,
        XdlPrimitiveId::I128 => XbfPrimitiveMetadata::I128,
        XdlPrimitiveId::I256 => XbfPrimitiveMetadata::I256,
        XdlPrimitiveId::F32 => XbfPrimitiveMetadata::F32,
        XdlPrimitiveId::F64 => XbfPrimitiveMetadata::F64,
        XdlPrimitiveId::String => XbfPrimitiveMetadata::String,
    }
}

/// The XDL primitive kind that a discriminant byte names, if any.
pub open spec fn xdl_id_of(d: u8) -> Option<XdlPrimitiveId> {
    if d == 0 {
        Some(XdlPrimitiveId::Bool)
    } else if d == 1 {
        Some(XdlPrimitiveId::U8)
    } else if d == 2 {
        Some(XdlPrimitiveId::U16)
    } else if d == 3 {
        Some(XdlPrimitiveId::U32)
    } else if d == 4 {
        Some(XdlPrimitiveId::U64)
    } else if d == 5 {
        Some(XdlPrimitiveId::U128)
    } else if d == 6 {
        Some(XdlPrimitiveId::U256)
    } else if d == 7 {
        Some(XdlPrimitiveId::I8)
    } else if d == 8 {
        Some(XdlPrimitiveId::I16)
    } else if d == 9 {
        Some(XdlPrimitiveId::I32)
    } else if d == 10 {
        Some(XdlPrimitiveId::I64)
    } else if d == 11 {
        Some(XdlPrimitiveId::I128)
    } else if d == 12 {
        Some(XdlPrimitiveId::I256)
    } else if d == 13 {
        Some(XdlPrimitiveId::F32)
    } else if d == 14 {
        Some(XdlPrimitiveId::F64)
    } else if d == 16 {
        Some(XdlPrimitiveId::String)
    } else {
        None
    }
}

/// The discriminant that XDL gives a kind of the type system (byte strings have none).
pub open spec fn xdl_discriminant_of_kind(k: XbfPrimitiveMetadata) -> u8 {
    match k {
        XbfPrimitiveMetadata::Bool => 0,
        XbfPrimitiveMetadata::U8 => 1,
        XbfPrimitiveMetadata::U16 => 2,
        XbfPrimitiveMetadata::U32 => 3,
        XbfPrimitiveMetadata::U64 => 4,
        XbfPrimitiveMetadata::U128 => 5,
        XbfPrimitiveMetadata::U256 => 6,
        XbfPrimitiveMetadata::I8 => 7,
        XbfPrimitiveMetadata::I16 => 8,
        XbfPrimitiveMetadata::I32 => 9,
        XbfPrimitiveMetadata::I64 => 10,
        XbfPrimitiveMetadata::I128 => 11,
        XbfPrimitiveMetadata::I256 => 12,
        XbfPrimitiveMetadata::F32 => 13,
        XbfPrimitiveMetadata::F64 => 14,
        _ => 16,
    }
}

pub proof fn lemma_xdl_discriminant(id: XdlPrimitiveId)
    ensures
        xdl_discriminant(id) <= 16,
        xdl_discriminant(id) != 15,
        xdl_id_of(xdl_discriminant(id)) == Some(id),
        xdl_discriminant_of_kind(xdl_kind(id)) == xdl_discriminant(id),
{
}

impl XdlPrimitiveId {
    /// The discriminant byte of this kind.
    pub fn discriminant(&self) -> (r: u8)
        ensures
            r == xdl_discriminant(*self),
    {
        match self {
            XdlPrimitiveId::Bool => 0,
            XdlPrimitiveId::U8 => 1,
            XdlPrimitiveId::U16 => 2,
            XdlPrimitiveId::U32 => 3,
            XdlPrimitiveId::U64 => 4,
            XdlPrimitiveId::U128 => 5,
            XdlPrimitiveId::U256 => 6,
            XdlPrimitiveId::I8 => 7,
            XdlPrimitiveId::I16 => 8,
            XdlPrimitiveId::I32 => 9,
            XdlPrimitiveId::I64 => 10,
            XdlPrimitiveId::I128 => 11,
            XdlPrimitiveId::I256 => 12,
            XdlPrimitiveId::F32 => 13,
            XdlPrimitiveId::F64 => 14,
            XdlPrimitiveId::String => 16,
        }
    }

    /// The kind that a discriminant byte names; 15 (byte strings, which XDL lacks) and any byte
    /// above 16 are refused.
    pub fn try_from_u8(d: u8) -> (r: Result<XdlPrimitiveId, XbfError>)
        ensures
            match xdl_id_of(d) {
                Some(id) => r == Ok::<XdlPrimitiveId, XbfError>(id),
                None => r == Err::<XdlPrimitiveId, XbfError>(XbfError::InvalidPrimitiveMetadata(d)),
            },
    {
        match d {
            0 => Ok(XdlPrimitiveId::Bool),
            1 => Ok(XdlPrimitiveId::U8),
            2 => Ok(XdlPrimitiveId::U16),
            3 => Ok(XdlPrimitiveId::U32),
            4 => Ok(XdlPrimitiveId::U64),
            5 => Ok(XdlPrimitiveId::U128),
            6 => Ok(XdlPrimitiveId::U256),
            7 => Ok(XdlPrimitiveId::I8),
            8 => Ok(XdlPrimitiveId::I16),
            9 => Ok(XdlPrimitiveId::I32),
            10 => Ok(XdlPrimitiveId::I64),
            11 => Ok(XdlPrimitiveId::I128),
            12 => Ok(XdlPrimitiveId::I256),
            13 => Ok(XdlPrimitiveId::F32),
            14 => Ok(XdlPrimitiveId::F64),
            16 => Ok(XdlPrimitiveId::String),
            _ => Err(XbfError::InvalidPrimitiveMetadata(d)),
        }
    }
}

/// The metadata of an XDL primitive: its kind.
#[derive(PartialEq, Eq, Debug, Copy, Clone, Structural)]
pub struct XdlPrimitiveMetadata(pub XdlPrimitiveId);

impl XdlPrimitiveMetadata {
    /// Appends the discriminant byte of this kind.
    pub fn serialize_primitive_metadata(&self, writer: &mut Vec<u8>)
        ensures
            final(writer)@ == old(writer)@.push(xdl_discriminant(self.0)),
    {
        writer.push(self.0.discriminant());
    }
}

/// An XDL primitive value. Floats are held as their IEEE 754 bits, 256-bit numbers as four
/// 64-bit limbs, least significant first.
#[derive(Debug, Clone, PartialEq)]
pub enum XdlPrimitive {
    Bool(bool),
    U8(u8),
    U16(u16),
    U32(u32),
    U64(u64),
    U128(u128),
    U256([u64; 4]),
    I8(i8),
    I16(i16),
    I32(i32),
    I64(i64),
    I128(i128),
    I256([u64; 4]),
    F32(u32),
    F64(u64),
    String(String),
}

impl View for XdlPrimitive {
    type V = PrimitiveValue;

    open spec fn view(&self) -> PrimitiveValue {
        self.as_xbf()@
    }
}

impl XdlPrimitive {
    /// The same value as a primitive of the type system.
    pub open spec fn as_xbf(&self) -> crate::primitive::XbfPrimitive {
        match self {
            XdlPrimitive::Bool(x) => crate::primitive::XbfPrimitive::Bool(*x),
            XdlPrimitive::U8(x) => crate::primitive::XbfPrimitive::U8(*x),
            XdlPrimitive::U16(x) => crate::primitive::XbfPrimitive::U16(*x),
            XdlPrimitive::U32(x) => crate::primitive::XbfPrimitive::U32(*x),
            XdlPrimitive::U64(x) => crate::primitive::XbfPrimitive::U64(*x),
            XdlPrimitive::U128(x) => crate::primitive::XbfPrimitive::U128(*x),
            XdlPrimitive::U256(x) => crate::primitive::XbfPrimitive::U256(*x),
            XdlPrimitive::I8(x) => crate::primitive::XbfPrimitive::I8(*x),
            XdlPrimitive::I16(x) => crate::primitive::XbfPrimitive::I16(*x),
            XdlPrimitive::I32(x) => crate::primitive::XbfPrimitive::I32(*x),
            XdlPrimitive::I64(x) => crate::primitive::XbfPrimitive::I64(*x),
            XdlPrimitive::I128(x) => crate::primitive::XbfPrimitive::I128(*x),
            XdlPrimitive::I256(x) => crate::primitive::XbfPrimitive::I256(*x),
            XdlPrimitive::F32(x) => crate::primitive::XbfPrimitive::F32(*x),
            XdlPrimitive::F64(x) => crate::primitive::XbfPrimitive::F64(*x),
            XdlPrimitive::String(x) => crate::primitive::XbfPrimitive::String(*x),
        }
    }
}

/// The bytes of an XDL primitive value: the same as in the rest of the format.
pub open spec fn xdl_primitive_bytes(p: PrimitiveValue) -> Seq<u8> {
    match p {
        PrimitiveValue::Text(s) => lp_string(s),
        _ => primitive_bytes(p),
    }
}

/// What reading an XDL primitive of kind `id` at `pos` gives.
pub open spec fn parse_xdl_primitive(id: XdlPrimitiveId, b: Seq<u8>, pos: int) -> Result<
    (PrimitiveValue, int),
    XbfError,
> {
    if id == XdlPrimitiveId::String {
        match parse_lp_string(b, pos) {
            Ok((s, p)) => Ok((PrimitiveValue::Text(s), p)),
            Err(e) => Err(e),
        }
    } else {
        parse_primitive(xdl_kind(id), b, pos)
    }
}

impl XdlPrimitiveId {
    /// The kind of the type system that this kind stands for.
    pub fn kind(&self) -> (r: XbfPrimitiveMetadata)
        ensures
            r == xdl_kind(*self),
    {
        match self {
            XdlPrimitiveId::Bool => XbfPrimitiveMetadata::Bool,
            XdlPrimitiveId::U8 => XbfPrimitiveMetadata::U8,
            XdlPrimitiveId::U16 => XbfPrimitiveMetadata::U16,
            XdlPrimitiveId::U32 => XbfPrimitiveMetadata::U32,
            XdlPrimitiveId::U64 => XbfPrimitiveMetadata::U64,
            XdlPrimitiveId::U128 => XbfPrimitiveMetadata::U128,
            XdlPrimitiveId::U256 => XbfPrimitiveMetadata::U256,
            XdlPrimitiveId::I8 => XbfPrimitiveMetadata::I8,
            XdlPrimitiveId::I16 => XbfPrimitiveMetadata::I16,
            XdlPrimitiveId::I32 => XbfPrimitiveMetadata::I32,
            XdlPrimitiveId::I64 => XbfPrimitiveMetadata::I64,
            XdlPrimitiveId::I128 => XbfPrimitiveMetadata::I128,
            XdlPrimitiveId::I256 => XbfPrimitiveMetadata::I256,
            XdlPrimitiveId::F32 => XbfPrimitiveMetadata::F32,
            XdlPrimitiveId::F64 => XbfPrimitiveMetadata::F64,
            XdlPrimitiveId::String => XbfPrimitiveMetadata::String,
        }
    }
}

/// The XDL primitive holding what a non-string primitive of the type system holds.
fn from_fixed(p: crate::primitive::XbfPrimitive) -> (r: XdlPrimitive)
    requires
        !(p is Bytes),
        !(p is String),
    ensures
        r.as_xbf() == p,
{
    match p {
        crate::primitive::XbfPrimitive::Bool(x) => XdlPrimitive::Bool(x),
        crate::primitive::XbfPrimitive::U8(x) => XdlPrimitive::U8(x),
        crate::primitive::XbfPrimitive::U16(x) => XdlPrimitive::U16(x),
        crate::primitive::XbfPrimitive::U32(x) => XdlPrimitive::U32(x),
        crate::primitive::XbfPrimitive::U64(x) => XdlPrimitive::U64(x),
        crate::primitive::XbfPrimitive::U128(x) => XdlPrimitive::U128(x),
        crate::primitive::XbfPrimitive::U256(x) => XdlPrimitive::U256(x),
        crate::primitive::XbfPrimitive::I8(x) => XdlPrimitive::I8(x),
        crate::primitive::XbfPrimitive::I16(x) => XdlPrimitive::I16(x),
        crate::primitive::XbfPrimitive::I32(x) => XdlPrimitive::I32(x),
        crate::primitive::XbfPrimitive::I64(x) => XdlPrimitive::I64(x),
        crate::primitive::XbfPrimitive::I128(x) => XdlPrimitive::I128(x),
        crate::primitive::XbfPrimitive::I256(x) => XdlPrimitive::I256(x),
        crate::primitive::XbfPrimitive::F32(x) => XdlPrimitive::F32(x),
        crate::primitive::XbfPrimitive::F64(x) => XdlPrimitive::F64(x),
        _ => XdlPrimitive::Bool(false),
    }
}

impl XdlPrimitive {
    /// The metadata of this value.
    pub fn get_metadata(&self) -> (r: XdlPrimitiveMetadata)
        ensures
            xdl_kind(r.0) == crate::primitive::primitive_kind(self@),
    {
        let id = match self {
            XdlPrimitive::Bool(_) => XdlPrimitiveId::Bool,
            XdlPrimitive::U8(_) => XdlPrimitiveId::U8,
            XdlPrimitive::U16(_) => XdlPrimitiveId::U16,
            XdlPrimitive::U32(_) => XdlPrimitiveId::U32,
            XdlPrimitive::U64(_) => XdlPrimitiveId::U64,
            XdlPrimitive::U128(_) => XdlPrimitiveId::U128,
            XdlPrimitive::U256(_) => XdlPrimitiveId::U256,
            XdlPrimitive::I8(_) => XdlPrimitiveId::I8,
            XdlPrimitive::I16(_) => XdlPrimitiveId::I16,
            XdlPrimitive::I32(_) => XdlPrimitiveId::I32,
            XdlPrimitive::I64(_) => XdlPrimitiveId::I64,
            XdlPrimitive::I128(_) => XdlPrimitiveId::I128,
            XdlPrimitive::I256(_) => XdlPrimitiveId::I256,
            XdlPrimitive::F32(_) => XdlPrimitiveId::F32,
            XdlPrimitive::F64(_) => XdlPrimitiveId::F64,
            XdlPrimitive::String(_) => XdlPrimitiveId::String,
        };
        XdlPrimitiveMetadata(id)
    }

    /// Appends the payload of this value.
    pub fn serialize_without_metadata(&self, writer: &mut Vec<u8>)
        ensures
            final(writer)@ == old(writer)@ + xdl_primitive_bytes(self@),
    {
        match self {
            XdlPrimitive::String(x) => write_string(x.as_str(), writer),
            XdlPrimitive::Bool(x) => crate::primitive::XbfPrimitive::Bool(*x).serialize_primitive_type(writer),
            XdlPrimitive::U8(x) => crate::primitive::XbfPrimitive::U8(*x).serialize_primitive_type(writer),
            XdlPrimitive::U16(x) => crate::primitive::XbfPrimitive::U16(*x).serialize_primitive_type(writer),
            XdlPrimitive::U32(x) => crate::primitive::XbfPrimitive::U32(*x).serialize_primitive_type(writer),
            XdlPrimitive::U64(x) => crate::primitive::XbfPrimitive::U64(*x).serialize_primitive_type(writer),
            XdlPrimitive::U128(x) => crate::primitive::XbfPrimitive::U128(*x).serialize_primitive_type(writer),
            XdlPrimitive::U256(x) => crate::primitive::XbfPrimitive::U256(*x).serialize_primitive_type(writer),
            XdlPrimitive::I8(x) => crate::primitive::XbfPrimitive::I8(*x).serialize_primitive_type(writer),
            XdlPrimitive::I16(x) => crate::primitive::XbfPrimitive::I16(*x).serialize_primitive_type(writer),
            XdlPrimitive::I32(x) => crate::primitive::XbfPrimitive::I32(*x).serialize_primitive_type(writer),
            XdlPrimitive::I64(x) => crate::primitive::XbfPrimitive::I64(*x).serialize_primitive_type(writer),
            XdlPrimitive::I128(x) => crate::primitive::XbfPrimitive::I128(*x).serialize_primitive_type(writer),
            XdlPrimitive::I256(x) => crate::primitive::XbfPrimitive::I256(*x).serialize_primitive_type(writer),
            XdlPrimitive::F32(x) => crate::primitive::XbfPrimitive::F32(*x).serialize_primitive_type(writer),
            XdlPrimitive::F64(x) => crate::primitive::XbfPrimitive::F64(*x).serialize_primitive_type(writer),
        }
    }

    /// Appends the discriminant of this value's kind and then its payload.
    pub fn serialize_with_metadata(&self, writer: &mut Vec<u8>)
        ensures
            final(writer)@ == old(writer)@.push(
                xdl_discriminant_of_kind(crate::primitive::primitive_kind(self@)),
            ) + xdl_primitive_bytes(self@),
    {
        let metadata = self.get_metadata();
        proof {
            lemma_xdl_discriminant(metadata.0);
        }
        metadata.serialize_primitive_metadata(writer);
        self.serialize_without_metadata(writer);
    }

    /// Reads the payload of a value of kind `metadata`.
    pub fn deserialize_known_metadata(metadata: XdlPrimitiveMetadata, reader: &mut XbfReader) -> (r:
        Result<XdlPrimitive, XbfError>)
        ensures
            final(reader).bytes == old(reader).bytes,
            match parse_xdl_primitive(metadata.0, old(reader).bytes@, old(reader).pos as int) {
                Ok((v, p)) => r matches Ok(x) && x@ == v && final(reader).pos == p,
                Err(e) => r == Err::<XdlPrimitive, XbfError>(e),
            },
    {
        if metadata.0 == XdlPrimitiveId::String {
            let s = read_string(reader)?;
            Ok(XdlPrimitive::String(s))
        } else {
            let kind = metadata.0.kind();
            let p = crate::primitive::XbfPrimitive::deserialize_primitive_type(&kind, reader)?;
            Ok(from_fixed(p))
        }
    }

    /// Reads a discriminant byte and then the payload of a value of that kind.
    pub fn deserialize_unknown_metadata(reader: &mut XbfReader) -> (r: Result<XdlPrimitive, XbfError>)
        ensures
            final(reader).bytes == old(reader).bytes,
            old(reader).pos >= old(reader).bytes@.len() ==> r == Err::<XdlPrimitive, XbfError>(
                XbfError::UnexpectedEof,
            ),
            old(reader).pos < old(reader).bytes@.len() ==> ({
                let d = old(reader).bytes@[old(reader).pos as int];
                match xdl_id_of(d) {
                    None => r == Err::<XdlPrimitive, XbfError>(XbfError::InvalidPrimitiveMetadata(d)),
                    Some(id) => match parse_xdl_primitive(
                        id,
                        old(reader).bytes@,
                        old(reader).pos + 1,
                    ) {
                        Ok((v, p)) => r matches Ok(x) && x@ == v && final(reader).pos == p,
                        Err(e) => r == Err::<XdlPrimitive, XbfError>(e),
                    },
                }
            }),
    {
        let d = read_u8(reader)?;
        let id = XdlPrimitiveId::try_from_u8(d)?;
        XdlPrimitive::deserialize_known_metadata(XdlPrimitiveMetadata(id), reader)
    }
}

/// The discriminant byte of XDL vector metadata.
pub const XDL_VEC_DISCRIMINANT: u8 = 17;

/// The discriminant byte of XDL struct metadata.
pub const XDL_STRUCT_DISCRIMINANT: u8 = 18;

/// The bytes of metadata in XDL.
pub open spec fn xdl_metadata_bytes(m: Metadata) -> Seq<u8>
    decreases m,
{
    match m {
        Metadata::Primitive(k) => seq![xdl_discriminant_of_kind(k)],
        Metadata::Vector(inner) => seq![XDL_VEC_DISCRIMINANT] + xdl_metadata_bytes(*inner),
        Metadata::Record(name, fields) => seq![XDL_STRUCT_DISCRIMINANT] + lp_string(name)
            + le_bytes(fields.len(), 2) + xdl_fields_bytes(fields),
    }
}

/// The bytes of a struct's fields in XDL.
pub open spec fn xdl_fields_bytes(fields: Seq<(Seq<char>, Metadata)>) -> Seq<u8>
    decreases fields,
{
    if fields.len() == 0 {
        seq![]
    } else {
        let last = fields.last();
        xdl_fields_bytes(fields.drop_last()) + lp_string(last.0) + xdl_metadata_bytes(last.1)
    }
}

/// Metadata whose every struct has at most 65535 fields, the most that a `u16` count holds.
pub open spec fn xdl_metadata_fits(m: Metadata) -> bool
    decreases m,
{
    match m {
        Metadata::Primitive(_) => true,
        Metadata::Vector(inner) => xdl_metadata_fits(*inner),
        Metadata::Record(name, fields) => {
            &&& fields.len() <= 0xFFFF
            &&& forall|i: int| 0 <= i < fields.len() ==> xdl_metadata_fits(#[trigger] fields[i].1)
        },
    }
}

/// What reading XDL metadata at `pos` gives.
pub open spec fn xdl_parse_metadata(b: Seq<u8>, pos: int) -> Result<(Metadata, int), XbfError>
    decreases b.len() - pos, 1int, 0int,
{
    if pos < 0 || pos >= b.len() {
        Err(XbfError::UnexpectedEof)
    } else {
        let d = b[pos];
        match xdl_id_of(d) {
            Some(id) => Ok((Metadata::Primitive(xdl_kind(id)), pos + 1)),
            None => if d == XDL_VEC_DISCRIMINANT {
                match xdl_parse_metadata(b, pos + 1) {
                    Ok((inner, p)) => Ok((Metadata::Vector(Box::new(inner)), p)),
                    Err(e) => Err(e),
                }
            } else if d == XDL_STRUCT_DISCRIMINANT {
                xdl_parse_record(b, pos + 1)
            } else {
                Err(XbfError::InvalidDiscriminant(d))
            },
        }
    }
}

/// What reading XDL struct metadata after its discriminant gives.
pub open spec fn xdl_parse_record(b: Seq<u8>, pos: int) -> Result<(Metadata, int), XbfError>
    decreases b.len() - pos, 1int, 0int,
{
    if pos < 0 || pos > b.len() {
        Err(XbfError::UnexpectedEof)
    } else {
        match parse_lp_string(b, pos) {
            Ok((name, at1)) => match parse_le(b, at1, 2) {
                Ok((n, at2)) => if pos < at2 <= b.len() {
                    match xdl_parse_fields(b, at2, n as int) {
                        Ok((fields, at3)) => Ok((Metadata::Record(name, fields), at3)),
                        Err(e) => Err(e),
                    }
                } else {
                    Err(XbfError::UnexpectedEof)
                },
                Err(e) => Err(e),
            },
            Err(e) => Err(e),
        }
    }
}

/// What reading `n` XDL fields at `pos` gives.
pub open spec fn xdl_parse_fields(b: Seq<u8>, pos: int, n: int) -> Result<
    (Seq<(Seq<char>, Metadata)>, int),
    XbfError,
>
    decreases b.len() - pos, 0int, n,
{
    if pos < 0 || pos > b.len() || n < 0 {
        Err(XbfError::UnexpectedEof)
    } else if n == 0 {
        Ok((seq![], pos))
    } else {
        match xdl_parse_fields(b, pos, n - 1) {
            Ok((fields, p)) => if pos <= p <= b.len() {
                match parse_lp_string(b, p) {
                    Ok((name, at1)) => if has_field(fields, name) {
                        Err(XbfError::DuplicateFieldName)
                    } else if p < at1 <= b.len() {
                        match xdl_parse_metadata(b, at1) {
                            Ok((m, at2)) => Ok((fields.push((name, m)), at2)),
                            Err(e) => Err(e),
                        }
                    } else {
                        Err(XbfError::UnexpectedEof)
                    },
                    Err(e) => Err(e),
                }
            } else {
                Err(XbfError::UnexpectedEof)
            },
            Err(e) => Err(e),
        }
    }
}

pub proof fn lemma_xdl_parse_fields_err(b: Seq<u8>, pos: int, k: int, n: int)
    requires
        0 <= pos <= b.len(),
        0 <= k <= n,
        xdl_parse_fields(b, pos, k) is Err,
    ensures
        xdl_parse_fields(b, pos, n) == xdl_parse_fields(b, pos, k),
    decreases n - k,
{
    if k < n {
        lemma_xdl_parse_fields_err(b, pos, k, n - 1);
    }
}

/// XDL vector metadata: the metadata of the elements.
#[derive(Debug, PartialEq)]
pub struct XdlVecMetadata {
    inner_type: Box<XdlMetadata>,
}

/// XDL struct metadata: a name and named fields in declaration order.
#[derive(Debug, PartialEq)]
pub struct XdlStructMetadata {
    name: String,
    fields: Vec<(String, XdlMetadata)>,
}

/// XDL metadata of any kind.
#[derive(Debug, PartialEq)]
pub enum XdlMetadata {
    Primitive(XdlPrimitiveMetadata),
    Vec(XdlVecMetadata),
    Struct(XdlStructMetadata),
}

/// What XDL metadata describes.
pub closed spec fn xdl_view(m: XdlMetadata) -> Metadata
    decreases m,
{
    match m {
        XdlMetadata::Primitive(p) => Metadata::Primitive(xdl_kind(p.0)),
        XdlMetadata::Vec(v) => Metadata::Vector(Box::new(xdl_view(*v.inner_type))),
        XdlMetadata::Struct(s) => Metadata::Record(s.name@, xdl_fields_view(s.fields@)),
    }
}

/// What a list of XDL fields describes.
pub open spec fn xdl_fields_view(fs: Seq<(String, XdlMetadata)>) -> Seq<(Seq<char>, Metadata)>
    decreases fs,
{
    if fs.len() == 0 {
        seq![]
    } else {
        xdl_fields_view(fs.drop_last()).push((fs.last().0@, xdl_view(fs.last().1)))
    }
}

pub proof fn lemma_xdl_fields_view(fs: Seq<(String, XdlMetadata)>)
    ensures
        xdl_fields_view(fs).len() == fs.len(),
        forall|i: int|
            0 <= i < fs.len() ==> #[trigger] xdl_fields_view(fs)[i] == (fs[i].0@, xdl_view(fs[i].1)),
    decreases fs.len(),
{
    if fs.len() > 0 {
        lemma_xdl_fields_view(fs.drop_last());
    }
}

pub proof fn lemma_xdl_fields_view_push(fs: Seq<(String, XdlMetadata)>, f: (String, XdlMetadata))
    ensures
        xdl_fields_view(fs.push(f)) == xdl_fields_view(fs).push((f.0@, xdl_view(f.1))),
{
    assert(fs.push(f).drop_last() =~= fs);
}

pub proof fn lemma_xdl_fields_bytes_push(fs: Seq<(Seq<char>, Metadata)>, f: (Seq<char>, Metadata))
    ensures
        xdl_fields_bytes(fs.push(f)) == xdl_fields_bytes(fs) + lp_string(f.0)
            + xdl_metadata_bytes(f.1),
{
    assert(fs.push(f).drop_last() =~= fs);
}

impl View for XdlMetadata {
    type V = Metadata;

    open spec fn view(&self) -> Metadata {
        xdl_view(*self)
    }
}

impl View for XdlVecMetadata {
    type V = Metadata;

    open spec fn view(&self) -> Metadata {
        xdl_view(XdlMetadata::Vec(*self))
    }
}

impl View for XdlStructMetadata {
    type V = Metadata;

    open spec fn view(&self) -> Metadata {
        xdl_view(XdlMetadata::Struct(*self))
    }
}

/// Whether one of `fields` is called `name`.
fn xdl_has_name(fields: &Vec<(String, XdlMetadata)>, name: &String) -> (r: bool)
    ensures
        r == has_field(xdl_fields_view(fields@), name@),
{
    proof {
        lemma_xdl_fields_view(fields@);
    }
    let mut j: usize = 0;
    while j < fields.len()
        invariant
            j <= fields@.len(),
            forall|a: int| 0 <= a < j ==> #[trigger] fields@[a].0@ != name@,
        decreases fields@.len() - j,
    {
        if fields[j].0.eq(name) {
            proof {
                lemma_xdl_fields_view(fields@);
                assert(xdl_fields_view(fields@)[j as int].0 == name@);
            }
            return true;
        }
        j += 1;
    }
    proof {
        let fv = xdl_fields_view(fields@);
        if has_field(fv, name@) {
            let k = choose|k: int| 0 <= k < fv.len() && #[trigger] fv[k].0 == name@;
            assert(fields@[k].0@ == name@);
        }
    }
    false
}

impl XdlVecMetadata {
    /// XDL vector metadata whose elements are described by `inner_type`.
    pub fn new(inner_type: XdlMetadata) -> (r: XdlVecMetadata)
        ensures
            r@ == Metadata::Vector(Box::new(inner_type@)),
    {
        XdlVecMetadata { inner_type: Box::new(inner_type) }
    }

    /// XDL vector metadata from element metadata already on the heap.
    pub fn from_boxed_type(inner_type: Box<XdlMetadata>) -> (r: XdlVecMetadata)
        ensures
            r@ == Metadata::Vector(Box::new((*inner_type)@)),
    {
        XdlVecMetadata { inner_type }
    }

    /// Appends the vector discriminant and then the element metadata.
    pub fn serialize_vec_metadata(&self, writer: &mut Vec<u8>)
        requires
            xdl_metadata_fits(self@),
        ensures
            final(writer)@ == old(writer)@ + xdl_metadata_bytes(self@),
        decreases self,
    {
        writer.push(XDL_VEC_DISCRIMINANT);
        self.inner_type.serialize_base_metadata(writer);
        assert(writer@ =~= old(writer)@ + xdl_metadata_bytes(self@));
    }

    /// Reads the element metadata of a vector whose discriminant has been read.
    pub fn deserialize_vec_metadata(reader: &mut XbfReader) -> (r: Result<XdlVecMetadata, XbfError>)
        ensures
            final(reader).bytes == old(reader).bytes,
            match xdl_parse_metadata(old(reader).bytes@, old(reader).pos as int) {
                Ok((m, p)) => r matches Ok(v) && v@ == Metadata::Vector(Box::new(m))
                    && final(reader).pos == p,
                Err(e) => r == Err::<XdlVecMetadata, XbfError>(e),
            },
            r is Ok ==> old(reader).pos < final(reader).pos <= final(reader).bytes@.len(),
        decreases old(reader).bytes@.len() - old(reader).pos, 1int,
    {
        let inner = XdlMetadata::deserialize_base_metadata(reader)?;
        Ok(XdlVecMetadata::new(inner))
    }
}

impl XdlStructMetadata {
    /// XDL struct metadata with a name and named fields in declaration order.
    pub fn new(name: String, fields: Vec<(String, XdlMetadata)>) -> (r: XdlStructMetadata)
        ensures
            r@ == Metadata::Record(name@, xdl_fields_view(fields@)),
    {
        XdlStructMetadata { name, fields }
    }

    /// Appends the struct discriminant, the name, the field count and each field's name and
    /// metadata.
    pub fn serialize_struct_metadata(&self, writer: &mut Vec<u8>)
        requires
            xdl_metadata_fits(self@),
        ensures
            final(writer)@ == old(writer)@ + xdl_metadata_bytes(self@),
        decreases self,
    {
        proof {
            lemma_xdl_fields_view(self.fields@);
        }
        writer.push(XDL_STRUCT_DISCRIMINANT);
        write_string(self.name.as_str(), writer);
        let fields = &self.fields;
        push_u16(writer, fields.len() as u16);
        let ghost start = writer@;
        let mut i: usize = 0;
        proof {
            assert(xdl_fields_view(fields@.take(0)) =~= Seq::<(Seq<char>, Metadata)>::empty());
            assert(writer@ =~= start + xdl_fields_bytes(xdl_fields_view(fields@.take(0))));
        }
        while i < fields.len()
            invariant
                i <= fields@.len(),
                fields == &self.fields,
                xdl_metadata_fits(self@),
                xdl_fields_view(fields@).len() == fields@.len(),
                forall|k: int|
                    0 <= k < fields@.len() ==> #[trigger] xdl_fields_view(fields@)[k] == (
                        fields@[k].0@,
                        xdl_view(fields@[k].1),
                    ),
                writer@ == start + xdl_fields_bytes(xdl_fields_view(fields@.take(i as int))),
            decreases fields@.len() - i,
        {
            proof {
                assert(self@ == Metadata::Record(self.name@, xdl_fields_view(self.fields@)));
                assert(xdl_fields_view(fields@)[i as int] == (
                    fields@[i as int].0@,
                    xdl_view(fields@[i as int].1),
                ));
                let fv = xdl_fields_view(fields@);
                assert(fields@ == self.fields@);
                assert(xdl_metadata_fits(Metadata::Record(self.name@, fv)));
                assert(xdl_metadata_fits(fv[i as int].1));
                assert(decreases_to!(self.fields => self.fields[i as int]));
            }
            write_string(fields[i].0.as_str(), writer);
            fields[i].1.serialize_base_metadata(writer);
            proof {
                assert(fields@.take(i + 1) =~= fields@.take(i as int).push(fields@[i as int]));
                lemma_xdl_fields_view_push(fields@.take(i as int), fields@[i as int]);
                lemma_xdl_fields_bytes_push(
                    xdl_fields_view(fields@.take(i as int)),
                    (fields@[i as int].0@, xdl_view(fields@[i as int].1)),
                );
            }
            i += 1;
        }
        proof {
            assert(fields@.take(i as int) =~= fields@);
        }
        assert(writer@ =~= old(writer)@ + xdl_metadata_bytes(self@));
    }

    /// Reads the name and fields of a struct whose discriminant has been read.
    pub fn deserialize_struct_metadata(reader: &mut XbfReader) -> (r: Result<
        XdlStructMetadata,
        XbfError,
    >)
        ensures
            final(reader).bytes == old(reader).bytes,
            match xdl_parse_record(old(reader).bytes@, old(reader).pos as int) {
                Ok((m, p)) => r matches Ok(s) && s@ == m && final(reader).pos == p,
                Err(e) => r == Err::<XdlStructMetadata, XbfError>(e),
            },
            r is Ok ==> old(reader).pos < final(reader).pos <= final(reader).bytes@.len(),
        decreases old(reader).bytes@.len() - old(reader).pos, 1int,
    {
        let ghost b = reader.bytes@;
        let ghost b0 = reader.bytes;
        let ghost pos0 = reader.pos as int;
        let name = read_string(reader)?;
        let n = read_u16(reader)?;
        let ghost at2 = reader.pos as int;
        let mut fields: Vec<(String, XdlMetadata)> = Vec::new();
        let mut i: u16 = 0;
        proof {
            assert(xdl_fields_view(fields@) =~= Seq::<(Seq<char>, Metadata)>::empty());
        }
        while i < n
            invariant
                reader.bytes@ == b,
                reader.bytes == b0,
                b0 == old(reader).bytes,
                pos0 == old(reader).pos,
                pos0 < at2 <= reader.pos <= b.len(),
                xdl_parse_record(b, pos0) == match xdl_parse_fields(b, at2, n as int) {
                    Ok((f, q)) => Ok((Metadata::Record(name@, f), q)),
                    Err(e) => Err(e),
                },
                i <= n,
                fields@.len() == i,
                xdl_parse_fields(b, at2, i as int) == Ok::<
                    (Seq<(Seq<char>, Metadata)>, int),
                    XbfError,
                >((xdl_fields_view(fields@), reader.pos as int)),
            decreases n - i,
        {
            let fname = match read_string(reader) {
                Ok(x) => x,
                Err(e) => {
                    proof {
                        lemma_xdl_parse_fields_err(b, at2, i + 1, n as int);
                    }
                    return Err(e);
                },
            };
            if xdl_has_name(&fields, &fname) {
                proof {
                    lemma_xdl_parse_fields_err(b, at2, i + 1, n as int);
                }
                return Err(XbfError::DuplicateFieldName);
            }
            let m = match XdlMetadata::deserialize_base_metadata(reader) {
                Ok(x) => x,
                Err(e) => {
                    proof {
                        lemma_xdl_parse_fields_err(b, at2, i + 1, n as int);
                    }
                    return Err(e);
                },
            };
            let ghost old_fields = fields@;
            fields.push((fname, m));
            proof {
                lemma_xdl_fields_view_push(old_fields, fields@.last());
                assert(fields@ =~= old_fields.push(fields@.last()));
            }
            i += 1;
        }
        Ok(XdlStructMetadata { name, fields })
    }
}

impl XdlMetadata {
    /// Appends the bytes of this metadata in XDL.
    pub fn serialize_base_metadata(&self, writer: &mut Vec<u8>)
        requires
            xdl_metadata_fits(self@),
        ensures
            final(writer)@ == old(writer)@ + xdl_metadata_bytes(self@),
        decreases self,
    {
        match self {
            XdlMetadata::Primitive(k) => {
                proof {
                    lemma_xdl_discriminant(k.0);
                }
                k.serialize_primitive_metadata(writer);
                assert(writer@ =~= old(writer)@ + xdl_metadata_bytes(self@));
            },
            XdlMetadata::Vec(v) => v.serialize_vec_metadata(writer),
            XdlMetadata::Struct(s) => s.serialize_struct_metadata(writer),
        }
    }

    /// Reads XDL metadata: one discriminant byte, then what that kind of metadata holds.
    pub fn deserialize_base_metadata(reader: &mut XbfReader) -> (r: Result<XdlMetadata, XbfError>)
        ensures
            final(reader).bytes == old(reader).bytes,
            match xdl_parse_metadata(old(reader).bytes@, old(reader).pos as int) {
                Ok((m, p)) => r matches Ok(x) && x@ == m && final(reader).pos == p,
                Err(e) => r == Err::<XdlMetadata, XbfError>(e),
            },
            r is Ok ==> old(reader).pos < final(reader).pos <= final(reader).bytes@.len(),
            old(reader).pos < old(reader).bytes@.len() && xdl_id_of(
                old(reader).bytes@[old(reader).pos as int],
            ) is None && old(reader).bytes@[old(reader).pos as int] != 17
                && old(reader).bytes@[old(reader).pos as int] != 18 ==> final(reader).pos == old(
                reader,
            ).pos + 1,
        decreases old(reader).bytes@.len() - old(reader).pos, 0int,
    {
        let d = read_u8(reader)?;
        match XdlPrimitiveId::try_from_u8(d) {
            Ok(id) => Ok(XdlMetadata::Primitive(XdlPrimitiveMetadata(id))),
            Err(_) => {
                if d == XDL_VEC_DISCRIMINANT {
                    let v = XdlVecMetadata::deserialize_vec_metadata(reader)?;
                    Ok(XdlMetadata::Vec(v))
                } else if d == XDL_STRUCT_DISCRIMINANT {
                    let s = XdlStructMetadata::deserialize_struct_metadata(reader)?;
                    Ok(XdlMetadata::Struct(s))
                } else {
                    Err(XbfError::InvalidDiscriminant(d))
                }
            },
        }
    }
}

/// Conversion of each kind of XDL metadata into XDL metadata of any kind.
pub trait XdlMetadataUpcast: Sized {
    /// What the converted metadata describes.
    spec fn upcast_view(&self) -> Metadata;

    fn into_base_metadata(self) -> (r: XdlMetadata)
        ensures
            r@ == self.upcast_view(),
    ;
}

impl XdlMetadataUpcast for XdlPrimitiveMetadata {
    open spec fn upcast_view(&self) -> Metadata {
        Metadata::Primitive(xdl_kind(self.0))
    }

    fn into_base_metadata(self) -> (r: XdlMetadata) {
        XdlMetadata::Primitive(self)
    }
}

impl XdlMetadataUpcast for XdlVecMetadata {
    open spec fn upcast_view(&self) -> Metadata {
        self@
    }

    fn into_base_metadata(self) -> (r: XdlMetadata) {
        XdlMetadata::Vec(self)
    }
}

impl XdlMetadataUpcast for XdlStructMetadata {
    open spec fn upcast_view(&self) -> Metadata {
        self@
    }

    fn into_base_metadata(self) -> (r: XdlMetadata) {
        XdlMetadata::Struct(self)
    }
}

/// A copy of XDL metadata.
pub fn xdl_metadata_clone(m: &XdlMetadata) -> (r: XdlMetadata)
    ensures
        r@ == m@,
    decreases m,
{
    match m {
        XdlMetadata::Primitive(p) => XdlMetadata::Primitive(*p),
        XdlMetadata::Vec(v) => {
            let inner = xdl_metadata_clone(&v.inner_type);
            XdlMetadata::Vec(XdlVecMetadata { inner_type: Box::new(inner) })
        },
        XdlMetadata::Struct(s) => {
            let mut fields: Vec<(String, XdlMetadata)> = Vec::new();
            let mut i: usize = 0;
            while i < s.fields.len()
                invariant
                    i <= s.fields@.len(),
                    fields@.len() == i,
                    *m == XdlMetadata::Struct(*s),
                    forall|k: int|
                        0 <= k < i ==> #[trigger] fields@[k].0@ == s.fields@[k].0@ && fields@[k].1@
                            == s.fields@[k].1@,
                decreases s.fields@.len() - i,
            {
                proof {
                    assert(*m is Struct && (*m)->Struct_0 == *s);
                    assert(decreases_to!(*m => (*m)->Struct_0));
                    assert(decreases_to!(s.fields => s.fields[i as int]));
                }
                let name = s.fields[i].0.clone();
                let inner = xdl_metadata_clone(&s.fields[i].1);
                fields.push((name, inner));
                i += 1;
            }
            proof {
                lemma_xdl_fields_view(fields@);
                lemma_xdl_fields_view(s.fields@);
                assert(xdl_fields_view(fields@) =~= xdl_fields_view(s.fields@));
            }
            XdlMetadata::Struct(XdlStructMetadata { name: s.name.clone(), fields })
        },
    }
}

/// Whether two XDL metadata describe the same shape.
pub fn xdl_metadata_eq(a: &XdlMetadata, b: &XdlMetadata) -> (r: bool)
    ensures
        r == (a@ == b@),
    decreases a,
{
    match (a, b) {
        (XdlMetadata::Primitive(x), XdlMetadata::Primitive(y)) => {
            proof {
                lemma_xdl_discriminant(x.0);
                lemma_xdl_discriminant(y.0);
            }
            x.0 == y.0
        },
        (XdlMetadata::Vec(x), XdlMetadata::Vec(y)) => xdl_metadata_eq(&x.inner_type, &y.inner_type),
        (XdlMetadata::Struct(x), XdlMetadata::Struct(y)) => {
            proof {
                lemma_xdl_fields_view(x.fields@);
                lemma_xdl_fields_view(y.fields@);
            }
            if !x.name.eq(&y.name) || x.fields.len() != y.fields.len() {
                return false;
            }
            let mut i: usize = 0;
            while i < x.fields.len()
                invariant
                    i <= x.fields@.len(),
                    x.fields@.len() == y.fields@.len(),
                    *a == XdlMetadata::Struct(*x),
                    *b == XdlMetadata::Struct(*y),
                    x.name@ == y.name@,
                    forall|k: int|
                        0 <= k < i ==> #[trigger] xdl_fields_view(x.fields@)[k] == xdl_fields_view(
                            y.fields@,
                        )[k],
                decreases x.fields@.len() - i,
            {
                proof {
                    lemma_xdl_fields_view(x.fields@);
                    lemma_xdl_fields_view(y.fields@);
                    assert(*a is Struct && (*a)->Struct_0 == *x);
                    assert(decreases_to!(*a => (*a)->Struct_0));
                    assert(decreases_to!(x.fields => x.fields[i as int]));
                }
                if !x.fields[i].0.eq(&y.fields[i].0) || !xdl_metadata_eq(
                    &x.fields[i].1,
                    &y.fields[i].1,
                ) {
                    assert(xdl_fields_view(x.fields@)[i as int] != xdl_fields_view(
                        y.fields@,
                    )[i as int]);
                    return false;
                }
                i += 1;
            }
            proof {
                lemma_xdl_fields_view(x.fields@);
                lemma_xdl_fields_view(y.fields@);
                assert(xdl_fields_view(x.fields@) =~= xdl_fields_view(y.fields@));
            }
            true
        },
        _ => false,
    }
}

impl XdlVecMetadata {
    /// The metadata of the elements.
    pub fn inner_type(&self) -> (r: &XdlMetadata)
        ensures
            self@ == Metadata::Vector(Box::new(r@)),
    {
        &self.inner_type
    }
}

/// XDL metadata of each kind describes what its kind says.
pub proof fn lemma_xdl_metadata_view(m: XdlMetadata)
    ensures
        m matches XdlMetadata::Primitive(p) ==> m@ == Metadata::Primitive(xdl_kind(p.0)),
        m matches XdlMetadata::Vec(v) ==> m@ == v@ && v@ is Vector,
        m matches XdlMetadata::Struct(s) ==> m@ == s@ && s@ is Record,
{
}

impl XdlStructMetadata {
    /// The number of fields.
    pub fn field_count(&self) -> (r: usize)
        ensures
            r == crate::metadata::record_fields(self@).len(),
    {
        proof {
            lemma_xdl_fields_view(self.fields@);
        }
        self.fields.len()
    }

    /// The metadata of the field at position `i`.
    pub fn field_type(&self, i: usize) -> (r: &XdlMetadata)
        requires
            i < crate::metadata::record_fields(self@).len(),
        ensures
            r@ == crate::metadata::record_fields(self@)[i as int].1,
    {
        proof {
            lemma_xdl_fields_view(self.fields@);
        }
        &self.fields[i].1
    }
}

/// The XDL kind that stands for a kind of the type system (XDL has no byte strings).
pub open spec fn xdl_id_of_kind(k: XbfPrimitiveMetadata) -> XdlPrimitiveId {
    match k {
        XbfPrimitiveMetadata::Bool => XdlPrimitiveId::Bool,
        XbfPrimitiveMetadata::U8 => XdlPrimitiveId::U8,
        XbfPrimitiveMetadata::U16 => XdlPrimitiveId::U16,
        XbfPrimitiveMetadata::U32 => XdlPrimitiveId::U32,
        XbfPrimitiveMetadata::U64 => XdlPrimitiveId::U64,
        XbfPrimitiveMetadata::U128 => XdlPrimitiveId::U128,
        XbfPrimitiveMetadata::U256 => XdlPrimitiveId::U256,
        XbfPrimitiveMetadata::I8 => XdlPrimitiveId::I8,
        XbfPrimitiveMetadata::I16 => XdlPrimitiveId::I16,
        XbfPrimitiveMetadata::I32 => XdlPrimitiveId::I32,
        XbfPrimitiveMetadata::I64 => XdlPrimitiveId::I64,
        XbfPrimitiveMetadata::I128 => XdlPrimitiveId::I128,
        XbfPrimitiveMetadata::I256 => XdlPrimitiveId::I256,
        XbfPrimitiveMetadata::F32 => XdlPrimitiveId::F32,
        XbfPrimitiveMetadata::F64 => XdlPrimitiveId::F64,
        _ => XdlPrimitiveId::String,
    }
}

/// The payload bytes of a value in XDL: vector lengths and strings carry a `u64` length.
pub open spec fn xdl_value_bytes(v: Value) -> Seq<u8>
    decreases v,
{
    match v {
        Value::Primitive(p) => xdl_primitive_bytes(p),
        Value::Vector(_, xs) => le_bytes(xs.len(), 8) + xdl_values_bytes(xs),
        Value::Record(_, xs) => xdl_values_bytes(xs),
    }
}

/// The XDL payloads of values one after the other.
pub open spec fn xdl_values_bytes(xs: Seq<Value>) -> Seq<u8>
    decreases xs,
{
    if xs.len() == 0 {
        seq![]
    } else {
        xdl_values_bytes(xs.drop_last()) + xdl_value_bytes(xs.last())
    }
}

/// What reading an XDL value described by `m` at `pos` gives.
pub open spec fn xdl_parse_value(m: Metadata, b: Seq<u8>, pos: int) -> Result<
    (Value, int),
    XbfError,
>
    decreases m, 1int, 0int,
{
    match m {
        Metadata::Primitive(k) => match parse_xdl_primitive(xdl_id_of_kind(k), b, pos) {
            Ok((p, q)) => Ok((Value::Primitive(p), q)),
            Err(e) => Err(e),
        },
        Metadata::Vector(inner) => match parse_le(b, pos, 8) {
            Ok((n, at)) => match xdl_parse_elements(m, b, at, n as int) {
                Ok((xs, q)) => Ok((Value::Vector(*inner, xs), q)),
                Err(e) => Err(e),
            },
            Err(e) => Err(e),
        },
        Metadata::Record(_, fields) => match xdl_parse_field_values(
            m,
            b,
            pos,
            fields.len() as int,
        ) {
            Ok((xs, q)) => Ok((Value::Record(m, xs), q)),
            Err(e) => Err(e),
        },
    }
}

/// What reading `n` XDL elements of the vector described by `m` at `pos` gives.
pub open spec fn xdl_parse_elements(m: Metadata, b: Seq<u8>, pos: int, n: int) -> Result<
    (Seq<Value>, int),
    XbfError,
>
    decreases m, 0int, n,
{
    if n <= 0 {
        Ok((seq![], pos))
    } else {
        match xdl_parse_elements(m, b, pos, n - 1) {
            Ok((xs, at)) => match m {
                Metadata::Vector(inner) => match xdl_parse_value(*inner, b, at) {
                    Ok((x, q)) => Ok((xs.push(x), q)),
                    Err(e) => Err(e),
                },
                _ => Err(XbfError::UnexpectedEof),
            },
            Err(e) => Err(e),
        }
    }
}

/// What reading the XDL values of the first `k` fields of the struct described by `m` gives.
pub open spec fn xdl_parse_field_values(m: Metadata, b: Seq<u8>, pos: int, k: int) -> Result<
    (Seq<Value>, int),
    XbfError,
>
    decreases m, 0int, k,
{
    if k <= 0 {
        Ok((seq![], pos))
    } else {
        match xdl_parse_field_values(m, b, pos, k - 1) {
            Ok((xs, at)) => match m {
                Metadata::Record(_, fields) => if k - 1 < fields.len() {
                    match xdl_parse_value(fields[k - 1].1, b, at) {
                        Ok((x, q)) => Ok((xs.push(x), q)),
                        Err(e) => Err(e),
                    }
                } else {
                    Err(XbfError::UnexpectedEof)
                },
                _ => Err(XbfError::UnexpectedEof),
            },
            Err(e) => Err(e),
        }
    }
}

pub proof fn lemma_xdl_parse_elements_err(m: Metadata, b: Seq<u8>, pos: int, k: int, n: int)
    requires
        0 <= k <= n,
        xdl_parse_elements(m, b, pos, k) is Err,
    ensures
        xdl_parse_elements(m, b, pos, n) == xdl_parse_elements(m, b, pos, k),
    decreases n - k,
{
    if k < n {
        lemma_xdl_parse_elements_err(m, b, pos, k, n - 1);
    }
}

pub proof fn lemma_xdl_parse_field_values_err(m: Metadata, b: Seq<u8>, pos: int, k: int, n: int)
    requires
        0 <= k <= n,
        xdl_parse_field_values(m, b, pos, k) is Err,
    ensures
        xdl_parse_field_values(m, b, pos, n) == xdl_parse_field_values(m, b, pos, k),
    decreases n - k,
{
    if k < n {
        lemma_xdl_parse_field_values_err(m, b, pos, k, n - 1);
    }
}

pub proof fn lemma_xdl_values_bytes_push(xs: Seq<Value>, x: Value)
    ensures
        xdl_values_bytes(xs.push(x)) == xdl_values_bytes(xs) + xdl_value_bytes(x),
{
    assert(xs.push(x).drop_last() =~= xs);
}

/// An XDL vector: the metadata of its elements and the elements.
#[derive(Debug, PartialEq)]
pub struct XdlVec {
    inner_type: XdlMetadata,
    elements: Vec<XdlType>,
}

/// An XDL struct value: its metadata and one value per field.
#[derive(Debug, PartialEq)]
pub struct XdlStruct {
    metadata: XdlStructMetadata,
    fields: Vec<XdlType>,
}

/// An XDL value of any kind.
#[derive(Debug, PartialEq)]
pub enum XdlType {
    Primitive(XdlPrimitive),
    Vec(XdlVec),
    Struct(XdlStruct),
}

/// What an XDL value is.
pub closed spec fn xdl_type_view(t: XdlType) -> Value
    decreases t,
{
    match t {
        XdlType::Primitive(p) => Value::Primitive(p@),
        XdlType::Vec(v) => Value::Vector(v.inner_type@, xdl_types_view(v.elements@)),
        XdlType::Struct(s) => Value::Record(s.metadata@, xdl_types_view(s.fields@)),
    }
}

/// What a list of XDL values is.
pub open spec fn xdl_types_view(xs: Seq<XdlType>) -> Seq<Value>
    decreases xs,
{
    if xs.len() == 0 {
        seq![]
    } else {
        xdl_types_view(xs.drop_last()).push(xdl_type_view(xs.last()))
    }
}

pub proof fn lemma_xdl_types_view(xs: Seq<XdlType>)
    ensures
        xdl_types_view(xs).len() == xs.len(),
        forall|i: int| 0 <= i < xs.len() ==> #[trigger] xdl_types_view(xs)[i] == xdl_type_view(xs[i]),
    decreases xs.len(),
{
    if xs.len() > 0 {
        lemma_xdl_types_view(xs.drop_last());
    }
}

pub proof fn lemma_xdl_types_view_push(xs: Seq<XdlType>, x: XdlType)
    ensures
        xdl_types_view(xs.push(x)) == xdl_types_view(xs).push(xdl_type_view(x)),
{
    assert(xs.push(x).drop_last() =~= xs);
}

impl View for XdlType {
    type V = Value;

    open spec fn view(&self) -> Value {
        xdl_type_view(*self)
    }
}

impl View for XdlVec {
    type V = Value;

    open spec fn view(&self) -> Value {
        xdl_type_view(XdlType::Vec(*self))
    }
}

impl View for XdlStruct {
    type V = Value;

    open spec fn view(&self) -> Value {
        xdl_type_view(XdlType::Struct(*self))
    }
}

/// A copy of XDL struct metadata.
fn xdl_struct_metadata_clone(s: &XdlStructMetadata) -> (r: XdlStructMetadata)
    ensures
        r@ == s@,
{
    let m = XdlMetadata::Struct(XdlStructMetadata { name: s.name.clone(), fields: Vec::new() });
    proof {
        lemma_xdl_fields_view(s.fields@);
    }
    let mut fields: Vec<(String, XdlMetadata)> = Vec::new();
    let mut i: usize = 0;
    while i < s.fields.len()
        invariant
            i <= s.fields@.len(),
            fields@.len() == i,
            forall|k: int|
                0 <= k < i ==> #[trigger] fields@[k].0@ == s.fields@[k].0@ && fields@[k].1@
                    == s.fields@[k].1@,
        decreases s.fields@.len() - i,
    {
        let name = s.fields[i].0.clone();
        let inner = xdl_metadata_clone(&s.fields[i].1);
        fields.push((name, inner));
        i += 1;
    }
    proof {
        lemma_xdl_fields_view(fields@);
        lemma_xdl_fields_view(s.fields@);
        assert(xdl_fields_view(fields@) =~= xdl_fields_view(s.fields@));
    }
    XdlStructMetadata { name: s.name.clone(), fields }
}

impl XdlType {
    /// The metadata that this value carries.
    pub fn get_metadata(&self) -> (r: XdlMetadata)
        ensures
            r@ == crate::value::metadata_of(self@),
    {
        match self {
            XdlType::Primitive(p) => XdlMetadata::Primitive(p.get_metadata()),
            XdlType::Vec(v) => XdlMetadata::Vec(XdlVecMetadata::new(xdl_metadata_clone(&v.inner_type))),
            XdlType::Struct(s) => XdlMetadata::Struct(xdl_struct_metadata_clone(&s.metadata)),
        }
    }

    /// Appends the XDL payload of this value.
    pub fn serialize_base_type(&self, writer: &mut Vec<u8>)
        ensures
            final(writer)@ == old(writer)@ + xdl_value_bytes(self@),
        decreases self,
    {
        match self {
            XdlType::Primitive(p) => p.serialize_without_metadata(writer),
            XdlType::Vec(v) => v.serialize_vec_type(writer),
            XdlType::Struct(s) => s.serialize_struct_type(writer),
        }
    }

    /// Reads the XDL payload of a value described by `metadata`.
    pub fn deserialize_base_type(metadata: &XdlMetadata, reader: &mut XbfReader) -> (r: Result<
        XdlType,
        XbfError,
    >)
        ensures
            final(reader).bytes == old(reader).bytes,
            match xdl_parse_value(metadata@, old(reader).bytes@, old(reader).pos as int) {
                Ok((v, at)) => r matches Ok(x) && x@ == v && final(reader).pos == at,
                Err(e) => r == Err::<XdlType, XbfError>(e),
            },
        decreases metadata@, 1int,
    {
        proof {
            lemma_xdl_metadata_view(*metadata);
        }
        match metadata {
            XdlMetadata::Primitive(p) => {
                proof {
                    assert(xdl_id_of_kind(xdl_kind(p.0)) == p.0);
                }
                let x = XdlPrimitive::deserialize_known_metadata(*p, reader)?;
                Ok(XdlType::Primitive(x))
            },
            XdlMetadata::Vec(vm) => {
                let inner = vm.inner_type();
                proof {
                    let m = metadata@;
                    assert(m is Vector && *m->Vector_0 == inner@);
                    assert(decreases_to!(m => *m->Vector_0));
                }
                XdlVec::deserialize_vec_type(inner, reader)
            },
            XdlMetadata::Struct(sm) => {
                let s = XdlStruct::deserialize_struct_type(sm, reader)?;
                Ok(XdlType::Struct(s))
            },
        }
    }
}

impl XdlVec {
    /// An XDL vector of elements described by `inner_type`; fails unless every element carries
    /// that metadata.
    pub fn new(inner_type: XdlMetadata, elements: Vec<XdlType>) -> (r: Result<
        XdlVec,
        ElementsNotHomogenousError,
    >)
        ensures
            r is Ok <==> forall|i: int|
                0 <= i < elements@.len() ==> crate::value::metadata_of(#[trigger] elements@[i]@)
                    == inner_type@,
            r matches Ok(v) ==> v@ == Value::Vector(inner_type@, xdl_types_view(elements@)),
    {
        let mut i: usize = 0;
        while i < elements.len()
            invariant
                i <= elements@.len(),
                forall|k: int|
                    0 <= k < i ==> crate::value::metadata_of(#[trigger] elements@[k]@)
                        == inner_type@,
            decreases elements@.len() - i,
        {
            let m = elements[i].get_metadata();
            if !xdl_metadata_eq(&m, &inner_type) {
                return Err(ElementsNotHomogenousError);
            }
            i += 1;
        }
        Ok(XdlVec { inner_type, elements })
    }

    /// An XDL vector of elements taken as they are.
    pub fn new_unchecked(inner_type: XdlMetadata, elements: Vec<XdlType>) -> (r: XdlVec)
        ensures
            r@ == Value::Vector(inner_type@, xdl_types_view(elements@)),
    {
        XdlVec { inner_type, elements }
    }

    /// Appends the element count as a `u64` and then each element's XDL payload.
    pub fn serialize_vec_type(&self, writer: &mut Vec<u8>)
        ensures
            final(writer)@ == old(writer)@ + xdl_value_bytes(self@),
        decreases self,
    {
        proof {
            lemma_xdl_types_view(self.elements@);
        }
        let elements = &self.elements;
        push_u64(writer, elements.len() as u64);
        let ghost start = writer@;
        let mut i: usize = 0;
        proof {
            assert(xdl_types_view(elements@.take(0)) =~= Seq::<Value>::empty());
            assert(writer@ =~= start + xdl_values_bytes(xdl_types_view(elements@.take(0))));
        }
        while i < elements.len()
            invariant
                i <= elements@.len(),
                elements == &self.elements,
                xdl_types_view(elements@).len() == elements@.len(),
                forall|k: int|
                    0 <= k < elements@.len() ==> #[trigger] xdl_types_view(elements@)[k]
                        == elements@[k]@,
                writer@ == start + xdl_values_bytes(xdl_types_view(elements@.take(i as int))),
            decreases elements@.len() - i,
        {
            proof {
                assert(decreases_to!(self.elements => self.elements[i as int]));
                assert(xdl_types_view(elements@)[i as int] == elements@[i as int]@);
            }
            elements[i].serialize_base_type(writer);
            proof {
                assert(elements@.take(i + 1) =~= elements@.take(i as int).push(elements@[i as int]));
                lemma_xdl_types_view_push(elements@.take(i as int), elements@[i as int]);
                lemma_xdl_values_bytes_push(
                    xdl_types_view(elements@.take(i as int)),
                    elements@[i as int]@,
                );
            }
            i += 1;
        }
        proof {
            assert(elements@.take(i as int) =~= elements@);
        }
        assert(writer@ =~= old(writer)@ + xdl_value_bytes(self@));
    }

    /// Reads a `u64` element count and then that many elements described by `metadata`.
    pub fn deserialize_vec_type(metadata: &XdlMetadata, reader: &mut XbfReader) -> (r: Result<
        XdlType,
        XbfError,
    >)
        ensures
            final(reader).bytes == old(reader).bytes,
            match xdl_parse_value(
                Metadata::Vector(Box::new(metadata@)),
                old(reader).bytes@,
                old(reader).pos as int,
            ) {
                Ok((v, at)) => r matches Ok(x) && x@ == v && final(reader).pos == at,
                Err(e) => r == Err::<XdlType, XbfError>(e),
            },
        decreases metadata@, 2int,
    {
        let ghost m = Metadata::Vector(Box::new(metadata@));
        let ghost b = reader.bytes@;
        let ghost b0 = reader.bytes;
        let n = read_u64(reader)?;
        let ghost at = reader.pos as int;
        let mut elements: Vec<XdlType> = Vec::new();
        let mut i: u64 = 0;
        proof {
            assert(xdl_types_view(elements@) =~= Seq::<Value>::empty());
        }
        while i < n
            invariant
                reader.bytes == b0,
                b0 == old(reader).bytes,
                b == b0@,
                m == Metadata::Vector(Box::new(metadata@)),
                xdl_parse_value(m, b, old(reader).pos as int) == match xdl_parse_elements(
                    m,
                    b,
                    at,
                    n as int,
                ) {
                    Ok((xs, q)) => Ok((Value::Vector(metadata@, xs), q)),
                    Err(e) => Err(e),
                },
                i <= n,
                elements@.len() == i,
                xdl_parse_elements(m, b, at, i as int) == Ok::<(Seq<Value>, int), XbfError>(
                    (xdl_types_view(elements@), reader.pos as int),
                ),
            decreases n - i,
        {
            let x = match XdlType::deserialize_base_type(metadata, reader) {
                Ok(x) => x,
                Err(e) => {
                    proof {
                        lemma_xdl_parse_elements_err(m, b, at, i + 1, n as int);
                    }
                    return Err(e);
                },
            };
            let ghost old_elements = elements@;
            elements.push(x);
            proof {
                assert(elements@ =~= old_elements.push(x));
                lemma_xdl_types_view_push(old_elements, x);
            }
            i += 1;
        }
        let inner = xdl_metadata_clone(metadata);
        Ok(XdlType::Vec(XdlVec { inner_type: inner, elements }))
    }
}

impl XdlStruct {
    /// An XDL struct of metadata `metadata` holding `fields` as they are.
    pub fn new(metadata: XdlStructMetadata, fields: Vec<XdlType>) -> (r: XdlStruct)
        ensures
            r@ == Value::Record(metadata@, xdl_types_view(fields@)),
    {
        XdlStruct { metadata, fields }
    }

    /// Appends the XDL payload of each field in order.
    pub fn serialize_struct_type(&self, writer: &mut Vec<u8>)
        ensures
            final(writer)@ == old(writer)@ + xdl_value_bytes(self@),
        decreases self,
    {
        proof {
            lemma_xdl_types_view(self.fields@);
        }
        let fields = &self.fields;
        let ghost start = writer@;
        let mut i: usize = 0;
        proof {
            assert(xdl_types_view(fields@.take(0)) =~= Seq::<Value>::empty());
            assert(writer@ =~= start + xdl_values_bytes(xdl_types_view(fields@.take(0))));
        }
        while i < fields.len()
            invariant
                i <= fields@.len(),
                fields == &self.fields,
                xdl_types_view(fields@).len() == fields@.len(),
                forall|k: int|
                    0 <= k < fields@.len() ==> #[trigger] xdl_types_view(fields@)[k] == fields@[k]@,
                writer@ == start + xdl_values_bytes(xdl_types_view(fields@.take(i as int))),
            decreases fields@.len() - i,
        {
            proof {
                assert(decreases_to!(self.fields => self.fields[i as int]));
                assert(xdl_types_view(fields@)[i as int] == fields@[i as int]@);
                assert(self@ == Value::Record(self.metadata@, xdl_types_view(self.fields@)));
                assert(fields@ == self.fields@);
            }
            fields[i].serialize_base_type(writer);
            proof {
                assert(fields@.take(i + 1) =~= fields@.take(i as int).push(fields@[i as int]));
                lemma_xdl_types_view_push(fields@.take(i as int), fields@[i as int]);
                lemma_xdl_values_bytes_push(xdl_types_view(fields@.take(i as int)), fields@[i as int]@);
            }
            i += 1;
        }
        proof {
            assert(fields@.take(i as int) =~= fields@);
        }
        assert(writer@ =~= old(writer)@ + xdl_value_bytes(self@));
    }

    /// Reads, for each field of `metadata` in order, an XDL value described by its metadata.
    pub fn deserialize_struct_type(metadata: &XdlStructMetadata, reader: &mut XbfReader) -> (r:
        Result<XdlStruct, XbfError>)
        ensures
            final(reader).bytes == old(reader).bytes,
            match xdl_parse_value(metadata@, old(reader).bytes@, old(reader).pos as int) {
                Ok((v, at)) => r matches Ok(x) && x@ == v && final(reader).pos == at,
                Err(e) => r == Err::<XdlStruct, XbfError>(e),
            },
        decreases metadata@, 0int,
    {
        let ghost b = reader.bytes@;
        let ghost b0 = reader.bytes;
        let ghost pos = reader.pos as int;
        let n = metadata.field_count();
        let mut fields: Vec<XdlType> = Vec::new();
        let mut i: usize = 0;
        proof {
            assert(xdl_types_view(fields@) =~= Seq::<Value>::empty());
        }
        while i < n
            invariant
                reader.bytes == b0,
                b0 == old(reader).bytes,
                b == b0@,
                pos == old(reader).pos,
                metadata@ is Record,
                n == crate::metadata::record_fields(metadata@).len(),
                i <= n,
                fields@.len() == i,
                xdl_parse_field_values(metadata@, b, pos, i as int) == Ok::<
                    (Seq<Value>, int),
                    XbfError,
                >((xdl_types_view(fields@), reader.pos as int)),
            decreases n - i,
        {
            let ft = metadata.field_type(i);
            proof {
                let m = metadata@;
                let fs = crate::metadata::record_fields(m);
                assert(m is Record && m->Record_1 == fs);
                assert(decreases_to!(m => m->Record_1));
                assert(decreases_to!(fs => fs[i as int]));
                assert(decreases_to!(fs[i as int] => fs[i as int].1));
            }
            let x = match XdlType::deserialize_base_type(ft, reader) {
                Ok(x) => x,
                Err(e) => {
                    proof {
                        lemma_xdl_parse_field_values_err(metadata@, b, pos, i + 1, n as int);
                    }
                    return Err(e);
                },
            };
            let ghost old_fields = fields@;
            fields.push(x);
            proof {
                assert(fields@ =~= old_fields.push(x));
                lemma_xdl_types_view_push(old_fields, x);
            }
            i += 1;
        }
        let r = XdlStruct { metadata: xdl_struct_metadata_clone(metadata), fields };
        Ok(r)
    }
}

impl From<bool> for XdlPrimitive {
    fn from(x: bool) -> (r: XdlPrimitive) {
        XdlPrimitive::Bool(x)
    }
}

impl vstd::std_specs::convert::FromSpecImpl<bool> for XdlPrimitive {
    open spec fn obeys_from_spec() -> bool {
        true
    }

    open spec fn from_spec(x: bool) -> XdlPrimitive {
        XdlPrimitive::Bool(x)
    }
}

impl From<u8> for XdlPrimitive {
    fn from(x: u8) -> (r: XdlPrimitive) {
        XdlPrimitive::U8(x)
    }
}

impl vstd::std_specs::convert::FromSpecImpl<u8> for XdlPrimitive {
    open spec fn obeys_from_spec() -> bool {
        true
    }

    open spec fn from_spec(x: u8) -> XdlPrimitive {
        XdlPrimitive::U8(x)
    }
}

impl From<u16> for XdlPrimitive {
    fn from(x: u16) -> (r: XdlPrimitive) {
        XdlPrimitive::U16(x)
    }
}

impl vstd::std_specs::convert::FromSpecImpl<u16> for XdlPrimitive {
    open spec fn obeys_from_spec() -> bool {
        true
    }

    open spec fn from_spec(x: u16) -> XdlPrimitive {
        XdlPrimitive::U16(x)
    }
}

impl From<u32> for XdlPrimitive {
    fn from(x: u32) -> (r: XdlPrimitive) {
        XdlPrimitive::U32(x)
    }
}

impl vstd::std_specs::convert::FromSpecImpl<u32> for XdlPrimitive {
    open spec fn obeys_from_spec() -> bool {
        true
    }

    open spec fn from_spec(x: u32) -> XdlPrimitive {
        XdlPrimitive::U32(x)
    }
}

impl From<u64> for XdlPrimitive {
    fn from(x: u64) -> (r: XdlPrimitive) {
        XdlPrimitive::U64(x)
    }
}

impl vstd::std_specs::convert::FromSpecImpl<u64> for XdlPrimitive {
    open spec fn obeys_from_spec() -> bool {
        true
    }

    open spec fn from_spec(x: u64) -> XdlPrimitive {
        XdlPrimitive::U64(x)
    }
}

impl From<u128> for XdlPrimitive {
    fn from(x: u128) -> (r: XdlPrimitive) {
        XdlPrimitive::U128(x)
    }
}

impl vstd::std_specs::convert::FromSpecImpl<u128> for XdlPrimitive {
    open spec fn obeys_from_spec() -> bool {
        true
    }

    open spec fn from_spec(x: u128) -> XdlPrimitive {
        XdlPrimitive::U128(x)
    }
}

impl From<i8> for XdlPrimitive {
    fn from(x: i8) -> (r: XdlPrimitive) {
        XdlPrimitive::I8(x)
    }
}

impl vstd::std_specs::convert::FromSpecImpl<i8> for XdlPrimitive {
    open spec fn obeys_from_spec() -> bool {
        true
    }

    open spec fn from_spec(x: i8) -> XdlPrimitive {
        XdlPrimitive::I8(x)
    }
}

impl From<i16> for XdlPrimitive {
    fn from(x: i16) -> (r: XdlPrimitive) {
        XdlPrimitive::I16(x)
    }
}

impl vstd::std_specs::convert::FromSpecImpl<i16> for XdlPrimitive {
    open spec fn obeys_from_spec() -> bool {
        true
    }

    open spec fn from_spec(x: i16) -> XdlPrimitive {
        XdlPrimitive::I16(x)
    }
}

impl From<i32> for XdlPrimitive {
    fn from(x: i32) -> (r: XdlPrimitive) {
        XdlPrimitive::I32(x)
    }
}

impl vstd::std_specs::convert::FromSpecImpl<i32> for XdlPrimitive {
    open spec fn obeys_from_spec() -> bool {
        true
    }

    open spec fn from_spec(x: i32) -> XdlPrimitive {
        XdlPrimitive::I32(x)
    }
}

impl From<i64> for XdlPrimitive {
    fn from(x: i64) -> (r: XdlPrimitive) {
        XdlPrimitive::I64(x)
    }
}

impl vstd::std_specs::convert::FromSpecImpl<i64> for XdlPrimitive {
    open spec fn obeys_from_spec() -> bool {
        true
    }

    open spec fn from_spec(x: i64) -> XdlPrimitive {
        XdlPrimitive::I64(x)
    }
}

impl From<i128> for XdlPrimitive {
    fn from(x: i128) -> (r: XdlPrimitive) {
        XdlPrimitive::I128(x)
    }
}

impl vstd::std_specs::convert::FromSpecImpl<i128> for XdlPrimitive {
    open spec fn obeys_from_spec() -> bool {
        true
    }

    open spec fn from_spec(x: i128) -> XdlPrimitive {
        XdlPrimitive::I128(x)
    }
}

impl From<String> for XdlPrimitive {
    fn from(x: String) -> (r: XdlPrimitive) {
        XdlPrimitive::String(x)
    }
}

impl vstd::std_specs::convert::FromSpecImpl<String> for XdlPrimitive {
    open spec fn obeys_from_spec() -> bool {
        true
    }

    open spec fn from_spec(x: String) -> XdlPrimitive {
        XdlPrimitive::String(x)
    }
}

/// Metadata that XDL can hold: no byte-string kind, at most 65535 fields per struct with unique
/// names, and names whose UTF-8 length fits the `u64` prefix.
pub open spec fn xdl_metadata_wf(m: Metadata) -> bool
    decreases m,
{
    match m {
        Metadata::Primitive(k) => k != XbfPrimitiveMetadata::Bytes,
        Metadata::Vector(inner) => xdl_metadata_wf(*inner),
        Metadata::Record(name, fields) => {
            &&& fields.len() <= 0xFFFF
            &&& encode_utf8(name).len() < byte_range(8)
            &&& names_unique(fields)
            &&& forall|i: int|
                0 <= i < fields.len() ==> encode_utf8(#[trigger] fields[i].0).len() < byte_range(8)
            &&& forall|i: int| 0 <= i < fields.len() ==> xdl_metadata_wf(#[trigger] fields[i].1)
        },
    }
}

/// The fields of struct metadata that XDL can hold.
pub open spec fn xdl_fields_wf(fields: Seq<(Seq<char>, Metadata)>) -> bool {
    &&& names_unique(fields)
    &&& forall|i: int|
        0 <= i < fields.len() ==> encode_utf8(#[trigger] fields[i].0).len() < byte_range(8)
    &&& forall|i: int| 0 <= i < fields.len() ==> xdl_metadata_wf(#[trigger] fields[i].1)
}

pub proof fn lemma_xdl_kind_discriminant(k: XbfPrimitiveMetadata)
    requires
        k != XbfPrimitiveMetadata::Bytes,
    ensures
        xdl_discriminant_of_kind(k) <= 16,
        xdl_id_of(xdl_discriminant_of_kind(k)) == Some(xdl_id_of_kind(k)),
        xdl_kind(xdl_id_of_kind(k)) == k,
{
}

/// XDL metadata is read back from its bytes, whatever follows them.
pub proof fn lemma_xdl_metadata_round_trip(m: Metadata, b: Seq<u8>, pos: int)
    requires
        xdl_metadata_wf(m),
        0 <= pos,
        pos + xdl_metadata_bytes(m).len() <= b.len(),
        b.subrange(pos, pos + xdl_metadata_bytes(m).len()) == xdl_metadata_bytes(m),
    ensures
        xdl_parse_metadata(b, pos) == Ok::<(Metadata, int), XbfError>(
            (m, pos + xdl_metadata_bytes(m).len()),
        ),
    decreases m,
{
    let w = xdl_metadata_bytes(m);
    assert(b[pos] == w[0]) by {
        assert(b[pos] == b.subrange(pos, pos + w.len())[0]);
    }
    match m {
        Metadata::Primitive(k) => {
            lemma_xdl_kind_discriminant(k);
            assert(w.len() == 1);
            assert(b[pos] == xdl_discriminant_of_kind(k));
            assert(xdl_id_of(b[pos]) == Some(xdl_id_of_kind(k)));
            assert(xdl_parse_metadata(b, pos) == Ok::<(Metadata, int), XbfError>(
                (m, pos + 1),
            ));
        },
        Metadata::Vector(inner) => {
            let iw = xdl_metadata_bytes(*inner);
            assert(b.subrange(pos + 1, pos + 1 + iw.len()) =~= w.subrange(1, w.len() as int));
            assert(w.subrange(1, w.len() as int) =~= iw);
            lemma_xdl_metadata_round_trip(*inner, b, pos + 1);
            assert(b[pos] == XDL_VEC_DISCRIMINANT);
            assert(xdl_id_of(b[pos]) is None);
            assert(w.len() == 1 + iw.len());
        },
        Metadata::Record(name, fields) => {
            let ns = lp_string(name);
            let nb = le_bytes(fields.len(), 2);
            let fb = xdl_fields_bytes(fields);
            let nl = ns.len() as int;
            let wl = w.len() as int;
            lemma_le_bytes_len(fields.len(), 2);
            lemma_byte_ranges();
            lemma_le_value_of_bytes(fields.len(), 2);
            assert(w =~= seq![XDL_STRUCT_DISCRIMINANT] + ns + nb + fb);
            let at0 = pos + 1;
            assert(b.subrange(at0, at0 + nl) =~= w.subrange(1, 1 + nl));
            assert(w.subrange(1, 1 + nl) =~= ns);
            lemma_parse_lp_string(name, b, at0);
            let at1 = at0 + nl;
            assert(b.subrange(at1, at1 + 2) =~= w.subrange(1 + nl, 3 + nl));
            assert(w.subrange(1 + nl, 3 + nl) =~= nb);
            let at2 = at1 + 2;
            assert(b.subrange(at2, at2 + fb.len()) =~= w.subrange(3 + nl, wl));
            assert(w.subrange(3 + nl, wl) =~= fb);
            lemma_xdl_fields_round_trip(fields, b, at2);
            assert(pos + w.len() == at2 + fb.len());
            assert(b[pos] == XDL_STRUCT_DISCRIMINANT);
            assert(xdl_id_of(b[pos]) is None);
            assert(xdl_parse_record(b, pos + 1) == Ok::<(Metadata, int), XbfError>(
                (m, pos + w.len()),
            ));
        },
    }
}

/// The fields of XDL struct metadata are read back from their bytes, whatever follows them.
pub proof fn lemma_xdl_fields_round_trip(fields: Seq<(Seq<char>, Metadata)>, b: Seq<u8>, pos: int)
    requires
        xdl_fields_wf(fields),
        0 <= pos,
        pos + xdl_fields_bytes(fields).len() <= b.len(),
        b.subrange(pos, pos + xdl_fields_bytes(fields).len()) == xdl_fields_bytes(fields),
    ensures
        xdl_parse_fields(b, pos, fields.len() as int) == Ok::<
            (Seq<(Seq<char>, Metadata)>, int),
            XbfError,
        >((fields, pos + xdl_fields_bytes(fields).len())),
    decreases fields,
{
    if fields.len() > 0 {
        let prev = fields.drop_last();
        let last = fields.last();
        let w = xdl_fields_bytes(fields);
        let pw = xdl_fields_bytes(prev);
        let ns = lp_string(last.0);
        let mw = xdl_metadata_bytes(last.1);
        let pl = pw.len() as int;
        let nl = ns.len() as int;
        let wl = w.len() as int;
        assert(w =~= pw + ns + mw);
        assert(xdl_fields_wf(prev)) by {
            assert forall|i: int| 0 <= i < prev.len() implies xdl_metadata_wf(#[trigger] prev[i].1)
                && encode_utf8(prev[i].0).len() < byte_range(8) by {
                assert(prev[i] == fields[i]);
            }
            assert forall|i: int, j: int|
                0 <= i < prev.len() && 0 <= j < prev.len() && i != j implies #[trigger] prev[i].0
                != #[trigger] prev[j].0 by {
                assert(prev[i] == fields[i] && prev[j] == fields[j]);
            }
        }
        assert(b.subrange(pos, pos + pl) =~= w.subrange(0, pl));
        assert(w.subrange(0, pl) =~= pw);
        lemma_xdl_fields_round_trip(prev, b, pos);
        let p = pos + pl;
        assert(b.subrange(p, p + nl) =~= w.subrange(pl, pl + nl));
        assert(w.subrange(pl, pl + nl) =~= ns);
        assert(encode_utf8(last.0).len() < byte_range(8)) by {
            assert(last == fields[fields.len() - 1]);
        }
        lemma_parse_lp_string(last.0, b, p);
        assert(!has_field(prev, last.0)) by {
            if has_field(prev, last.0) {
                let j = choose|j: int| 0 <= j < prev.len() && #[trigger] prev[j].0 == last.0;
                assert(prev[j] == fields[j]);
                assert(fields[j].0 != fields[fields.len() - 1].0);
            }
        }
        let at1 = p + nl;
        assert(b.subrange(at1, at1 + mw.len()) =~= w.subrange(pl + nl, wl));
        assert(w.subrange(pl + nl, wl) =~= mw);
        assert(xdl_metadata_wf(last.1)) by {
            assert(last == fields[fields.len() - 1]);
        }
        lemma_xdl_metadata_round_trip(last.1, b, at1);
        assert(prev.push(last) =~= fields);
        assert(xdl_parse_fields(b, pos, fields.len() - 1) == Ok::<
            (Seq<(Seq<char>, Metadata)>, int),
            XbfError,
        >((prev, p)));
        assert(fields.len() - 1 == prev.len());
    } else {
        assert(fields =~= seq![]);
    }
}

/// A copy of an XDL primitive value.
fn clone_xdl_primitive(p: &XdlPrimitive) -> (r: XdlPrimitive)
    ensures
        r@ == p@,
{
    match p {
        XdlPrimitive::String(x) => XdlPrimitive::String(x.clone()),
        XdlPrimitive::Bool(x) => XdlPrimitive::Bool(*x),
        XdlPrimitive::U8(x) => XdlPrimitive::U8(*x),
        XdlPrimitive::U16(x) => XdlPrimitive::U16(*x),
        XdlPrimitive::U32(x) => XdlPrimitive::U32(*x),
        XdlPrimitive::U64(x) => XdlPrimitive::U64(*x),
        XdlPrimitive::U128(x) => XdlPrimitive::U128(*x),
        XdlPrimitive::U256(x) => XdlPrimitive::U256(*x),
        XdlPrimitive::I8(x) => XdlPrimitive::I8(*x),
        XdlPrimitive::I16(x) => XdlPrimitive::I16(*x),
        XdlPrimitive::I32(x) => XdlPrimitive::I32(*x),
        XdlPrimitive::I64(x) => XdlPrimitive::I64(*x),
        XdlPrimitive::I128(x) => XdlPrimitive::I128(*x),
        XdlPrimitive::I256(x) => XdlPrimitive::I256(*x),
        XdlPrimitive::F32(x) => XdlPrimitive::F32(*x),
        XdlPrimitive::F64(x) => XdlPrimitive::F64(*x),
    }
}

/// A copy of a list of XDL values.
fn clone_xdl_values(xs: &Vec<XdlType>) -> (r: Vec<XdlType>)
    ensures
        xdl_types_view(r@) == xdl_types_view(xs@),
    decreases xs,
{
    let mut out: Vec<XdlType> = Vec::new();
    let mut i: usize = 0;
    while i < xs.len()
        invariant
            i <= xs@.len(),
            out@.len() == i,
            forall|k: int| 0 <= k < i ==> #[trigger] out@[k]@ == xs@[k]@,
        decreases xs@.len() - i,
    {
        proof {
            assert(decreases_to!(*xs => xs[i as int]));
        }
        let x = clone_xdl_value(&xs[i]);
        out.push(x);
        i += 1;
    }
    proof {
        lemma_xdl_types_view(out@);
        lemma_xdl_types_view(xs@);
        assert forall|k: int| 0 <= k < out@.len() implies #[trigger] xdl_types_view(out@)[k]
            == xdl_types_view(xs@)[k] by {
            assert(out@[k]@ == xs@[k]@);
        }
        assert(xdl_types_view(out@) =~= xdl_types_view(xs@));
    }
    out
}

/// A copy of an XDL value.
fn clone_xdl_value(t: &XdlType) -> (r: XdlType)
    ensures
        r@ == t@,
    decreases t,
{
    match t {
        XdlType::Primitive(p) => XdlType::Primitive(clone_xdl_primitive(p)),
        XdlType::Vec(v) => {
            proof {
                assert(decreases_to!(*t => v.elements));
            }
            let elements = clone_xdl_values(&v.elements);
            XdlType::Vec(XdlVec { inner_type: xdl_metadata_clone(&v.inner_type), elements })
        },
        XdlType::Struct(s) => {
            proof {
                assert(decreases_to!(*t => s.fields));
            }
            let fields = clone_xdl_values(&s.fields);
            XdlType::Struct(XdlStruct { metadata: xdl_struct_metadata_clone(&s.metadata), fields })
        },
    }
}

/// Conversion of each kind of XDL value into an XDL value of any kind.
pub trait XdlTypeUpcast: Sized {
    /// What the converted value is.
    spec fn upcast_view(&self) -> Value;

    fn into_base_type(self) -> (r: XdlType)
        ensures
            r@ == self.upcast_view(),
    ;

    fn to_base_type(&self) -> (r: XdlType)
        ensures
            r@ == self.upcast_view(),
    ;
}

impl XdlTypeUpcast for XdlPrimitive {
    open spec fn upcast_view(&self) -> Value {
        Value::Primitive(self@)
    }

    fn into_base_type(self) -> (r: XdlType) {
        XdlType::Primitive(self)
    }

    fn to_base_type(&self) -> (r: XdlType) {
        XdlType::Primitive(clone_xdl_primitive(self))
    }
}

impl XdlTypeUpcast for XdlVec {
    open spec fn upcast_view(&self) -> Value {
        self@
    }

    fn into_base_type(self) -> (r: XdlType) {
        XdlType::Vec(self)
    }

    fn to_base_type(&self) -> (r: XdlType) {
        let elements = clone_xdl_values(&self.elements);
        XdlType::Vec(XdlVec { inner_type: xdl_metadata_clone(&self.inner_type), elements })
    }
}

impl XdlTypeUpcast for XdlStruct {
    open spec fn upcast_view(&self) -> Value {
        self@
    }

    fn into_base_type(self) -> (r: XdlType) {
        XdlType::Struct(self)
    }

    fn to_base_type(&self) -> (r: XdlType) {
        let fields = clone_xdl_values(&self.fields);
        XdlType::Struct(XdlStruct { metadata: xdl_struct_metadata_clone(&self.metadata), fields })
    }
}

} // verus!
