//! Primitive metadata and primitive values: the scalar leaves of every type.
use crate::wire::{
    le_bytes, lemma_le_bytes_len, lemma_le_bytes_of_value, lemma_parse_lp_bytes,
    lemma_parse_lp_string, lp_bytes, lp_string, parse_lp_bytes, parse_lp_string, push_u128,
    push_u16, push_u32, push_u64, read_bytes, read_string, read_u128, read_u16, read_u32, read_u64,
    read_u8, write_bytes, write_string, byte_range, XbfError, XbfReader,
};
use vstd::prelude::*;
use vstd::utf8::encode_utf8;

verus! {

/// The kind of a primitive value. Its discriminant on the wire is its position in this list.
#[derive(PartialEq, Eq, Debug, Copy, Clone, Structural)]
pub enum XbfPrimitiveMetadata {
    Bool,
    U8,
    U16,
    U32,
    U64,
    U128,
    U256,
    I8,
    I16,
    I32,
    I64,
    I128,
    I256,
    F32,
    F64,
    Bytes,
    String,
}

/// The discriminant byte of each primitive kind.
pub open spec fn primitive_discriminant(k: XbfPrimitiveMetadata) -> u8 {
    match k {
        XbfPrimitiveMetadata::Bool => 0,
        XbfPrimitiveMetadata::U8 => 1,
        XbfPrimitiveMetadata::U16 => 2,
        XbfPrimitiveMetadata::U32 => 3,
        XbfPrimitiveMetadata::U64 => 4,
        XbfPrimitiveMetadata::U128 => 5,
        XbfPrimitiveMetadata::U256 => 6,
        XbfPrimitiveMetadata::I8 => 7,
        XbfPrimitiveMetadata::I16 => 8,
        XbfPrimitiveMetadata::I32 => 9,
        XbfPrimitiveMetadata::I64 => 10,
        XbfPrimitiveMetadata::I128 => 11,
        XbfPrimitiveMetadata::I256 => 12,
        XbfPrimitiveMetadata::F32 => 13,
        XbfPrimitiveMetadata::F64 => 14,
        XbfPrimitiveMetadata::Bytes => 15,
        XbfPrimitiveMetadata::String => 16,
    }
}

/// The primitive kind that a discriminant byte names, if any.
pub open spec fn primitive_of_discriminant(d: u8) -> Option<XbfPrimitiveMetadata> {
    if d == 0 {
        Some(XbfPrimitiveMetadata::Bool)
    } else if d == 1 {
        Some(XbfPrimitiveMetadata::U8)
    } else if d == 2 {
        Some(XbfPrimitiveMetadata::U16)
    } else if d == 3 {
        Some(XbfPrimitiveMetadata::U32)
    } else if d == 4 {
        Some(XbfPrimitiveMetadata::U64)
    } else if d == 5 {
        Some(XbfPrimitiveMetadata::U128)
    } else if d == 6 {
        Some(XbfPrimitiveMetadata::U256)
    } else if d == 7 {
        Some(XbfPrimitiveMetadata::I8)
    } else if d == 8 {
        Some(XbfPrimitiveMetadata::I16)
    } else if d == 9 {
        Some(XbfPrimitiveMetadata::I32)
    } else if d == 10 {
        Some(XbfPrimitiveMetadata::I64)
    } else if d == 11 {
        Some(XbfPrimitiveMetadata::I128)
    } else if d == 12 {
        Some(XbfPrimitiveMetadata::I256)
    } else if d == 13 {
        Some(XbfPrimitiveMetadata::F32)
    } else if d == 14 {
        Some(XbfPrimitiveMetadata::F64)
    } else if d == 15 {
        Some(XbfPrimitiveMetadata::Bytes)
    } else if d == 16 {
        Some(XbfPrimitiveMetadata::String)
    } else {
        None
    }
}

pub proof fn lemma_primitive_discriminant(k: XbfPrimitiveMetadata)
    ensures
        primitive_discriminant(k) <= 16,
        primitive_of_discriminant(primitive_discriminant(k)) == Some(k),
{
}

/// The name of a primitive kind, as messages print it.
pub open spec fn primitive_name(k: XbfPrimitiveMetadata) -> Seq<char> {
    match k {
        XbfPrimitiveMetadata::Bool => "Bool"@,
        XbfPrimitiveMetadata::U8 => "U8"@,
        XbfPrimitiveMetadata::U16 => "U16"@,
        XbfPrimitiveMetadata::U32 => "U32"@,
        XbfPrimitiveMetadata::U64 => "U64"@,
        XbfPrimitiveMetadata::U128 => "U128"@,
        XbfPrimitiveMetadata::U256 => "U256"@,
        XbfPrimitiveMetadata::I8 => "I8"@,
        XbfPrimitiveMetadata::I16 => "I16"@,
        XbfPrimitiveMetadata::I32 => "I32"@,
        XbfPrimitiveMetadata::I64 => "I64"@,
        XbfPrimitiveMetadata::I128 => "I128"@,
        XbfPrimitiveMetadata::I256 => "I256"@,
        XbfPrimitiveMetadata::F32 => "F32"@,
        XbfPrimitiveMetadata::F64 => "F64"@,
        XbfPrimitiveMetadata::Bytes => "Bytes"@,
        XbfPrimitiveMetadata::String => "String"@,
    }
}

/// The number of bytes of a fixed-width kind; zero for the others.
pub open spec fn fixed_width(k: XbfPrimitiveMetadata) -> nat {
    match k {
        XbfPrimitiveMetadata::U8 | XbfPrimitiveMetadata::I8 => 1,
        XbfPrimitiveMetadata::U16 | XbfPrimitiveMetadata::I16 => 2,
        XbfPrimitiveMetadata::U32 | XbfPrimitiveMetadata::I32 | XbfPrimitiveMetadata::F32 => 4,
        XbfPrimitiveMetadata::U64 | XbfPrimitiveMetadata::I64 | XbfPrimitiveMetadata::F64 => 8,
        XbfPrimitiveMetadata::U128 | XbfPrimitiveMetadata::I128 => 16,
        XbfPrimitiveMetadata::U256 | XbfPrimitiveMetadata::I256 => 32,
        _ => 0,
    }
}

/// A primitive value as the format sees it. A fixed-width number is its little-endian bytes
/// (a float its IEEE 754 bits, a 256-bit number its four limbs in order).
pub enum PrimitiveValue {
    Bool(bool),
    Fixed(XbfPrimitiveMetadata, Seq<u8>),
    Bytes(Seq<u8>),
    Text(Seq<char>),
}

/// The kind of a primitive value.
pub open spec fn primitive_kind(p: PrimitiveValue) -> XbfPrimitiveMetadata {
    match p {
        PrimitiveValue::Bool(_) => XbfPrimitiveMetadata::Bool,
        PrimitiveValue::Fixed(k, _) => k,
        PrimitiveValue::Bytes(_) => XbfPrimitiveMetadata::Bytes,
        PrimitiveValue::Text(_) => XbfPrimitiveMetadata::String,
    }
}

/// A primitive value of a consistent shape: a fixed-width number has the bytes of its kind.
pub open spec fn primitive_wf(p: PrimitiveValue) -> bool {
    match p {
        PrimitiveValue::Fixed(k, bs) => fixed_width(k) > 0 && bs.len() == fixed_width(k),
        _ => true,
    }
}

/// A primitive value whose payload length fits the `u64` length prefix.
pub open spec fn primitive_fits(p: PrimitiveValue) -> bool {
    match p {
        PrimitiveValue::Bytes(bs) => bs.len() < byte_range(8),
        PrimitiveValue::Text(s) => encode_utf8(s).len() < byte_range(8),
        _ => true,
    }
}

/// The bytes of a primitive value.
pub open spec fn primitive_bytes(p: PrimitiveValue) -> Seq<u8> {
    match p {
        PrimitiveValue::Bool(b) => seq![if b { 1u8 } else { 0u8 }],
        PrimitiveValue::Fixed(_, bs) => bs,
        PrimitiveValue::Bytes(bs) => lp_bytes(bs),
        PrimitiveValue::Text(s) => lp_string(s),
    }
}

/// What reading a primitive of kind `k` at `pos` gives: the value and the position after it.
pub open spec fn parse_primitive(k: XbfPrimitiveMetadata, b: Seq<u8>, pos: int) -> Result<
    (PrimitiveValue, int),
    XbfError,
> {
    match k {
        XbfPrimitiveMetadata::Bool => if 0 <= pos && pos + 1 <= b.len() {
            Ok((PrimitiveValue::Bool(b[pos] != 0), pos + 1))
        } else {
            Err(XbfError::UnexpectedEof)
        },
        XbfPrimitiveMetadata::Bytes => match parse_lp_bytes(b, pos) {
            Ok((bs, p)) => Ok((PrimitiveValue::Bytes(bs), p)),
            Err(e) => Err(e),
        },
        XbfPrimitiveMetadata::String => match parse_lp_string(b, pos) {
            Ok((s, p)) => Ok((PrimitiveValue::Text(s), p)),
            Err(e) => Err(e),
        },
        _ => if 0 <= pos && pos + fixed_width(k) <= b.len() {
            Ok(
                (
                    PrimitiveValue::Fixed(k, b.subrange(pos, pos + fixed_width(k))),
                    pos + fixed_width(k),
                ),
            )
        } else {
            Err(XbfError::UnexpectedEof)
        },
    }
}

/// Reading back the bytes of a primitive value gives the value, whatever follows them.
pub proof fn lemma_primitive_round_trip(p: PrimitiveValue, b: Seq<u8>, pos: int)
    requires
        primitive_wf(p),
        primitive_fits(p),
        0 <= pos,
        pos + primitive_bytes(p).len() <= b.len(),
        b.subrange(pos, pos + primitive_bytes(p).len()) == primitive_bytes(p),
    ensures
        parse_primitive(primitive_kind(p), b, pos) == Ok::<(PrimitiveValue, int), XbfError>(
            (p, pos + primitive_bytes(p).len()),
        ),
{
    match p {
        PrimitiveValue::Bool(v) => {
            assert(b[pos] == b.subrange(pos, pos + 1)[0]);
        },
        PrimitiveValue::Fixed(k, bs) => {},
        PrimitiveValue::Bytes(bs) => {
            lemma_parse_lp_bytes(bs, b, pos);
        },
        PrimitiveValue::Text(s) => {
            lemma_parse_lp_string(s, b, pos);
        },
    }
}

impl XbfPrimitiveMetadata {
    /// The name of this kind, as messages print it.
    pub fn name(&self) -> (r: &'static str)
        ensures
            r@ == primitive_name(*self),
    {
        match self {
            XbfPrimitiveMetadata::Bool => "Bool",
            XbfPrimitiveMetadata::U8 => "U8",
            XbfPrimitiveMetadata::U16 => "U16",
            XbfPrimitiveMetadata::U32 => "U32",
            XbfPrimitiveMetadata::U64 => "U64",
            XbfPrimitiveMetadata::U128 => "U128",
            XbfPrimitiveMetadata::U256 => "U256",
            XbfPrimitiveMetadata::I8 => "I8",
            XbfPrimitiveMetadata::I16 => "I16",
            XbfPrimitiveMetadata::I32 => "I32",
            XbfPrimitiveMetadata::I64 => "I64",
            XbfPrimitiveMetadata::I128 => "I128",
            XbfPrimitiveMetadata::I256 => "I256",
            XbfPrimitiveMetadata::F32 => "F32",
            XbfPrimitiveMetadata::F64 => "F64",
            XbfPrimitiveMetadata::Bytes => "Bytes",
            XbfPrimitiveMetadata::String => "String",
        }
    }

    /// The discriminant byte of this kind.
    pub fn discriminant(&self) -> (r: u8)
        ensures
            r == primitive_discriminant(*self),
    {
        match self {
            XbfPrimitiveMetadata::Bool => 0,
            XbfPrimitiveMetadata::U8 => 1,
            XbfPrimitiveMetadata::U16 => 2,
            XbfPrimitiveMetadata::U32 => 3,
            XbfPrimitiveMetadata::U64 => 4,
            XbfPrimitiveMetadata::U128 => 5,
            XbfPrimitiveMetadata::U256 => 6,
            XbfPrimitiveMetadata::I8 => 7,
            XbfPrimitiveMetadata::I16 => 8,
            XbfPrimitiveMetadata::I32 => 9,
            XbfPrimitiveMetadata::I64 => 10,
            XbfPrimitiveMetadata::I128 => 11,
            XbfPrimitiveMetadata::I256 => 12,
            XbfPrimitiveMetadata::F32 => 13,
            XbfPrimitiveMetadata::F64 => 14,
            XbfPrimitiveMetadata::Bytes => 15,
            XbfPrimitiveMetadata::String => 16,
        }
    }

    /// The primitive kind that a discriminant byte names; any byte above 16 is refused as
    /// invalid primitive metadata.
    pub fn from_discriminant(d: u8) -> (r: Result<XbfPrimitiveMetadata, XbfError>)
        ensures
            match primitive_of_discriminant(d) {
                Some(k) => r == Ok::<XbfPrimitiveMetadata, XbfError>(k),
                None => r == Err::<XbfPrimitiveMetadata, XbfError>(
                    XbfError::InvalidPrimitiveMetadata(d),
                ),
            },
    {
        match d {
            0 => Ok(XbfPrimitiveMetadata::Bool),
            1 => Ok(XbfPrimitiveMetadata::U8),
            2 => Ok(XbfPrimitiveMetadata::U16),
            3 => Ok(XbfPrimitiveMetadata::U32),
            4 => Ok(XbfPrimitiveMetadata::U64),
            5 => Ok(XbfPrimitiveMetadata::U128),
            6 => Ok(XbfPrimitiveMetadata::U256),
            7 => Ok(XbfPrimitiveMetadata::I8),
            8 => Ok(XbfPrimitiveMetadata::I16),
            9 => Ok(XbfPrimitiveMetadata::I32),
            10 => Ok(XbfPrimitiveMetadata::I64),
            11 => Ok(XbfPrimitiveMetadata::I128),
            12 => Ok(XbfPrimitiveMetadata::I256),
            13 => Ok(XbfPrimitiveMetadata::F32),
            14 => Ok(XbfPrimitiveMetadata::F64),
            15 => Ok(XbfPrimitiveMetadata::Bytes),
            16 => Ok(XbfPrimitiveMetadata::String),
            _ => Err(XbfError::InvalidPrimitiveMetadata(d)),
        }
    }

    /// Appends the single discriminant byte of this kind.
    pub fn serialize_primitive_metadata(&self, writer: &mut Vec<u8>)
        ensures
            final(writer)@ == old(writer)@.push(primitive_discriminant(*self)),
    {
        writer.push(self.discriminant());
    }
}

/// A primitive value. Floats are held as their IEEE 754 bits (`f32::to_bits`, `f64::to_bits`);
/// 256-bit numbers as four 64-bit limbs, least significant first.
#[derive(Debug, Clone, PartialEq)]
pub enum XbfPrimitive {
    Bool(bool),
    U8(u8),
    U16(u16),
    U32(u32),
    U64(u64),
    U128(u128),
    U256([u64; 4]),
    I8(i8),
    I16(i16),
    I32(i32),
    I64(i64),
    I128(i128),
    I256([u64; 4]),
    F32(u32),
    F64(u64),
    Bytes(Vec<u8>),
    String(String),
}

/// The bytes of four 64-bit limbs in order.
pub open spec fn limb_bytes(l: Seq<u64>) -> Seq<u8> {
    le_bytes(l[0] as nat, 8) + le_bytes(l[1] as nat, 8) + le_bytes(l[2] as nat, 8) + le_bytes(
        l[3] as nat,
        8,
    )
}

impl View for XbfPrimitive {
    type V = PrimitiveValue;

    open spec fn view(&self) -> PrimitiveValue {
        match self {
            XbfPrimitive::Bool(b) => PrimitiveValue::Bool(*b),
            XbfPrimitive::U8(x) => PrimitiveValue::Fixed(
                XbfPrimitiveMetadata::U8,
                le_bytes(*x as nat, 1),
            ),
            XbfPrimitive::U16(x) => PrimitiveValue::Fixed(
                XbfPrimitiveMetadata::U16,
                le_bytes(*x as nat, 2),
            ),
            XbfPrimitive::U32(x) => PrimitiveValue::Fixed(
                XbfPrimitiveMetadata::U32,
                le_bytes(*x as nat, 4),
            ),
            XbfPrimitive::U64(x) => PrimitiveValue::Fixed(
                XbfPrimitiveMetadata::U64,
                le_bytes(*x as nat, 8),
            ),
            XbfPrimitive::U128(x) => PrimitiveValue::Fixed(
                XbfPrimitiveMetadata::U128,
                le_bytes(*x as nat, 16),
            ),
            XbfPrimitive::U256(l) => PrimitiveValue::Fixed(
                XbfPrimitiveMetadata::U256,
                limb_bytes(l@),
            ),
            XbfPrimitive::I8(x) => PrimitiveValue::Fixed(
                XbfPrimitiveMetadata::I8,
                le_bytes((*x as u8) as nat, 1),
            ),
            XbfPrimitive::I16(x) => PrimitiveValue::Fixed(
                XbfPrimitiveMetadata::I16,
                le_bytes((*x as u16) as nat, 2),
            ),
            XbfPrimitive::I32(x) => PrimitiveValue::Fixed(
                XbfPrimitiveMetadata::I32,
                le_bytes((*x as u32) as nat, 4),
            ),
            XbfPrimitive::I64(x) => PrimitiveValue::Fixed(
                XbfPrimitiveMetadata::I64,
                le_bytes((*x as u64) as nat, 8),
            ),
            XbfPrimitive::I128(x) => PrimitiveValue::Fixed(
                XbfPrimitiveMetadata::I128,
                le_bytes((*x as u128) as nat, 16),
            ),
            XbfPrimitive::I256(l) => PrimitiveValue::Fixed(
                XbfPrimitiveMetadata::I256,
                limb_bytes(l@),
            ),
            XbfPrimitive::F32(x) => PrimitiveValue::Fixed(
                XbfPrimitiveMetadata::F32,
                le_bytes(*x as nat, 4),
            ),
            XbfPrimitive::F64(x) => PrimitiveValue::Fixed(
                XbfPrimitiveMetadata::F64,
                le_bytes(*x as nat, 8),
            ),
            XbfPrimitive::Bytes(v) => PrimitiveValue::Bytes(v@),
            XbfPrimitive::String(s) => PrimitiveValue::Text(s@),
        }
    }
}

proof fn lemma_limb_bytes_len(l: Seq<u64>)
    requires
        l.len() == 4,
    ensures
        limb_bytes(l).len() == 32,
{
    lemma_le_bytes_len(l[0] as nat, 8);
    lemma_le_bytes_len(l[1] as nat, 8);
    lemma_le_bytes_len(l[2] as nat, 8);
    lemma_le_bytes_len(l[3] as nat, 8);
}

/// Every primitive value that can be built has a consistent shape.
pub proof fn lemma_primitive_view_wf(p: &XbfPrimitive)
    ensures
        primitive_wf(p@),
{
    match p {
        XbfPrimitive::U8(x) => lemma_le_bytes_len(*x as nat, 1),
        XbfPrimitive::U16(x) => lemma_le_bytes_len(*x as nat, 2),
        XbfPrimitive::U32(x) => lemma_le_bytes_len(*x as nat, 4),
        XbfPrimitive::U64(x) => lemma_le_bytes_len(*x as nat, 8),
        XbfPrimitive::U128(x) => lemma_le_bytes_len(*x as nat, 16),
        XbfPrimitive::U256(l) => lemma_limb_bytes_len(l@),
        XbfPrimitive::I8(x) => lemma_le_bytes_len((*x as u8) as nat, 1),
        XbfPrimitive::I16(x) => lemma_le_bytes_len((*x as u16) as nat, 2),
        XbfPrimitive::I32(x) => lemma_le_bytes_len((*x as u32) as nat, 4),
        XbfPrimitive::I64(x) => lemma_le_bytes_len((*x as u64) as nat, 8),
        XbfPrimitive::I128(x) => lemma_le_bytes_len((*x as u128) as nat, 16),
        XbfPrimitive::I256(l) => lemma_limb_bytes_len(l@),
        XbfPrimitive::F32(x) => lemma_le_bytes_len(*x as nat, 4),
        XbfPrimitive::F64(x) => lemma_le_bytes_len(*x as nat, 8),
        _ => {},
    }
}

proof fn lemma_one_byte(v: u8)
    ensures
        le_bytes(v as nat, 1) == seq![v],
{
    assert(le_bytes(v as nat, 1) =~= seq![v]) by {
        reveal_with_fuel(le_bytes, 2);
    }
}

fn write_limbs(l: &[u64; 4], writer: &mut Vec<u8>)
    ensures
        final(writer)@ == old(writer)@ + limb_bytes(l@),
{
    push_u64(writer, l[0]);
    push_u64(writer, l[1]);
    push_u64(writer, l[2]);
    push_u64(writer, l[3]);
    assert(writer@ =~= old(writer)@ + limb_bytes(l@));
}

fn read_limbs(reader: &mut XbfReader) -> (r: Result<[u64; 4], XbfError>)
    ensures
        final(reader).bytes == old(reader).bytes,
        match parse_primitive(XbfPrimitiveMetadata::U256, old(reader).bytes@, old(reader).pos as int) {
            Ok((PrimitiveValue::Fixed(_, bs), p)) => r matches Ok(l) && limb_bytes(l@) == bs
                && final(reader).pos == p,
            Ok(_) => false,
            Err(e) => r == Err::<[u64; 4], XbfError>(e),
        },
{
    let ghost b = reader.bytes@;
    let ghost pos = reader.pos as int;
    let a = read_u64(reader)?;
    let c = read_u64(reader)?;
    let d = read_u64(reader)?;
    let e = read_u64(reader)?;
    let l = [a, c, d, e];
    proof {
        let s = b.subrange(pos, pos + 32);
        lemma_le_bytes_of_value(b.subrange(pos, pos + 8));
        lemma_le_bytes_of_value(b.subrange(pos + 8, pos + 16));
        lemma_le_bytes_of_value(b.subrange(pos + 16, pos + 24));
        lemma_le_bytes_of_value(b.subrange(pos + 24, pos + 32));
        assert(l@[0] == a && l@[1] == c && l@[2] == d && l@[3] == e);
        assert(limb_bytes(l@) =~= s);
    }
    Ok(l)
}

impl XbfPrimitive {
    /// Appends the payload of this value; no metadata is written.
    pub fn serialize_primitive_type(&self, writer: &mut Vec<u8>)
        ensures
            final(writer)@ == old(writer)@ + primitive_bytes(self@),
    {
        match self {
            XbfPrimitive::Bool(x) => {
                writer.push(if *x { 1u8 } else { 0u8 });
                assert(writer@ =~= old(writer)@ + primitive_bytes(self@));
            },
            XbfPrimitive::U8(x) => {
                proof {
                    lemma_one_byte(*x);
                }
                writer.push(*x);
                assert(writer@ =~= old(writer)@ + primitive_bytes(self@));
            },
            XbfPrimitive::U16(x) => push_u16(writer, *x),
            XbfPrimitive::U32(x) => push_u32(writer, *x),
            XbfPrimitive::U64(x) => push_u64(writer, *x),
            XbfPrimitive::U128(x) => push_u128(writer, *x),
            XbfPrimitive::U256(l) => write_limbs(l, writer),
            XbfPrimitive::I8(x) => {
                proof {
                    lemma_one_byte(*x as u8);
                }
                writer.push(*x as u8);
                assert(writer@ =~= old(writer)@ + primitive_bytes(self@));
            },
            XbfPrimitive::I16(x) => push_u16(writer, *x as u16),
            XbfPrimitive::I32(x) => push_u32(writer, *x as u32),
            XbfPrimitive::I64(x) => push_u64(writer, *x as u64),
            XbfPrimitive::I128(x) => push_u128(writer, *x as u128),
            XbfPrimitive::I256(l) => write_limbs(l, writer),
            XbfPrimitive::F32(x) => push_u32(writer, *x),
            XbfPrimitive::F64(x) => push_u64(writer, *x),
            XbfPrimitive::Bytes(x) => write_bytes(x.as_slice(), writer),
            XbfPrimitive::String(x) => write_string(x.as_str(), writer),
        }
    }

    /// Reads the payload of a value of kind `primitive_metadata`.
    pub fn deserialize_primitive_type(
        primitive_metadata: &XbfPrimitiveMetadata,
        reader: &mut XbfReader,
    ) -> (r: Result<XbfPrimitive, XbfError>)
        ensures
            final(reader).bytes == old(reader).bytes,
            match parse_primitive(*primitive_metadata, old(reader).bytes@, old(reader).pos as int) {
                Ok((v, p)) => r matches Ok(x) && x@ == v && final(reader).pos == p,
                Err(e) => r == Err::<XbfPrimitive, XbfError>(e),
            },
    {
        let ghost b = reader.bytes@;
        let ghost pos = reader.pos as int;
        match primitive_metadata {
            XbfPrimitiveMetadata::Bool => {
                let x = read_u8(reader)?;
                Ok(XbfPrimitive::Bool(x != 0))
            },
            XbfPrimitiveMetadata::U8 => {
                let x = read_u8(reader)?;
                proof {
                    lemma_one_byte(x);
                    assert(b.subrange(pos, pos + 1) =~= seq![x]);
                }
                Ok(XbfPrimitive::U8(x))
            },
            XbfPrimitiveMetadata::U16 => {
                let x = read_u16(reader)?;
                proof {
                    lemma_le_bytes_of_value(b.subrange(pos, pos + 2));
                }
                Ok(XbfPrimitive::U16(x))
            },
            XbfPrimitiveMetadata::U32 => {
                let x = read_u32(reader)?;
                proof {
                    lemma_le_bytes_of_value(b.subrange(pos, pos + 4));
                }
                Ok(XbfPrimitive::U32(x))
            },
            XbfPrimitiveMetadata::U64 => {
                let x = read_u64(reader)?;
                proof {
                    lemma_le_bytes_of_value(b.subrange(pos, pos + 8));
                }
                Ok(XbfPrimitive::U64(x))
            },
            XbfPrimitiveMetadata::U128 => {
                let x = read_u128(reader)?;
                proof {
                    lemma_le_bytes_of_value(b.subrange(pos, pos + 16));
                }
                Ok(XbfPrimitive::U128(x))
            },
            XbfPrimitiveMetadata::U256 => {
                let l = read_limbs(reader)?;
                Ok(XbfPrimitive::U256(l))
            },
            XbfPrimitiveMetadata::I8 => {
                let x = read_u8(reader)?;
                proof {
                    assert((x as i8) as u8 == x) by (bit_vector);
                    lemma_one_byte(x);
                    assert(b.subrange(pos, pos + 1) =~= seq![x]);
                }
                Ok(XbfPrimitive::I8(x as i8))
            },
            XbfPrimitiveMetadata::I16 => {
                let x = read_u16(reader)?;
                proof {
                    assert((x as i16) as u16 == x) by (bit_vector);
                    lemma_le_bytes_of_value(b.subrange(pos, pos + 2));
                }
                Ok(XbfPrimitive::I16(x as i16))
            },
            XbfPrimitiveMetadata::I32 => {
                let x = read_u32(reader)?;
                proof {
                    assert((x as i32) as u32 == x) by (bit_vector);
                    lemma_le_bytes_of_value(b.subrange(pos, pos + 4));
                }
                Ok(XbfPrimitive::I32(x as i32))
            },
            XbfPrimitiveMetadata::I64 => {
                let x = read_u64(reader)?;
                proof {
                    assert((x as i64) as u64 == x) by (bit_vector);
                    lemma_le_bytes_of_value(b.subrange(pos, pos + 8));
                }
                Ok(XbfPrimitive::I64(x as i64))
            },
            XbfPrimitiveMetadata::I128 => {
                let x = read_u128(reader)?;
                proof {
                    assert((x as i128) as u128 == x) by (bit_vector);
                    lemma_le_bytes_of_value(b.subrange(pos, pos + 16));
                }
                Ok(XbfPrimitive::I128(x as i128))
            },
            XbfPrimitiveMetadata::I256 => {
                let l = read_limbs(reader)?;
                Ok(XbfPrimitive::I256(l))
            },
            XbfPrimitiveMetadata::F32 => {
                let x = read_u32(reader)?;
                proof {
                    lemma_le_bytes_of_value(b.subrange(pos, pos + 4));
                }
                Ok(XbfPrimitive::F32(x))
            },
            XbfPrimitiveMetadata::F64 => {
                let x = read_u64(reader)?;
                proof {
                    lemma_le_bytes_of_value(b.subrange(pos, pos + 8));
                }
                Ok(XbfPrimitive::F64(x))
            },
            XbfPrimitiveMetadata::Bytes => {
                let v = read_bytes(reader)?;
                Ok(XbfPrimitive::Bytes(v))
            },
            XbfPrimitiveMetadata::String => {
                let s = read_string(reader)?;
                Ok(XbfPrimitive::String(s))
            },
        }
    }

    /// The kind of this value.
    pub fn get_metadata(&self) -> (r: XbfPrimitiveMetadata)
        ensures
            r == primitive_kind(self@),
    {
        match self {
            XbfPrimitive::Bool(_) => XbfPrimitiveMetadata::Bool,
            XbfPrimitive::U8(_) => XbfPrimitiveMetadata::U8,
            XbfPrimitive::U16(_) => XbfPrimitiveMetadata::U16,
            XbfPrimitive::U32(_) => XbfPrimitiveMetadata::U32,
            XbfPrimitive::U64(_) => XbfPrimitiveMetadata::U64,
            XbfPrimitive::U128(_) => XbfPrimitiveMetadata::U128,
            XbfPrimitive::U256(_) => XbfPrimitiveMetadata::U256,
            XbfPrimitive::I8(_) => XbfPrimitiveMetadata::I8,
            XbfPrimitive::I16(_) => XbfPrimitiveMetadata::I16,
            XbfPrimitive::I32(_) => XbfPrimitiveMetadata::I32,
            XbfPrimitive::I64(_) => XbfPrimitiveMetadata::I64,
            XbfPrimitive::I128(_) => XbfPrimitiveMetadata::I128,
            XbfPrimitive::I256(_) => XbfPrimitiveMetadata::I256,
            XbfPrimitive::F32(_) => XbfPrimitiveMetadata::F32,
            XbfPrimitive::F64(_) => XbfPrimitiveMetadata::F64,
            XbfPrimitive::Bytes(_) => XbfPrimitiveMetadata::Bytes,
            XbfPrimitive::String(_) => XbfPrimitiveMetadata::String,
        }
    }
}

impl From<bool> for XbfPrimitive {
    fn from(x: bool) -> (r: XbfPrimitive) {
        XbfPrimitive::Bool(x)
    }
}

impl vstd::std_specs::convert::FromSpecImpl<bool> for XbfPrimitive {
    open spec fn obeys_from_spec() -> bool {
        true
    }

    open spec fn from_spec(x: bool) -> XbfPrimitive {
        XbfPrimitive::Bool(x)
    }
}

impl From<u8> for XbfPrimitive {
    fn from(x: u8) -> (r: XbfPrimitive) {
        XbfPrimitive::U8(x)
    }
}

impl vstd::std_specs::convert::FromSpecImpl<u8> for XbfPrimitive {
    open spec fn obeys_from_spec() -> bool {
        true
    }

    open spec fn from_spec(x: u8) -> XbfPrimitive {
        XbfPrimitive::U8(x)
    }
}

impl From<u16> for XbfPrimitive {
    fn from(x: u16) -> (r: XbfPrimitive) {
        XbfPrimitive::U16(x)
    }
}

impl vstd::std_specs::convert::FromSpecImpl<u16> for XbfPrimitive {
    open spec fn obeys_from_spec() -> bool {
        true
    }

    open spec fn from_spec(x: u16) -> XbfPrimitive {
        XbfPrimitive::U16(x)
    }
}

impl From<u32> for XbfPrimitive {
    fn from(x: u32) -> (r: XbfPrimitive) {
        XbfPrimitive::U32(x)
    }
}

impl vstd::std_specs::convert::FromSpecImpl<u32> for XbfPrimitive {
    open spec fn obeys_from_spec() -> bool {
        true
    }

    open spec fn from_spec(x: u32) -> XbfPrimitive {
        XbfPrimitive::U32(x)
    }
}

impl From<u64> for XbfPrimitive {
    fn from(x: u64) -> (r: XbfPrimitive) {
        XbfPrimitive::U64(x)
    }
}

impl vstd::std_specs::convert::FromSpecImpl<u64> for XbfPrimitive {
    open spec fn obeys_from_spec() -> bool {
        true
    }

    open spec fn from_spec(x: u64) -> XbfPrimitive {
        XbfPrimitive::U64(x)
    }
}

impl From<u128> for XbfPrimitive {
    fn from(x: u128) -> (r: XbfPrimitive) {
        XbfPrimitive::U128(x)
    }
}

impl vstd::std_specs::convert::FromSpecImpl<u128> for XbfPrimitive {
    open spec fn obeys_from_spec() -> bool {
        true
    }

    open spec fn from_spec(x: u128) -> XbfPrimitive {
        XbfPrimitive::U128(x)
    }
}

impl From<i8> for XbfPrimitive {
    fn from(x: i8) -> (r: XbfPrimitive) {
        XbfPrimitive::I8(x)
    }
}

impl vstd::std_specs::convert::FromSpecImpl<i8> for XbfPrimitive {
    open spec fn obeys_from_spec() -> bool {
        true
    }

    open spec fn from_spec(x: i8) -> XbfPrimitive {
        XbfPrimitive::I8(x)
    }
}

impl From<i16> for XbfPrimitive {
    fn from(x: i16) -> (r: XbfPrimitive) {
        XbfPrimitive::I16(x)
    }
}

impl vstd::std_specs::convert::FromSpecImpl<i16> for XbfPrimitive {
    open spec fn obeys_from_spec() -> bool {
        true
    }

    open spec fn from_spec(x: i16) -> XbfPrimitive {
        XbfPrimitive::I16(x)
    }
}

impl From<i32> for XbfPrimitive {
    fn from(x: i32) -> (r: XbfPrimitive) {
        XbfPrimitive::I32(x)
    }
}

impl vstd::std_specs::convert::FromSpecImpl<i32> for XbfPrimitive {
    open spec fn obeys_from_spec() -> bool {
        true
    }

    open spec fn from_spec(x: i32) -> XbfPrimitive {
        XbfPrimitive::I32(x)
    }
}

impl From<i64> for XbfPrimitive {
    fn from(x: i64) -> (r: XbfPrimitive) {
        XbfPrimitive::I64(x)
    }
}

impl vstd::std_specs::convert::FromSpecImpl<i64> for XbfPrimitive {
    open spec fn obeys_from_spec() -> bool {
        true
    }

    open spec fn from_spec(x: i64) -> XbfPrimitive {
        XbfPrimitive::I64(x)
    }
}

impl From<i128> for XbfPrimitive {
    fn from(x: i128) -> (r: XbfPrimitive) {
        XbfPrimitive::I128(x)
    }
}

impl vstd::std_specs::convert::FromSpecImpl<i128> for XbfPrimitive {
    open spec fn obeys_from_spec() -> bool {
        true
    }

    open spec fn from_spec(x: i128) -> XbfPrimitive {
        XbfPrimitive::I128(x)
    }
}

impl From<Vec<u8>> for XbfPrimitive {
    fn from(x: Vec<u8>) -> (r: XbfPrimitive) {
        XbfPrimitive::Bytes(x)
    }
}

impl vstd::std_specs::convert::FromSpecImpl<Vec<u8>> for XbfPrimitive {
    open spec fn obeys_from_spec() -> bool {
        true
    }

    open spec fn from_spec(x: Vec<u8>) -> XbfPrimitive {
        XbfPrimitive::Bytes(x)
    }
}

impl From<String> for XbfPrimitive {
    fn from(x: String) -> (r: XbfPrimitive) {
        XbfPrimitive::String(x)
    }
}

impl vstd::std_specs::convert::FromSpecImpl<String> for XbfPrimitive {
    open spec fn obeys_from_spec() -> bool {
        true
    }

    open spec fn from_spec(x: String) -> XbfPrimitive {
        XbfPrimitive::String(x)
    }
}

/// A copy of some bytes.
pub(crate) fn copy_bytes(b: &Vec<u8>) -> (r: Vec<u8>)
    ensures
        r@ == b@,
{
    let mut out: Vec<u8> = Vec::new();
    let mut i: usize = 0;
    while i < b.len()
        invariant
            i <= b@.len(),
            out@ == b@.subrange(0, i as int),
        decreases b@.len() - i,
    {
        out.push(b[i]);
        i += 1;
        assert(out@ =~= b@.subrange(0, i as int));
    }
    assert(out@ =~= b@);
    out
}

/// Conversion of the native types that have a primitive kind into primitive values. Floats have
/// one too, but are written as their bits (`XbfPrimitive::F32(x.to_bits())`).
pub trait NativeToXbfPrimitive: Sized {
    /// The primitive value that this native value stands for.
    spec fn primitive_view(&self) -> PrimitiveValue;

    fn to_xbf_primitive(&self) -> (r: XbfPrimitive)
        ensures
            r@ == self.primitive_view(),
    ;

    fn into_xbf_primitive(self) -> (r: XbfPrimitive)
        ensures
            r@ == self.primitive_view(),
    ;
}

impl NativeToXbfPrimitive for bool {
    open spec fn primitive_view(&self) -> PrimitiveValue {
        XbfPrimitive::Bool(*self)@
    }

    fn to_xbf_primitive(&self) -> (r: XbfPrimitive) {
        XbfPrimitive::Bool(*self)
    }

    fn into_xbf_primitive(self) -> (r: XbfPrimitive) {
        XbfPrimitive::Bool(self)
    }
}

impl NativeToXbfPrimitive for u8 {
    open spec fn primitive_view(&self) -> PrimitiveValue {
        XbfPrimitive::U8(*self)@
    }

    fn to_xbf_primitive(&self) -> (r: XbfPrimitive) {
        XbfPrimitive::U8(*self)
    }

    fn into_xbf_primitive(self) -> (r: XbfPrimitive) {
        XbfPrimitive::U8(self)
    }
}

impl NativeToXbfPrimitive for u16 {
    open spec fn primitive_view(&self) -> PrimitiveValue {
        XbfPrimitive::U16(*self)@
    }

    fn to_xbf_primitive(&self) -> (r: XbfPrimitive) {
        XbfPrimitive::U16(*self)
    }

    fn into_xbf_primitive(self) -> (r: XbfPrimitive) {
        XbfPrimitive::U16(self)
    }
}

impl NativeToXbfPrimitive for u32 {
    open spec fn primitive_view(&self) -> PrimitiveValue {
        XbfPrimitive::U32(*self)@
    }

    fn to_xbf_primitive(&self) -> (r: XbfPrimitive) {
        XbfPrimitive::U32(*self)
    }

    fn into_xbf_primitive(self) -> (r: XbfPrimitive) {
        XbfPrimitive::U32(self)
    }
}

impl NativeToXbfPrimitive for u64 {
    open spec fn primitive_view(&self) -> PrimitiveValue {
        XbfPrimitive::U64(*self)@
    }

    fn to_xbf_primitive(&self) -> (r: XbfPrimitive) {
        XbfPrimitive::U64(*self)
    }

    fn into_xbf_primitive(self) -> (r: XbfPrimitive) {
        XbfPrimitive::U64(self)
    }
}

impl NativeToXbfPrimitive for u128 {
    open spec fn primitive_view(&self) -> PrimitiveValue {
        XbfPrimitive::U128(*self)@
    }

    fn to_xbf_primitive(&self) -> (r: XbfPrimitive) {
        XbfPrimitive::U128(*self)
    }

    fn into_xbf_primitive(self) -> (r: XbfPrimitive) {
        XbfPrimitive::U128(self)
    }
}

impl NativeToXbfPrimitive for i8 {
    open spec fn primitive_view(&self) -> PrimitiveValue {
        XbfPrimitive::I8(*self)@
    }

    fn to_xbf_primitive(&self) -> (r: XbfPrimitive) {
        XbfPrimitive::I8(*self)
    }

    fn into_xbf_primitive(self) -> (r: XbfPrimitive) {
        XbfPrimitive::I8(self)
    }
}

impl NativeToXbfPrimitive for i16 {
    open spec fn primitive_view(&self) -> PrimitiveValue {
        XbfPrimitive::I16(*self)@
    }

    fn to_xbf_primitive(&self) -> (r: XbfPrimitive) {
        XbfPrimitive::I16(*self)
    }

    fn into_xbf_primitive(self) -> (r: XbfPrimitive) {
        XbfPrimitive::I16(self)
    }
}

impl NativeToXbfPrimitive for i32 {
    open spec fn primitive_view(&self) -> PrimitiveValue {
        XbfPrimitive::I32(*self)@
    }

    fn to_xbf_primitive(&self) -> (r: XbfPrimitive) {
        XbfPrimitive::I32(*self)
    }

    fn into_xbf_primitive(self) -> (r: XbfPrimitive) {
        XbfPrimitive::I32(self)
    }
}

impl NativeToXbfPrimitive for i64 {
    open spec fn primitive_view(&self) -> PrimitiveValue {
        XbfPrimitive::I64(*self)@
    }

    fn to_xbf_primitive(&self) -> (r: XbfPrimitive) {
        XbfPrimitive::I64(*self)
    }

    fn into_xbf_primitive(self) -> (r: XbfPrimitive) {
        XbfPrimitive::I64(self)
    }
}

impl NativeToXbfPrimitive for i128 {
    open spec fn primitive_view(&self) -> PrimitiveValue {
        XbfPrimitive::I128(*self)@
    }

    fn to_xbf_primitive(&self) -> (r: XbfPrimitive) {
        XbfPrimitive::I128(*self)
    }

    fn into_xbf_primitive(self) -> (r: XbfPrimitive) {
        XbfPrimitive::I128(self)
    }
}

impl NativeToXbfPrimitive for Vec<u8> {
    open spec fn primitive_view(&self) -> PrimitiveValue {
        PrimitiveValue::Bytes(self@)
    }

    fn to_xbf_primitive(&self) -> (r: XbfPrimitive) {
        XbfPrimitive::Bytes(copy_bytes(self))
    }

    fn into_xbf_primitive(self) -> (r: XbfPrimitive) {
        XbfPrimitive::Bytes(self)
    }
}

impl NativeToXbfPrimitive for String {
    open spec fn primitive_view(&self) -> PrimitiveValue {
        PrimitiveValue::Text(self@)
    }

    fn to_xbf_primitive(&self) -> (r: XbfPrimitive) {
        XbfPrimitive::String(self.clone())
    }

    fn into_xbf_primitive(self) -> (r: XbfPrimitive) {
        XbfPrimitive::String(self)
    }
}

} // verus!
