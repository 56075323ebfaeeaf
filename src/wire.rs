//! Byte-level building blocks of the format: little-endian integers, length-prefixed
//! byte strings, and a cursor over an in-memory input.
use byteorder::{ByteOrder, LittleEndian, WriteBytesExt};
use vstd::prelude::*;
use vstd::utf8::{decode_utf8, encode_utf8, is_ascii_chars, is_ascii_chars_encode_utf8, valid_utf8};

verus! {

broadcast use vstd::utf8::encode_utf8_valid_utf8, vstd::utf8::encode_utf8_decode_utf8;

/// The `n` bytes that hold `v` in little-endian order (only the low `8 * n` bits of `v` count).
pub open spec fn le_bytes(v: nat, n: nat) -> Seq<u8>
    decreases n,
{
    if n == 0 {
        seq![]
    } else {
        seq![(v % 256) as u8] + le_bytes(v / 256, (n - 1) as nat)
    }
}

/// The number that the bytes `s` hold in little-endian order.
pub open spec fn le_value(s: Seq<u8>) -> nat
    decreases s.len(),
{
    if s.len() == 0 {
        0
    } else {
        s[0] as nat + 256 * le_value(s.drop_first())
    }
}

/// `256` to the power `n`: one more than the largest number that `n` bytes hold.
pub open spec fn byte_range(n: nat) -> nat
    decreases n,
{
    if n == 0 {
        1
    } else {
        256 * byte_range((n - 1) as nat)
    }
}

pub proof fn lemma_le_bytes_len(v: nat, n: nat)
    ensures
        le_bytes(v, n).len() == n,
    decreases n,
{
    if n > 0 {
        lemma_le_bytes_len(v / 256, (n - 1) as nat);
    }
}

/// Reading back the bytes of a number that fits gives the number.
pub proof fn lemma_le_value_of_bytes(v: nat, n: nat)
    requires
        v < byte_range(n),
    ensures
        le_value(le_bytes(v, n)) == v,
    decreases n,
{
    if n > 0 {
        let m = (n - 1) as nat;
        assert(v / 256 < byte_range(m)) by (nonlinear_arith)
            requires
                v < 256 * byte_range(m),
        ;
        lemma_le_value_of_bytes(v / 256, m);
        lemma_le_bytes_len(v / 256, m);
        let s = le_bytes(v, n);
        assert(s.drop_first() =~= le_bytes(v / 256, m));
        assert(v == v % 256 + 256 * (v / 256)) by (nonlinear_arith);
    }
}

/// Writing out the number that some bytes hold gives the bytes back.
pub proof fn lemma_le_bytes_of_value(s: Seq<u8>)
    ensures
        le_bytes(le_value(s), s.len()) =~= s,
        le_value(s) < byte_range(s.len()),
    decreases s.len(),
{
    if s.len() > 0 {
        let rest = s.drop_first();
        lemma_le_bytes_of_value(rest);
        let r = le_value(rest);
        let a = s[0] as nat;
        assert((a + 256 * r) % 256 == a && (a + 256 * r) / 256 == r) by (nonlinear_arith)
            requires
                a < 256,
        ;
        assert(a + 256 * r < 256 * byte_range(rest.len())) by (nonlinear_arith)
            requires
                a < 256,
                r < byte_range(rest.len()),
        ;
        assert((s.len() - 1) as nat == rest.len());
        let t = le_bytes(le_value(s), s.len());
        assert(t =~= seq![s[0]] + le_bytes(r, rest.len()));
        assert(seq![s[0]] + rest =~= s);
    }
}

pub proof fn lemma_byte_ranges()
    ensures
        byte_range(1) == 0x100,
        byte_range(2) == 0x1_0000,
        byte_range(4) == 0x1_0000_0000,
        byte_range(8) == 0x1_0000_0000_0000_0000,
        byte_range(16) == 0x1_0000_0000_0000_0000_0000_0000_0000_0000,
{
    reveal_with_fuel(byte_range, 17);
}

/// The bytes of a little-endian `u64` length prefix followed by the bytes themselves.
pub open spec fn lp_bytes(b: Seq<u8>) -> Seq<u8> {
    le_bytes(b.len(), 8) + b
}

/// A length-prefixed UTF-8 string.
pub open spec fn lp_string(s: Seq<char>) -> Seq<u8> {
    lp_bytes(encode_utf8(s))
}

/// The ways in which reading a value from bytes can fail.
#[derive(Debug, Clone, Copy, PartialEq, Eq, Structural)]
pub enum XbfError {
    /// The input ended before the value did.
    UnexpectedEof,
    /// A byte where a metadata discriminant belongs names no kind of metadata.
    InvalidDiscriminant(u8),
    /// A byte names no primitive kind.
    InvalidPrimitiveMetadata(u8),
    /// The bytes of a name or of a string are not UTF-8.
    InvalidUtf8,
    /// A struct's metadata names the same field twice.
    DuplicateFieldName,
}

/// The character of a decimal digit.
pub open spec fn digit_char(n: nat) -> char {
    if n == 0 {
        '0'
    } else if n == 1 {
        '1'
    } else if n == 2 {
        '2'
    } else if n == 3 {
        '3'
    } else if n == 4 {
        '4'
    } else if n == 5 {
        '5'
    } else if n == 6 {
        '6'
    } else if n == 7 {
        '7'
    } else if n == 8 {
        '8'
    } else {
        '9'
    }
}

/// The decimal digits of a number, most significant first, without leading zeros.
pub open spec fn decimal(n: nat) -> Seq<char>
    decreases n,
{
    if n < 10 {
        seq![digit_char(n)]
    } else {
        decimal(n / 10).push(digit_char(n % 10))
    }
}

/// The UTF-8 encoding of two texts one after the other is the two encodings one after the other.
pub proof fn lemma_encode_concat(a: Seq<char>, b: Seq<char>)
    ensures
        encode_utf8(a + b) == encode_utf8(a) + encode_utf8(b),
    decreases a.len(),
{
    if a.len() == 0 {
        assert(a + b =~= b);
        assert(encode_utf8(a) =~= Seq::<u8>::empty());
        assert(encode_utf8(a) + encode_utf8(b) =~= encode_utf8(b));
    } else {
        assert((a + b).drop_first() =~= a.drop_first() + b);
        assert((a + b)[0] == a[0]);
        lemma_encode_concat(a.drop_first(), b);
        assert(encode_utf8(a + b) =~= encode_utf8(a) + encode_utf8(b));
    }
}

pub proof fn lemma_decimal_ascii(n: nat)
    ensures
        is_ascii_chars(decimal(n)),
    decreases n,
{
    if n >= 10 {
        lemma_decimal_ascii(n / 10);
        let d = decimal(n / 10);
        assert forall|i: int| 0 <= i < decimal(n).len() implies '\0' <= #[trigger] decimal(n)[i]
            <= '\u{7f}' by {
            if i < d.len() {
                assert(decimal(n)[i] == d[i]);
            }
        }
    }
}

/// The byte of a decimal digit.
fn digit_byte(x: u8) -> (r: u8)
    requires
        x < 10,
    ensures
        encode_utf8(seq![digit_char(x as nat)]) == seq![r],
{
    proof {
        is_ascii_chars_encode_utf8(seq![digit_char(x as nat)]);
        assert(encode_utf8(seq![digit_char(x as nat)]) =~= seq![digit_char(x as nat) as u8]);
    }
    48u8 + x
}

/// Appends the decimal digits of `n`.
pub(crate) fn push_decimal(out: &mut Vec<u8>, n: u64)
    ensures
        final(out)@ == old(out)@ + encode_utf8(decimal(n as nat)),
    decreases n,
{
    if n >= 10 {
        push_decimal(out, n / 10);
    }
    let ghost mid = out@;
    let d = digit_byte((n % 10) as u8);
    out.push(d);
    proof {
        let c = seq![digit_char((n % 10) as nat)];
        if n >= 10 {
            let head = decimal((n / 10) as nat);
            assert(decimal(n as nat) == head + c);
            lemma_encode_concat(head, c);
        } else {
            assert(decimal(n as nat) == c);
            assert(mid == old(out)@);
        }
        assert(out@ =~= old(out)@ + encode_utf8(decimal(n as nat)));
    }
}

/// Appends the UTF-8 bytes of `s`.
pub(crate) fn push_str(out: &mut Vec<u8>, s: &str)
    ensures
        final(out)@ == old(out)@ + encode_utf8(s@),
{
    let b = s.as_bytes();
    let ghost start = out@;
    let mut i: usize = 0;
    while i < b.len()
        invariant
            i <= b@.len(),
            out@ == start + b@.subrange(0, i as int),
        decreases b@.len() - i,
    {
        out.push(b[i]);
        i += 1;
        assert(b@.subrange(0, i as int) =~= b@.subrange(0, i - 1) + seq![b@[i - 1]]);
    }
    assert(b@.subrange(0, i as int) =~= b@);
}

/// The text whose UTF-8 encoding is `v`.
pub(crate) fn utf8_text(v: Vec<u8>, Ghost(c): Ghost<Seq<char>>) -> (r: String)
    requires
        v@ == encode_utf8(c),
    ensures
        r@ == c,
{
    match string_from_utf8(v) {
        Some(s) => s,
        None => {
            assert(false);
            String::new()
        },
    }
}

impl XbfError {
    /// A description of the error for people; an unknown discriminant is named by its value.
    pub fn message(&self) -> (r: String)
        ensures
            *self == XbfError::UnexpectedEof ==> r@ == "unexpected end of input"@,
            *self == XbfError::InvalidUtf8 ==> r@ == "invalid UTF-8"@,
            *self == XbfError::DuplicateFieldName ==> r@ == "duplicate field name"@,
            *self matches XbfError::InvalidDiscriminant(d) ==> r@ == "Unknown metadata discriminant "@
                + decimal(d as nat),
            *self matches XbfError::InvalidPrimitiveMetadata(_) ==> r@
                == "invalid primitive metadata"@,
    {
        match self {
            XbfError::UnexpectedEof => "unexpected end of input".to_owned(),
            XbfError::InvalidDiscriminant(d) => {
                let prefix = "Unknown metadata discriminant ";
                let mut v: Vec<u8> = Vec::new();
                push_str(&mut v, prefix);
                push_decimal(&mut v, *d as u64);
                proof {
                    lemma_encode_concat(prefix@, decimal(*d as nat));
                    assert(v@ =~= encode_utf8(prefix@ + decimal(*d as nat)));
                }
                utf8_text(v, Ghost(prefix@ + decimal(*d as nat)))
            },
            XbfError::InvalidPrimitiveMetadata(_) => "invalid primitive metadata".to_owned(),
            XbfError::InvalidUtf8 => "invalid UTF-8".to_owned(),
            XbfError::DuplicateFieldName => "duplicate field name".to_owned(),
        }
    }
}

/// What reading a length-prefixed byte string at `pos` gives: the bytes and the position after them.
pub open spec fn parse_lp_bytes(b: Seq<u8>, pos: int) -> Result<(Seq<u8>, int), XbfError> {
    if pos < 0 || pos + 8 > b.len() {
        Err(XbfError::UnexpectedEof)
    } else {
        let n = le_value(b.subrange(pos, pos + 8));
        if pos + 8 + n > b.len() {
            Err(XbfError::UnexpectedEof)
        } else {
            Ok((b.subrange(pos + 8, pos + 8 + n), pos + 8 + n))
        }
    }
}

/// What reading a length-prefixed UTF-8 string at `pos` gives.
pub open spec fn parse_lp_string(b: Seq<u8>, pos: int) -> Result<(Seq<char>, int), XbfError> {
    match parse_lp_bytes(b, pos) {
        Ok((bs, p)) => if valid_utf8(bs) {
            Ok((decode_utf8(bs), p))
        } else {
            Err(XbfError::InvalidUtf8)
        },
        Err(e) => Err(e),
    }
}

pub proof fn lemma_parse_lp_bytes(bs: Seq<u8>, b: Seq<u8>, pos: int)
    requires
        0 <= pos,
        bs.len() < byte_range(8),
        pos + lp_bytes(bs).len() <= b.len(),
        b.subrange(pos, pos + lp_bytes(bs).len()) == lp_bytes(bs),
    ensures
        lp_bytes(bs).len() == 8 + bs.len(),
        parse_lp_bytes(b, pos) == Ok::<(Seq<u8>, int), XbfError>((bs, pos + 8 + bs.len())),
{
    lemma_le_bytes_len(bs.len(), 8);
    lemma_le_value_of_bytes(bs.len(), 8);
    let w = lp_bytes(bs);
    assert(b.subrange(pos, pos + 8) =~= w.subrange(0, 8));
    assert(w.subrange(0, 8) =~= le_bytes(bs.len(), 8));
    assert(b.subrange(pos + 8, pos + 8 + bs.len()) =~= w.subrange(8, 8 + bs.len() as int));
    assert(w.subrange(8, 8 + bs.len() as int) =~= bs);
}

pub proof fn lemma_parse_lp_string(s: Seq<char>, b: Seq<u8>, pos: int)
    requires
        0 <= pos,
        encode_utf8(s).len() < byte_range(8),
        pos + lp_string(s).len() <= b.len(),
        b.subrange(pos, pos + lp_string(s).len()) == lp_string(s),
    ensures
        lp_string(s).len() == 8 + encode_utf8(s).len(),
        parse_lp_string(b, pos) == Ok::<(Seq<char>, int), XbfError>(
            (s, pos + lp_string(s).len()),
        ),
{
    lemma_parse_lp_bytes(encode_utf8(s), b, pos);
}

/// An input being read: the bytes and the position of the next byte to read.
pub struct XbfReader {
    pub bytes: Vec<u8>,
    pub pos: usize,
}

impl XbfReader {
    pub fn new(bytes: Vec<u8>) -> (r: XbfReader)
        ensures
            r.bytes@ == bytes@,
            r.pos == 0,
    {
        XbfReader { bytes, pos: 0 }
    }
}

/// Relies on `WriteBytesExt::write_u16::<LittleEndian>`: appends the two little-endian bytes of
/// `v`; writing into a `Vec` cannot fail.
#[verifier::external_body]
pub(crate) fn push_u16(out: &mut Vec<u8>, v: u16)
    ensures
        final(out)@ == old(out)@ + le_bytes(v as nat, 2),
{
    let _ = out.write_u16::<LittleEndian>(v);
}

/// Relies on `WriteBytesExt::write_u32::<LittleEndian>`: appends the four little-endian bytes of `v`.
#[verifier::external_body]
pub(crate) fn push_u32(out: &mut Vec<u8>, v: u32)
    ensures
        final(out)@ == old(out)@ + le_bytes(v as nat, 4),
{
    let _ = out.write_u32::<LittleEndian>(v);
}

/// Relies on `WriteBytesExt::write_u64::<LittleEndian>`: appends the eight little-endian bytes of `v`.
#[verifier::external_body]
pub(crate) fn push_u64(out: &mut Vec<u8>, v: u64)
    ensures
        final(out)@ == old(out)@ + le_bytes(v as nat, 8),
{
    let _ = out.write_u64::<LittleEndian>(v);
}

/// Relies on `WriteBytesExt::write_u128::<LittleEndian>`: appends the sixteen little-endian bytes
/// of `v`.
#[verifier::external_body]
pub(crate) fn push_u128(out: &mut Vec<u8>, v: u128)
    ensures
        final(out)@ == old(out)@ + le_bytes(v as nat, 16),
{
    let _ = out.write_u128::<LittleEndian>(v);
}

/// Relies on `LittleEndian::read_u16`: the number in the two bytes at `pos`.
#[verifier::external_body]
fn read_u16_at(b: &Vec<u8>, pos: usize) -> (r: u16)
    requires
        pos + 2 <= b@.len(),
    ensures
        r as nat == le_value(b@.subrange(pos as int, pos + 2)),
{
    LittleEndian::read_u16(&b[pos..])
}

/// Relies on `LittleEndian::read_u32`: the number in the four bytes at `pos`.
#[verifier::external_body]
fn read_u32_at(b: &Vec<u8>, pos: usize) -> (r: u32)
    requires
        pos + 4 <= b@.len(),
    ensures
        r as nat == le_value(b@.subrange(pos as int, pos + 4)),
{
    LittleEndian::read_u32(&b[pos..])
}

/// Relies on `LittleEndian::read_u64`: the number in the eight bytes at `pos`.
#[verifier::external_body]
fn read_u64_at(b: &Vec<u8>, pos: usize) -> (r: u64)
    requires
        pos + 8 <= b@.len(),
    ensures
        r as nat == le_value(b@.subrange(pos as int, pos + 8)),
{
    LittleEndian::read_u64(&b[pos..])
}

/// Relies on `LittleEndian::read_u128`: the number in the sixteen bytes at `pos`.
#[verifier::external_body]
fn read_u128_at(b: &Vec<u8>, pos: usize) -> (r: u128)
    requires
        pos + 16 <= b@.len(),
    ensures
        r as nat == le_value(b@.subrange(pos as int, pos + 16)),
{
    LittleEndian::read_u128(&b[pos..])
}

/// Relies on `String::from_utf8`: it succeeds exactly on UTF-8 input, whose characters it keeps.
#[verifier::external_body]
pub(crate) fn string_from_utf8(b: Vec<u8>) -> (r: Option<String>)
    ensures
        r is Some <==> valid_utf8(b@),
        r matches Some(s) ==> s@ == decode_utf8(b@),
{
    String::from_utf8(b).ok()
}

/// Appends `bytes` after their `u64` length.
pub fn write_bytes(bytes: &[u8], out: &mut Vec<u8>)
    ensures
        final(out)@ == old(out)@ + lp_bytes(bytes@),
{
    push_u64(out, bytes.len() as u64);
    let mut i: usize = 0;
    let ghost start = out@;
    while i < bytes.len()
        invariant
            start == old(out)@ + le_bytes(bytes@.len(), 8),
            out@ == start + bytes@.subrange(0, i as int),
            i <= bytes@.len(),
        decreases bytes@.len() - i,
    {
        out.push(bytes[i]);
        i += 1;
        assert(bytes@.subrange(0, i as int) =~= bytes@.subrange(0, i - 1) + seq![bytes@[i - 1]]);
    }
    assert(bytes@.subrange(0, i as int) =~= bytes@);
    assert(old(out)@ + lp_bytes(bytes@) =~= start + bytes@);
}

/// Appends the UTF-8 bytes of `s` after their `u64` length.
pub fn write_string(s: &str, out: &mut Vec<u8>)
    ensures
        final(out)@ == old(out)@ + lp_string(s@),
{
    write_bytes(s.as_bytes(), out);
}

/// Whether `n` more bytes are left to read.
fn has_bytes(reader: &XbfReader, n: usize) -> (r: bool)
    ensures
        r == (reader.pos <= reader.bytes@.len() && reader.pos + n <= reader.bytes@.len()),
        r ==> reader.pos + n <= usize::MAX,
{
    reader.pos <= reader.bytes.len() && n <= reader.bytes.len() - reader.pos
}

pub fn read_u8(reader: &mut XbfReader) -> (r: Result<u8, XbfError>)
    ensures
        final(reader).bytes == old(reader).bytes,
        old(reader).pos + 1 <= old(reader).bytes@.len() ==> r == Ok::<u8, XbfError>(
            old(reader).bytes@[old(reader).pos as int],
        ) && final(reader).pos == old(reader).pos + 1,
        !(old(reader).pos + 1 <= old(reader).bytes@.len()) ==> r == Err::<u8, XbfError>(
            XbfError::UnexpectedEof,
        ),
{
    if has_bytes(reader, 1) {
        let v = reader.bytes[reader.pos];
        reader.pos = reader.pos + 1;
        Ok(v)
    } else {
        Err(XbfError::UnexpectedEof)
    }
}

/// The number in the `n` bytes at `pos`, or the end of input.
pub open spec fn parse_le(b: Seq<u8>, pos: int, n: nat) -> Result<(nat, int), XbfError> {
    if 0 <= pos && pos + n <= b.len() {
        Ok((le_value(b.subrange(pos, pos + n)), pos + n))
    } else {
        Err(XbfError::UnexpectedEof)
    }
}

pub fn read_u16(reader: &mut XbfReader) -> (r: Result<u16, XbfError>)
    ensures
        final(reader).bytes == old(reader).bytes,
        match parse_le(old(reader).bytes@, old(reader).pos as int, 2) {
            Ok((v, p)) => r matches Ok(x) && x as nat == v && final(reader).pos == p,
            Err(e) => r == Err::<u16, XbfError>(e),
        },
{
    if has_bytes(reader, 2) {
        let v = read_u16_at(&reader.bytes, reader.pos);
        reader.pos = reader.pos + 2;
        Ok(v)
    } else {
        Err(XbfError::UnexpectedEof)
    }
}

pub fn read_u32(reader: &mut XbfReader) -> (r: Result<u32, XbfError>)
    ensures
        final(reader).bytes == old(reader).bytes,
        match parse_le(old(reader).bytes@, old(reader).pos as int, 4) {
            Ok((v, p)) => r matches Ok(x) && x as nat == v && final(reader).pos == p,
            Err(e) => r == Err::<u32, XbfError>(e),
        },
{
    if has_bytes(reader, 4) {
        let v = read_u32_at(&reader.bytes, reader.pos);
        reader.pos = reader.pos + 4;
        Ok(v)
    } else {
        Err(XbfError::UnexpectedEof)
    }
}

pub fn read_u64(reader: &mut XbfReader) -> (r: Result<u64, XbfError>)
    ensures
        final(reader).bytes == old(reader).bytes,
        match parse_le(old(reader).bytes@, old(reader).pos as int, 8) {
            Ok((v, p)) => r matches Ok(x) && x as nat == v && final(reader).pos == p,
            Err(e) => r == Err::<u64, XbfError>(e),
        },
{
    if has_bytes(reader, 8) {
        let v = read_u64_at(&reader.bytes, reader.pos);
        reader.pos = reader.pos + 8;
        Ok(v)
    } else {
        Err(XbfError::UnexpectedEof)
    }
}

pub fn read_u128(reader: &mut XbfReader) -> (r: Result<u128, XbfError>)
    ensures
        final(reader).bytes == old(reader).bytes,
        match parse_le(old(reader).bytes@, old(reader).pos as int, 16) {
            Ok((v, p)) => r matches Ok(x) && x as nat == v && final(reader).pos == p,
            Err(e) => r == Err::<u128, XbfError>(e),
        },
{
    if has_bytes(reader, 16) {
        let v = read_u128_at(&reader.bytes, reader.pos);
        reader.pos = reader.pos + 16;
        Ok(v)
    } else {
        Err(XbfError::UnexpectedEof)
    }
}

/// Reads a `u64` length and then that many bytes.
pub fn read_bytes(reader: &mut XbfReader) -> (r: Result<Vec<u8>, XbfError>)
    ensures
        final(reader).bytes == old(reader).bytes,
        match parse_lp_bytes(old(reader).bytes@, old(reader).pos as int) {
            Ok((bs, p)) => r matches Ok(v) && v@ == bs && final(reader).pos == p,
            Err(e) => r == Err::<Vec<u8>, XbfError>(e),
        },
{
    let n = read_u64(reader)?;
    if !has_bytes(reader, 0) || n > (reader.bytes.len() - reader.pos) as u64 {
        return Err(XbfError::UnexpectedEof);
    }
    let n = n as usize;
    let start = reader.pos;
    let mut v: Vec<u8> = Vec::new();
    let mut i: usize = 0;
    while i < n
        invariant
            start + n <= reader.bytes@.len(),
            reader.bytes@.len() <= usize::MAX,
            v@ == reader.bytes@.subrange(start as int, start + i),
            i <= n,
        decreases n - i,
    {
        v.push(reader.bytes[start + i]);
        i += 1;
        assert(v@ =~= reader.bytes@.subrange(start as int, start + i));
    }
    reader.pos = start + n;
    Ok(v)
}

/// Reads a `u64` length and then that many bytes of UTF-8.
pub fn read_string(reader: &mut XbfReader) -> (r: Result<String, XbfError>)
    ensures
        final(reader).bytes == old(reader).bytes,
        match parse_lp_string(old(reader).bytes@, old(reader).pos as int) {
            Ok((s, p)) => r matches Ok(v) && v@ == s && final(reader).pos == p,
            Err(e) => r == Err::<String, XbfError>(e),
        },
{
    let bytes = read_bytes(reader)?;
    match string_from_utf8(bytes) {
        Some(s) => Ok(s),
        None => Err(XbfError::InvalidUtf8),
    }
}

} // verus!
