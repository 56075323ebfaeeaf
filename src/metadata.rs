//! Metadata: the description of a value's shape, and its codec.
use crate::primitive::{
    primitive_name, lemma_primitive_discriminant, primitive_discriminant, primitive_of_discriminant,
    XbfPrimitiveMetadata,
};
use crate::wire::{
    byte_range, le_bytes, lemma_byte_ranges, lemma_le_bytes_len, lemma_le_value_of_bytes,
    lemma_parse_lp_string, lp_string, parse_le, parse_lp_string, push_u16, read_string, read_u16,
    read_u8, write_string, XbfError, XbfReader, lemma_encode_concat, push_str,
};
use indexmap::IndexMap;
use std::rc::Rc;
use vstd::prelude::*;
use vstd::utf8::encode_utf8;

verus! {

/// The discriminant byte of vector metadata: one past the last primitive.
pub const VEC_METADATA_DISCRIMINANT: u8 = 17;

/// The discriminant byte of struct metadata: one past the vector discriminant.
pub const STRUCT_METADATA_DISCRIMINANT: u8 = 18;

/// Metadata as the format sees it.
pub enum Metadata {
    Primitive(XbfPrimitiveMetadata),
    /// A vector, by the metadata of its elements.
    Vector(Box<Metadata>),
    /// A struct, by its name and its named fields in declaration order.
    Record(Seq<char>, Seq<(Seq<char>, Metadata)>),
}

/// Whether `name` is among the names of `fields`.
pub open spec fn has_field(fields: Seq<(Seq<char>, Metadata)>, name: Seq<char>) -> bool {
    exists|j: int| 0 <= j < fields.len() && #[trigger] fields[j].0 == name
}

/// No two fields share a name.
pub open spec fn names_unique(fields: Seq<(Seq<char>, Metadata)>) -> bool {
    forall|i: int, j: int|
        0 <= i < fields.len() && 0 <= j < fields.len() && i != j ==> #[trigger] fields[i].0
            != #[trigger] fields[j].0
}

/// Metadata that the format can hold: every struct has unique field names, at most 65535
/// fields, and names whose UTF-8 length fits the `u64` prefix.
pub open spec fn metadata_wf(m: Metadata) -> bool
    decreases m,
{
    match m {
        Metadata::Primitive(_) => true,
        Metadata::Vector(inner) => metadata_wf(*inner),
        Metadata::Record(name, fields) => {
            &&& fields.len() <= 0xFFFF
            &&& encode_utf8(name).len() < byte_range(8)
            &&& names_unique(fields)
            &&& forall|i: int|
                0 <= i < fields.len() ==> encode_utf8(#[trigger] fields[i].0).len() < byte_range(8)
            &&& forall|i: int| 0 <= i < fields.len() ==> metadata_wf(#[trigger] fields[i].1)
        },
    }
}

/// The bytes of metadata.
pub open spec fn metadata_bytes(m: Metadata) -> Seq<u8>
    decreases m,
{
    match m {
        Metadata::Primitive(k) => seq![primitive_discriminant(k)],
        Metadata::Vector(inner) => seq![VEC_METADATA_DISCRIMINANT] + metadata_bytes(*inner),
        Metadata::Record(name, fields) => seq![STRUCT_METADATA_DISCRIMINANT] + lp_string(name)
            + le_bytes(fields.len(), 2) + fields_bytes(fields),
    }
}

/// The bytes of a struct's fields: each name followed by its metadata.
pub open spec fn fields_bytes(fields: Seq<(Seq<char>, Metadata)>) -> Seq<u8>
    decreases fields,
{
    if fields.len() == 0 {
        seq![]
    } else {
        let last = fields.last();
        fields_bytes(fields.drop_last()) + lp_string(last.0) + metadata_bytes(last.1)
    }
}

/// What reading metadata at `pos` gives: the metadata and the position after it.
pub open spec fn parse_metadata(b: Seq<u8>, pos: int) -> Result<(Metadata, int), XbfError>
    decreases b.len() - pos, 1int, 0int,
{
    if pos < 0 || pos >= b.len() {
        Err(XbfError::UnexpectedEof)
    } else {
        let d = b[pos];
        match primitive_of_discriminant(d) {
            Some(k) => Ok((Metadata::Primitive(k), pos + 1)),
            None => if d == VEC_METADATA_DISCRIMINANT {
                match parse_metadata(b, pos + 1) {
                    Ok((inner, p)) => Ok((Metadata::Vector(Box::new(inner)), p)),
                    Err(e) => Err(e),
                }
            } else if d == STRUCT_METADATA_DISCRIMINANT {
                parse_record(b, pos + 1)
            } else {
                Err(XbfError::InvalidDiscriminant(d))
            },
        }
    }
}

/// What reading a struct's metadata after its discriminant gives.
pub open spec fn parse_record(b: Seq<u8>, pos: int) -> Result<(Metadata, int), XbfError>
    decreases b.len() - pos, 1int, 0int,
{
    if pos < 0 || pos > b.len() {
        Err(XbfError::UnexpectedEof)
    } else {
    match parse_lp_string(b, pos) {
        Ok((name, at1)) => match parse_le(b, at1, 2) {
            Ok((n, at2)) => if pos < at2 <= b.len() {
                match parse_fields(b, at2, n as int) {
                    Ok((fields, at3)) => Ok((Metadata::Record(name, fields), at3)),
                    Err(e) => Err(e),
                }
            } else {
                Err(XbfError::UnexpectedEof)
            },
            Err(e) => Err(e),
        },
        Err(e) => Err(e),
    }
    }
}

/// What reading `n` fields (each a name and its metadata) at `pos` gives.
pub open spec fn parse_fields(b: Seq<u8>, pos: int, n: int) -> Result<
    (Seq<(Seq<char>, Metadata)>, int),
    XbfError,
>
    decreases b.len() - pos, 0int, n,
{
    if pos < 0 || pos > b.len() || n < 0 {
        Err(XbfError::UnexpectedEof)
    } else if n == 0 {
        Ok((seq![], pos))
    } else {
        match parse_fields(b, pos, n - 1) {
            Ok((fields, p)) => if pos <= p <= b.len() {
                match parse_lp_string(b, p) {
                    Ok((name, at1)) => if has_field(fields, name) {
                        Err(XbfError::DuplicateFieldName)
                    } else if p < at1 <= b.len() {
                        match parse_metadata(b, at1) {
                            Ok((m, at2)) => Ok((fields.push((name, m)), at2)),
                            Err(e) => Err(e),
                        }
                    } else {
                        Err(XbfError::UnexpectedEof)
                    },
                    Err(e) => Err(e),
                }
            } else {
                Err(XbfError::UnexpectedEof)
            },
            Err(e) => Err(e),
        }
    }
}

/// The fields of a struct that the format can hold: unique names that fit, and metadata that
/// the format can hold.
pub open spec fn fields_wf(fields: Seq<(Seq<char>, Metadata)>) -> bool {
    &&& names_unique(fields)
    &&& forall|i: int|
        0 <= i < fields.len() ==> encode_utf8(#[trigger] fields[i].0).len() < byte_range(8)
    &&& forall|i: int| 0 <= i < fields.len() ==> metadata_wf(#[trigger] fields[i].1)
}

/// Metadata is read back from its bytes, whatever follows them.
pub proof fn lemma_metadata_round_trip(m: Metadata, b: Seq<u8>, pos: int)
    requires
        metadata_wf(m),
        0 <= pos,
        pos + metadata_bytes(m).len() <= b.len(),
        b.subrange(pos, pos + metadata_bytes(m).len()) == metadata_bytes(m),
    ensures
        parse_metadata(b, pos) == Ok::<(Metadata, int), XbfError>(
            (m, pos + metadata_bytes(m).len()),
        ),
    decreases m,
{
    let w = metadata_bytes(m);
    assert(b[pos] == w[0]) by {
        assert(b[pos] == b.subrange(pos, pos + w.len())[0]);
    }
    match m {
        Metadata::Primitive(k) => {
            lemma_primitive_discriminant(k);
            assert(w.len() == 1);
            assert(b[pos] == primitive_discriminant(k));
            assert(primitive_of_discriminant(b[pos]) == Some(k));
            assert(parse_metadata(b, pos) == Ok::<(Metadata, int), XbfError>(
                (m, pos + 1),
            ));
        },
        Metadata::Vector(inner) => {
            let iw = metadata_bytes(*inner);
            assert(b.subrange(pos + 1, pos + 1 + iw.len()) =~= w.subrange(1, w.len() as int));
            assert(w.subrange(1, w.len() as int) =~= iw);
            lemma_metadata_round_trip(*inner, b, pos + 1);
            assert(b[pos] == VEC_METADATA_DISCRIMINANT);
            assert(primitive_of_discriminant(b[pos]) is None);
            assert(w.len() == 1 + iw.len());
        },
        Metadata::Record(name, fields) => {
            let ns = lp_string(name);
            let nb = le_bytes(fields.len(), 2);
            let fb = fields_bytes(fields);
            let nl = ns.len() as int;
            let wl = w.len() as int;
            lemma_le_bytes_len(fields.len(), 2);
            lemma_byte_ranges();
            lemma_le_value_of_bytes(fields.len(), 2);
            assert(w =~= seq![STRUCT_METADATA_DISCRIMINANT] + ns + nb + fb);
            let at0 = pos + 1;
            assert(b.subrange(at0, at0 + nl) =~= w.subrange(1, 1 + nl));
            assert(w.subrange(1, 1 + nl) =~= ns);
            lemma_parse_lp_string(name, b, at0);
            let at1 = at0 + nl;
            assert(b.subrange(at1, at1 + 2) =~= w.subrange(1 + nl, 3 + nl));
            assert(w.subrange(1 + nl, 3 + nl) =~= nb);
            let at2 = at1 + 2;
            assert(b.subrange(at2, at2 + fb.len()) =~= w.subrange(3 + nl, wl));
            assert(w.subrange(3 + nl, wl) =~= fb);
            lemma_fields_round_trip(fields, b, at2);
            assert(pos + w.len() == at2 + fb.len());
            assert(b[pos] == STRUCT_METADATA_DISCRIMINANT);
            assert(primitive_of_discriminant(b[pos]) is None);
            assert(parse_record(b, pos + 1) == Ok::<(Metadata, int), XbfError>(
                (m, pos + w.len()),
            ));
        },
    }
}

/// The fields of a struct are read back from their bytes, whatever follows them.
pub proof fn lemma_fields_round_trip(fields: Seq<(Seq<char>, Metadata)>, b: Seq<u8>, pos: int)
    requires
        fields_wf(fields),
        0 <= pos,
        pos + fields_bytes(fields).len() <= b.len(),
        b.subrange(pos, pos + fields_bytes(fields).len()) == fields_bytes(fields),
    ensures
        parse_fields(b, pos, fields.len() as int) == Ok::<
            (Seq<(Seq<char>, Metadata)>, int),
            XbfError,
        >((fields, pos + fields_bytes(fields).len())),
    decreases fields,
{
    if fields.len() > 0 {
        let prev = fields.drop_last();
        let last = fields.last();
        let w = fields_bytes(fields);
        let pw = fields_bytes(prev);
        let ns = lp_string(last.0);
        let mw = metadata_bytes(last.1);
        let pl = pw.len() as int;
        let nl = ns.len() as int;
        let wl = w.len() as int;
        assert(w =~= pw + ns + mw);
        assert(fields_wf(prev)) by {
            assert forall|i: int| 0 <= i < prev.len() implies metadata_wf(#[trigger] prev[i].1)
                && encode_utf8(prev[i].0).len() < byte_range(8) by {
                assert(prev[i] == fields[i]);
            }
            assert forall|i: int, j: int|
                0 <= i < prev.len() && 0 <= j < prev.len() && i != j implies #[trigger] prev[i].0
                != #[trigger] prev[j].0 by {
                assert(prev[i] == fields[i] && prev[j] == fields[j]);
            }
        }
        assert(b.subrange(pos, pos + pl) =~= w.subrange(0, pl));
        assert(w.subrange(0, pl) =~= pw);
        lemma_fields_round_trip(prev, b, pos);
        let p = pos + pl;
        assert(b.subrange(p, p + nl) =~= w.subrange(pl, pl + nl));
        assert(w.subrange(pl, pl + nl) =~= ns);
        assert(encode_utf8(last.0).len() < byte_range(8)) by {
            assert(last == fields[fields.len() - 1]);
        }
        lemma_parse_lp_string(last.0, b, p);
        assert(!has_field(prev, last.0)) by {
            if has_field(prev, last.0) {
                let j = choose|j: int| 0 <= j < prev.len() && #[trigger] prev[j].0 == last.0;
                assert(prev[j] == fields[j]);
                assert(fields[j].0 != fields[fields.len() - 1].0);
            }
        }
        let at1 = p + nl;
        assert(b.subrange(at1, at1 + mw.len()) =~= w.subrange(pl + nl, wl));
        assert(w.subrange(pl + nl, wl) =~= mw);
        assert(metadata_wf(last.1)) by {
            assert(last == fields[fields.len() - 1]);
        }
        lemma_metadata_round_trip(last.1, b, at1);
        assert(prev.push(last) =~= fields);
        assert(parse_fields(b, pos, fields.len() - 1) == Ok::<
            (Seq<(Seq<char>, Metadata)>, int),
            XbfError,
        >((prev, p)));
        assert(fields.len() - 1 == prev.len());
    } else {
        assert(fields =~= seq![]);
    }
}

/// The metadata of a vector: the metadata of its elements, shared between clones.
#[derive(Debug)]
pub struct XbfVecMetadata {
    inner_type: Rc<XbfMetadata>,
}

/// The fields of struct metadata: each name with its metadata, in declaration order, and
/// looked up by name.
#[verifier::external_body]
#[derive(Debug)]
pub struct FieldMap {
    map: IndexMap<String, XbfMetadata>,
}

/// What a field map holds: each field's name and what its metadata describes, in order.
pub uninterp spec fn field_entries(m: FieldMap) -> Seq<(Seq<char>, Metadata)>;

/// Relies on `IndexMap::new`: a map without entries.
#[verifier::external_body]
fn map_new() -> (r: FieldMap)
    ensures
        field_entries(r) == Seq::<(Seq<char>, Metadata)>::empty(),
{
    FieldMap { map: IndexMap::new() }
}

/// Relies on `IndexMap::insert`: a key that is not present yet goes last, with its value.
#[verifier::external_body]
fn map_insert(m: &mut FieldMap, name: String, value: XbfMetadata)
    requires
        !has_field(field_entries(*old(m)), name@),
    ensures
        field_entries(*final(m)) == field_entries(*old(m)).push((name@, value@)),
{
    m.map.insert(name, value);
}

/// Relies on `IndexMap::len`: the number of entries.
#[verifier::external_body]
fn map_len(m: &FieldMap) -> (r: usize)
    ensures
        r == field_entries(*m).len(),
{
    m.map.len()
}

/// Relies on `IndexMap::get_index`: the entry at position `i`, if `i` is below the number of
/// entries.
#[verifier::external_body]
fn map_get_index(m: &FieldMap, i: usize) -> (r: Option<(&String, &XbfMetadata)>)
    ensures
        r is Some <==> i < field_entries(*m).len(),
        r matches Some(e) ==> e.0@ == field_entries(*m)[i as int].0 && e.1@ == field_entries(
            *m,
        )[i as int].1,
{
    m.map.get_index(i)
}

/// Relies on `IndexMap::get_index_of`: the position of the entry whose key equals `name`.
#[verifier::external_body]
fn map_index_of(m: &FieldMap, name: &str) -> (r: Option<usize>)
    ensures
        match r {
            Some(i) => i < field_entries(*m).len() && field_entries(*m)[i as int].0 == name@,
            None => !has_field(field_entries(*m), name@),
        },
{
    m.map.get_index_of(name)
}

#[derive(Debug)]
struct StructFields {
    name: String,
    fields: FieldMap,
}

/// The metadata of a struct: its name and its named fields in declaration order, shared
/// between clones.
#[derive(Debug)]
pub struct XbfStructMetadata {
    inner: Rc<StructFields>,
}

/// Metadata of any kind.
#[derive(Debug)]
pub enum XbfMetadata {
    Primitive(XbfPrimitiveMetadata),
    Vec(XbfVecMetadata),
    Struct(XbfStructMetadata),
}

/// What metadata describes.
pub closed spec fn meta_view(m: XbfMetadata) -> Metadata
    decreases m,
{
    match m {
        XbfMetadata::Primitive(k) => Metadata::Primitive(k),
        XbfMetadata::Vec(v) => Metadata::Vector(Box::new(meta_view(*v.inner_type))),
        XbfMetadata::Struct(s) => Metadata::Record(s.inner.name@, field_entries(s.inner.fields)),
    }
}

/// What a list of named fields describes.
pub open spec fn fields_view(fs: Seq<(String, XbfMetadata)>) -> Seq<(Seq<char>, Metadata)>
    decreases fs,
{
    if fs.len() == 0 {
        seq![]
    } else {
        fields_view(fs.drop_last()).push((fs.last().0@, meta_view(fs.last().1)))
    }
}

pub proof fn lemma_fields_view(fs: Seq<(String, XbfMetadata)>)
    ensures
        fields_view(fs).len() == fs.len(),
        forall|i: int|
            0 <= i < fs.len() ==> #[trigger] fields_view(fs)[i] == (fs[i].0@, meta_view(fs[i].1)),
    decreases fs.len(),
{
    if fs.len() > 0 {
        lemma_fields_view(fs.drop_last());
    }
}

pub proof fn lemma_fields_bytes_push(fs: Seq<(Seq<char>, Metadata)>, f: (Seq<char>, Metadata))
    ensures
        fields_bytes(fs.push(f)) == fields_bytes(fs) + lp_string(f.0) + metadata_bytes(f.1),
{
    assert(fs.push(f).drop_last() =~= fs);
}

impl View for XbfMetadata {
    type V = Metadata;

    open spec fn view(&self) -> Metadata {
        meta_view(*self)
    }
}

impl View for XbfVecMetadata {
    type V = Metadata;

    open spec fn view(&self) -> Metadata {
        meta_view(XbfMetadata::Vec(*self))
    }
}

impl View for XbfStructMetadata {
    type V = Metadata;

    open spec fn view(&self) -> Metadata {
        meta_view(XbfMetadata::Struct(*self))
    }
}

/// The name of struct metadata.
pub open spec fn record_name(m: Metadata) -> Seq<char> {
    match m {
        Metadata::Record(name, _) => name,
        _ => seq![],
    }
}

/// The fields of struct metadata.
pub open spec fn record_fields(m: Metadata) -> Seq<(Seq<char>, Metadata)> {
    match m {
        Metadata::Record(_, fields) => fields,
        _ => seq![],
    }
}

/// The element metadata of vector metadata.
pub open spec fn vector_inner(m: Metadata) -> Metadata {
    match m {
        Metadata::Vector(inner) => *inner,
        _ => m,
    }
}

impl XbfStructMetadata {
    #[verifier::type_invariant]
    spec fn inv(&self) -> bool {
        metadata_wf(self@)
    }
}

impl XbfVecMetadata {
    #[verifier::type_invariant]
    spec fn inv(&self) -> bool {
        metadata_wf(self@)
    }
}

/// Every struct metadata that can be built is one that the format can hold.
pub fn struct_metadata_is_wf(s: &XbfStructMetadata)
    ensures
        metadata_wf(s@),
{
    proof {
        use_type_invariant(s);
    }
}

/// Every metadata that can be built is one that the format can hold.
pub fn metadata_is_wf(m: &XbfMetadata)
    ensures
        metadata_wf(m@),
{
    match m {
        XbfMetadata::Primitive(_) => {},
        XbfMetadata::Vec(v) => {
            proof {
                use_type_invariant(v);
            }
        },
        XbfMetadata::Struct(s) => {
            proof {
                use_type_invariant(s);
            }
        },
    }
}

/// Relies on `Rc::clone`: the new handle points at the same value.
#[verifier::external_body]
fn share<T>(rc: &Rc<T>) -> (r: Rc<T>)
    ensures
        r == *rc,
{
    Rc::clone(rc)
}

/// Metadata of each kind describes what its kind says.
pub proof fn lemma_metadata_view(m: XbfMetadata)
    ensures
        m matches XbfMetadata::Primitive(k) ==> m@ == Metadata::Primitive(k),
        m matches XbfMetadata::Vec(v) ==> m@ == v@ && v@ is Vector,
        m matches XbfMetadata::Struct(s) ==> m@ == s@ && s@ is Record,
{
}

/// Vector metadata describes a vector, struct metadata a struct.
pub proof fn lemma_metadata_kinds(v: XbfVecMetadata, s: XbfStructMetadata)
    ensures
        v@ is Vector,
        s@ is Record,
{
}

impl Clone for XbfVecMetadata {
    /// A new handle to the same element metadata.
    fn clone(&self) -> (r: Self)
        ensures
            r == *self,
    {
        proof {
            use_type_invariant(self);
        }
        XbfVecMetadata { inner_type: share(&self.inner_type) }
    }
}

impl Clone for XbfStructMetadata {
    /// A new handle to the same fields.
    fn clone(&self) -> (r: Self)
        ensures
            r == *self,
    {
        proof {
            use_type_invariant(self);
        }
        XbfStructMetadata { inner: share(&self.inner) }
    }
}

impl Clone for XbfMetadata {
    fn clone(&self) -> (r: Self)
        ensures
            r == *self,
    {
        match self {
            XbfMetadata::Primitive(k) => XbfMetadata::Primitive(*k),
            XbfMetadata::Vec(v) => XbfMetadata::Vec(v.clone()),
            XbfMetadata::Struct(s) => XbfMetadata::Struct(s.clone()),
        }
    }
}

/// Two names of struct fields are the same.
fn same_name(a: &String, b: &String) -> (r: bool)
    ensures
        r == (a@ == b@),
{
    a.eq(b)
}

/// Once reading the first `k` fields fails, reading more fails the same way.
pub proof fn lemma_parse_fields_err(b: Seq<u8>, pos: int, k: int, n: int)
    requires
        0 <= pos <= b.len(),
        0 <= k <= n,
        parse_fields(b, pos, k) is Err,
    ensures
        parse_fields(b, pos, n) == parse_fields(b, pos, k),
    decreases n - k,
{
    if k < n {
        lemma_parse_fields_err(b, pos, k, n - 1);
    }
}

/// The UTF-8 bytes of a string that exists in memory fit the `u64` length prefix.
pub fn utf8_fits(s: &String)
    ensures
        encode_utf8(s@).len() < byte_range(8),
{
    let n = s.as_str().as_bytes().len();
    proof {
        lemma_byte_ranges();
    }
}

/// A struct's metadata names two fields alike.
#[derive(Debug)]
pub struct DuplicateFieldError {
    pub name: String,
    pub first: XbfMetadata,
    pub second: XbfMetadata,
}

impl XbfVecMetadata {
    /// Vector metadata whose elements are described by `inner_type`.
    pub fn new(inner_type: XbfMetadata) -> (r: XbfVecMetadata)
        ensures
            r@ == Metadata::Vector(Box::new(inner_type@)),
    {
        metadata_is_wf(&inner_type);
        XbfVecMetadata { inner_type: Rc::new(inner_type) }
    }

    /// The metadata of the elements.
    pub fn inner_type(&self) -> (r: &XbfMetadata)
        ensures
            self@ == Metadata::Vector(Box::new(r@)),
    {
        &*self.inner_type
    }

    /// Appends the vector discriminant and then the element metadata.
    pub fn serialize_vec_metadata(&self, writer: &mut Vec<u8>)
        ensures
            final(writer)@ == old(writer)@ + metadata_bytes(self@),
        decreases self@, 0int,
    {
        writer.push(VEC_METADATA_DISCRIMINANT);
        let ghost mid = writer@;
        self.inner_type.serialize_base_metadata(writer);
        assert(writer@ =~= old(writer)@ + metadata_bytes(self@));
    }

    /// Reads the element metadata of a vector whose discriminant has been read.
    pub fn deserialize_vec_metadata(reader: &mut XbfReader) -> (r: Result<XbfVecMetadata, XbfError>)
        ensures
            final(reader).bytes == old(reader).bytes,
            match parse_metadata(old(reader).bytes@, old(reader).pos as int) {
                Ok((m, p)) => r matches Ok(v) && v@ == Metadata::Vector(Box::new(m))
                    && final(reader).pos == p,
                Err(e) => r == Err::<XbfVecMetadata, XbfError>(e),
            },
            r is Ok ==> old(reader).pos < final(reader).pos <= final(reader).bytes@.len(),
        decreases old(reader).bytes@.len() - old(reader).pos, 1int,
    {
        let inner = XbfMetadata::deserialize_base_metadata(reader)?;
        Ok(XbfVecMetadata::new(inner))
    }
}

impl XbfStructMetadata {
    /// Struct metadata with a name and named fields in declaration order. Fails when two
    /// fields share a name, with that name and the metadata of both.
    pub fn new(name: String, fields: Vec<(String, XbfMetadata)>) -> (r: Result<
        XbfStructMetadata,
        DuplicateFieldError,
    >)
        requires
            fields@.len() <= 0xFFFF,
        ensures
            r is Ok <==> names_unique(fields_view(fields@)),
            r matches Ok(s) ==> s@ == Metadata::Record(name@, fields_view(fields@)),
            r matches Err(e) ==> exists|i: int, j: int|
                0 <= i < j < fields@.len() && fields@[i].0@ == e.name@ && fields@[j].0@
                    == e.name@ && e.first@ == fields@[i].1@ && e.second@ == fields@[j].1@,
    {
        proof {
            lemma_fields_view(fields@);
        }
        utf8_fits(&name);
        let mut map = map_new();
        let mut j: usize = 0;
        proof {
            assert(field_entries(map) =~= fields_view(fields@).take(0));
        }
        while j < fields.len()
            invariant
                j <= fields@.len(),
                fields@.len() <= 0xFFFF,
                fields_view(fields@).len() == fields@.len(),
                forall|i: int|
                    0 <= i < fields@.len() ==> #[trigger] fields_view(fields@)[i] == (
                        fields@[i].0@,
                        meta_view(fields@[i].1),
                    ),
                field_entries(map) == fields_view(fields@).take(j as int),
                fields_wf(field_entries(map)),
            decreases fields@.len() - j,
        {
            let name_j = &fields[j].0;
            if let Some(i) = map_index_of(&map, name_j.as_str()) {
                proof {
                    let fv = fields_view(fields@);
                    assert(fv[i as int] == field_entries(map)[i as int]);
                    assert(fv[i as int].0 == fv[j as int].0);
                }
                return Err(
                    DuplicateFieldError {
                        name: name_j.clone(),
                        first: fields[i].1.clone(),
                        second: fields[j].1.clone(),
                    },
                );
            }
            utf8_fits(name_j);
            metadata_is_wf(&fields[j].1);
            let ghost before = field_entries(map);
            map_insert(&mut map, name_j.clone(), fields[j].1.clone());
            proof {
                let fv = fields_view(fields@);
                assert(fv.take(j + 1) =~= fv.take(j as int).push(fv[j as int]));
                let e = field_entries(map);
                assert(e == before.push((fields@[j as int].0@, fields@[j as int].1@)));
                assert forall|a: int, c: int|
                    0 <= a < e.len() && 0 <= c < e.len() && a != c implies #[trigger] e[a].0
                    != #[trigger] e[c].0 by {
                    if a < before.len() && c < before.len() {
                        assert(e[a] == before[a] && e[c] == before[c]);
                    } else if a < before.len() {
                        assert(e[a] == before[a]);
                    } else if c < before.len() {
                        assert(e[c] == before[c]);
                    }
                }
                assert forall|a: int| 0 <= a < e.len() implies encode_utf8(#[trigger] e[a].0).len()
                    < byte_range(8) && metadata_wf(e[a].1) by {
                    if a < before.len() {
                        assert(e[a] == before[a]);
                    }
                }
            }
            j += 1;
        }
        proof {
            assert(fields_view(fields@).take(j as int) =~= fields_view(fields@));
        }
        let r = XbfStructMetadata { inner: Rc::new(StructFields { name, fields: map }) };
        Ok(r)
    }

    /// The name of the struct.
    pub fn name(&self) -> (r: &str)
        ensures
            r@ == record_name(self@),
    {
        self.inner.name.as_str()
    }

    /// The number of fields.
    pub fn field_count(&self) -> (r: usize)
        ensures
            r == record_fields(self@).len(),
    {
        map_len(&self.inner.fields)
    }

    /// The name of the field at position `i`.
    pub fn field_name(&self, i: usize) -> (r: &String)
        requires
            i < record_fields(self@).len(),
        ensures
            r@ == record_fields(self@)[i as int].0,
    {
        map_get_index(&self.inner.fields, i).unwrap().0
    }

    /// The metadata of the field at position `i`.
    pub fn field_type(&self, i: usize) -> (r: &XbfMetadata)
        requires
            i < record_fields(self@).len(),
        ensures
            r@ == record_fields(self@)[i as int].1,
    {
        map_get_index(&self.inner.fields, i).unwrap().1
    }

    /// The position of the field called `field`, if there is one.
    pub fn index_of(&self, field: &str) -> (r: Option<usize>)
        ensures
            match r {
                Some(i) => i < record_fields(self@).len() && record_fields(self@)[i as int].0
                    == field@,
                None => !has_field(record_fields(self@), field@),
            },
    {
        map_index_of(&self.inner.fields, field)
    }

    /// The metadata of the field called `field`, if there is one.
    pub fn get_field_type(&self, field: &str) -> (r: Option<&XbfMetadata>)
        ensures
            match r {
                Some(m) => exists|i: int|
                    0 <= i < record_fields(self@).len() && record_fields(self@)[i] == (
                        field@,
                        m@,
                    ),
                None => !has_field(record_fields(self@), field@),
            },
    {
        match self.index_of(field) {
            Some(i) => {
                let m = self.field_type(i);
                assert(record_fields(self@)[i as int] == (field@, m@));
                Some(m)
            },
            None => None,
        }
    }

    /// Appends the struct discriminant, the name, the field count and each field's name and
    /// metadata.
    pub fn serialize_struct_metadata(&self, writer: &mut Vec<u8>)
        ensures
            final(writer)@ == old(writer)@ + metadata_bytes(self@),
        decreases self@, 0int,
    {
        proof {
            use_type_invariant(self);
        }
        writer.push(STRUCT_METADATA_DISCRIMINANT);
        write_string(self.inner.name.as_str(), writer);
        let fields = &self.inner.fields;
        let n = map_len(fields);
        push_u16(writer, n as u16);
        let ghost start = writer@;
        let ghost entries = field_entries(*fields);
        let mut i: usize = 0;
        proof {
            assert(writer@ =~= start + fields_bytes(entries.take(0)));
        }
        while i < n
            invariant
                i <= n,
                n == entries.len(),
                fields == &self.inner.fields,
                entries == field_entries(*fields),
                writer@ == start + fields_bytes(entries.take(i as int)),
            decreases n - i,
        {
            let (k, v) = map_get_index(fields, i).unwrap();
            write_string(k.as_str(), writer);
            proof {
                let m = self@;
                assert(m == Metadata::Record(self.inner.name@, entries));
                assert(m is Record && m->Record_1 == entries);
                assert(decreases_to!(m => m->Record_1));
                assert(decreases_to!(entries => entries[i as int]));
                assert(decreases_to!(entries[i as int] => entries[i as int].1));
            }
            v.serialize_base_metadata(writer);
            proof {
                assert(entries.take(i + 1) =~= entries.take(i as int).push(entries[i as int]));
                lemma_fields_bytes_push(entries.take(i as int), entries[i as int]);
            }
            i += 1;
        }
        proof {
            assert(entries.take(i as int) =~= entries);
        }
        assert(writer@ =~= old(writer)@ + metadata_bytes(self@));
    }

    /// Reads the name and fields of a struct whose discriminant has been read.
    pub fn deserialize_struct_metadata(reader: &mut XbfReader) -> (r: Result<
        XbfStructMetadata,
        XbfError,
    >)
        ensures
            final(reader).bytes == old(reader).bytes,
            match parse_record(old(reader).bytes@, old(reader).pos as int) {
                Ok((m, p)) => r matches Ok(s) && s@ == m && final(reader).pos == p,
                Err(e) => r == Err::<XbfStructMetadata, XbfError>(e),
            },
            r is Ok ==> old(reader).pos < final(reader).pos <= final(reader).bytes@.len(),
        decreases old(reader).bytes@.len() - old(reader).pos, 1int,
    {
        let ghost b = reader.bytes@;
        let ghost b0 = reader.bytes;
        let ghost pos0 = reader.pos as int;
        let name = read_string(reader)?;
        let n = read_u16(reader)?;
        let ghost at2 = reader.pos as int;
        utf8_fits(&name);
        let mut fields = map_new();
        let mut i: u16 = 0;
        while i < n
            invariant
                reader.bytes@ == b,
                reader.bytes == b0,
                b0 == old(reader).bytes,
                pos0 == old(reader).pos,
                pos0 < at2 <= reader.pos <= b.len(),
                parse_record(b, pos0) == match parse_fields(b, at2, n as int) {
                    Ok((f, q)) => Ok((Metadata::Record(name@, f), q)),
                    Err(e) => Err(e),
                },
                i <= n,
                field_entries(fields).len() == i,
                parse_fields(b, at2, i as int) == Ok::<(Seq<(Seq<char>, Metadata)>, int), XbfError>(
                    (field_entries(fields), reader.pos as int),
                ),
                fields_wf(field_entries(fields)),
            decreases n - i,
        {
            let fname = match read_string(reader) {
                Ok(x) => x,
                Err(e) => {
                    proof {
                        lemma_parse_fields_err(b, at2, i + 1, n as int);
                    }
                    return Err(e);
                },
            };
            utf8_fits(&fname);
            if map_index_of(&fields, fname.as_str()).is_some() {
                proof {
                    lemma_parse_fields_err(b, at2, i + 1, n as int);
                }
                return Err(XbfError::DuplicateFieldName);
            }
            let m = match XbfMetadata::deserialize_base_metadata(reader) {
                Ok(x) => x,
                Err(e) => {
                    proof {
                        lemma_parse_fields_err(b, at2, i + 1, n as int);
                    }
                    return Err(e);
                },
            };
            metadata_is_wf(&m);
            let ghost before = field_entries(fields);
            let ghost entry = (fname@, m@);
            map_insert(&mut fields, fname, m);
            proof {
                let e = field_entries(fields);
                assert(e == before.push(entry));
                assert forall|a: int, c: int|
                    0 <= a < e.len() && 0 <= c < e.len() && a != c implies #[trigger] e[a].0
                    != #[trigger] e[c].0 by {
                    if a < before.len() && c < before.len() {
                        assert(e[a] == before[a] && e[c] == before[c]);
                    } else if a < before.len() {
                        assert(e[a] == before[a]);
                    } else if c < before.len() {
                        assert(e[c] == before[c]);
                    }
                }
                assert forall|a: int| 0 <= a < e.len() implies encode_utf8(#[trigger] e[a].0).len()
                    < byte_range(8) && metadata_wf(e[a].1) by {
                    if a < before.len() {
                        assert(e[a] == before[a]);
                    }
                }
            }
            i += 1;
        }
        let r = XbfStructMetadata { inner: Rc::new(StructFields { name, fields }) };
        Ok(r)
    }
}

impl XbfMetadata {
    /// Appends the bytes of this metadata, starting with exactly one discriminant byte.
    pub fn serialize_base_metadata(&self, writer: &mut Vec<u8>)
        ensures
            final(writer)@ == old(writer)@ + metadata_bytes(self@),
        decreases self@, 1int,
    {
        match self {
            XbfMetadata::Primitive(k) => {
                k.serialize_primitive_metadata(writer);
                assert(writer@ =~= old(writer)@ + metadata_bytes(self@));
            },
            XbfMetadata::Vec(v) => v.serialize_vec_metadata(writer),
            XbfMetadata::Struct(s) => s.serialize_struct_metadata(writer),
        }
    }

    /// Reads metadata: one discriminant byte, then what that kind of metadata holds.
    pub fn deserialize_base_metadata(reader: &mut XbfReader) -> (r: Result<XbfMetadata, XbfError>)
        ensures
            final(reader).bytes == old(reader).bytes,
            match parse_metadata(old(reader).bytes@, old(reader).pos as int) {
                Ok((m, p)) => r matches Ok(x) && x@ == m && final(reader).pos == p,
                Err(e) => r == Err::<XbfMetadata, XbfError>(e),
            },
            r is Ok ==> old(reader).pos < final(reader).pos <= final(reader).bytes@.len(),
            old(reader).pos < old(reader).bytes@.len() && primitive_of_discriminant(
                old(reader).bytes@[old(reader).pos as int],
            ) is None && old(reader).bytes@[old(reader).pos as int] != 17
                && old(reader).bytes@[old(reader).pos as int] != 18 ==> final(reader).pos == old(
                reader,
            ).pos + 1,
        decreases old(reader).bytes@.len() - old(reader).pos, 0int,
    {
        let d = read_u8(reader)?;
        match XbfPrimitiveMetadata::from_discriminant(d) {
            Ok(k) => Ok(XbfMetadata::Primitive(k)),
            Err(_) => {
                if d == VEC_METADATA_DISCRIMINANT {
                    let v = XbfVecMetadata::deserialize_vec_metadata(reader)?;
                    Ok(XbfMetadata::Vec(v))
                } else if d == STRUCT_METADATA_DISCRIMINANT {
                    let s = XbfStructMetadata::deserialize_struct_metadata(reader)?;
                    Ok(XbfMetadata::Struct(s))
                } else {
                    Err(XbfError::InvalidDiscriminant(d))
                }
            },
        }
    }
}

/// Whether two metadata describe the same shape.
pub fn metadata_eq(a: &XbfMetadata, b: &XbfMetadata) -> (r: bool)
    ensures
        r == (a@ == b@),
    decreases a@,
{
    match (a, b) {
        (XbfMetadata::Primitive(x), XbfMetadata::Primitive(y)) => *x == *y,
        (XbfMetadata::Vec(x), XbfMetadata::Vec(y)) => {
            proof {
                let m = a@;
                assert(m == Metadata::Vector(Box::new(x.inner_type@)));
                assert(m is Vector && *m->Vector_0 == x.inner_type@);
                assert(decreases_to!(m => *m->Vector_0));
            }
            metadata_eq(&*x.inner_type, &*y.inner_type)
        },
        (XbfMetadata::Struct(x), XbfMetadata::Struct(y)) => {
            let xf = &x.inner.fields;
            let yf = &y.inner.fields;
            let n = map_len(xf);
            if !same_name(&x.inner.name, &y.inner.name) || n != map_len(yf) {
                return false;
            }
            let ghost xe = field_entries(*xf);
            let ghost ye = field_entries(*yf);
            let mut i: usize = 0;
            while i < n
                invariant
                    i <= n,
                    n == xe.len(),
                    n == ye.len(),
                    xf == &x.inner.fields,
                    yf == &y.inner.fields,
                    xe == field_entries(*xf),
                    ye == field_entries(*yf),
                    *a == XbfMetadata::Struct(*x),
                    *b == XbfMetadata::Struct(*y),
                    x.inner.name@ == y.inner.name@,
                    forall|k: int| 0 <= k < i ==> #[trigger] xe[k] == ye[k],
                decreases n - i,
            {
                let (xk, xv) = map_get_index(xf, i).unwrap();
                let (yk, yv) = map_get_index(yf, i).unwrap();
                proof {
                    let m = a@;
                    assert(m == Metadata::Record(x.inner.name@, xe));
                    assert(m is Record && m->Record_1 == xe);
                    assert(decreases_to!(m => m->Record_1));
                    assert(decreases_to!(xe => xe[i as int]));
                    assert(decreases_to!(xe[i as int] => xe[i as int].1));
                }
                if !same_name(xk, yk) || !metadata_eq(xv, yv) {
                    assert(xe[i as int] != ye[i as int]);
                    return false;
                }
                i += 1;
            }
            proof {
                assert(xe =~= ye);
            }
            true
        },
        _ => false,
    }
}

impl PartialEq for XbfMetadata {
    fn eq(&self, other: &XbfMetadata) -> (r: bool) {
        metadata_eq(self, other)
    }
}

impl vstd::std_specs::cmp::PartialEqSpecImpl for XbfMetadata {
    open spec fn obeys_eq_spec() -> bool {
        true
    }

    open spec fn eq_spec(&self, other: &XbfMetadata) -> bool {
        self@ == other@
    }
}

impl PartialEq for XbfVecMetadata {
    fn eq(&self, other: &XbfVecMetadata) -> (r: bool) {
        metadata_eq(&*self.inner_type, &*other.inner_type)
    }
}

impl vstd::std_specs::cmp::PartialEqSpecImpl for XbfVecMetadata {
    open spec fn obeys_eq_spec() -> bool {
        true
    }

    open spec fn eq_spec(&self, other: &XbfVecMetadata) -> bool {
        self@ == other@
    }
}

impl PartialEq for XbfStructMetadata {
    fn eq(&self, other: &XbfStructMetadata) -> (r: bool) {
        let a = XbfMetadata::Struct(self.clone());
        let b = XbfMetadata::Struct(other.clone());
        metadata_eq(&a, &b)
    }
}

impl vstd::std_specs::cmp::PartialEqSpecImpl for XbfStructMetadata {
    open spec fn obeys_eq_spec() -> bool {
        true
    }

    open spec fn eq_spec(&self, other: &XbfStructMetadata) -> bool {
        self@ == other@
    }
}

/// Marks the types that convert into [`XbfMetadata`].
pub trait Sealed {}

impl Sealed for XbfPrimitiveMetadata {}

impl Sealed for XbfVecMetadata {}

impl Sealed for XbfStructMetadata {}

/// Conversion of each kind of metadata into metadata of any kind.
pub trait XbfMetadataUpcast: Sealed + Sized {
    /// What the converted metadata describes.
    spec fn upcast_view(&self) -> Metadata;

    fn into_base_metadata(self) -> (r: XbfMetadata)
        ensures
            r@ == self.upcast_view(),
    ;

    fn to_base_metadata(&self) -> (r: XbfMetadata)
        ensures
            r@ == self.upcast_view(),
    ;
}

impl XbfMetadataUpcast for XbfPrimitiveMetadata {
    open spec fn upcast_view(&self) -> Metadata {
        Metadata::Primitive(*self)
    }

    fn into_base_metadata(self) -> (r: XbfMetadata) {
        XbfMetadata::Primitive(self)
    }

    fn to_base_metadata(&self) -> (r: XbfMetadata) {
        XbfMetadata::Primitive(*self)
    }
}

impl XbfMetadataUpcast for XbfVecMetadata {
    open spec fn upcast_view(&self) -> Metadata {
        self@
    }

    fn into_base_metadata(self) -> (r: XbfMetadata) {
        XbfMetadata::Vec(self)
    }

    fn to_base_metadata(&self) -> (r: XbfMetadata) {
        XbfMetadata::Vec(self.clone())
    }
}

impl XbfMetadataUpcast for XbfStructMetadata {
    open spec fn upcast_view(&self) -> Metadata {
        self@
    }

    fn into_base_metadata(self) -> (r: XbfMetadata) {
        XbfMetadata::Struct(self)
    }

    fn to_base_metadata(&self) -> (r: XbfMetadata) {
        XbfMetadata::Struct(self.clone())
    }
}

/// The text that messages give for metadata: a primitive by its kind, a vector as `Vec<...>`,
/// a struct as `Struct name { field: ...; }`.
pub open spec fn metadata_text(m: Metadata) -> Seq<char>
    decreases m,
{
    match m {
        Metadata::Primitive(k) => primitive_name(k),
        Metadata::Vector(inner) => "Vec<"@ + metadata_text(*inner) + ">"@,
        Metadata::Record(name, fields) => "Struct "@ + name + " { "@ + fields_text(fields) + "}"@,
    }
}

/// The text of a struct's fields: each name, its metadata's text, and a separator.
pub open spec fn fields_text(fields: Seq<(Seq<char>, Metadata)>) -> Seq<char>
    decreases fields,
{
    if fields.len() == 0 {
        seq![]
    } else {
        let last = fields.last();
        fields_text(fields.drop_last()) + last.0 + ": "@ + metadata_text(last.1) + "; "@
    }
}

/// Appends the UTF-8 bytes of the text of `m`.
pub fn write_metadata_text(m: &XbfMetadata, out: &mut Vec<u8>)
    ensures
        final(out)@ == old(out)@ + encode_utf8(metadata_text(m@)),
    decreases m@,
{
    proof {
        lemma_metadata_view(*m);
    }
    match m {
        XbfMetadata::Primitive(k) => push_str(out, k.name()),
        XbfMetadata::Vec(v) => {
            let inner: &XbfMetadata = &*v.inner_type;
            proof {
                let mm = m@;
                assert(mm == Metadata::Vector(Box::new(inner@)));
                assert(mm is Vector && *mm->Vector_0 == inner@);
                assert(decreases_to!(mm => *mm->Vector_0));
            }
            push_str(out, "Vec<");
            write_metadata_text(inner, out);
            push_str(out, ">");
            proof {
                let a = "Vec<"@;
                let t = metadata_text(inner@);
                lemma_encode_concat(a, t);
                lemma_encode_concat(a + t, ">"@);
                assert(out@ =~= old(out)@ + encode_utf8(metadata_text(m@)));
            }
        },
        XbfMetadata::Struct(s) => {
            let fields = &s.inner.fields;
            let ghost entries = field_entries(*fields);
            let ghost name = s.inner.name@;
            proof {
                assert(m@ == Metadata::Record(name, entries));
            }
            push_str(out, "Struct ");
            push_str(out, s.inner.name.as_str());
            push_str(out, " { ");
            let ghost start = out@;
            let n = map_len(fields);
            let mut i: usize = 0;
            proof {
                assert(fields_text(entries.take(0)) =~= Seq::<char>::empty());
                assert(encode_utf8(Seq::<char>::empty()) =~= Seq::<u8>::empty());
                assert(out@ =~= start + encode_utf8(fields_text(entries.take(0))));
            }
            while i < n
                invariant
                    i <= n,
                    n == entries.len(),
                    fields == &s.inner.fields,
                    entries == field_entries(*fields),
                    m@ == Metadata::Record(name, entries),
                    out@ == start + encode_utf8(fields_text(entries.take(i as int))),
                decreases n - i,
            {
                let (k, val) = map_get_index(fields, i).unwrap();
                proof {
                    let mm = m@;
                    assert(mm is Record && mm->Record_1 == entries);
                    assert(decreases_to!(mm => mm->Record_1));
                    assert(decreases_to!(entries => entries[i as int]));
                    assert(decreases_to!(entries[i as int] => entries[i as int].1));
                }
                let ghost before = out@;
                push_str(out, k.as_str());
                push_str(out, ": ");
                write_metadata_text(val, out);
                push_str(out, "; ");
                proof {
                    let prev = fields_text(entries.take(i as int));
                    let t = metadata_text(val@);
                    assert(entries.take(i + 1).drop_last() =~= entries.take(i as int));
                    assert(entries.take(i + 1).last() == entries[i as int]);
                    assert(fields_text(entries.take(i + 1)) == prev + k@ + ": "@ + t + "; "@);
                    lemma_encode_concat(prev, k@);
                    lemma_encode_concat(prev + k@, ": "@);
                    lemma_encode_concat(prev + k@ + ": "@, t);
                    lemma_encode_concat(prev + k@ + ": "@ + t, "; "@);
                    assert(out@ =~= start + encode_utf8(fields_text(entries.take(i + 1))));
                }
                i += 1;
            }
            push_str(out, "}");
            proof {
                assert(entries.take(i as int) =~= entries);
                let a = "Struct "@;
                let f = fields_text(entries);
                lemma_encode_concat(a, name);
                lemma_encode_concat(a + name, " { "@);
                lemma_encode_concat(a + name + " { "@, f);
                lemma_encode_concat(a + name + " { "@ + f, "}"@);
                assert(out@ =~= old(out)@ + encode_utf8(metadata_text(m@)));
            }
        },
    }
}

} // verus!
