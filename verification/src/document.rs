//! The in-memory model of a container file: header, metadata table, tensor
//! descriptor table and the opaque tensor-data segment, together with the
//! byte-exact file layout.
//!
//! On disk the file is the fixed 24-byte header (magic, version, tensor
//! count, metadata count), `metadata_count` metadata entries, `tensor_count`
//! tensor descriptors, zero padding up to the alignment constant, and the
//! tensor-data segment, whose bytes the codec copies verbatim and never
//! reinterprets.

use vstd::prelude::*;
use vstd::bytes::*;
use crate::value::{MetadataValue, SpecValue, ValueTag, spec_tag_byte, spec_tag_of_byte,
    spec_value_tag};
use crate::codec::{spec_dec_value, spec_enc_value};

verus! {

/// The four magic bytes every container file starts with: `GGUF`.
pub open spec fn spec_magic() -> Seq<u8> {
    seq![0x47u8, 0x47u8, 0x55u8, 0x46u8]
}

/// The one format version this codec understands.
pub const GGUF_VERSION: u32 = 1;

/// The byte boundary the tensor-data segment is padded to.
pub const ALIGNMENT: u64 = 32;

/// The fixed-size file header. The magic literal is implicit: it is checked
/// on decode and always written on encode.
#[derive(Clone, Copy, PartialEq, Eq, Structural, Debug)]
pub struct Header {
    pub version: u32,
    pub tensor_count: u64,
    pub metadata_count: u64,
}

/// One key/value metadata entry. Keys are raw bytes; the table keeps them
/// unique and in file order.
pub struct MetadataEntry {
    pub key: Vec<u8>,
    pub value: MetadataValue,
}

/// Spec model of a metadata entry.
pub struct SpecEntry {
    pub key: Seq<u8>,
    pub value: SpecValue,
}

impl View for MetadataEntry {
    type V = SpecEntry;

    open spec fn view(&self) -> SpecEntry {
        SpecEntry { key: self.key@, value: self.value@ }
    }
}

/// The element type of a tensor, with its fixed per-element byte width.
#[derive(Clone, Copy, PartialEq, Eq, Structural, Debug)]
pub enum ElementType {
    F32,
    F16,
    I8,
    I16,
    I32,
    I64,
    F64,
}

/// The code an element type is written as.
pub open spec fn spec_elem_type_code(t: ElementType) -> u32 {
    match t {
        ElementType::F32 => 0,
        ElementType::F16 => 1,
        ElementType::I8 => 24,
        ElementType::I16 => 25,
        ElementType::I32 => 26,
        ElementType::I64 => 27,
        ElementType::F64 => 28,
    }
}

/// The element type a code stands for; `None` for an unknown code.
pub open spec fn spec_elem_type_of_code(c: u32) -> Option<ElementType> {
    if c == 0 {
        Some(ElementType::F32)
    } else if c == 1 {
        Some(ElementType::F16)
    } else if c == 24 {
        Some(ElementType::I8)
    } else if c == 25 {
        Some(ElementType::I16)
    } else if c == 26 {
        Some(ElementType::I32)
    } else if c == 27 {
        Some(ElementType::I64)
    } else if c == 28 {
        Some(ElementType::F64)
    } else {
        None
    }
}

/// The byte width of one element of the given type.
pub open spec fn spec_elem_type_size(t: ElementType) -> int {
    match t {
        ElementType::F32 => 4,
        ElementType::F16 => 2,
        ElementType::I8 => 1,
        ElementType::I16 => 2,
        ElementType::I32 => 4,
        ElementType::I64 => 8,
        ElementType::F64 => 8,
    }
}

pub fn elem_type_code(t: ElementType) -> (c: u32)
    ensures
        c == spec_elem_type_code(t),
{
    match t {
        ElementType::F32 => 0,
        ElementType::F16 => 1,
        ElementType::I8 => 24,
        ElementType::I16 => 25,
        ElementType::I32 => 26,
        ElementType::I64 => 27,
        ElementType::F64 => 28,
    }
}

pub fn elem_type_of_code(c: u32) -> (r: Option<ElementType>)
    ensures
        r == spec_elem_type_of_code(c),
{
    if c == 0 {
        Some(ElementType::F32)
    } else if c == 1 {
        Some(ElementType::F16)
    } else if c == 24 {
        Some(ElementType::I8)
    } else if c == 25 {
        Some(ElementType::I16)
    } else if c == 26 {
        Some(ElementType::I32)
    } else if c == 27 {
        Some(ElementType::I64)
    } else if c == 28 {
        Some(ElementType::F64)
    } else {
        None
    }
}

/// One tensor descriptor: name, dimensions, element type, and the tensor's
/// byte offset into the data segment.
pub struct TensorDescriptor {
    pub name: Vec<u8>,
    pub dims: Vec<u64>,
    pub element_type: ElementType,
    pub offset: u64,
}

/// Spec model of a tensor descriptor.
pub struct SpecDescriptor {
    pub name: Seq<u8>,
    pub dims: Seq<u64>,
    pub element_type: ElementType,
    pub offset: u64,
}

impl View for TensorDescriptor {
    type V = SpecDescriptor;

    open spec fn view(&self) -> SpecDescriptor {
        SpecDescriptor {
            name: self.name@,
            dims: self.dims@,
            element_type: self.element_type,
            offset: self.offset,
        }
    }
}

/// The in-memory aggregate of one container file. `data` is the tensor-data
/// segment, carried verbatim.
pub struct Document {
    pub header: Header,
    pub metadata: Vec<MetadataEntry>,
    pub tensors: Vec<TensorDescriptor>,
    pub data: Vec<u8>,
}

/// Spec model of a document.
pub struct SpecDocument {
    pub header: Header,
    pub metadata: Seq<SpecEntry>,
    pub tensors: Seq<SpecDescriptor>,
    pub data: Seq<u8>,
}

/// The spec models of a run of metadata entries, in order.
pub open spec fn spec_entries_view(s: Seq<MetadataEntry>) -> Seq<SpecEntry> {
    Seq::new(s.len(), |i: int| s[i]@)
}

/// The spec models of a run of tensor descriptors, in order.
pub open spec fn spec_descs_view(s: Seq<TensorDescriptor>) -> Seq<SpecDescriptor> {
    Seq::new(s.len(), |i: int| s[i]@)
}

impl View for Document {
    type V = SpecDocument;

    open spec fn view(&self) -> SpecDocument {
        SpecDocument {
            header: self.header,
            metadata: spec_entries_view(self.metadata@),
            tensors: spec_descs_view(self.tensors@),
            data: self.data@,
        }
    }
}

// ---------------------------------------------------------------------------
// Spec-level encoding of the sections and the whole file
// ---------------------------------------------------------------------------

/// The encoding of the fixed-size header.
pub open spec fn spec_enc_header(h: Header) -> Seq<u8> {
    spec_magic() + spec_u32_to_le_bytes(h.version) + spec_u64_to_le_bytes(h.tensor_count)
        + spec_u64_to_le_bytes(h.metadata_count)
}

/// The encoding of one metadata entry: key length, key bytes, type tag byte,
/// value bytes.
pub open spec fn spec_enc_entry(e: SpecEntry) -> Seq<u8> {
    spec_u64_to_le_bytes(e.key.len() as u64) + e.key + seq![spec_tag_byte(
        spec_value_tag(e.value),
    )] + spec_enc_value(e.value)
}

/// The concatenated encodings of the metadata entries, in table order.
pub open spec fn spec_enc_entries(s: Seq<SpecEntry>) -> Seq<u8>
    decreases s.len(),
{
    if s.len() == 0 {
        Seq::<u8>::empty()
    } else {
        spec_enc_entry(s.first()) + spec_enc_entries(s.drop_first())
    }
}

/// The concatenated little-endian encodings of the dimension sizes.
pub open spec fn spec_enc_dims(dims: Seq<u64>) -> Seq<u8>
    decreases dims.len(),
{
    if dims.len() == 0 {
        Seq::<u8>::empty()
    } else {
        spec_u64_to_le_bytes(dims.first()) + spec_enc_dims(dims.drop_first())
    }
}

/// The encoding of one tensor descriptor: name length, name bytes, dimension
/// count, dimensions, element type code, data offset.
pub open spec fn spec_enc_desc(d: SpecDescriptor) -> Seq<u8> {
    spec_u64_to_le_bytes(d.name.len() as u64) + d.name + spec_u32_to_le_bytes(
        d.dims.len() as u32,
    ) + spec_enc_dims(d.dims) + spec_u32_to_le_bytes(spec_elem_type_code(d.element_type))
        + spec_u64_to_le_bytes(d.offset)
}

/// The concatenated encodings of the tensor descriptors, in table order.
pub open spec fn spec_enc_descs(s: Seq<SpecDescriptor>) -> Seq<u8>
    decreases s.len(),
{
    if s.len() == 0 {
        Seq::<u8>::empty()
    } else {
        spec_enc_desc(s.first()) + spec_enc_descs(s.drop_first())
    }
}

/// Rounds a byte count up to the next multiple of the alignment constant.
pub open spec fn spec_align_up(n: int) -> int {
    ((n + 31) / 32) * 32
}

/// `spec_align_up` lands on the first multiple of the alignment constant at
/// or past its argument.
pub proof fn lemma_align_up(n: int)
    requires
        0 <= n,
    ensures
        n <= spec_align_up(n) < n + 32,
        spec_align_up(n) % 32 == 0,
{
    vstd::arithmetic::div_mod::lemma_fundamental_div_mod(n + 31, 32);
    vstd::arithmetic::div_mod::lemma_mod_multiples_basic((n + 31) / 32, 32);
    vstd::arithmetic::div_mod::lemma_mod_bound(n + 31, 32);
}

/// The byte length of the three leading sections: header, metadata entries,
/// tensor descriptors.
pub open spec fn spec_sections_len(d: SpecDocument) -> int {
    24 + spec_enc_entries(d.metadata).len() as int + spec_enc_descs(d.tensors).len() as int
}

/// The file offset at which the tensor-data segment starts.
pub open spec fn spec_data_start(d: SpecDocument) -> int {
    spec_align_up(spec_sections_len(d))
}

/// The complete encoding of a document: header, metadata entries, tensor
/// descriptors, zero padding to the alignment constant, then the tensor-data
/// segment verbatim.
pub open spec fn spec_enc_document(d: SpecDocument) -> Seq<u8> {
    spec_enc_header(d.header) + spec_enc_entries(d.metadata) + spec_enc_descs(d.tensors)
        + Seq::new((spec_data_start(d) - spec_sections_len(d)) as nat, |i: int| 0u8) + d.data
}

// ---------------------------------------------------------------------------
// Spec-level decoding
// ---------------------------------------------------------------------------

/// Decodes one metadata entry at `pos`.
pub open spec fn spec_dec_entry(bytes: Seq<u8>, pos: int) -> Option<(SpecEntry, int)> {
    let len = bytes.len() as int;
    if pos + 8 <= len {
        let klen = spec_u64_from_le_bytes(bytes.subrange(pos, pos + 8)) as int;
        if pos + 8 + klen + 1 <= len {
            let key = bytes.subrange(pos + 8, pos + 8 + klen);
            let p1 = pos + 8 + klen;
            match spec_tag_of_byte(bytes[p1]) {
                Some(t) => match spec_dec_value(bytes, p1 + 1, t) {
                    Some((v, end)) => Some((SpecEntry { key, value: v }, end)),
                    None => None,
                },
                None => None,
            }
        } else {
            None
        }
    } else {
        None
    }
}

/// Decodes `n` consecutive metadata entries starting at `pos`.
pub open spec fn spec_dec_entries(bytes: Seq<u8>, pos: int, n: nat) -> Option<
    (Seq<SpecEntry>, int),
>
    decreases n,
{
    if n == 0 {
        Some((Seq::<SpecEntry>::empty(), pos))
    } else {
        match spec_dec_entry(bytes, pos) {
            Some((e, p1)) => match spec_dec_entries(bytes, p1, (n - 1) as nat) {
                Some((rest, end)) => Some((seq![e] + rest, end)),
                None => None,
            },
            None => None,
        }
    }
}

/// Decodes `n` consecutive dimension sizes starting at `pos`.
pub open spec fn spec_dec_dims(bytes: Seq<u8>, pos: int, n: nat) -> Option<(Seq<u64>, int)>
    decreases n,
{
    let len = bytes.len() as int;
    if n == 0 {
        Some((Seq::<u64>::empty(), pos))
    } else if pos + 8 <= len {
        let d = spec_u64_from_le_bytes(bytes.subrange(pos, pos + 8));
        match spec_dec_dims(bytes, pos + 8, (n - 1) as nat) {
            Some((rest, end)) => Some((seq![d] + rest, end)),
            None => None,
        }
    } else {
        None
    }
}

/// Decodes one tensor descriptor at `pos`.
pub open spec fn spec_dec_desc(bytes: Seq<u8>, pos: int) -> Option<(SpecDescriptor, int)> {
    let len = bytes.len() as int;
    if pos + 8 <= len {
        let nlen = spec_u64_from_le_bytes(bytes.subrange(pos, pos + 8)) as int;
        if pos + 8 + nlen + 4 <= len {
            let name = bytes.subrange(pos + 8, pos + 8 + nlen);
            let p1 = pos + 8 + nlen;
            let ndims = spec_u32_from_le_bytes(bytes.subrange(p1, p1 + 4));
            match spec_dec_dims(bytes, p1 + 4, ndims as nat) {
                Some((dims, p2)) => if p2 + 12 <= len {
                    let code = spec_u32_from_le_bytes(bytes.subrange(p2, p2 + 4));
                    match spec_elem_type_of_code(code) {
                        Some(et) => {
                            let off = spec_u64_from_le_bytes(bytes.subrange(p2 + 4, p2 + 12));
                            Some(
                                (
                                    SpecDescriptor {
                                        name,
                                        dims,
                                        element_type: et,
                                        offset: off,
                                    },
                                    p2 + 12,
                                ),
                            )
                        },
                        None => None,
                    }
                } else {
                    None
                },
                None => None,
            }
        } else {
            None
        }
    } else {
        None
    }
}

/// Decodes `n` consecutive tensor descriptors starting at `pos`.
pub open spec fn spec_dec_descs(bytes: Seq<u8>, pos: int, n: nat) -> Option<
    (Seq<SpecDescriptor>, int),
>
    decreases n,
{
    if n == 0 {
        Some((Seq::<SpecDescriptor>::empty(), pos))
    } else {
        match spec_dec_desc(bytes, pos) {
            Some((d, p1)) => match spec_dec_descs(bytes, p1, (n - 1) as nat) {
                Some((rest, end)) => Some((seq![d] + rest, end)),
                None => None,
            },
            None => None,
        }
    }
}

/// Whether the file starts with the magic literal.
pub open spec fn spec_magic_ok(bytes: Seq<u8>) -> bool {
    bytes.len() >= 4 && bytes.subrange(0, 4) == spec_magic()
}

/// The version field of a file whose magic is in place.
pub open spec fn spec_file_version(bytes: Seq<u8>) -> u32 {
    spec_u32_from_le_bytes(bytes.subrange(4, 8))
}

/// Decodes a whole file: the model of the executable decoder. `None` covers
/// every failure past the magic and version checks (a truncated header or
/// section, a malformed entry or descriptor, non-zero padding).
pub open spec fn spec_dec_document(bytes: Seq<u8>) -> Option<SpecDocument> {
    let len = bytes.len() as int;
    if spec_magic_ok(bytes) && len >= 8 && spec_file_version(bytes) == GGUF_VERSION && len
        >= 24 {
        let tc = spec_u64_from_le_bytes(bytes.subrange(8, 16));
        let mc = spec_u64_from_le_bytes(bytes.subrange(16, 24));
        match spec_dec_entries(bytes, 24, mc as nat) {
            Some((md, p1)) => match spec_dec_descs(bytes, p1, tc as nat) {
                Some((ts, p2)) => {
                    let ds = spec_align_up(p2);
                    if ds <= len && (forall|i: int| p2 <= i < ds ==> bytes[i] == 0) {
                        Some(
                            SpecDocument {
                                header: Header {
                                    version: GGUF_VERSION,
                                    tensor_count: tc,
                                    metadata_count: mc,
                                },
                                metadata: md,
                                tensors: ts,
                                data: bytes.subrange(ds, len),
                            },
                        )
                    } else {
                        None
                    }
                },
                None => None,
            },
            None => None,
        }
    } else {
        None
    }
}

// ---------------------------------------------------------------------------
// Append laws of the section encodings
// ---------------------------------------------------------------------------

/// A one-entry run encodes as that entry alone.
pub proof fn lemma_enc_entries_singleton(e: SpecEntry)
    ensures
        spec_enc_entries(seq![e]) == spec_enc_entry(e),
{
    assert(seq![e].first() == e);
    assert(seq![e].drop_first() =~= Seq::<SpecEntry>::empty());
    assert(spec_enc_entries(Seq::<SpecEntry>::empty()) == Seq::<u8>::empty());
    assert(spec_enc_entry(e) + Seq::<u8>::empty() =~= spec_enc_entry(e));
}

/// Concatenating entry runs concatenates their encodings.
pub proof fn lemma_enc_entries_append(a: Seq<SpecEntry>, b: Seq<SpecEntry>)
    ensures
        spec_enc_entries(a + b) == spec_enc_entries(a) + spec_enc_entries(b),
    decreases a.len(),
{
    if a.len() == 0 {
        assert(a + b =~= b);
        assert(spec_enc_entries(a) + spec_enc_entries(b) =~= spec_enc_entries(b));
    } else {
        assert((a + b).first() == a.first());
        assert((a + b).drop_first() =~= a.drop_first() + b);
        lemma_enc_entries_append(a.drop_first(), b);
        assert(spec_enc_entry(a.first()) + (spec_enc_entries(a.drop_first()) + spec_enc_entries(
            b,
        )) =~= (spec_enc_entry(a.first()) + spec_enc_entries(a.drop_first())) + spec_enc_entries(
            b,
        ));
    }
}

/// A one-descriptor run encodes as that descriptor alone.
pub proof fn lemma_enc_descs_singleton(d: SpecDescriptor)
    ensures
        spec_enc_descs(seq![d]) == spec_enc_desc(d),
{
    assert(seq![d].first() == d);
    assert(seq![d].drop_first() =~= Seq::<SpecDescriptor>::empty());
    assert(spec_enc_descs(Seq::<SpecDescriptor>::empty()) == Seq::<u8>::empty());
    assert(spec_enc_desc(d) + Seq::<u8>::empty() =~= spec_enc_desc(d));
}

/// Concatenating descriptor runs concatenates their encodings.
pub proof fn lemma_enc_descs_append(a: Seq<SpecDescriptor>, b: Seq<SpecDescriptor>)
    ensures
        spec_enc_descs(a + b) == spec_enc_descs(a) + spec_enc_descs(b),
    decreases a.len(),
{
    if a.len() == 0 {
        assert(a + b =~= b);
        assert(spec_enc_descs(a) + spec_enc_descs(b) =~= spec_enc_descs(b));
    } else {
        assert((a + b).first() == a.first());
        assert((a + b).drop_first() =~= a.drop_first() + b);
        lemma_enc_descs_append(a.drop_first(), b);
        assert(spec_enc_desc(a.first()) + (spec_enc_descs(a.drop_first()) + spec_enc_descs(b))
            =~= (spec_enc_desc(a.first()) + spec_enc_descs(a.drop_first())) + spec_enc_descs(b));
    }
}

/// A one-dimension run encodes as that dimension alone.
pub proof fn lemma_enc_dims_singleton(d: u64)
    ensures
        spec_enc_dims(seq![d]) == spec_u64_to_le_bytes(d),
{
    assert(seq![d].first() == d);
    assert(seq![d].drop_first() =~= Seq::<u64>::empty());
    assert(spec_enc_dims(Seq::<u64>::empty()) == Seq::<u8>::empty());
    lemma_auto_spec_u64_to_from_le_bytes();
    assert(spec_u64_to_le_bytes(d) + Seq::<u8>::empty() =~= spec_u64_to_le_bytes(d));
}

/// Concatenating dimension runs concatenates their encodings.
pub proof fn lemma_enc_dims_append(a: Seq<u64>, b: Seq<u64>)
    ensures
        spec_enc_dims(a + b) == spec_enc_dims(a) + spec_enc_dims(b),
    decreases a.len(),
{
    if a.len() == 0 {
        assert(a + b =~= b);
        assert(spec_enc_dims(a) + spec_enc_dims(b) =~= spec_enc_dims(b));
    } else {
        assert((a + b).first() == a.first());
        assert((a + b).drop_first() =~= a.drop_first() + b);
        lemma_enc_dims_append(a.drop_first(), b);
        assert(spec_u64_to_le_bytes(a.first()) + (spec_enc_dims(a.drop_first()) + spec_enc_dims(
            b,
        )) =~= (spec_u64_to_le_bytes(a.first()) + spec_enc_dims(a.drop_first())) + spec_enc_dims(
            b,
        ));
    }
}

// ---------------------------------------------------------------------------
// Soundness: whatever decodes re-encodes to the consumed bytes
// ---------------------------------------------------------------------------

/// A decoded metadata entry holds a well-formed value and re-encodes to
/// exactly the bytes the decoder consumed.
pub proof fn lemma_dec_entry_sound(bytes: Seq<u8>, pos: int)
    requires
        0 <= pos,
        spec_dec_entry(bytes, pos) is Some,
    ensures
        ({
            let (e, end) = spec_dec_entry(bytes, pos).unwrap();
            &&& pos < end <= bytes.len()
            &&& crate::value::spec_value_wf(e.value)
            &&& spec_enc_entry(e) == bytes.subrange(pos, end)
        }),
{
    let (e, end) = spec_dec_entry(bytes, pos).unwrap();
    let klen = spec_u64_from_le_bytes(bytes.subrange(pos, pos + 8)) as int;
    let p1 = pos + 8 + klen;
    let t = spec_tag_of_byte(bytes[p1]).unwrap();
    crate::codec::lemma_dec_value_sound(bytes, p1 + 1, t);
    crate::codec::lemma_byte_of_tag(bytes[p1], t);
    lemma_auto_spec_u64_to_from_le_bytes();
    assert(e.key.len() == klen);
    assert(spec_u64_to_le_bytes(e.key.len() as u64) == bytes.subrange(pos, pos + 8));
    assert(spec_value_tag(e.value) == t);
    assert(spec_enc_entry(e) =~= bytes.subrange(pos, end));
}

/// A decoded run of metadata entries has the requested length, holds
/// well-formed values, and re-encodes to exactly the bytes consumed.
pub proof fn lemma_dec_entries_sound(bytes: Seq<u8>, pos: int, n: nat)
    requires
        0 <= pos <= bytes.len(),
        spec_dec_entries(bytes, pos, n) is Some,
    ensures
        ({
            let (es, end) = spec_dec_entries(bytes, pos, n).unwrap();
            &&& pos <= end <= bytes.len()
            &&& es.len() == n
            &&& forall|i: int|
                0 <= i < es.len() ==> crate::value::spec_value_wf(#[trigger] es[i].value)
            &&& spec_enc_entries(es) == bytes.subrange(pos, end)
        }),
    decreases n,
{
    if n == 0 {
        assert(spec_enc_entries(Seq::<SpecEntry>::empty()) =~= bytes.subrange(pos, pos));
    } else {
        let (e, p1) = spec_dec_entry(bytes, pos).unwrap();
        lemma_dec_entry_sound(bytes, pos);
        lemma_dec_entries_sound(bytes, p1, (n - 1) as nat);
        let (rest, end) = spec_dec_entries(bytes, p1, (n - 1) as nat).unwrap();
        let es = seq![e] + rest;
        assert(es.first() == e);
        assert(es.drop_first() =~= rest);
        assert(spec_enc_entries(es) == spec_enc_entry(e) + spec_enc_entries(rest));
        assert(spec_enc_entry(e) + spec_enc_entries(rest) =~= bytes.subrange(pos, p1)
            + bytes.subrange(p1, end));
        assert(bytes.subrange(pos, p1) + bytes.subrange(p1, end) =~= bytes.subrange(pos, end));
    }
}

/// A decoded run of dimensions has the requested length and re-encodes to
/// exactly the bytes consumed.
pub proof fn lemma_dec_dims_sound(bytes: Seq<u8>, pos: int, n: nat)
    requires
        0 <= pos <= bytes.len(),
        spec_dec_dims(bytes, pos, n) is Some,
    ensures
        ({
            let (ds, end) = spec_dec_dims(bytes, pos, n).unwrap();
            &&& pos <= end <= bytes.len()
            &&& ds.len() == n
            &&& spec_enc_dims(ds) == bytes.subrange(pos, end)
        }),
    decreases n,
{
    if n == 0 {
        assert(spec_enc_dims(Seq::<u64>::empty()) =~= bytes.subrange(pos, pos));
    } else {
        let d = spec_u64_from_le_bytes(bytes.subrange(pos, pos + 8));
        lemma_auto_spec_u64_to_from_le_bytes();
        lemma_dec_dims_sound(bytes, pos + 8, (n - 1) as nat);
        let (rest, end) = spec_dec_dims(bytes, pos + 8, (n - 1) as nat).unwrap();
        let ds = seq![d] + rest;
        assert(ds.first() == d);
        assert(ds.drop_first() =~= rest);
        assert(spec_u64_to_le_bytes(d) == bytes.subrange(pos, pos + 8));
        assert(spec_enc_dims(ds) == spec_u64_to_le_bytes(d) + spec_enc_dims(rest));
        assert(spec_u64_to_le_bytes(d) + spec_enc_dims(rest) =~= bytes.subrange(pos, end));
    }
}

/// A decoded tensor descriptor re-encodes to exactly the bytes consumed.
pub proof fn lemma_dec_desc_sound(bytes: Seq<u8>, pos: int)
    requires
        0 <= pos,
        spec_dec_desc(bytes, pos) is Some,
    ensures
        ({
            let (d, end) = spec_dec_desc(bytes, pos).unwrap();
            &&& pos < end <= bytes.len()
            &&& d.dims.len() <= u32::MAX
            &&& spec_enc_desc(d) == bytes.subrange(pos, end)
        }),
{
    let (d, end) = spec_dec_desc(bytes, pos).unwrap();
    let nlen = spec_u64_from_le_bytes(bytes.subrange(pos, pos + 8)) as int;
    let p1 = pos + 8 + nlen;
    let ndims = spec_u32_from_le_bytes(bytes.subrange(p1, p1 + 4));
    lemma_dec_dims_sound(bytes, p1 + 4, ndims as nat);
    let (dims, p2) = spec_dec_dims(bytes, p1 + 4, ndims as nat).unwrap();
    lemma_auto_spec_u64_to_from_le_bytes();
    lemma_auto_spec_u32_to_from_le_bytes();
    assert(d.name.len() == nlen);
    assert(spec_u64_to_le_bytes(d.name.len() as u64) == bytes.subrange(pos, pos + 8));
    assert(d.dims.len() == ndims);
    assert(spec_u32_to_le_bytes(d.dims.len() as u32) == bytes.subrange(p1, p1 + 4));
    let code = spec_u32_from_le_bytes(bytes.subrange(p2, p2 + 4));
    assert(spec_elem_type_code(d.element_type) == code);
    assert(spec_u32_to_le_bytes(spec_elem_type_code(d.element_type)) == bytes.subrange(
        p2,
        p2 + 4,
    ));
    assert(spec_u64_to_le_bytes(d.offset) == bytes.subrange(p2 + 4, p2 + 12));
    assert(spec_enc_desc(d) =~= bytes.subrange(pos, end));
}

/// A decoded run of tensor descriptors has the requested length and
/// re-encodes to exactly the bytes consumed.
pub proof fn lemma_dec_descs_sound(bytes: Seq<u8>, pos: int, n: nat)
    requires
        0 <= pos <= bytes.len(),
        spec_dec_descs(bytes, pos, n) is Some,
    ensures
        ({
            let (ds, end) = spec_dec_descs(bytes, pos, n).unwrap();
            &&& pos <= end <= bytes.len()
            &&& ds.len() == n
            &&& forall|i: int| 0 <= i < ds.len() ==> (#[trigger] ds[i]).dims.len() <= u32::MAX
            &&& spec_enc_descs(ds) == bytes.subrange(pos, end)
        }),
    decreases n,
{
    if n == 0 {
        assert(spec_enc_descs(Seq::<SpecDescriptor>::empty()) =~= bytes.subrange(pos, pos));
    } else {
        let (d, p1) = spec_dec_desc(bytes, pos).unwrap();
        lemma_dec_desc_sound(bytes, pos);
        lemma_dec_descs_sound(bytes, p1, (n - 1) as nat);
        let (rest, end) = spec_dec_descs(bytes, p1, (n - 1) as nat).unwrap();
        let ds = seq![d] + rest;
        assert(ds.first() == d);
        assert(ds.drop_first() =~= rest);
        assert(spec_enc_descs(ds) == spec_enc_desc(d) + spec_enc_descs(rest));
        assert(spec_enc_desc(d) + spec_enc_descs(rest) =~= bytes.subrange(pos, end));
    }
}

/// Decoding is the left inverse of encoding at the file level: a file the
/// decoder accepts re-encodes, unchanged, to the very same bytes.
pub proof fn lemma_dec_document_sound(bytes: Seq<u8>)
    requires
        spec_dec_document(bytes) is Some,
    ensures
        spec_enc_document(spec_dec_document(bytes).unwrap()) == bytes,
{
    let d = spec_dec_document(bytes).unwrap();
    let len = bytes.len() as int;
    let tc = spec_u64_from_le_bytes(bytes.subrange(8, 16));
    let mc = spec_u64_from_le_bytes(bytes.subrange(16, 24));
    lemma_dec_entries_sound(bytes, 24, mc as nat);
    let (md, p1) = spec_dec_entries(bytes, 24, mc as nat).unwrap();
    lemma_dec_descs_sound(bytes, p1, tc as nat);
    let (ts, p2) = spec_dec_descs(bytes, p1, tc as nat).unwrap();
    let ds = spec_align_up(p2);
    lemma_align_up(p2);
    lemma_auto_spec_u64_to_from_le_bytes();
    lemma_auto_spec_u32_to_from_le_bytes();
    assert(spec_enc_header(d.header) =~= bytes.subrange(0, 24));
    assert(spec_sections_len(d) == p2);
    assert(spec_data_start(d) == ds);
    assert(Seq::new((ds - p2) as nat, |i: int| 0u8) =~= bytes.subrange(p2, ds));
    assert(d.data == bytes.subrange(ds, len));
    assert(spec_enc_document(d) =~= bytes);
}


// ---------------------------------------------------------------------------
// Losslessness at the entry and file level
// ---------------------------------------------------------------------------

/// An entry whose encoding the format can carry.
pub open spec fn spec_entry_representable(e: SpecEntry) -> bool {
    &&& e.key.len() <= u64::MAX
    &&& crate::value::spec_value_wf(e.value)
    &&& crate::codec::spec_value_representable(e.value)
}

/// Where an entry's encoding sits in a byte stream, the decoder reads back
/// exactly that entry and stops exactly past it.
pub proof fn lemma_enc_dec_entry(bytes: Seq<u8>, pos: int, e: SpecEntry)
    requires
        spec_entry_representable(e),
        0 <= pos,
        pos + spec_enc_entry(e).len() <= bytes.len(),
        bytes.subrange(pos, pos + spec_enc_entry(e).len() as int) == spec_enc_entry(e),
    ensures
        spec_dec_entry(bytes, pos) == Some((e, pos + spec_enc_entry(e).len() as int)),
{
    lemma_auto_spec_u64_to_from_le_bytes();
    let enc = spec_enc_entry(e);
    let klen = e.key.len() as int;
    let p1 = pos + 8 + klen;
    bytes.lemma_slice_of_slice(pos, pos + enc.len() as int, 0, 8);
    bytes.lemma_slice_of_slice(pos, pos + enc.len() as int, 8, 8 + klen);
    bytes.lemma_slice_of_slice(pos, pos + enc.len() as int, 8 + klen, 9 + klen);
    bytes.lemma_slice_of_slice(pos, pos + enc.len() as int, 9 + klen, enc.len() as int);
    assert(enc.subrange(0, 8) =~= spec_u64_to_le_bytes(e.key.len() as u64));
    assert(enc.subrange(8, 8 + klen) =~= e.key);
    assert(enc.subrange(8 + klen, 9 + klen) =~= seq![spec_tag_byte(spec_value_tag(e.value))]);
    assert(enc.subrange(9 + klen, enc.len() as int) =~= crate::codec::spec_enc_value(e.value));
    assert(bytes.subrange(pos, pos + 8) == enc.subrange(0, 8));
    assert(spec_u64_from_le_bytes(bytes.subrange(pos, pos + 8)) == e.key.len() as u64);
    assert(bytes.subrange(pos + 8, p1) == enc.subrange(8, 8 + klen));
    assert(bytes.subrange(p1, p1 + 1)[0] == bytes[p1]);
    assert(bytes[p1] == spec_tag_byte(spec_value_tag(e.value)));
    crate::codec::lemma_tag_byte_roundtrip(spec_value_tag(e.value));
    assert(bytes.subrange(p1 + 1, pos + enc.len() as int) == enc.subrange(
        9 + klen,
        enc.len() as int,
    ));
    crate::codec::lemma_enc_dec_value(bytes, p1 + 1, e.value);
}

/// Where an entry run's encoding sits in a byte stream, the decoder reads
/// back exactly those entries.
pub proof fn lemma_enc_dec_entries(bytes: Seq<u8>, pos: int, es: Seq<SpecEntry>)
    requires
        forall|i: int| 0 <= i < es.len() ==> spec_entry_representable(#[trigger] es[i]),
        0 <= pos,
        pos + spec_enc_entries(es).len() <= bytes.len(),
        bytes.subrange(pos, pos + spec_enc_entries(es).len() as int) == spec_enc_entries(es),
    ensures
        spec_dec_entries(bytes, pos, es.len()) == Some(
            (es, pos + spec_enc_entries(es).len() as int),
        ),
    decreases es.len(),
{
    if es.len() == 0 {
        assert(es =~= Seq::<SpecEntry>::empty());
    } else {
        let v = es.first();
        let ev = spec_enc_entry(v);
        let rest = es.drop_first();
        let er = spec_enc_entries(rest);
        let e = spec_enc_entries(es);
        assert(e == ev + er);
        bytes.lemma_slice_of_slice(pos, pos + e.len() as int, 0, ev.len() as int);
        bytes.lemma_slice_of_slice(pos, pos + e.len() as int, ev.len() as int, e.len() as int);
        assert(e.subrange(0, ev.len() as int) =~= ev);
        assert(e.subrange(ev.len() as int, e.len() as int) =~= er);
        assert(bytes.subrange(pos, pos + ev.len() as int) == e.subrange(0, ev.len() as int));
        lemma_enc_dec_entry(bytes, pos, v);
        let p1 = pos + ev.len() as int;
        assert(bytes.subrange(p1, p1 + er.len() as int) == e.subrange(
            ev.len() as int,
            e.len() as int,
        ));
        lemma_enc_dec_entries(bytes, p1, rest);
        assert(seq![v] + rest =~= es);
    }
}


/// Where a dimension run's encoding sits in a byte stream, the decoder reads
/// back exactly those dimensions.
pub proof fn lemma_enc_dec_dims(bytes: Seq<u8>, pos: int, dims: Seq<u64>)
    requires
        0 <= pos,
        pos + spec_enc_dims(dims).len() <= bytes.len(),
        bytes.subrange(pos, pos + spec_enc_dims(dims).len() as int) == spec_enc_dims(dims),
    ensures
        spec_dec_dims(bytes, pos, dims.len()) == Some(
            (dims, pos + spec_enc_dims(dims).len() as int),
        ),
    decreases dims.len(),
{
    lemma_auto_spec_u64_to_from_le_bytes();
    if dims.len() == 0 {
        assert(dims =~= Seq::<u64>::empty());
    } else {
        let v = dims.first();
        let ev = spec_u64_to_le_bytes(v);
        let rest = dims.drop_first();
        let er = spec_enc_dims(rest);
        let e = spec_enc_dims(dims);
        assert(e == ev + er);
        bytes.lemma_slice_of_slice(pos, pos + e.len() as int, 0, 8);
        bytes.lemma_slice_of_slice(pos, pos + e.len() as int, 8, e.len() as int);
        assert(e.subrange(0, 8) =~= ev);
        assert(e.subrange(8, e.len() as int) =~= er);
        assert(bytes.subrange(pos, pos + 8) == e.subrange(0, 8));
        assert(spec_u64_from_le_bytes(bytes.subrange(pos, pos + 8)) == v);
        let p1 = pos + 8;
        assert(bytes.subrange(p1, p1 + er.len() as int) == e.subrange(8, e.len() as int));
        lemma_enc_dec_dims(bytes, p1, rest);
        assert(seq![v] + rest =~= dims);
    }
}

/// A descriptor whose encoding the format can carry.
pub open spec fn spec_desc_representable(d: SpecDescriptor) -> bool {
    d.name.len() <= u64::MAX && d.dims.len() <= u32::MAX
}

/// Where a descriptor's encoding sits in a byte stream, the decoder reads
/// back exactly that descriptor and stops exactly past it.
pub proof fn lemma_enc_dec_desc(bytes: Seq<u8>, pos: int, d: SpecDescriptor)
    requires
        spec_desc_representable(d),
        0 <= pos,
        pos + spec_enc_desc(d).len() <= bytes.len(),
        bytes.subrange(pos, pos + spec_enc_desc(d).len() as int) == spec_enc_desc(d),
    ensures
        spec_dec_desc(bytes, pos) == Some((d, pos + spec_enc_desc(d).len() as int)),
{
    lemma_auto_spec_u64_to_from_le_bytes();
    lemma_auto_spec_u32_to_from_le_bytes();
    let enc = spec_enc_desc(d);
    let nlen = d.name.len() as int;
    let p1 = pos + 8 + nlen;
    let ed = spec_enc_dims(d.dims);
    let p2 = p1 + 4 + ed.len() as int;
    bytes.lemma_slice_of_slice(pos, pos + enc.len() as int, 0, 8);
    bytes.lemma_slice_of_slice(pos, pos + enc.len() as int, 8, 8 + nlen);
    bytes.lemma_slice_of_slice(pos, pos + enc.len() as int, 8 + nlen, 12 + nlen);
    bytes.lemma_slice_of_slice(pos, pos + enc.len() as int, 12 + nlen, 12 + nlen + ed.len() as int);
    bytes.lemma_slice_of_slice(
        pos,
        pos + enc.len() as int,
        12 + nlen + ed.len() as int,
        16 + nlen + ed.len() as int,
    );
    bytes.lemma_slice_of_slice(
        pos,
        pos + enc.len() as int,
        16 + nlen + ed.len() as int,
        24 + nlen + ed.len() as int,
    );
    assert(enc.subrange(0, 8) =~= spec_u64_to_le_bytes(d.name.len() as u64));
    assert(enc.subrange(8, 8 + nlen) =~= d.name);
    assert(enc.subrange(8 + nlen, 12 + nlen) =~= spec_u32_to_le_bytes(d.dims.len() as u32));
    assert(enc.subrange(12 + nlen, 12 + nlen + ed.len() as int) =~= ed);
    assert(enc.subrange(12 + nlen + ed.len() as int, 16 + nlen + ed.len() as int)
        =~= spec_u32_to_le_bytes(spec_elem_type_code(d.element_type)));
    assert(enc.subrange(16 + nlen + ed.len() as int, 24 + nlen + ed.len() as int)
        =~= spec_u64_to_le_bytes(d.offset));
    assert(bytes.subrange(pos, pos + 8) == enc.subrange(0, 8));
    assert(spec_u64_from_le_bytes(bytes.subrange(pos, pos + 8)) == d.name.len() as u64);
    assert(bytes.subrange(pos + 8, p1) == enc.subrange(8, 8 + nlen));
    assert(bytes.subrange(p1, p1 + 4) == enc.subrange(8 + nlen, 12 + nlen));
    assert(spec_u32_from_le_bytes(bytes.subrange(p1, p1 + 4)) == d.dims.len() as u32);
    assert(bytes.subrange(p1 + 4, p2) == enc.subrange(12 + nlen, 12 + nlen + ed.len() as int));
    lemma_enc_dec_dims(bytes, p1 + 4, d.dims);
    assert(bytes.subrange(p2, p2 + 4) == enc.subrange(
        12 + nlen + ed.len() as int,
        16 + nlen + ed.len() as int,
    ));
    assert(spec_u32_from_le_bytes(bytes.subrange(p2, p2 + 4)) == spec_elem_type_code(
        d.element_type,
    ));
    assert(spec_elem_type_of_code(spec_elem_type_code(d.element_type)) == Some(d.element_type));
    assert(bytes.subrange(p2 + 4, p2 + 12) == enc.subrange(
        16 + nlen + ed.len() as int,
        24 + nlen + ed.len() as int,
    ));
    assert(spec_u64_from_le_bytes(bytes.subrange(p2 + 4, p2 + 12)) == d.offset);
}

/// Where a descriptor run's encoding sits in a byte stream, the decoder
/// reads back exactly those descriptors.
pub proof fn lemma_enc_dec_descs(bytes: Seq<u8>, pos: int, ds: Seq<SpecDescriptor>)
    requires
        forall|i: int| 0 <= i < ds.len() ==> spec_desc_representable(#[trigger] ds[i]),
        0 <= pos,
        pos + spec_enc_descs(ds).len() <= bytes.len(),
        bytes.subrange(pos, pos + spec_enc_descs(ds).len() as int) == spec_enc_descs(ds),
    ensures
        spec_dec_descs(bytes, pos, ds.len()) == Some(
            (ds, pos + spec_enc_descs(ds).len() as int),
        ),
    decreases ds.len(),
{
    if ds.len() == 0 {
        assert(ds =~= Seq::<SpecDescriptor>::empty());
    } else {
        let v = ds.first();
        let ev = spec_enc_desc(v);
        let rest = ds.drop_first();
        let er = spec_enc_descs(rest);
        let e = spec_enc_descs(ds);
        assert(e == ev + er);
        bytes.lemma_slice_of_slice(pos, pos + e.len() as int, 0, ev.len() as int);
        bytes.lemma_slice_of_slice(pos, pos + e.len() as int, ev.len() as int, e.len() as int);
        assert(e.subrange(0, ev.len() as int) =~= ev);
        assert(e.subrange(ev.len() as int, e.len() as int) =~= er);
        assert(bytes.subrange(pos, pos + ev.len() as int) == e.subrange(0, ev.len() as int));
        lemma_enc_dec_desc(bytes, pos, v);
        let p1 = pos + ev.len() as int;
        assert(bytes.subrange(p1, p1 + er.len() as int) == e.subrange(
            ev.len() as int,
            e.len() as int,
        ));
        lemma_enc_dec_descs(bytes, p1, rest);
        assert(seq![v] + rest =~= ds);
    }
}

/// A document whose encoding the format can carry and whose header is in
/// step with its tables.
pub open spec fn spec_document_representable(d: SpecDocument) -> bool {
    &&& d.header.version == GGUF_VERSION
    &&& d.header.metadata_count == d.metadata.len()
    &&& d.header.tensor_count == d.tensors.len()
    &&& forall|i: int| 0 <= i < d.metadata.len() ==> spec_entry_representable(#[trigger] d.metadata[i])
    &&& forall|i: int| 0 <= i < d.tensors.len() ==> spec_desc_representable(#[trigger] d.tensors[i])
}

/// Losslessness at the file level: a representable document's encoding
/// decodes back to exactly that document.
pub proof fn lemma_enc_dec_document(d: SpecDocument)
    requires
        spec_document_representable(d),
    ensures
        spec_dec_document(spec_enc_document(d)) == Some(d),
{
    lemma_auto_spec_u64_to_from_le_bytes();
    lemma_auto_spec_u32_to_from_le_bytes();
    let bytes = spec_enc_document(d);
    let hdr = spec_enc_header(d.header);
    let me = spec_enc_entries(d.metadata);
    let de = spec_enc_descs(d.tensors);
    let sections = spec_sections_len(d);
    lemma_align_up(sections);
    let ds_start = spec_data_start(d);
    let zeros = Seq::new((ds_start - sections) as nat, |i: int| 0u8);
    assert(hdr.len() == 24);
    assert(bytes =~= hdr + me + de + zeros + d.data);
    assert(bytes.len() == ds_start + d.data.len());
    // Header fields.
    assert(bytes.subrange(0, 4) =~= spec_magic());
    assert(spec_magic_ok(bytes));
    assert(bytes.subrange(4, 8) =~= spec_u32_to_le_bytes(d.header.version));
    assert(spec_file_version(bytes) == GGUF_VERSION);
    assert(bytes.subrange(8, 16) =~= spec_u64_to_le_bytes(d.header.tensor_count));
    assert(bytes.subrange(16, 24) =~= spec_u64_to_le_bytes(d.header.metadata_count));
    // Metadata entries.
    assert(bytes.subrange(24, 24 + me.len() as int) =~= me);
    lemma_enc_dec_entries(bytes, 24, d.metadata);
    // Tensor descriptors.
    let p1 = 24 + me.len() as int;
    assert(bytes.subrange(p1, p1 + de.len() as int) =~= de);
    lemma_enc_dec_descs(bytes, p1, d.tensors);
    let p2 = p1 + de.len() as int;
    assert(p2 == sections);
    // Padding and data.
    assert forall|i: int| p2 <= i < ds_start implies bytes[i] == 0 by {
        assert(bytes[i] == zeros[i - p2]);
    }
    assert(bytes.subrange(ds_start, bytes.len() as int) =~= d.data);
}

} // verus!
