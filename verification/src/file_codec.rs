//! Executable encoder and decoder for whole container files and their
//! sections. The encoder produces exactly [`spec_enc_document`]; the decoder
//! follows [`spec_dec_document`] exactly and names, error by error, the
//! condition under which each failure is reported.

use vstd::prelude::*;
use vstd::bytes::*;
use crate::value::{MetadataValue, clone_bytes, spec_tag_of_byte, tag_byte, tag_of_byte,
    value_tag};
use crate::codec::{bytes_subrange, decode_value, encode_value, spec_dec_value};
use crate::document::{
    Document, GGUF_VERSION, Header, MetadataEntry, SpecDescriptor, SpecEntry, TensorDescriptor,
    elem_type_code, elem_type_of_code, lemma_align_up, spec_align_up, spec_dec_desc,
    spec_dec_descs, spec_dec_dims, spec_dec_document, spec_dec_entries, spec_dec_entry,
    spec_descs_view, spec_elem_type_of_code, spec_enc_desc, spec_enc_descs, spec_enc_dims,
    spec_enc_document, spec_enc_entries, spec_enc_entry, spec_enc_header, spec_entries_view,
    spec_file_version, spec_magic, spec_magic_ok, spec_sections_len,
    lemma_enc_entries_append, lemma_enc_entries_singleton, lemma_enc_descs_append,
    lemma_enc_descs_singleton, lemma_enc_dims_append, lemma_enc_dims_singleton,
};
use crate::error::GGUFError;

verus! {

/// The byte length of the fixed file header.
pub const HEADER_SIZE: usize = 24;

/// How far the alignment rounding can move a byte count.
pub proof fn lemma_align_up_pad(n: int)
    requires
        0 <= n,
    ensures
        spec_align_up(n) - n == (32 - (n % 32)) % 32,
{
    vstd::arithmetic::div_mod::lemma_fundamental_div_mod(n, 32);
    vstd::arithmetic::div_mod::lemma_mod_bound(n, 32);
    let q = n / 32;
    let r = n % 32;
    if r == 0 {
        vstd::arithmetic::div_mod::lemma_fundamental_div_mod_converse(n + 31, 32, q, 31);
    } else {
        vstd::arithmetic::div_mod::lemma_fundamental_div_mod_converse(n + 31, 32, q + 1, r - 1);
        vstd::arithmetic::div_mod::lemma_fundamental_div_mod_converse(32, 32, 1, 0);
        vstd::arithmetic::div_mod::lemma_fundamental_div_mod_converse(32 - r, 32, 0, 32 - r);
    }
}

/// Appends the encoding of the fixed-size header.
pub fn encode_header(h: &Header, out: &mut Vec<u8>)
    ensures
        final(out)@ == old(out)@ + spec_enc_header(*h),
{
    out.push(0x47);
    out.push(0x47);
    out.push(0x55);
    out.push(0x46);
    let mut b = u32_to_le_bytes(h.version);
    out.append(&mut b);
    let mut b = u64_to_le_bytes(h.tensor_count);
    out.append(&mut b);
    let mut b = u64_to_le_bytes(h.metadata_count);
    out.append(&mut b);
    assert(final(out)@ =~= old(out)@ + spec_enc_header(*h));
}

/// Appends the encoding of one metadata entry.
pub fn encode_entry(e: &MetadataEntry, out: &mut Vec<u8>)
    ensures
        final(out)@ == old(out)@ + spec_enc_entry(e@),
{
    let mut b = u64_to_le_bytes(e.key.len() as u64);
    out.append(&mut b);
    let mut k = clone_bytes(&e.key);
    out.append(&mut k);
    out.push(tag_byte(value_tag(&e.value)));
    encode_value(&e.value, out);
    assert(final(out)@ =~= old(out)@ + spec_enc_entry(e@));
}

/// Encodes the whole metadata section: the entries' encodings, in order.
pub fn encode_entries(entries: &Vec<MetadataEntry>) -> (r: Vec<u8>)
    ensures
        r@ == spec_enc_entries(spec_entries_view(entries@)),
{
    let ghost ev = spec_entries_view(entries@);
    let mut out: Vec<u8> = Vec::new();
    let n = entries.len();
    let mut i: usize = 0;
    while i < n
        invariant
            n == entries@.len(),
            i <= n,
            ev == spec_entries_view(entries@),
            out@ == spec_enc_entries(ev.take(i as int)),
        decreases n - i,
    {
        encode_entry(&entries[i], &mut out);
        proof {
            assert(ev.take(i + 1 as int) =~= ev.take(i as int) + seq![ev[i as int]]);
            lemma_enc_entries_append(ev.take(i as int), seq![ev[i as int]]);
            lemma_enc_entries_singleton(ev[i as int]);
            assert(ev[i as int] == entries@[i as int]@);
        }
        i = i + 1;
    }
    proof {
        assert(ev.take(n as int) =~= ev);
    }
    out
}

/// Appends the encoding of one tensor descriptor.
pub fn encode_desc(d: &TensorDescriptor, out: &mut Vec<u8>)
    ensures
        final(out)@ == old(out)@ + spec_enc_desc(d@),
{
    let mut b = u64_to_le_bytes(d.name.len() as u64);
    out.append(&mut b);
    let mut nm = clone_bytes(&d.name);
    out.append(&mut nm);
    let mut b = u32_to_le_bytes(d.dims.len() as u32);
    out.append(&mut b);
    let ghost base = out@;
    let ndims = d.dims.len();
    let mut i: usize = 0;
    while i < ndims
        invariant
            ndims == d.dims@.len(),
            i <= ndims,
            out@ == base + spec_enc_dims(d.dims@.take(i as int)),
        decreases ndims - i,
    {
        let mut b = u64_to_le_bytes(d.dims[i]);
        out.append(&mut b);
        proof {
            assert(d.dims@.take(i + 1 as int) =~= d.dims@.take(i as int) + seq![d.dims@[
                i as int]]);
            lemma_enc_dims_append(d.dims@.take(i as int), seq![d.dims@[i as int]]);
            lemma_enc_dims_singleton(d.dims@[i as int]);
        }
        i = i + 1;
    }
    proof {
        assert(d.dims@.take(ndims as int) =~= d.dims@);
    }
    let mut b = u32_to_le_bytes(elem_type_code(d.element_type));
    out.append(&mut b);
    let mut b = u64_to_le_bytes(d.offset);
    out.append(&mut b);
    assert(final(out)@ =~= old(out)@ + spec_enc_desc(d@));
}

/// Encodes the whole descriptor section: the descriptors' encodings, in order.
pub fn encode_descs(tensors: &Vec<TensorDescriptor>) -> (r: Vec<u8>)
    ensures
        r@ == spec_enc_descs(spec_descs_view(tensors@)),
{
    let ghost tv = spec_descs_view(tensors@);
    let mut out: Vec<u8> = Vec::new();
    let n = tensors.len();
    let mut i: usize = 0;
    while i < n
        invariant
            n == tensors@.len(),
            i <= n,
            tv == spec_descs_view(tensors@),
            out@ == spec_enc_descs(tv.take(i as int)),
        decreases n - i,
    {
        encode_desc(&tensors[i], &mut out);
        proof {
            assert(tv.take(i + 1 as int) =~= tv.take(i as int) + seq![tv[i as int]]);
            lemma_enc_descs_append(tv.take(i as int), seq![tv[i as int]]);
            lemma_enc_descs_singleton(tv[i as int]);
            assert(tv[i as int] == tensors@[i as int]@);
        }
        i = i + 1;
    }
    proof {
        assert(tv.take(n as int) =~= tv);
    }
    out
}

/// Encodes a whole document into the exact byte image the format prescribes:
/// header, metadata entries, descriptors, zero padding to the alignment
/// constant, then the tensor-data segment verbatim.
pub fn encode_document(doc: &Document) -> (r: Vec<u8>)
    requires
        spec_sections_len(doc@) + 32 <= usize::MAX,
    ensures
        r@ == spec_enc_document(doc@),
{
    let mut out: Vec<u8> = Vec::new();
    encode_header(&doc.header, &mut out);
    let mut md = encode_entries(&doc.metadata);
    out.append(&mut md);
    let mut ts = encode_descs(&doc.tensors);
    out.append(&mut ts);
    let ghost sections = out@;
    proof {
        lemma_auto_spec_u32_to_from_le_bytes();
        lemma_auto_spec_u64_to_from_le_bytes();
        assert(spec_enc_header(doc.header).len() == 24);
        assert(sections.len() == spec_sections_len(doc@));
        lemma_align_up(sections.len() as int);
        lemma_align_up_pad(sections.len() as int);
    }
    let n = out.len();
    let pad = (32 - (n % 32)) % 32;
    let mut j: usize = 0;
    while j < pad
        invariant
            j <= pad,
            out@ == sections + Seq::new(j as nat, |i: int| 0u8),
        decreases pad - j,
    {
        out.push(0);
        proof {
            assert(sections + Seq::new((j + 1) as nat, |i: int| 0u8) =~= (sections + Seq::new(
                j as nat,
                |i: int| 0u8,
            )).push(0u8));
        }
        j = j + 1;
    }
    let mut data = clone_bytes(&doc.data);
    out.append(&mut data);
    proof {
        assert((32 - (sections.len() as int % 32)) % 32 == spec_align_up(
            sections.len() as int,
        ) - sections.len() as int);
        assert(out@ =~= spec_enc_document(doc@));
    }
    out
}

/// Produces the byte image for a pre-write backup of a source file:
/// byte-identical to the original, so a reader of the backup sees exactly
/// the pre-write file.
pub fn create_backup_bytes(original: &Vec<u8>) -> (r: Vec<u8>)
    ensures
        r@ == original@,
{
    clone_bytes(original)
}

/// Decodes one metadata entry at `pos`, following [`spec_dec_entry`] exactly.
pub fn decode_entry(bytes: &Vec<u8>, pos: usize) -> (r: Result<(MetadataEntry, usize), GGUFError>)
    requires
        pos <= bytes@.len(),
    ensures
        r matches Ok((e, end)) ==> spec_dec_entry(bytes@, pos as int) == Some((e@, end as int))
            && pos < end <= bytes@.len(),
        r is Err ==> spec_dec_entry(bytes@, pos as int) is None && (r matches Err(
            GGUFError::CorruptValue(_),
        )),
{
    let len = bytes.len();
    if len - pos < 8 {
        return Err(GGUFError::CorruptValue(pos as u64));
    }
    let klen = u64_from_le_bytes(vstd::slice::slice_subrange(bytes.as_slice(), pos, pos + 8));
    if klen > (len - pos - 8) as u64 || (len - pos - 8) as u64 - klen < 1 {
        return Err(GGUFError::CorruptValue(pos as u64));
    }
    let key = bytes_subrange(bytes, pos + 8, pos + 8 + klen as usize);
    let p1 = pos + 8 + klen as usize;
    let t = match tag_of_byte(bytes[p1]) {
        Some(t) => t,
        None => {
            return Err(GGUFError::CorruptValue(p1 as u64));
        },
    };
    match decode_value(bytes, p1 + 1, t) {
        Ok((v, end)) => {
            let e = MetadataEntry { key, value: v };
            Ok((e, end))
        },
        Err(e) => Err(e),
    }
}

/// Decodes one tensor descriptor at `pos`, following [`spec_dec_desc`]
/// exactly.
pub fn decode_desc(bytes: &Vec<u8>, pos: usize) -> (r: Result<
    (TensorDescriptor, usize),
    GGUFError,
>)
    requires
        pos <= bytes@.len(),
    ensures
        r matches Ok((d, end)) ==> spec_dec_desc(bytes@, pos as int) == Some((d@, end as int))
            && pos < end <= bytes@.len(),
        r is Err ==> spec_dec_desc(bytes@, pos as int) is None && (r matches Err(
            GGUFError::CorruptValue(_),
        )),
{
    let len = bytes.len();
    if len - pos < 8 {
        return Err(GGUFError::CorruptValue(pos as u64));
    }
    let nlen = u64_from_le_bytes(vstd::slice::slice_subrange(bytes.as_slice(), pos, pos + 8));
    if nlen > (len - pos - 8) as u64 || (len - pos - 8) as u64 - nlen < 4 {
        return Err(GGUFError::CorruptValue(pos as u64));
    }
    let name = bytes_subrange(bytes, pos + 8, pos + 8 + nlen as usize);
    let p1 = pos + 8 + nlen as usize;
    let ndims = u32_from_le_bytes(vstd::slice::slice_subrange(bytes.as_slice(), p1, p1 + 4));
    let ghost dims_start = p1 + 4 as int;
    let mut dims: Vec<u64> = Vec::new();
    let mut cur: usize = p1 + 4;
    let mut k: u32 = 0;
    while k < ndims
        invariant
            pos + 8 <= bytes@.len(),
            nlen == spec_u64_from_le_bytes(bytes@.subrange(pos as int, pos as int + 8)),
            nlen <= bytes@.len() - pos - 8,
            p1 == pos + 8 + nlen,
            p1 + 4 <= bytes@.len(),
            ndims == spec_u32_from_le_bytes(bytes@.subrange(p1 as int, p1 as int + 4)),
            dims_start == p1 + 4,
            dims_start <= cur <= bytes@.len(),
            k <= ndims,
            dims@.len() == k,
            spec_dec_dims(bytes@, dims_start, ndims as nat) == (match spec_dec_dims(
                bytes@,
                cur as int,
                (ndims - k) as nat,
            ) {
                Some((rest, e)) => Some((dims@ + rest, e)),
                None => None,
            }),
        decreases ndims - k,
    {
        let ghost dims_pre = dims@;
        if bytes.len() - cur < 8 {
            proof {
                assert(spec_dec_dims(bytes@, cur as int, (ndims - k) as nat) is None);
            }
            return Err(GGUFError::CorruptValue(cur as u64));
        }
        let d = u64_from_le_bytes(vstd::slice::slice_subrange(bytes.as_slice(), cur, cur + 8));
        dims.push(d);
        proof {
            assert(dims@ =~= dims_pre + seq![d]);
            assert forall|rest: Seq<u64>| true implies dims_pre + (seq![d] + rest) =~= dims@
                + rest by {
                assert(dims_pre + (seq![d] + rest) =~= (dims_pre + seq![d]) + rest);
            }
        }
        cur = cur + 8;
        k = k + 1;
    }
    proof {
        assert(spec_dec_dims(bytes@, cur as int, 0) == Some((Seq::<u64>::empty(), cur as int)));
        assert(dims@ + Seq::<u64>::empty() =~= dims@);
    }
    if len - cur < 12 {
        return Err(GGUFError::CorruptValue(cur as u64));
    }
    let code = u32_from_le_bytes(vstd::slice::slice_subrange(bytes.as_slice(), cur, cur + 4));
    let et = match elem_type_of_code(code) {
        Some(et) => et,
        None => {
            return Err(GGUFError::CorruptValue(cur as u64));
        },
    };
    let off = u64_from_le_bytes(vstd::slice::slice_subrange(
        bytes.as_slice(),
        cur + 4,
        cur + 12,
    ));
    let d = TensorDescriptor { name, dims, element_type: et, offset: off };
    Ok((d, cur + 12))
}

/// Decodes a whole file image into a document.
///
/// Follows [`spec_dec_document`] exactly and reports, per the contract:
/// `InvalidMagic` exactly when the file does not start with the magic
/// literal, `UnsupportedVersion` exactly when the magic is in place but the
/// version field differs from [`GGUF_VERSION`], and `CorruptValue` exactly
/// when the remainder is truncated or malformed.
pub fn decode_document(bytes: &Vec<u8>) -> (r: Result<Document, GGUFError>)
    ensures
        r matches Ok(doc) ==> spec_dec_document(bytes@) == Some(doc@),
        r is Ok <==> spec_dec_document(bytes@) is Some,
        (r matches Err(GGUFError::InvalidMagic)) <==> !spec_magic_ok(bytes@),
        (r matches Err(GGUFError::UnsupportedVersion(v)) ==> spec_magic_ok(bytes@) && bytes@.len()
            >= 8 && spec_file_version(bytes@) == v && v != GGUF_VERSION),
        (spec_magic_ok(bytes@) && bytes@.len() >= 8 && spec_file_version(bytes@) != GGUF_VERSION
            ==> (r matches Err(GGUFError::UnsupportedVersion(v)) && v == spec_file_version(
            bytes@,
        ))),
        r matches Err(GGUFError::CorruptValue(_)) ==> spec_magic_ok(bytes@) && (bytes@.len() < 8
            || spec_file_version(bytes@) == GGUF_VERSION),
        r is Err ==> ((r matches Err(GGUFError::InvalidMagic)) || (r matches Err(
            GGUFError::UnsupportedVersion(_),
        )) || (r matches Err(GGUFError::CorruptValue(_)))),
{
    let len = bytes.len();
    if len < 4 || bytes[0] != 0x47 || bytes[1] != 0x47 || bytes[2] != 0x55 || bytes[3] != 0x46 {
        proof {
            if len >= 4 {
                assert(bytes@.subrange(0, 4).len() == 4);
                if bytes@.subrange(0, 4) == spec_magic() {
                    assert(bytes@[0] == spec_magic()[0]);
                    assert(bytes@[1] == spec_magic()[1]);
                    assert(bytes@[2] == spec_magic()[2]);
                    assert(bytes@[3] == spec_magic()[3]);
                }
            }
        }
        return Err(GGUFError::InvalidMagic);
    }
    proof {
        assert(bytes@.subrange(0, 4) =~= spec_magic());
    }
    if len < 8 {
        return Err(GGUFError::CorruptValue(4));
    }
    let ver = u32_from_le_bytes(vstd::slice::slice_subrange(bytes.as_slice(), 4, 8));
    if ver != GGUF_VERSION {
        return Err(GGUFError::UnsupportedVersion(ver));
    }
    if len < 24 {
        return Err(GGUFError::CorruptValue(8));
    }
    let tc = u64_from_le_bytes(vstd::slice::slice_subrange(bytes.as_slice(), 8, 16));
    let mc = u64_from_le_bytes(vstd::slice::slice_subrange(bytes.as_slice(), 16, 24));
    // Metadata entries.
    let mut metadata: Vec<MetadataEntry> = Vec::new();
    let mut cur: usize = 24;
    let mut k: u64 = 0;
    while k < mc
        invariant
            spec_magic_ok(bytes@),
            bytes@.len() >= 24,
            spec_file_version(bytes@) == GGUF_VERSION,
            tc == spec_u64_from_le_bytes(bytes@.subrange(8, 16)),
            mc == spec_u64_from_le_bytes(bytes@.subrange(16, 24)),
            24 <= cur <= bytes@.len(),
            k <= mc,
            metadata@.len() == k,
            spec_dec_entries(bytes@, 24, mc as nat) == (match spec_dec_entries(
                bytes@,
                cur as int,
                (mc - k) as nat,
            ) {
                Some((rest, e)) => Some((spec_entries_view(metadata@) + rest, e)),
                None => None,
            }),
        decreases mc - k,
    {
        let ghost md_pre = spec_entries_view(metadata@);
        match decode_entry(bytes, cur) {
            Ok((e, next)) => {
                metadata.push(e);
                proof {
                    assert(spec_entries_view(metadata@) =~= md_pre + seq![e@]);
                    assert forall|rest: Seq<SpecEntry>| true implies md_pre + (seq![e@] + rest)
                        =~= spec_entries_view(metadata@) + rest by {
                        assert(md_pre + (seq![e@] + rest) =~= (md_pre + seq![e@]) + rest);
                    }
                }
                cur = next;
                k = k + 1;
            },
            Err(e) => {
                proof {
                    assert(spec_dec_entries(bytes@, cur as int, (mc - k) as nat) is None);
                }
                return Err(e);
            },
        }
    }
    proof {
        assert(spec_dec_entries(bytes@, cur as int, 0) == Some(
            (Seq::<SpecEntry>::empty(), cur as int),
        ));
        assert(spec_entries_view(metadata@) + Seq::<SpecEntry>::empty() =~= spec_entries_view(
            metadata@,
        ));
    }
    let p1 = cur;
    // Tensor descriptors.
    let mut tensors: Vec<TensorDescriptor> = Vec::new();
    let mut j: u64 = 0;
    while j < tc
        invariant
            spec_magic_ok(bytes@),
            bytes@.len() >= 24,
            spec_file_version(bytes@) == GGUF_VERSION,
            tc == spec_u64_from_le_bytes(bytes@.subrange(8, 16)),
            mc == spec_u64_from_le_bytes(bytes@.subrange(16, 24)),
            spec_dec_entries(bytes@, 24, mc as nat) == Some(
                (spec_entries_view(metadata@), p1 as int),
            ),
            p1 <= cur <= bytes@.len(),
            j <= tc,
            tensors@.len() == j,
            spec_dec_descs(bytes@, p1 as int, tc as nat) == (match spec_dec_descs(
                bytes@,
                cur as int,
                (tc - j) as nat,
            ) {
                Some((rest, e)) => Some((spec_descs_view(tensors@) + rest, e)),
                None => None,
            }),
        decreases tc - j,
    {
        let ghost ts_pre = spec_descs_view(tensors@);
        match decode_desc(bytes, cur) {
            Ok((d, next)) => {
                tensors.push(d);
                proof {
                    assert(spec_descs_view(tensors@) =~= ts_pre + seq![d@]);
                    assert forall|rest: Seq<SpecDescriptor>| true implies ts_pre + (seq![d@]
                        + rest) =~= spec_descs_view(tensors@) + rest by {
                        assert(ts_pre + (seq![d@] + rest) =~= (ts_pre + seq![d@]) + rest);
                    }
                }
                cur = next;
                j = j + 1;
            },
            Err(e) => {
                proof {
                    assert(spec_dec_descs(bytes@, cur as int, (tc - j) as nat) is None);
                }
                return Err(e);
            },
        }
    }
    proof {
        assert(spec_dec_descs(bytes@, cur as int, 0) == Some(
            (Seq::<SpecDescriptor>::empty(), cur as int),
        ));
        assert(spec_descs_view(tensors@) + Seq::<SpecDescriptor>::empty() =~= spec_descs_view(
            tensors@,
        ));
    }
    let p2 = cur;
    // Alignment padding, which must be zero so the layout re-encodes exactly.
    let pad = (32 - (p2 % 32)) % 32;
    proof {
        lemma_align_up(p2 as int);
        lemma_align_up_pad(p2 as int);
    }
    if pad > len - p2 {
        return Err(GGUFError::CorruptValue(p2 as u64));
    }
    let ds = p2 + pad;
    let mut q: usize = p2;
    while q < ds
        invariant
            spec_magic_ok(bytes@),
            bytes@.len() >= 24,
            spec_file_version(bytes@) == GGUF_VERSION,
            tc == spec_u64_from_le_bytes(bytes@.subrange(8, 16)),
            mc == spec_u64_from_le_bytes(bytes@.subrange(16, 24)),
            spec_dec_entries(bytes@, 24, mc as nat) == Some(
                (spec_entries_view(metadata@), p1 as int),
            ),
            spec_dec_descs(bytes@, p1 as int, tc as nat) == Some(
                (spec_descs_view(tensors@), p2 as int),
            ),
            ds == spec_align_up(p2 as int),
            p2 <= q <= ds <= bytes@.len(),
            forall|i: int| p2 <= i < q ==> bytes@[i] == 0,
        decreases ds - q,
    {
        if bytes[q] != 0 {
            return Err(GGUFError::CorruptValue(q as u64));
        }
        q = q + 1;
    }
    let data = bytes_subrange(bytes, ds, len);
    let doc = Document {
        header: Header { version: GGUF_VERSION, tensor_count: tc, metadata_count: mc },
        metadata,
        tensors,
        data,
    };
    Ok(doc)
}

} // verus!
