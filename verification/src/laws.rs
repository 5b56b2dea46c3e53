//! Laws of the format that relate several operations: the decode/encode
//! round trip at the file level, the byte-stability of a type-preserving
//! same-length update, the verbatim placement of the tensor-data segment,
//! and the guaranteed success of a variant-matching update on a layout-sound
//! document. Each is stated over the spec models that the executable
//! functions' contracts speak of.

use vstd::prelude::*;
use crate::value::{SpecValue, spec_tag_byte, spec_value_tag, spec_variant_match};
use crate::codec::spec_enc_value;
use crate::document::{
    SpecDocument, SpecEntry, lemma_align_up, lemma_dec_document_sound, lemma_enc_entries_append,
    lemma_enc_entries_singleton, spec_data_start, spec_dec_document, spec_enc_document,
    spec_enc_entries, spec_enc_entry, spec_enc_header, spec_sections_len,
};
use crate::update::{
    WriteMode, lemma_find_key, spec_apply_batch, spec_apply_one, spec_apply_outcome, spec_delta,
    spec_find_key, spec_shift_ok, spec_shifted, spec_updated_doc,
};
use crate::validator::{
    spec_keys_unique, spec_layout_fault, spec_layout_fault_parts, spec_offsets_aligned,
    spec_offsets_ordered, spec_tensor_extent,
};
use crate::error::GGUFError;

verus! {

/// Round trip: a file image the decoder accepts re-encodes, unchanged, to
/// the very same bytes.
pub proof fn lemma_round_trip(bytes: Seq<u8>)
    requires
        spec_dec_document(bytes) is Some,
    ensures
        spec_enc_document(spec_dec_document(bytes).unwrap()) == bytes,
{
    lemma_dec_document_sound(bytes);
}

/// The tensor-data segment is placed verbatim and contiguously at the
/// aligned data start: the encoded file is exactly that long, and the bytes
/// from the data start on are the segment itself.
pub proof fn lemma_data_segment_verbatim(d: SpecDocument)
    ensures
        spec_enc_document(d).len() == spec_data_start(d) + d.data.len(),
        spec_enc_document(d).subrange(
            spec_data_start(d),
            spec_enc_document(d).len() as int,
        ) == d.data,
{
    lemma_align_up(spec_sections_len(d));
    vstd::bytes::lemma_auto_spec_u32_to_from_le_bytes();
    vstd::bytes::lemma_auto_spec_u64_to_from_le_bytes();
    assert(spec_enc_header(d.header).len() == 24);
    assert(spec_enc_document(d).subrange(
        spec_data_start(d),
        spec_enc_document(d).len() as int,
    ) =~= d.data);
}

/// Type-preserving update: replacing an existing key's value with one of the
/// same variant and the same encoded length leaves the header, every other
/// entry, every tensor descriptor (offsets included), the padding and the
/// tensor-data segment byte-identical — the two file images have the same
/// length and differ only within the replaced value's byte range.
#[verifier::rlimit(100)]
pub proof fn lemma_type_preserving_update(pre: SpecDocument, key: Seq<u8>, v: SpecValue)
    requires
        pre.header.metadata_count == pre.metadata.len(),
        spec_find_key(pre.metadata, key) < pre.metadata.len(),
        spec_variant_match(
            pre.metadata[spec_find_key(pre.metadata, key)].value,
            v,
        ),
        spec_enc_value(v).len() == spec_enc_value(
            pre.metadata[spec_find_key(pre.metadata, key)].value,
        ).len(),
    ensures
        ({
            let i = spec_find_key(pre.metadata, key);
            let m1 = spec_apply_one(pre.metadata, key, v).unwrap();
            let post = spec_updated_doc(pre, m1);
            let a = spec_enc_document(pre);
            let b = spec_enc_document(post);
            let vstart = 24 + spec_enc_entries(pre.metadata.take(i)).len() as int + 8
                + key.len() as int + 1;
            let vlen = spec_enc_value(v).len() as int;
            &&& spec_apply_one(pre.metadata, key, v) is Ok
            &&& spec_delta(pre, m1) == 0
            &&& post.tensors == pre.tensors
            &&& post.data == pre.data
            &&& b.len() == a.len()
            &&& forall|p: int|
                0 <= p < a.len() && !(vstart <= p < vstart + vlen) ==> a[p] == b[p]
        }),
{
    let m0 = pre.metadata;
    let i = spec_find_key(m0, key);
    lemma_find_key(m0, key);
    let e0 = m0[i];
    let e1 = SpecEntry { key, value: v };
    assert(e0.key == key);
    let m1 = m0.update(i, e1);
    assert(spec_apply_one(m0, key, v) == Ok::<Seq<SpecEntry>, (crate::value::ValueTag,
        crate::value::ValueTag)>(m1));
    // Decompose both tables around entry i.
    let front = m0.take(i);
    let back = m0.skip(i + 1);
    assert(m0 =~= front + (seq![e0] + back));
    assert(m1 =~= front + (seq![e1] + back));
    lemma_enc_entries_append(front, seq![e0] + back);
    lemma_enc_entries_append(front, seq![e1] + back);
    lemma_enc_entries_append(seq![e0], back);
    lemma_enc_entries_append(seq![e1], back);
    lemma_enc_entries_singleton(e0);
    lemma_enc_entries_singleton(e1);
    let fa = spec_enc_entries(front);
    let ba = spec_enc_entries(back);
    assert(spec_enc_entries(m0) == fa + (spec_enc_entry(e0) + ba));
    assert(spec_enc_entries(m1) == fa + (spec_enc_entry(e1) + ba));
    // The two entries share every byte before their value encodings.
    assert(spec_value_tag(e1.value) == spec_value_tag(e0.value));
    let p0 = vstd::bytes::spec_u64_to_le_bytes(key.len() as u64) + key + seq![spec_tag_byte(
        spec_value_tag(e0.value),
    )];
    vstd::bytes::lemma_auto_spec_u64_to_from_le_bytes();
    assert(spec_enc_entry(e0) =~= p0 + spec_enc_value(e0.value));
    assert(spec_enc_entry(e1) =~= p0 + spec_enc_value(v));
    assert(spec_enc_entry(e0).len() == spec_enc_entry(e1).len());
    assert(spec_enc_entries(m0).len() == spec_enc_entries(m1).len());
    // The delta is zero, so the shifted descriptor table is the original.
    assert(spec_sections_len(pre) == spec_sections_len(
        SpecDocument { metadata: m1, ..pre },
    ));
    let post = spec_updated_doc(pre, m1);
    assert(spec_delta(pre, m1) == 0);
    assert(post.tensors =~= pre.tensors);
    assert(post.metadata == m1);
    assert(m1.len() == m0.len());
    assert(post.header == pre.header);
    // Both file images split into a common prefix, the value bytes, and a
    // common suffix.
    let hdr = spec_enc_header(pre.header);
    vstd::bytes::lemma_auto_spec_u32_to_from_le_bytes();
    assert(hdr.len() == 24);
    let descs = crate::document::spec_enc_descs(pre.tensors);
    let padlen = spec_data_start(pre) - spec_sections_len(pre);
    lemma_align_up(spec_sections_len(pre));
    assert(spec_data_start(post) == spec_data_start(pre));
    let zeros = Seq::new(padlen as nat, |q: int| 0u8);
    let x = hdr + fa + p0;
    let y = ba + descs + zeros + pre.data;
    let a = spec_enc_document(pre);
    let b = spec_enc_document(post);
    assert(a =~= x + spec_enc_value(e0.value) + y);
    assert(b =~= x + spec_enc_value(v) + y);
    let vstart = 24 + fa.len() as int + 8 + key.len() as int + 1;
    let vlen = spec_enc_value(v).len() as int;
    assert(x.len() == vstart);
    assert(a.len() == b.len());
    assert forall|p: int|
        0 <= p < a.len() && !(vstart <= p < vstart + vlen) implies a[p] == b[p] by {
        if p < vstart {
            assert(a[p] == x[p]);
            assert(b[p] == x[p]);
        } else {
            assert(a[p] == y[p - vstart - vlen]);
            assert(b[p] == y[p - vstart - vlen]);
        }
    }
}


/// A single variant-matching update on a layout-sound document always
/// succeeds, provided every shifted offset stays in the 64-bit range — the
/// one guard on which the engine can still refuse. The result is exactly
/// [`spec_updated_doc`]: every tensor offset shifted by the aligned-sections
/// delta; order, names, dimensions, element types and the tensor-data bytes
/// untouched.
#[verifier::rlimit(100)]
pub proof fn lemma_update_succeeds(
    pre: SpecDocument,
    key: Seq<u8>,
    v: SpecValue,
    post: SpecDocument,
    r: Result<WriteMode, GGUFError>,
)
    requires
        spec_layout_fault(pre) is None,
        spec_find_key(pre.metadata, key) < pre.metadata.len(),
        spec_variant_match(pre.metadata[spec_find_key(pre.metadata, key)].value, v),
        spec_shift_ok(
            pre.tensors,
            spec_delta(
                pre,
                pre.metadata.update(
                    spec_find_key(pre.metadata, key),
                    SpecEntry { key, value: v },
                ),
            ),
        ),
        spec_apply_outcome(pre, seq![(key, v)], post, r),
    ensures
        ({
            let m1 = pre.metadata.update(
                spec_find_key(pre.metadata, key),
                SpecEntry { key, value: v },
            );
            let delta = spec_delta(pre, m1);
            &&& r is Ok
            &&& post == spec_updated_doc(pre, m1)
            &&& post.tensors.len() == pre.tensors.len()
            &&& forall|i: int|
                0 <= i < pre.tensors.len() ==> #[trigger] post.tensors[i].offset
                    == pre.tensors[i].offset + delta
            &&& forall|i: int|
                0 <= i < pre.tensors.len() ==> #[trigger] post.tensors[i].name
                    == pre.tensors[i].name && post.tensors[i].dims == pre.tensors[i].dims
                    && post.tensors[i].element_type == pre.tensors[i].element_type
            &&& post.data == pre.data
        }),
{
    let i = spec_find_key(pre.metadata, key);
    lemma_find_key(pre.metadata, key);
    let m0 = pre.metadata;
    let e1 = SpecEntry { key, value: v };
    let m1 = m0.update(i, e1);
    // The one-element batch folds to exactly this update.
    let batch = seq![(key, v)];
    assert(batch.first() == (key, v));
    assert(batch.drop_first() =~= Seq::<(Seq<u8>, SpecValue)>::empty());
    assert(spec_apply_one(m0, key, v) == Ok::<Seq<SpecEntry>, (crate::value::ValueTag,
        crate::value::ValueTag)>(m1));
    assert(spec_apply_batch(m1, Seq::<(Seq<u8>, SpecValue)>::empty()) == Ok::<
        Seq<SpecEntry>,
        (Seq<u8>, crate::value::ValueTag, crate::value::ValueTag),
    >(m1));
    assert(batch.len() == 1);
    assert(spec_apply_batch(m0, batch) == spec_apply_batch(m1, batch.drop_first()));
    assert(spec_apply_batch(m0, batch) == Ok::<Seq<SpecEntry>, (Seq<u8>, crate::value::ValueTag,
        crate::value::ValueTag)>(m1));
    let delta = spec_delta(pre, m1);
    let cand = spec_updated_doc(pre, m1);
    let shifted = spec_shifted(pre.tensors, delta);
    assert(cand.tensors == shifted);
    // The delta is a difference of two 32-byte multiples.
    let s0 = 24 + spec_enc_entries(m0).len() as int + crate::document::spec_enc_descs(
        pre.tensors,
    ).len() as int;
    let s1 = 24 + spec_enc_entries(m1).len() as int + crate::document::spec_enc_descs(
        pre.tensors,
    ).len() as int;
    lemma_align_up(s0);
    lemma_align_up(s1);
    vstd::arithmetic::div_mod::lemma_fundamental_div_mod(
        crate::document::spec_align_up(s0),
        32,
    );
    vstd::arithmetic::div_mod::lemma_fundamental_div_mod(
        crate::document::spec_align_up(s1),
        32,
    );
    let qa = crate::document::spec_align_up(s1) / 32;
    let qb = crate::document::spec_align_up(s0) / 32;
    assert(delta == 32 * qa - 32 * qb);
    // The candidate breaks no layout rule, so the outcome is the success arm.
    let file_len = crate::document::spec_align_up(s1) + pre.data.len() as int;
    assert(cand.header.metadata_count == m1.len()) by {
        assert(pre.header.metadata_count == m0.len());
    }
    assert(cand.header.tensor_count == shifted.len());
    assert(spec_keys_unique(m1)) by {
        assert(m0[i].key == key);
        assert forall|p: int, q: int| 0 <= p < q < m1.len() implies m1[p].key != m1[q].key by {
            assert(m1[p].key == m0[p].key);
            assert(m1[q].key == m0[q].key);
        }
    }
    assert(spec_offsets_ordered(shifted)) by {
        assert forall|p: int| 0 <= p < shifted.len() - 1 implies #[trigger] shifted[p].offset
            <= shifted[p + 1].offset by {
            assert(pre.tensors[p].offset <= pre.tensors[p + 1].offset);
            assert(0 <= pre.tensors[p].offset + delta <= u64::MAX);
            assert(0 <= pre.tensors[p + 1].offset + delta <= u64::MAX);
        }
    }
    assert(spec_offsets_aligned(shifted)) by {
        assert forall|p: int| 0 <= p < shifted.len() implies #[trigger] shifted[p].offset % 32
            == 0 by {
            assert(pre.tensors[p].offset % 32 == 0);
            assert(0 <= pre.tensors[p].offset + delta <= u64::MAX);
            vstd::arithmetic::div_mod::lemma_fundamental_div_mod(
                pre.tensors[p].offset as int,
                32,
            );
            let k = pre.tensors[p].offset as int / 32;
            assert(pre.tensors[p].offset + delta == 32 * (k + qa - qb));
            vstd::arithmetic::div_mod::lemma_mod_multiples_basic(k + qa - qb, 32);
            assert((32 * (k + qa - qb)) % 32 == 0);
        }
    }
    if shifted.len() > 0 {
        let n = pre.tensors.len() as int;
        assert(shifted.last() == shifted[n - 1]);
        assert(spec_tensor_extent(pre.tensors.last()) <= spec_data_start(pre)
            + pre.data.len());
        assert(0 <= pre.tensors[n - 1].offset + delta <= u64::MAX);
        assert(spec_tensor_extent(shifted[n - 1]) == spec_tensor_extent(pre.tensors[n - 1])
            + delta);
        assert(spec_data_start(pre) == crate::document::spec_align_up(s0));
        assert(file_len == spec_data_start(pre) + delta + pre.data.len());
        assert(spec_tensor_extent(shifted.last()) <= file_len);
    }
    assert(spec_layout_fault_parts(cand.header, cand.metadata, cand.tensors, file_len)
        is None);
    assert(r is Ok && post == cand);
}

} // verus!
