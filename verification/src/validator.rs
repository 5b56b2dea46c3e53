//! The layout validator: the structural invariants a document must satisfy
//! before it may be written, and the executable checks that decide them.
//!
//! The checks run in a fixed order and the first one to fail names its
//! [`LayoutFault`]: header counts against table sizes, key uniqueness,
//! tensor offsets non-decreasing and aligned, and the last tensor's computed
//! extent inside the data segment.

use vstd::prelude::*;
use crate::document::{
    Document, ElementType, GGUF_VERSION, Header, MetadataEntry, SpecDescriptor, SpecDocument,
    SpecEntry, TensorDescriptor, spec_dec_document, spec_descs_view, spec_elem_type_size,
    spec_entries_view, spec_file_version, spec_magic_ok,
};
use crate::file_codec::decode_document;
use crate::error::{GGUFError, LayoutFault};

verus! {

/// No two metadata entries share a key.
pub open spec fn spec_keys_unique(md: Seq<SpecEntry>) -> bool {
    forall|i: int, j: int| 0 <= i < j < md.len() ==> md[i].key != md[j].key
}

/// Tensor data offsets never decrease in file order.
pub open spec fn spec_offsets_ordered(ts: Seq<SpecDescriptor>) -> bool {
    forall|i: int| 0 <= i < ts.len() - 1 ==> #[trigger] ts[i].offset <= ts[i + 1].offset
}

/// Every tensor data offset is a multiple of the alignment constant.
pub open spec fn spec_offsets_aligned(ts: Seq<SpecDescriptor>) -> bool {
    forall|i: int| 0 <= i < ts.len() ==> #[trigger] ts[i].offset % 32 == 0
}

/// The number of elements a dimension list spans.
pub open spec fn spec_dims_product(dims: Seq<u64>) -> int
    decreases dims.len(),
{
    if dims.len() == 0 {
        1
    } else {
        dims.first() * spec_dims_product(dims.drop_first())
    }
}

/// The byte extent of a tensor: its offset plus its element count times the
/// element width.
pub open spec fn spec_tensor_extent(d: SpecDescriptor) -> int {
    d.offset + spec_dims_product(d.dims) * spec_elem_type_size(d.element_type)
}

/// The first layout rule the given parts break, in the validator's fixed
/// check order, or `None` when the layout is sound. `file_len` is the total
/// byte length of the encoded file the parts describe.
pub open spec fn spec_layout_fault_parts(
    h: Header,
    md: Seq<SpecEntry>,
    ts: Seq<SpecDescriptor>,
    file_len: int,
) -> Option<LayoutFault> {
    if h.metadata_count != md.len() {
        Some(LayoutFault::MetadataCount)
    } else if h.tensor_count != ts.len() {
        Some(LayoutFault::TensorCount)
    } else if !spec_keys_unique(md) {
        Some(LayoutFault::DuplicateKey)
    } else if !spec_offsets_ordered(ts) {
        Some(LayoutFault::OffsetOrder)
    } else if !spec_offsets_aligned(ts) {
        Some(LayoutFault::OffsetAlignment)
    } else if !(ts.len() == 0 || spec_tensor_extent(ts.last()) <= file_len) {
        Some(LayoutFault::Extent)
    } else {
        None
    }
}

/// The first layout rule a document breaks, or `None` for a document whose
/// layout is sound.
pub open spec fn spec_layout_fault(d: SpecDocument) -> Option<LayoutFault> {
    spec_layout_fault_parts(
        d.header,
        d.metadata,
        d.tensors,
        crate::document::spec_data_start(d) + d.data.len() as int,
    )
}

/// A layout-sound document.
pub open spec fn spec_layout_ok(d: SpecDocument) -> bool {
    spec_layout_fault(d) is None
}

// ---------------------------------------------------------------------------
// Arithmetic support for the extent check
// ---------------------------------------------------------------------------

proof fn lemma_product_nonneg(dims: Seq<u64>)
    ensures
        spec_dims_product(dims) >= 0,
    decreases dims.len(),
{
    if dims.len() > 0 {
        lemma_product_nonneg(dims.drop_first());
        let f = dims.first() as int;
        let p = spec_dims_product(dims.drop_first());
        assert(f * p >= 0) by (nonlinear_arith)
            requires
                f >= 0,
                p >= 0,
        ;
    }
}

proof fn lemma_product_append(a: Seq<u64>, b: Seq<u64>)
    ensures
        spec_dims_product(a + b) == spec_dims_product(a) * spec_dims_product(b),
    decreases a.len(),
{
    if a.len() == 0 {
        assert(a + b =~= b);
    } else {
        assert((a + b).first() == a.first());
        assert((a + b).drop_first() =~= a.drop_first() + b);
        lemma_product_append(a.drop_first(), b);
        let f = a.first() as int;
        let p = spec_dims_product(a.drop_first());
        let q = spec_dims_product(b);
        assert(f * (p * q) == (f * p) * q) by (nonlinear_arith);
    }
}

proof fn lemma_product_ge_one(dims: Seq<u64>)
    requires
        forall|i: int| 0 <= i < dims.len() ==> #[trigger] dims[i] >= 1,
    ensures
        spec_dims_product(dims) >= 1,
    decreases dims.len(),
{
    if dims.len() > 0 {
        assert(forall|i: int|
            0 <= i < dims.drop_first().len() ==> #[trigger] dims.drop_first()[i] >= 1);
        lemma_product_ge_one(dims.drop_first());
        let f = dims.first() as int;
        let p = spec_dims_product(dims.drop_first());
        assert(f * p >= 1) by (nonlinear_arith)
            requires
                f >= 1,
                p >= 1,
        ;
    }
}

/// A zero anywhere in the dimension list zeroes the whole product.
proof fn lemma_product_zero(dims: Seq<u64>, i: int)
    requires
        0 <= i < dims.len(),
        dims[i] == 0,
    ensures
        spec_dims_product(dims) == 0,
{
    assert(dims =~= dims.take(i) + (seq![dims[i]] + dims.skip(i + 1)));
    lemma_product_append(dims.take(i), seq![dims[i]] + dims.skip(i + 1));
    lemma_product_append(seq![dims[i]], dims.skip(i + 1));
    assert(seq![dims[i]].first() == dims[i]);
    assert(seq![dims[i]].drop_first() =~= Seq::<u64>::empty());
    assert(spec_dims_product(Seq::<u64>::empty()) == 1);
    assert(spec_dims_product(seq![dims[i]]) == 0);
    let p = spec_dims_product(dims.take(i));
    let q = spec_dims_product(dims.skip(i + 1));
    assert(spec_dims_product(seq![dims[i]] + dims.skip(i + 1)) == 0 * q);
    assert(0 * q == 0) by (nonlinear_arith);
    assert(spec_dims_product(dims) == p * 0);
    assert(p * 0 == 0) by (nonlinear_arith);
}

/// With every dimension at least one, the whole product dominates any
/// prefix's product.
proof fn lemma_product_prefix_bound(dims: Seq<u64>, i: int)
    requires
        0 <= i <= dims.len(),
        forall|j: int| 0 <= j < dims.len() ==> #[trigger] dims[j] >= 1,
    ensures
        spec_dims_product(dims) >= spec_dims_product(dims.take(i)),
        spec_dims_product(dims.take(i)) >= 1,
{
    assert(dims =~= dims.take(i) + dims.skip(i));
    lemma_product_append(dims.take(i), dims.skip(i));
    assert(forall|j: int| 0 <= j < dims.take(i).len() ==> #[trigger] dims.take(i)[j] >= 1);
    assert(forall|j: int| 0 <= j < dims.skip(i).len() ==> #[trigger] dims.skip(i)[j] >= 1);
    lemma_product_ge_one(dims.take(i));
    lemma_product_ge_one(dims.skip(i));
    let p = spec_dims_product(dims.take(i));
    let q = spec_dims_product(dims.skip(i));
    assert(p * q >= p) by (nonlinear_arith)
        requires
            p >= 1,
            q >= 1,
    ;
}

proof fn lemma_mul_exceeds(acc: int, d: int, m: int)
    requires
        d >= 1,
        m >= 0,
        acc > m / d,
    ensures
        acc * d > m,
{
    vstd::arithmetic::div_mod::lemma_fundamental_div_mod(m, d);
    vstd::arithmetic::div_mod::lemma_mod_bound(m, d);
    assert(acc >= m / d + 1);
    assert((m / d + 1) * d == (m / d) * d + d) by (nonlinear_arith);
    assert(acc * d >= (m / d + 1) * d) by (nonlinear_arith)
        requires
            acc >= m / d + 1,
            d >= 1,
    ;
}

proof fn lemma_mul_fits(acc: int, d: int, m: int)
    requires
        d >= 1,
        m >= 0,
        0 <= acc <= m / d,
    ensures
        acc * d <= m,
{
    vstd::arithmetic::div_mod::lemma_fundamental_div_mod(m, d);
    vstd::arithmetic::div_mod::lemma_mod_bound(m, d);
    assert(acc * d <= (m / d) * d) by (nonlinear_arith)
        requires
            0 <= acc <= m / d,
            d >= 1,
    ;
}

/// The byte width of one element of the given type.
pub fn elem_type_size(t: ElementType) -> (s: u64)
    ensures
        s as int == spec_elem_type_size(t),
{
    match t {
        ElementType::F32 => 4,
        ElementType::F16 => 2,
        ElementType::I8 => 1,
        ElementType::I16 => 2,
        ElementType::I32 => 4,
        ElementType::I64 => 8,
        ElementType::F64 => 8,
    }
}

/// Decides whether a tensor's computed byte extent stays within `limit`
/// bytes, detecting arithmetic overflow rather than wrapping.
pub fn tensor_extent_fits(d: &TensorDescriptor, limit: u128) -> (r: bool)
    ensures
        r == (spec_tensor_extent(d@) <= limit as int),
{
    let size = elem_type_size(d.element_type);
    let n = d.dims.len();
    // A zero dimension makes the tensor empty: its extent is its offset.
    let mut i: usize = 0;
    while i < n
        invariant
            n == d.dims@.len(),
            i <= n,
            forall|j: int| 0 <= j < i ==> #[trigger] d.dims@[j] >= 1,
        decreases n - i,
    {
        if d.dims[i] == 0 {
            proof {
                lemma_product_zero(d.dims@, i as int);
            }
            return d.offset as u128 <= limit;
        }
        i = i + 1;
    }
    let ghost dims = d.dims@;
    let mut acc: u128 = size as u128;
    let mut k: usize = 0;
    while k < n
        invariant
            n == d.dims@.len(),
            dims == d.dims@,
            k <= n,
            forall|j: int| 0 <= j < n ==> #[trigger] d.dims@[j] >= 1,
            size as int == spec_elem_type_size(d.element_type),
            1 <= size <= 8,
            acc as int == spec_dims_product(dims.take(k as int)) * size as int,
            acc >= 1,
        decreases n - k,
    {
        let dim = d.dims[k];
        let dimw = dim as u128;
        proof {
            assert(dims.take(k + 1 as int) =~= dims.take(k as int) + seq![dims[k as int]]);
            lemma_product_append(dims.take(k as int), seq![dims[k as int]]);
            assert(seq![dims[k as int]].first() == dims[k as int]);
            assert(seq![dims[k as int]].drop_first() =~= Seq::<u64>::empty());
            assert(spec_dims_product(Seq::<u64>::empty()) == 1);
            assert(spec_dims_product(seq![dims[k as int]]) == dim);
        }
        if acc > u128::MAX / dimw {
            proof {
                lemma_mul_exceeds(acc as int, dimw as int, u128::MAX as int);
                let p1 = spec_dims_product(dims.take(k + 1 as int));
                let pk = spec_dims_product(dims.take(k as int));
                assert(p1 == pk * dim);
                assert(pk * dim * size == (pk * size) * dim) by (nonlinear_arith);
                assert(p1 * size > u128::MAX);
                lemma_product_prefix_bound(dims, k + 1 as int);
                let pall = spec_dims_product(dims);
                assert(pall * size >= p1 * size) by (nonlinear_arith)
                    requires
                        pall >= p1,
                        size >= 1,
                ;
                assert(spec_tensor_extent(d@) > u128::MAX);
            }
            return false;
        }
        proof {
            lemma_mul_fits(acc as int, dimw as int, u128::MAX as int);
            let pk = spec_dims_product(dims.take(k as int));
            assert(pk * dim * size == (pk * size) * dim) by (nonlinear_arith);
            assert(acc as int * dimw as int >= 1) by (nonlinear_arith)
                requires
                    acc >= 1,
                    dimw >= 1,
        ;
        }
        acc = acc * dimw;
        k = k + 1;
    }
    proof {
        assert(dims.take(n as int) =~= dims);
        lemma_product_nonneg(dims);
    }
    if acc > u128::MAX - d.offset as u128 {
        return false;
    }
    d.offset as u128 + acc <= limit
}

/// Compares two byte vectors for equality of contents.
pub fn bytes_eq(a: &Vec<u8>, b: &Vec<u8>) -> (r: bool)
    ensures
        r == (a@ == b@),
{
    if a.len() != b.len() {
        return false;
    }
    let n = a.len();
    let mut i: usize = 0;
    while i < n
        invariant
            n == a@.len() == b@.len(),
            i <= n,
            forall|j: int| 0 <= j < i ==> a@[j] == b@[j],
        decreases n - i,
    {
        if a[i] != b[i] {
            return false;
        }
        i = i + 1;
    }
    proof {
        assert(a@ =~= b@);
    }
    true
}

/// Checks every layout invariant of a candidate layout, given as its parts,
/// and reports the first broken one, in the validator's fixed order, as a
/// `CorruptLayout` fault. Of the data segment only its length is needed.
pub fn validate_layout_parts(
    h: &Header,
    metadata: &Vec<MetadataEntry>,
    tensors: &Vec<TensorDescriptor>,
    file_len: u128,
) -> (r: Result<(), GGUFError>)
    ensures
        r is Ok <==> spec_layout_fault_parts(
            *h,
            spec_entries_view(metadata@),
            spec_descs_view(tensors@),
            file_len as int,
        ) is None,
        r matches Err(GGUFError::CorruptLayout(f)) ==> spec_layout_fault_parts(
            *h,
            spec_entries_view(metadata@),
            spec_descs_view(tensors@),
            file_len as int,
        ) == Some(f),
        r is Err ==> r matches Err(GGUFError::CorruptLayout(_)),
{
    let ghost mdv = spec_entries_view(metadata@);
    let ghost tsv = spec_descs_view(tensors@);
    let md_len = metadata.len();
    let ts_len = tensors.len();
    if h.metadata_count != md_len as u64 {
        return Err(GGUFError::CorruptLayout(LayoutFault::MetadataCount));
    }
    if h.tensor_count != ts_len as u64 {
        return Err(GGUFError::CorruptLayout(LayoutFault::TensorCount));
    }
    // Key uniqueness.
    let mut i: usize = 0;
    while i < md_len
        invariant
            md_len == metadata@.len(),
            mdv == spec_entries_view(metadata@),
            tsv == spec_descs_view(tensors@),
            h.metadata_count == mdv.len(),
            h.tensor_count == tsv.len(),
            i <= md_len,
            forall|p: int, q: int|
                0 <= p < q < md_len && p < i ==> metadata@[p]@.key != metadata@[q]@.key,
        decreases md_len - i,
    {
        let mut j: usize = i + 1;
        while j < md_len
            invariant
                md_len == metadata@.len(),
                mdv == spec_entries_view(metadata@),
                tsv == spec_descs_view(tensors@),
                h.metadata_count == mdv.len(),
                h.tensor_count == tsv.len(),
                i < j <= md_len,
                i < md_len,
                forall|q: int| i < q < j ==> metadata@[i as int]@.key != metadata@[q]@.key,
            decreases md_len - j,
        {
            if bytes_eq(&metadata[i].key, &metadata[j].key) {
                proof {
                    assert(mdv[i as int].key == metadata@[i as int]@.key);
                    assert(mdv[j as int].key == metadata@[j as int]@.key);
                    assert(!spec_keys_unique(mdv));
                }
                return Err(GGUFError::CorruptLayout(LayoutFault::DuplicateKey));
            }
            j = j + 1;
        }
        i = i + 1;
    }
    proof {
        assert forall|p: int, q: int| 0 <= p < q < mdv.len() implies mdv[p].key != mdv[q].key by {
            assert(mdv[p].key == metadata@[p]@.key);
            assert(mdv[q].key == metadata@[q]@.key);
        }
    }
    // Offset order.
    let mut i: usize = 1;
    while i < ts_len
        invariant
            ts_len == tensors@.len(),
            mdv == spec_entries_view(metadata@),
            tsv == spec_descs_view(tensors@),
            h.metadata_count == mdv.len(),
            h.tensor_count == tsv.len(),
            spec_keys_unique(mdv),
            1 <= i <= ts_len || (i == 1 && ts_len == 0),
            forall|p: int|
                0 <= p < i - 1 ==> #[trigger] tensors@[p].offset <= tensors@[p + 1].offset,
        decreases ts_len - i,
    {
        if tensors[i - 1].offset > tensors[i].offset {
            proof {
                assert(tsv[i - 1 as int].offset == tensors@[i - 1 as int].offset);
                assert(tsv[i as int].offset == tensors@[i as int].offset);
                assert(!spec_offsets_ordered(tsv));
            }
            return Err(GGUFError::CorruptLayout(LayoutFault::OffsetOrder));
        }
        i = i + 1;
    }
    proof {
        assert forall|p: int| 0 <= p < tsv.len() - 1 implies #[trigger] tsv[p].offset <= tsv[p
            + 1].offset by {
            assert(tsv[p].offset == tensors@[p].offset);
            assert(tsv[p + 1].offset == tensors@[p + 1].offset);
        }
    }
    // Offset alignment.
    let mut i: usize = 0;
    while i < ts_len
        invariant
            ts_len == tensors@.len(),
            mdv == spec_entries_view(metadata@),
            tsv == spec_descs_view(tensors@),
            h.metadata_count == mdv.len(),
            h.tensor_count == tsv.len(),
            spec_keys_unique(mdv),
            spec_offsets_ordered(tsv),
            i <= ts_len,
            forall|p: int| 0 <= p < i ==> #[trigger] tensors@[p].offset % 32 == 0,
        decreases ts_len - i,
    {
        if tensors[i].offset % 32 != 0 {
            proof {
                assert(tsv[i as int].offset == tensors@[i as int].offset);
                assert(!spec_offsets_aligned(tsv));
            }
            return Err(GGUFError::CorruptLayout(LayoutFault::OffsetAlignment));
        }
        i = i + 1;
    }
    proof {
        assert forall|p: int| 0 <= p < tsv.len() implies #[trigger] tsv[p].offset % 32 == 0 by {
            assert(tsv[p].offset == tensors@[p].offset);
        }
    }
    // Extent of the last tensor.
    if ts_len > 0 {
        let fits = tensor_extent_fits(&tensors[ts_len - 1], file_len);
        proof {
            assert(tsv.last() == tensors@[ts_len - 1 as int]@);
        }
        if !fits {
            return Err(GGUFError::CorruptLayout(LayoutFault::Extent));
        }
    }
    Ok(())
}

/// Checks every layout invariant of a document and reports the first broken
/// one, in the validator's fixed order, as a `CorruptLayout` fault.
pub fn validate_layout(doc: &Document) -> (r: Result<(), GGUFError>)
    ensures
        r is Ok <==> spec_layout_fault(doc@) is None,
        r matches Err(GGUFError::CorruptLayout(f)) ==> spec_layout_fault(doc@) == Some(f),
        r is Err ==> r matches Err(GGUFError::CorruptLayout(_)),
{
    let md_bytes = crate::file_codec::encode_entries(&doc.metadata);
    let ds_bytes = crate::file_codec::encode_descs(&doc.tensors);
    proof {
        assert(md_bytes@.len() == md_bytes.len() <= usize::MAX);
        assert(ds_bytes@.len() == ds_bytes.len() <= usize::MAX);
        assert(doc.data@.len() == doc.data.len() <= usize::MAX);
        assert(usize::MAX as u128 <= u64::MAX as u128);
    }
    let sections: u128 = 24 + md_bytes.len() as u128 + ds_bytes.len() as u128;
    let start: u128 = ((sections + 31) / 32) * 32;
    let file_len: u128 = start + doc.data.len() as u128;
    proof {
        assert(start as int == crate::document::spec_align_up(sections as int));
        assert(sections as int == crate::document::spec_sections_len(doc@));
        assert(file_len as int == crate::document::spec_data_start(doc@) + doc@.data.len());
    }
    validate_layout_parts(&doc.header, &doc.metadata, &doc.tensors, file_len)
}

/// Validates a whole file image: decodes it and then holds the document to
/// every layout invariant. `InvalidMagic` exactly when the magic literal is
/// absent, `UnsupportedVersion` exactly when the version field disagrees,
/// `CorruptValue` for a truncated or malformed body, `CorruptLayout` with
/// the first broken rule of a file that decodes but whose layout is unsound.
pub fn validate_structure(bytes: &Vec<u8>) -> (r: Result<(), GGUFError>)
    ensures
        r is Ok <==> (spec_dec_document(bytes@) is Some && spec_layout_fault(
            spec_dec_document(bytes@).unwrap(),
        ) is None),
        (r matches Err(GGUFError::InvalidMagic)) <==> !spec_magic_ok(bytes@),
        (r matches Err(GGUFError::UnsupportedVersion(v)) ==> spec_magic_ok(bytes@) && bytes@.len()
            >= 8 && v == spec_file_version(bytes@) && v != GGUF_VERSION),
        (spec_magic_ok(bytes@) && bytes@.len() >= 8 && spec_file_version(bytes@) != GGUF_VERSION
            ==> (r matches Err(GGUFError::UnsupportedVersion(v)) && v == spec_file_version(
            bytes@,
        ))),
        r matches Err(GGUFError::CorruptLayout(f)) ==> spec_dec_document(bytes@) is Some
            && spec_layout_fault(spec_dec_document(bytes@).unwrap()) == Some(f),
        (spec_dec_document(bytes@) is Some && spec_layout_fault(
            spec_dec_document(bytes@).unwrap(),
        ) is Some ==> (r matches Err(GGUFError::CorruptLayout(f)) && Some(f)
            == spec_layout_fault(spec_dec_document(bytes@).unwrap()))),
        r matches Err(GGUFError::CorruptValue(_)) ==> spec_dec_document(bytes@) is None,
        r is Err ==> ((r matches Err(GGUFError::InvalidMagic)) || (r matches Err(
            GGUFError::UnsupportedVersion(_),
        )) || (r matches Err(GGUFError::CorruptValue(_))) || (r matches Err(
            GGUFError::CorruptLayout(_),
        ))),
{
    match decode_document(bytes) {
        Ok(doc) => validate_layout(&doc),
        Err(e) => Err(e),
    }
}

} // verus!
