//! The update engine: batch key/value changes to the metadata table, the
//! in-place/rewrite decision, and the uniform tensor-offset shift that keeps
//! the layout consistent when the metadata section changes size.
//!
//! Policy choices, fixed here and stated in the contracts: a batch is
//! fail-fast — the first update whose value variant disagrees with the
//! existing entry rejects the whole batch and the document is left
//! untouched; updating a key that is absent appends a new entry at the end
//! of the table and raises the header's metadata count. Requests are
//! resolved against the table as it stood before the batch.

use vstd::prelude::*;
use vstd::pervasive::VecAdditionalExecFns;
use crate::value::{
    MetadataValue, SpecValue, ValueTag, clone_bytes, clone_value, same_variant,
    spec_tag_byte, spec_value_tag, spec_variant_match, value_tag,
};
use crate::document::{
    Document, Header, MetadataEntry, SpecDescriptor, SpecDocument, SpecEntry, TensorDescriptor,
    spec_align_up, spec_descs_view, spec_enc_descs, spec_enc_entries, spec_entries_view,
};
use crate::file_codec::encode_entries;
use crate::file_codec::encode_descs;
use crate::validator::{bytes_eq, spec_layout_fault_parts, validate_layout_parts};
use crate::error::{GGUFError, LayoutFault};

verus! {

/// A loosely typed update value, as an external request document carries it:
/// the numeric kinds do not yet commit to a width. The float kind carries
/// both IEEE-754 encodings of the requested number, as bit patterns, so the
/// engine can serve either float width without doing float arithmetic.
pub enum RequestValue {
    UInt(u64),
    Int(i64),
    Float { bits64: u64, bits32: u32 },
    Bool(bool),
    Str(Vec<u8>),
}

/// Spec model of a request value.
pub enum SpecRequestValue {
    UInt(u64),
    Int(i64),
    Float { bits64: u64, bits32: u32 },
    Bool(bool),
    Str(Seq<u8>),
}

impl View for RequestValue {
    type V = SpecRequestValue;

    open spec fn view(&self) -> SpecRequestValue {
        match self {
            RequestValue::UInt(x) => SpecRequestValue::UInt(*x),
            RequestValue::Int(x) => SpecRequestValue::Int(*x),
            RequestValue::Float { bits64, bits32 } => SpecRequestValue::Float {
                bits64: *bits64,
                bits32: *bits32,
            },
            RequestValue::Bool(x) => SpecRequestValue::Bool(*x),
            RequestValue::Str(s) => SpecRequestValue::Str(s@),
        }
    }
}

/// One loosely typed update request.
pub struct UpdateRequest {
    pub key: Vec<u8>,
    pub value: RequestValue,
}

/// One fully resolved update: a key and the concrete value to store.
pub struct ResolvedUpdate {
    pub key: Vec<u8>,
    pub value: MetadataValue,
}

/// The write mode an applied batch calls for: `InPlace` when the metadata
/// section's encoded size is unchanged and no key was inserted, `Rewrite`
/// otherwise.
#[derive(Clone, Copy, PartialEq, Eq, Structural, Debug)]
pub enum WriteMode {
    InPlace,
    Rewrite,
}

pub open spec fn spec_requests_view(s: Seq<UpdateRequest>) -> Seq<(Seq<u8>, SpecRequestValue)> {
    Seq::new(s.len(), |i: int| (s[i].key@, s[i].value@))
}

pub open spec fn spec_updates_view(s: Seq<ResolvedUpdate>) -> Seq<(Seq<u8>, SpecValue)> {
    Seq::new(s.len(), |i: int| (s[i].key@, s[i].value@))
}

// ---------------------------------------------------------------------------
// Resolution of loose request values against the existing entry
// ---------------------------------------------------------------------------

/// The nominal variant of a request value, reported as `actual` when
/// resolution fails.
pub open spec fn spec_request_tag(raw: SpecRequestValue) -> ValueTag {
    match raw {
        SpecRequestValue::UInt(_) => ValueTag::U64,
        SpecRequestValue::Int(_) => ValueTag::I64,
        SpecRequestValue::Float { .. } => ValueTag::F64,
        SpecRequestValue::Bool(_) => ValueTag::Bool,
        SpecRequestValue::Str(_) => ValueTag::Str,
    }
}

/// Resolves a request value against the variant of the existing entry:
/// a numeric request narrows to the entry's width exactly when its value is
/// representable there; kinds are never coerced into one another. `None`
/// stands for a type mismatch.
pub open spec fn spec_resolve(raw: SpecRequestValue, t: ValueTag) -> Option<SpecValue> {
    match raw {
        SpecRequestValue::UInt(u) => match t {
            ValueTag::U8 => if u <= u8::MAX {
                Some(SpecValue::Simple(crate::value::SpecSimpleValue::U8(u as u8)))
            } else {
                None
            },
            ValueTag::U16 => if u <= u16::MAX {
                Some(SpecValue::Simple(crate::value::SpecSimpleValue::U16(u as u16)))
            } else {
                None
            },
            ValueTag::U32 => if u <= u32::MAX {
                Some(SpecValue::Simple(crate::value::SpecSimpleValue::U32(u as u32)))
            } else {
                None
            },
            ValueTag::U64 => Some(SpecValue::Simple(crate::value::SpecSimpleValue::U64(u))),
            ValueTag::I8 => if u <= i8::MAX {
                Some(SpecValue::Simple(crate::value::SpecSimpleValue::I8(u as i8)))
            } else {
                None
            },
            ValueTag::I16 => if u <= i16::MAX {
                Some(SpecValue::Simple(crate::value::SpecSimpleValue::I16(u as i16)))
            } else {
                None
            },
            ValueTag::I32 => if u <= i32::MAX {
                Some(SpecValue::Simple(crate::value::SpecSimpleValue::I32(u as i32)))
            } else {
                None
            },
            ValueTag::I64 => if u <= i64::MAX {
                Some(SpecValue::Simple(crate::value::SpecSimpleValue::I64(u as i64)))
            } else {
                None
            },
            _ => None,
        },
        SpecRequestValue::Int(x) => match t {
            ValueTag::I8 => if i8::MIN <= x <= i8::MAX {
                Some(SpecValue::Simple(crate::value::SpecSimpleValue::I8(x as i8)))
            } else {
                None
            },
            ValueTag::I16 => if i16::MIN <= x <= i16::MAX {
                Some(SpecValue::Simple(crate::value::SpecSimpleValue::I16(x as i16)))
            } else {
                None
            },
            ValueTag::I32 => if i32::MIN <= x <= i32::MAX {
                Some(SpecValue::Simple(crate::value::SpecSimpleValue::I32(x as i32)))
            } else {
                None
            },
            ValueTag::I64 => Some(SpecValue::Simple(crate::value::SpecSimpleValue::I64(x))),
            ValueTag::U8 => if 0 <= x <= u8::MAX {
                Some(SpecValue::Simple(crate::value::SpecSimpleValue::U8(x as u8)))
            } else {
                None
            },
            ValueTag::U16 => if 0 <= x <= u16::MAX {
                Some(SpecValue::Simple(crate::value::SpecSimpleValue::U16(x as u16)))
            } else {
                None
            },
            ValueTag::U32 => if 0 <= x <= u32::MAX {
                Some(SpecValue::Simple(crate::value::SpecSimpleValue::U32(x as u32)))
            } else {
                None
            },
            ValueTag::U64 => if 0 <= x {
                Some(SpecValue::Simple(crate::value::SpecSimpleValue::U64(x as u64)))
            } else {
                None
            },
            _ => None,
        },
        SpecRequestValue::Float { bits64, bits32 } => match t {
            ValueTag::F32 => Some(SpecValue::Simple(crate::value::SpecSimpleValue::F32(bits32))),
            ValueTag::F64 => Some(SpecValue::Simple(crate::value::SpecSimpleValue::F64(bits64))),
            _ => None,
        },
        SpecRequestValue::Bool(b) => match t {
            ValueTag::Bool => Some(SpecValue::Simple(crate::value::SpecSimpleValue::Bool(b))),
            _ => None,
        },
        SpecRequestValue::Str(s) => match t {
            ValueTag::Str => Some(SpecValue::Simple(crate::value::SpecSimpleValue::Str(s))),
            _ => None,
        },
    }
}

/// The concrete value a request resolves to when its key is absent and a new
/// entry will be inserted: the widest variant of its kind.
pub open spec fn spec_resolve_default(raw: SpecRequestValue) -> SpecValue {
    match raw {
        SpecRequestValue::UInt(u) => SpecValue::Simple(crate::value::SpecSimpleValue::U64(u)),
        SpecRequestValue::Int(x) => SpecValue::Simple(crate::value::SpecSimpleValue::I64(x)),
        SpecRequestValue::Float { bits64, .. } => SpecValue::Simple(
            crate::value::SpecSimpleValue::F64(bits64),
        ),
        SpecRequestValue::Bool(b) => SpecValue::Simple(crate::value::SpecSimpleValue::Bool(b)),
        SpecRequestValue::Str(s) => SpecValue::Simple(crate::value::SpecSimpleValue::Str(s)),
    }
}

// ---------------------------------------------------------------------------
// Table update semantics
// ---------------------------------------------------------------------------

/// The index of the first entry carrying `key`, or the table's length when
/// no entry does.
pub open spec fn spec_find_key(md: Seq<SpecEntry>, key: Seq<u8>) -> int
    decreases md.len(),
{
    if md.len() == 0 {
        0
    } else if md.first().key == key {
        0
    } else {
        1 + spec_find_key(md.drop_first(), key)
    }
}

/// `spec_find_key` points at the first entry with the key, and past the end
/// exactly when the key is absent.
pub proof fn lemma_find_key(md: Seq<SpecEntry>, key: Seq<u8>)
    ensures
        0 <= spec_find_key(md, key) <= md.len(),
        spec_find_key(md, key) < md.len() ==> md[spec_find_key(md, key)].key == key,
        forall|j: int| 0 <= j < spec_find_key(md, key) ==> md[j].key != key,
    decreases md.len(),
{
    if md.len() > 0 && md.first().key != key {
        lemma_find_key(md.drop_first(), key);
        let f = spec_find_key(md, key);
        assert forall|j: int| 0 <= j < f implies md[j].key != key by {
            if j > 0 {
                assert(md.drop_first()[j - 1] == md[j]);
            }
        }
        if f < md.len() {
            assert(md.drop_first()[f - 1] == md[f]);
        }
    }
}

/// One update against the table: replace in place on a variant match, append
/// a fresh entry when the key is absent, and report the two variant tags of
/// a mismatch.
pub open spec fn spec_apply_one(md: Seq<SpecEntry>, key: Seq<u8>, v: SpecValue) -> Result<
    Seq<SpecEntry>,
    (ValueTag, ValueTag),
> {
    let i = spec_find_key(md, key);
    if i == md.len() {
        Ok(md.push(SpecEntry { key, value: v }))
    } else if spec_variant_match(md[i].value, v) {
        Ok(md.update(i, SpecEntry { key, value: v }))
    } else {
        Err((spec_value_tag(md[i].value), spec_value_tag(v)))
    }
}

/// A whole batch, folded in order and fail-fast: the first mismatch rejects
/// the batch and names its key and the two tags.
pub open spec fn spec_apply_batch(md: Seq<SpecEntry>, ups: Seq<(Seq<u8>, SpecValue)>) -> Result<
    Seq<SpecEntry>,
    (Seq<u8>, ValueTag, ValueTag),
>
    decreases ups.len(),
{
    if ups.len() == 0 {
        Ok(md)
    } else {
        match spec_apply_one(md, ups.first().0, ups.first().1) {
            Ok(m1) => spec_apply_batch(m1, ups.drop_first()),
            Err((e, a)) => Err((ups.first().0, e, a)),
        }
    }
}

// ---------------------------------------------------------------------------
// Layout recomputation
// ---------------------------------------------------------------------------

/// The change of the aligned data-segment start when the metadata table
/// becomes `m1`: the byte delta every tensor offset is shifted by.
pub open spec fn spec_delta(pre: SpecDocument, m1: Seq<SpecEntry>) -> int {
    spec_align_up(
        24 + spec_enc_entries(m1).len() as int + spec_enc_descs(pre.tensors).len() as int,
    ) - spec_align_up(
        24 + spec_enc_entries(pre.metadata).len() as int + spec_enc_descs(
            pre.tensors,
        ).len() as int,
    )
}

/// Every shifted offset stays inside the 64-bit range.
pub open spec fn spec_shift_ok(ts: Seq<SpecDescriptor>, delta: int) -> bool {
    forall|i: int| 0 <= i < ts.len() ==> 0 <= #[trigger] ts[i].offset + delta <= u64::MAX
}

/// The descriptor table with every offset shifted by `delta`; names,
/// dimensions and element types untouched, order kept.
pub open spec fn spec_shifted(ts: Seq<SpecDescriptor>, delta: int) -> Seq<SpecDescriptor> {
    Seq::new(
        ts.len(),
        |i: int| SpecDescriptor {
            name: ts[i].name,
            dims: ts[i].dims,
            element_type: ts[i].element_type,
            offset: (ts[i].offset + delta) as u64,
        },
    )
}

/// The document a successful batch produces: the new table, the header's
/// metadata count synced to it, every tensor offset shifted by the delta,
/// and the tensor-data bytes untouched.
pub open spec fn spec_updated_doc(pre: SpecDocument, m1: Seq<SpecEntry>) -> SpecDocument {
    SpecDocument {
        header: Header {
            version: pre.header.version,
            tensor_count: pre.header.tensor_count,
            metadata_count: m1.len() as u64,
        },
        metadata: m1,
        tensors: spec_shifted(pre.tensors, spec_delta(pre, m1)),
        data: pre.data,
    }
}

/// The full contract of applying a resolved batch to a document `pre`,
/// leaving `post`, with result `r`. On any error the document is untouched;
/// on success the document is exactly [`spec_updated_doc`], its layout is
/// sound, and the mode is `InPlace` exactly when the metadata section's raw
/// encoded byte length is unchanged and no key was inserted — only then does
/// overwriting the section's byte range leave every later byte where a
/// reader expects it. A length change that the alignment padding absorbs
/// still moves the descriptor section, so it forces a rewrite even though
/// the offset delta is zero.
pub open spec fn spec_apply_outcome(
    pre: SpecDocument,
    batch: Seq<(Seq<u8>, SpecValue)>,
    post: SpecDocument,
    r: Result<WriteMode, GGUFError>,
) -> bool {
    match spec_apply_batch(pre.metadata, batch) {
        Err((k, e, a)) => post == pre && (r matches Err(GGUFError::TypeMismatch {
            key,
            expected,
            actual,
        }) && key@ == k && expected == spec_tag_byte(e) && actual == spec_tag_byte(a)),
        Ok(m1) => {
            let delta = spec_delta(pre, m1);
            if !spec_shift_ok(pre.tensors, delta) {
                post == pre && r == Err::<WriteMode, GGUFError>(
                    GGUFError::CorruptLayout(LayoutFault::OffsetRange),
                )
            } else {
                let cand = spec_updated_doc(pre, m1);
                let file_len = spec_align_up(
                    24 + spec_enc_entries(m1).len() as int + spec_enc_descs(
                        pre.tensors,
                    ).len() as int,
                ) + pre.data.len() as int;
                match spec_layout_fault_parts(
                    cand.header,
                    cand.metadata,
                    cand.tensors,
                    file_len,
                ) {
                    Some(f) => post == pre && r == Err::<WriteMode, GGUFError>(
                        GGUFError::CorruptLayout(f),
                    ),
                    None => post == cand && r is Ok && ((r == Ok::<WriteMode, GGUFError>(
                        WriteMode::InPlace,
                    )) <==> (spec_enc_entries(m1).len() == spec_enc_entries(pre.metadata).len()
                        && m1.len() == pre.metadata.len())),
                }
            }
        },
    }
}

// ---------------------------------------------------------------------------
// Executable engine
// ---------------------------------------------------------------------------

/// Copies a dimension list.
fn clone_dims(src: &Vec<u64>) -> (r: Vec<u64>)
    ensures
        r@ == src@,
{
    let mut out: Vec<u64> = Vec::new();
    let n = src.len();
    let mut i: usize = 0;
    while i < n
        invariant
            n == src@.len(),
            i <= n,
            out@ == src@.take(i as int),
        decreases n - i,
    {
        out.push(src[i]);
        assert(out@ =~= src@.take(i + 1 as int));
        i = i + 1;
    }
    assert(src@.take(n as int) =~= src@);
    out
}

/// Copies a metadata table; the copy's entry views equal the original's.
fn clone_entries(src: &Vec<MetadataEntry>) -> (r: Vec<MetadataEntry>)
    ensures
        spec_entries_view(r@) == spec_entries_view(src@),
{
    let mut out: Vec<MetadataEntry> = Vec::new();
    let n = src.len();
    let mut i: usize = 0;
    while i < n
        invariant
            n == src@.len(),
            i <= n,
            out@.len() == i,
            forall|j: int| 0 <= j < i ==> #[trigger] out@[j]@ == src@[j]@,
        decreases n - i,
    {
        let e = MetadataEntry { key: clone_bytes(&src[i].key), value: clone_value(&src[i].value) };
        assert(e@ == src@[i as int]@);
        out.push(e);
        i = i + 1;
    }
    proof {
        assert(spec_entries_view(out@) =~= spec_entries_view(src@));
    }
    out
}

/// Applies one resolved update to a working table, following
/// [`spec_apply_one`] exactly.
fn apply_one(work: &mut Vec<MetadataEntry>, key: &Vec<u8>, value: &MetadataValue) -> (r: Result<
    (),
    (ValueTag, ValueTag),
>)
    ensures
        ({
            let m1 = spec_apply_one(spec_entries_view(old(work)@), key@, value@);
            match r {
                Ok(()) => m1 is Ok && spec_entries_view(final(work)@) == m1.unwrap(),
                Err((e, a)) => m1 == Err::<Seq<SpecEntry>, (ValueTag, ValueTag)>((e, a))
                    && *final(work) == *old(work),
            }
        }),
{
    let ghost mdv = spec_entries_view(work@);
    proof {
        lemma_find_key(mdv, key@);
    }
    let n = work.len();
    let mut i: usize = 0;
    while i < n
        invariant
            n == work@.len(),
            *work == *old(work),
            mdv == spec_entries_view(work@),
            i <= n,
            forall|j: int| 0 <= j < i ==> #[trigger] mdv[j].key != key@,
        decreases n - i,
    {
        if bytes_eq(&work[i].key, key) {
            proof {
                assert(mdv[i as int].key == work@[i as int]@.key);
                lemma_find_key(mdv, key@);
                assert(spec_find_key(mdv, key@) == i);
            }
            let matches_variant = same_variant(&work[i].value, value);
            if matches_variant {
                proof {
                    assert(mdv[i as int].value == work@[i as int]@.value);
                    assert(spec_variant_match(mdv[i as int].value, value@));
                }
                let e = MetadataEntry { key: clone_bytes(key), value: clone_value(value) };
                assert(e@ == SpecEntry { key: key@, value: value@ });
                work.set(i, e);
                proof {
                    assert(spec_entries_view(work@) =~= mdv.update(
                        i as int,
                        SpecEntry { key: key@, value: value@ },
                    ));
                }
                return Ok(());
            } else {
                proof {
                    assert(mdv[i as int].value == work@[i as int]@.value);
                }
                let et = value_tag(&work[i].value);
                let at = value_tag(value);
                return Err((et, at));
            }
        }
        proof {
            assert(mdv[i as int].key == work@[i as int]@.key);
        }
        i = i + 1;
    }
    proof {
        lemma_find_key(mdv, key@);
        assert(spec_find_key(mdv, key@) == n);
    }
    let e = MetadataEntry { key: clone_bytes(key), value: clone_value(value) };
    assert(e@ == SpecEntry { key: key@, value: value@ });
    work.push(e);
    proof {
        assert(spec_entries_view(work@) =~= mdv.push(SpecEntry { key: key@, value: value@ }));
    }
    Ok(())
}

/// Applies a batch of resolved updates to a document.
///
/// Implements the update engine of the format: fold the batch into the
/// metadata table (fail-fast on the first variant mismatch), recompute the
/// aligned metadata-section size, shift every tensor offset by the delta,
/// re-validate the layout, and only then commit. On every error path the
/// document is exactly as it was. The returned mode says whether the change
/// can be written in place.
pub fn apply_updates(doc: &mut Document, updates: &Vec<ResolvedUpdate>) -> (r: Result<
    WriteMode,
    GGUFError,
>)
    requires
        forall|i: int|
            0 <= i < updates@.len() ==> crate::value::spec_value_wf(
                #[trigger] updates@[i].value@,
            ),
    ensures
        spec_apply_outcome(old(doc)@, spec_updates_view(updates@), final(doc)@, r),
        r is Err ==> *final(doc) == *old(doc),
{
    let ghost pre = doc@;
    let ghost batch = spec_updates_view(updates@);
    // Fold the batch into a working copy; the document stays untouched.
    let mut work = clone_entries(&doc.metadata);
    proof {
        assert(spec_entries_view(work@) == pre.metadata);
        assert(batch.skip(0) =~= batch);
    }
    let n = updates.len();
    let mut i: usize = 0;
    while i < n
        invariant
            n == updates@.len(),
            i <= n,
            batch == spec_updates_view(updates@),
            pre == doc@,
            *doc == *old(doc),
            spec_apply_batch(pre.metadata, batch) == spec_apply_batch(
                spec_entries_view(work@),
                batch.skip(i as int),
            ),
        decreases n - i,
    {
        proof {
            assert(batch.skip(i as int).first() == batch[i as int]);
            assert(batch.skip(i as int).drop_first() =~= batch.skip(i + 1 as int));
            assert(batch[i as int] == (updates@[i as int].key@, updates@[i as int].value@));
        }
        match apply_one(&mut work, &updates[i].key, &updates[i].value) {
            Ok(()) => {
                i = i + 1;
            },
            Err((e, a)) => {
                proof {
                    assert(spec_apply_batch(pre.metadata, batch) == Err::<
                        Seq<SpecEntry>,
                        (Seq<u8>, ValueTag, ValueTag),
                    >((batch[i as int].0, e, a)));
                    assert(batch[i as int].0 == updates@[i as int].key@);
                }
                return Err(
                    GGUFError::TypeMismatch {
                        key: clone_bytes(&updates[i].key),
                        expected: crate::value::tag_byte(e),
                        actual: crate::value::tag_byte(a),
                    },
                );
            },
        }
    }
    proof {
        assert(batch.skip(n as int) =~= Seq::<(Seq<u8>, SpecValue)>::empty());
        assert(spec_apply_batch(pre.metadata, batch) == Ok::<
            Seq<SpecEntry>,
            (Seq<u8>, ValueTag, ValueTag),
        >(spec_entries_view(work@)));
    }
    let ghost m1 = spec_entries_view(work@);
    // Sizes of the old and new leading sections, and the offset delta.
    let old_meta = encode_entries(&doc.metadata);
    let new_meta = encode_entries(&work);
    let descs = encode_descs(&doc.tensors);
    let old_sections: u128 = 24 + old_meta.len() as u128 + descs.len() as u128;
    let new_sections: u128 = 24 + new_meta.len() as u128 + descs.len() as u128;
    proof {
        assert(old_meta@.len() <= usize::MAX);
        assert(new_meta@.len() <= usize::MAX);
        assert(descs@.len() <= usize::MAX);
        assert(usize::MAX as u128 <= u64::MAX as u128);
        assert(old_sections <= 24 + 2 * (u64::MAX as u128));
        assert(new_sections <= 24 + 2 * (u64::MAX as u128));
    }
    let old_start: u128 = ((old_sections + 31) / 32) * 32;
    let new_start: u128 = ((new_sections + 31) / 32) * 32;
    let delta: i128 = new_start as i128 - old_start as i128;
    proof {
        assert(old_start as int == spec_align_up(old_sections as int));
        assert(new_start as int == spec_align_up(new_sections as int));
        assert(delta as int == spec_delta(pre, m1));
        assert(old_start <= old_sections + 31);
        assert(new_start <= new_sections + 31);
        assert(-40000000000000000000000 < delta < 40000000000000000000000);
    }
    // Shift every tensor offset by the delta, into a fresh table.
    let ghost tsv = spec_descs_view(doc.tensors@);
    let mut new_tensors: Vec<TensorDescriptor> = Vec::new();
    let tn = doc.tensors.len();
    let mut k: usize = 0;
    while k < tn
        invariant
            tn == doc.tensors@.len(),
            k <= tn,
            pre == doc@,
            *doc == *old(doc),
            batch == spec_updates_view(updates@),
            spec_apply_batch(pre.metadata, batch) == Ok::<
                Seq<SpecEntry>,
                (Seq<u8>, ValueTag, ValueTag),
            >(m1),
            tsv == spec_descs_view(doc.tensors@),
            delta as int == spec_delta(pre, m1),
            -40000000000000000000000 < delta < 40000000000000000000000,
            new_tensors@.len() == k,
            forall|j: int| 0 <= j < k ==> 0 <= (#[trigger] tsv[j]).offset + delta as int
                <= u64::MAX,
            forall|j: int|
                0 <= j < k ==> #[trigger] new_tensors@[j]@ == (SpecDescriptor {
                    name: tsv[j].name,
                    dims: tsv[j].dims,
                    element_type: tsv[j].element_type,
                    offset: (tsv[j].offset + delta as int) as u64,
                }),
        decreases tn - k,
    {
        let t = &doc.tensors[k];
        let shifted: i128 = t.offset as i128 + delta;
        if shifted < 0 || shifted > u64::MAX as i128 {
            proof {
                assert(tsv[k as int].offset == doc.tensors@[k as int].offset);
                assert(!spec_shift_ok(pre.tensors, delta as int));
            }
            return Err(GGUFError::CorruptLayout(LayoutFault::OffsetRange));
        }
        let nd = TensorDescriptor {
            name: clone_bytes(&t.name),
            dims: clone_dims(&t.dims),
            element_type: t.element_type,
            offset: shifted as u64,
        };
        proof {
            assert(tsv[k as int] == doc.tensors@[k as int]@);
        }
        new_tensors.push(nd);
        k = k + 1;
    }
    proof {
        assert forall|i2: int| 0 <= i2 < pre.tensors.len() implies 0 <= (#[trigger] pre.tensors[
            i2]).offset + delta as int <= u64::MAX by {
            assert(tsv[i2] == pre.tensors[i2]);
        }
        assert(spec_shift_ok(pre.tensors, delta as int));
        assert(spec_descs_view(new_tensors@) =~= spec_shifted(pre.tensors, delta as int));
    }
    // Candidate header and re-validation before committing anything.
    let cand_header = Header {
        version: doc.header.version,
        tensor_count: doc.header.tensor_count,
        metadata_count: work.len() as u64,
    };
    let ghost cand = spec_updated_doc(pre, m1);
    proof {
        assert(cand.header == cand_header);
        assert(cand.metadata == m1);
        assert(cand.tensors == spec_descs_view(new_tensors@));
        assert(cand.data == doc.data@);
    }
    let file_len: u128 = new_start + doc.data.len() as u128;
    proof {
        assert(doc.data@.len() == doc.data.len() <= usize::MAX);
        assert(file_len as int == spec_align_up(
            24 + spec_enc_entries(m1).len() as int + spec_enc_descs(
                pre.tensors,
            ).len() as int,
        ) + pre.data.len() as int);
    }
    match validate_layout_parts(&cand_header, &work, &new_tensors, file_len) {
        Ok(()) => {},
        Err(e) => {
            return Err(e);
        },
    }
    // Decide the write mode before committing, then commit. In-place needs
    // the raw section length unchanged: an aligned delta of zero is not
    // enough, since padding can absorb a shift of the descriptor section.
    let inplace = new_meta.len() == old_meta.len() && work.len() == doc.metadata.len();
    proof {
        assert(spec_entries_view(work@).len() == work@.len());
    }
    doc.header = cand_header;
    doc.metadata = work;
    doc.tensors = new_tensors;
    proof {
        assert(doc@.header == cand.header);
        assert(doc@.metadata == cand.metadata);
        assert(doc@.tensors == cand.tensors);
        assert(doc@.data == cand.data);
        assert(doc@ == cand);
    }
    if inplace {
        Ok(WriteMode::InPlace)
    } else {
        Ok(WriteMode::Rewrite)
    }
}


// ---------------------------------------------------------------------------
// Request resolution against the table, and the loose-request entry point
// ---------------------------------------------------------------------------

/// Resolves one request against the table: against the existing entry's
/// variant when the key is present, to the kind's widest variant when it is
/// absent. A mismatch names the entry's tag and the request's nominal tag.
pub open spec fn spec_resolve_request(
    md: Seq<SpecEntry>,
    key: Seq<u8>,
    raw: SpecRequestValue,
) -> Result<SpecValue, (ValueTag, ValueTag)> {
    let i = spec_find_key(md, key);
    if i == md.len() {
        Ok(spec_resolve_default(raw))
    } else {
        let t = spec_value_tag(md[i].value);
        match spec_resolve(raw, t) {
            Some(v) => Ok(v),
            None => Err((t, spec_request_tag(raw))),
        }
    }
}

/// Resolves a whole request batch, fail-fast and in order, every request
/// against the table as it stood before the batch.
pub open spec fn spec_resolve_batch(
    md: Seq<SpecEntry>,
    reqs: Seq<(Seq<u8>, SpecRequestValue)>,
) -> Result<Seq<(Seq<u8>, SpecValue)>, (Seq<u8>, ValueTag, ValueTag)>
    decreases reqs.len(),
{
    if reqs.len() == 0 {
        Ok(Seq::<(Seq<u8>, SpecValue)>::empty())
    } else {
        match spec_resolve_request(md, reqs.first().0, reqs.first().1) {
            Ok(v) => match spec_resolve_batch(md, reqs.drop_first()) {
                Ok(rest) => Ok(seq![(reqs.first().0, v)] + rest),
                Err(e) => Err(e),
            },
            Err((e, a)) => Err((reqs.first().0, e, a)),
        }
    }
}

/// The nominal variant tag of a request value.
pub fn request_tag(raw: &RequestValue) -> (t: ValueTag)
    ensures
        t == spec_request_tag(raw@),
{
    match raw {
        RequestValue::UInt(_) => ValueTag::U64,
        RequestValue::Int(_) => ValueTag::I64,
        RequestValue::Float { .. } => ValueTag::F64,
        RequestValue::Bool(_) => ValueTag::Bool,
        RequestValue::Str(_) => ValueTag::Str,
    }
}

/// Resolves a request value against a target variant, following
/// [`spec_resolve`] exactly.
pub fn resolve_with_target(raw: &RequestValue, t: ValueTag) -> (r: Option<MetadataValue>)
    ensures
        r is Some <==> spec_resolve(raw@, t) is Some,
        r matches Some(v) ==> spec_resolve(raw@, t) == Some(v@),
{
    match raw {
        RequestValue::UInt(u) => {
            let u = *u;
            match t {
                ValueTag::U8 => if u <= u8::MAX as u64 {
                    Some(MetadataValue::Simple(crate::value::SimpleValue::U8(u as u8)))
                } else {
                    None
                },
                ValueTag::U16 => if u <= u16::MAX as u64 {
                    Some(MetadataValue::Simple(crate::value::SimpleValue::U16(u as u16)))
                } else {
                    None
                },
                ValueTag::U32 => if u <= u32::MAX as u64 {
                    Some(MetadataValue::Simple(crate::value::SimpleValue::U32(u as u32)))
                } else {
                    None
                },
                ValueTag::U64 => Some(MetadataValue::Simple(crate::value::SimpleValue::U64(u))),
                ValueTag::I8 => if u <= i8::MAX as u64 {
                    Some(MetadataValue::Simple(crate::value::SimpleValue::I8(u as i8)))
                } else {
                    None
                },
                ValueTag::I16 => if u <= i16::MAX as u64 {
                    Some(MetadataValue::Simple(crate::value::SimpleValue::I16(u as i16)))
                } else {
                    None
                },
                ValueTag::I32 => if u <= i32::MAX as u64 {
                    Some(MetadataValue::Simple(crate::value::SimpleValue::I32(u as i32)))
                } else {
                    None
                },
                ValueTag::I64 => if u <= i64::MAX as u64 {
                    Some(MetadataValue::Simple(crate::value::SimpleValue::I64(u as i64)))
                } else {
                    None
                },
                _ => None,
            }
        },
        RequestValue::Int(x) => {
            let x = *x;
            match t {
                ValueTag::I8 => if i8::MIN as i64 <= x && x <= i8::MAX as i64 {
                    Some(MetadataValue::Simple(crate::value::SimpleValue::I8(x as i8)))
                } else {
                    None
                },
                ValueTag::I16 => if i16::MIN as i64 <= x && x <= i16::MAX as i64 {
                    Some(MetadataValue::Simple(crate::value::SimpleValue::I16(x as i16)))
                } else {
                    None
                },
                ValueTag::I32 => if i32::MIN as i64 <= x && x <= i32::MAX as i64 {
                    Some(MetadataValue::Simple(crate::value::SimpleValue::I32(x as i32)))
                } else {
                    None
                },
                ValueTag::I64 => Some(MetadataValue::Simple(crate::value::SimpleValue::I64(x))),
                ValueTag::U8 => if 0 <= x && x <= u8::MAX as i64 {
                    Some(MetadataValue::Simple(crate::value::SimpleValue::U8(x as u8)))
                } else {
                    None
                },
                ValueTag::U16 => if 0 <= x && x <= u16::MAX as i64 {
                    Some(MetadataValue::Simple(crate::value::SimpleValue::U16(x as u16)))
                } else {
                    None
                },
                ValueTag::U32 => if 0 <= x && x <= u32::MAX as i64 {
                    Some(MetadataValue::Simple(crate::value::SimpleValue::U32(x as u32)))
                } else {
                    None
                },
                ValueTag::U64 => if 0 <= x {
                    Some(MetadataValue::Simple(crate::value::SimpleValue::U64(x as u64)))
                } else {
                    None
                },
                _ => None,
            }
        },
        RequestValue::Float { bits64, bits32 } => match t {
            ValueTag::F32 => Some(MetadataValue::Simple(crate::value::SimpleValue::F32(*bits32))),
            ValueTag::F64 => Some(MetadataValue::Simple(crate::value::SimpleValue::F64(*bits64))),
            _ => None,
        },
        RequestValue::Bool(b) => match t {
            ValueTag::Bool => Some(MetadataValue::Simple(crate::value::SimpleValue::Bool(*b))),
            _ => None,
        },
        RequestValue::Str(sv) => match t {
            ValueTag::Str => Some(
                MetadataValue::Simple(crate::value::SimpleValue::Str(clone_bytes(sv))),
            ),
            _ => None,
        },
    }
}

/// Resolves a request value for insertion, following
/// [`spec_resolve_default`] exactly.
pub fn resolve_default(raw: &RequestValue) -> (r: MetadataValue)
    ensures
        r@ == spec_resolve_default(raw@),
{
    match raw {
        RequestValue::UInt(u) => MetadataValue::Simple(crate::value::SimpleValue::U64(*u)),
        RequestValue::Int(x) => MetadataValue::Simple(crate::value::SimpleValue::I64(*x)),
        RequestValue::Float { bits64, .. } => MetadataValue::Simple(
            crate::value::SimpleValue::F64(*bits64),
        ),
        RequestValue::Bool(b) => MetadataValue::Simple(crate::value::SimpleValue::Bool(*b)),
        RequestValue::Str(sv) => MetadataValue::Simple(
            crate::value::SimpleValue::Str(clone_bytes(sv)),
        ),
    }
}

/// Resolves one request against the current table, following
/// [`spec_resolve_request`] exactly.
pub fn resolve_request(
    metadata: &Vec<MetadataEntry>,
    key: &Vec<u8>,
    raw: &RequestValue,
) -> (r: Result<MetadataValue, (ValueTag, ValueTag)>)
    ensures
        ({
            let m = spec_resolve_request(spec_entries_view(metadata@), key@, raw@);
            match r {
                Ok(v) => m == Ok::<SpecValue, (ValueTag, ValueTag)>(v@),
                Err((e, a)) => m == Err::<SpecValue, (ValueTag, ValueTag)>((e, a)),
            }
        }),
{
    let ghost mdv = spec_entries_view(metadata@);
    proof {
        lemma_find_key(mdv, key@);
    }
    let n = metadata.len();
    let mut i: usize = 0;
    while i < n
        invariant
            n == metadata@.len(),
            mdv == spec_entries_view(metadata@),
            i <= n,
            forall|j: int| 0 <= j < i ==> #[trigger] mdv[j].key != key@,
        decreases n - i,
    {
        if bytes_eq(&metadata[i].key, key) {
            proof {
                assert(mdv[i as int].key == metadata@[i as int]@.key);
                lemma_find_key(mdv, key@);
                assert(spec_find_key(mdv, key@) == i);
                assert(mdv[i as int].value == metadata@[i as int]@.value);
            }
            let t = value_tag(&metadata[i].value);
            return match resolve_with_target(raw, t) {
                Some(v) => Ok(v),
                None => Err((t, request_tag(raw))),
            };
        }
        proof {
            assert(mdv[i as int].key == metadata@[i as int]@.key);
        }
        i = i + 1;
    }
    proof {
        lemma_find_key(mdv, key@);
        assert(spec_find_key(mdv, key@) == n);
    }
    Ok(resolve_default(raw))
}

/// Applies a batch of loosely typed requests: resolves every request against
/// the table as it stood before the batch (type inference against the
/// existing entry, never a coercion between kinds), then applies the
/// resolved batch as [`apply_updates`] does. Fail-fast: the first request
/// that cannot be resolved, or whose resolved value mismatches during
/// application, rejects the whole batch with `TypeMismatch`, and on every
/// error path the document is exactly as it was.
pub fn update_metadata(doc: &mut Document, requests: &Vec<UpdateRequest>) -> (r: Result<
    WriteMode,
    GGUFError,
>)
    ensures
        (spec_resolve_batch(old(doc)@.metadata, spec_requests_view(requests@)) matches Err(
            (k, e, a),
        ) ==> *final(doc) == *old(doc) && (r matches Err(GGUFError::TypeMismatch {
            key,
            expected,
            actual,
        }) && key@ == k && expected == spec_tag_byte(e) && actual == spec_tag_byte(a))),
        (spec_resolve_batch(old(doc)@.metadata, spec_requests_view(requests@)) matches Ok(batch)
            ==> spec_apply_outcome(old(doc)@, batch, final(doc)@, r)),
        r is Err ==> *final(doc) == *old(doc),
{
    let ghost m0 = doc@.metadata;
    let ghost reqsv = spec_requests_view(requests@);
    let mut resolved: Vec<ResolvedUpdate> = Vec::new();
    proof {
        assert(reqsv.skip(0) =~= reqsv);
        assert(spec_updates_view(resolved@) =~= Seq::<(Seq<u8>, SpecValue)>::empty());
    }
    let n = requests.len();
    let mut i: usize = 0;
    while i < n
        invariant
            n == requests@.len(),
            i <= n,
            m0 == doc@.metadata,
            *doc == *old(doc),
            reqsv == spec_requests_view(requests@),
            forall|j: int|
                0 <= j < resolved@.len() ==> crate::value::spec_value_wf(
                    #[trigger] resolved@[j].value@,
                ),
            spec_resolve_batch(m0, reqsv) == (match spec_resolve_batch(
                m0,
                reqsv.skip(i as int),
            ) {
                Ok(rest) => Ok::<Seq<(Seq<u8>, SpecValue)>, (Seq<u8>, ValueTag, ValueTag)>(
                    spec_updates_view(resolved@) + rest,
                ),
                Err(e) => Err(e),
            }),
        decreases n - i,
    {
        let ghost res_pre = spec_updates_view(resolved@);
        proof {
            assert(reqsv.skip(i as int).first() == reqsv[i as int]);
            assert(reqsv.skip(i as int).drop_first() =~= reqsv.skip(i + 1 as int));
            assert(reqsv[i as int] == (requests@[i as int].key@, requests@[i as int].value@));
        }
        match resolve_request(&doc.metadata, &requests[i].key, &requests[i].value) {
            Ok(v) => {
                proof {
                    assert(crate::value::spec_value_wf(v@));
                }
                let up = ResolvedUpdate { key: clone_bytes(&requests[i].key), value: v };
                let ghost vview = v@;
                resolved.push(up);
                proof {
                    assert(spec_updates_view(resolved@) =~= res_pre + seq![
                        (requests@[i as int].key@, vview),
                    ]);
                    assert forall|rest: Seq<(Seq<u8>, SpecValue)>| true implies res_pre + (seq![
                        (requests@[i as int].key@, vview),
                    ] + rest) =~= spec_updates_view(resolved@) + rest by {
                        assert(res_pre + (seq![(requests@[i as int].key@, vview)] + rest) =~= (
                        res_pre + seq![(requests@[i as int].key@, vview)]) + rest);
                    }
                }
                i = i + 1;
            },
            Err((e, a)) => {
                proof {
                    assert(spec_resolve_batch(m0, reqsv) == Err::<
                        Seq<(Seq<u8>, SpecValue)>,
                        (Seq<u8>, ValueTag, ValueTag),
                    >((requests@[i as int].key@, e, a)));
                }
                return Err(
                    GGUFError::TypeMismatch {
                        key: clone_bytes(&requests[i].key),
                        expected: crate::value::tag_byte(e),
                        actual: crate::value::tag_byte(a),
                    },
                );
            },
        }
    }
    proof {
        assert(reqsv.skip(n as int) =~= Seq::<(Seq<u8>, SpecRequestValue)>::empty());
        assert(spec_updates_view(resolved@) + Seq::<(Seq<u8>, SpecValue)>::empty()
            =~= spec_updates_view(resolved@));
        assert(spec_resolve_batch(m0, reqsv) == Ok::<
            Seq<(Seq<u8>, SpecValue)>,
            (Seq<u8>, ValueTag, ValueTag),
        >(spec_updates_view(resolved@)));
    }
    apply_updates(doc, &resolved)
}

} // verus!
