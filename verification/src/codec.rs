//! Byte-level codec for metadata values.
//!
//! All multi-byte fields are little-endian. A non-array value is written as
//! its fixed-width payload, a string as a 64-bit length prefix followed by
//! that many raw bytes, and an array as a one-byte element tag, a 64-bit
//! element count, and the elements' encodings in order. The spec decoder
//! [`spec_dec_value`] is the exact model of the executable decoder, and
//! [`lemma_dec_value_sound`] shows that whatever it accepts re-encodes to
//! precisely the bytes it consumed.

use vstd::prelude::*;
use vstd::bytes::*;
use crate::value::{
    MetadataValue, SimpleValue, SpecSimpleValue, SpecValue, ValueTag, clone_bytes,
    spec_simple_tag, spec_tag_byte, spec_tag_of_byte, spec_value_tag, spec_value_wf, tag_byte,
    tag_of_byte,
};
use crate::error::GGUFError;

verus! {

// ---------------------------------------------------------------------------
// Spec-level encoding
// ---------------------------------------------------------------------------

/// The encoding of a non-array value (without its type tag).
pub open spec fn spec_enc_simple(v: SpecSimpleValue) -> Seq<u8> {
    match v {
        SpecSimpleValue::U8(x) => seq![x],
        SpecSimpleValue::I8(x) => seq![x as u8],
        SpecSimpleValue::U16(x) => spec_u16_to_le_bytes(x),
        SpecSimpleValue::I16(x) => spec_u16_to_le_bytes(x as u16),
        SpecSimpleValue::U32(x) => spec_u32_to_le_bytes(x),
        SpecSimpleValue::I32(x) => spec_u32_to_le_bytes(x as u32),
        SpecSimpleValue::F32(b) => spec_u32_to_le_bytes(b),
        SpecSimpleValue::Bool(b) => seq![if b { 1u8 } else { 0u8 }],
        SpecSimpleValue::Str(s) => spec_u64_to_le_bytes(s.len() as u64) + s,
        SpecSimpleValue::U64(x) => spec_u64_to_le_bytes(x),
        SpecSimpleValue::I64(x) => spec_u64_to_le_bytes(x as u64),
        SpecSimpleValue::F64(b) => spec_u64_to_le_bytes(b),
    }
}

/// The concatenated encodings of a run of array elements, in order.
pub open spec fn spec_enc_elems(els: Seq<SpecSimpleValue>) -> Seq<u8>
    decreases els.len(),
{
    if els.len() == 0 {
        Seq::<u8>::empty()
    } else {
        spec_enc_simple(els.first()) + spec_enc_elems(els.drop_first())
    }
}

/// The encoding of a metadata value (without its outer type tag): an array
/// adds its element tag byte and element count prefix.
pub open spec fn spec_enc_value(v: SpecValue) -> Seq<u8> {
    match v {
        SpecValue::Simple(s) => spec_enc_simple(s),
        SpecValue::Arr(t, els) => seq![spec_tag_byte(t)] + spec_u64_to_le_bytes(
            els.len() as u64,
        ) + spec_enc_elems(els),
    }
}

/// A one-element run encodes as that element alone.
pub proof fn lemma_enc_elems_singleton(x: SpecSimpleValue)
    ensures
        spec_enc_elems(seq![x]) == spec_enc_simple(x),
{
    assert(seq![x].first() == x);
    assert(seq![x].drop_first() =~= Seq::<SpecSimpleValue>::empty());
    assert(spec_enc_elems(Seq::<SpecSimpleValue>::empty()) == Seq::<u8>::empty());
    assert(spec_enc_simple(x) + Seq::<u8>::empty() =~= spec_enc_simple(x));
}

/// Concatenating element runs concatenates their encodings.
pub proof fn lemma_enc_elems_append(a: Seq<SpecSimpleValue>, b: Seq<SpecSimpleValue>)
    ensures
        spec_enc_elems(a + b) == spec_enc_elems(a) + spec_enc_elems(b),
    decreases a.len(),
{
    if a.len() == 0 {
        assert(a + b =~= b);
        assert(spec_enc_elems(a) + spec_enc_elems(b) =~= spec_enc_elems(b));
    } else {
        assert((a + b).first() == a.first());
        assert((a + b).drop_first() =~= a.drop_first() + b);
        lemma_enc_elems_append(a.drop_first(), b);
        assert(spec_enc_simple(a.first()) + (spec_enc_elems(a.drop_first()) + spec_enc_elems(b))
            =~= (spec_enc_simple(a.first()) + spec_enc_elems(a.drop_first())) + spec_enc_elems(b));
    }
}

// ---------------------------------------------------------------------------
// Spec-level decoding
// ---------------------------------------------------------------------------

/// Decodes a non-array value of tag `t` at byte offset `pos`: the decoded
/// value and the offset just past it, or `None` for a truncated or malformed
/// encoding. The model of the executable decoder.
pub open spec fn spec_dec_simple(bytes: Seq<u8>, pos: int, t: ValueTag) -> Option<
    (SpecSimpleValue, int),
> {
    let len = bytes.len() as int;
    match t {
        ValueTag::U8 => if pos + 1 <= len {
            Some((SpecSimpleValue::U8(bytes[pos]), pos + 1))
        } else {
            None
        },
        ValueTag::I8 => if pos + 1 <= len {
            Some((SpecSimpleValue::I8(bytes[pos] as i8), pos + 1))
        } else {
            None
        },
        ValueTag::U16 => if pos + 2 <= len {
            Some(
                (SpecSimpleValue::U16(spec_u16_from_le_bytes(bytes.subrange(pos, pos + 2))), pos
                    + 2),
            )
        } else {
            None
        },
        ValueTag::I16 => if pos + 2 <= len {
            Some(
                (
                    SpecSimpleValue::I16(
                        spec_u16_from_le_bytes(bytes.subrange(pos, pos + 2)) as i16,
                    ),
                    pos + 2,
                ),
            )
        } else {
            None
        },
        ValueTag::U32 => if pos + 4 <= len {
            Some(
                (SpecSimpleValue::U32(spec_u32_from_le_bytes(bytes.subrange(pos, pos + 4))), pos
                    + 4),
            )
        } else {
            None
        },
        ValueTag::I32 => if pos + 4 <= len {
            Some(
                (
                    SpecSimpleValue::I32(
                        spec_u32_from_le_bytes(bytes.subrange(pos, pos + 4)) as i32,
                    ),
                    pos + 4,
                ),
            )
        } else {
            None
        },
        ValueTag::F32 => if pos + 4 <= len {
            Some(
                (SpecSimpleValue::F32(spec_u32_from_le_bytes(bytes.subrange(pos, pos + 4))), pos
                    + 4),
            )
        } else {
            None
        },
        ValueTag::Bool => if pos + 1 <= len {
            if bytes[pos] == 0 {
                Some((SpecSimpleValue::Bool(false), pos + 1))
            } else if bytes[pos] == 1 {
                Some((SpecSimpleValue::Bool(true), pos + 1))
            } else {
                None
            }
        } else {
            None
        },
        ValueTag::Str => if pos + 8 <= len {
            let n = spec_u64_from_le_bytes(bytes.subrange(pos, pos + 8)) as int;
            if pos + 8 + n <= len {
                Some((SpecSimpleValue::Str(bytes.subrange(pos + 8, pos + 8 + n)), pos + 8 + n))
            } else {
                None
            }
        } else {
            None
        },
        ValueTag::Arr => None,
        ValueTag::U64 => if pos + 8 <= len {
            Some(
                (SpecSimpleValue::U64(spec_u64_from_le_bytes(bytes.subrange(pos, pos + 8))), pos
                    + 8),
            )
        } else {
            None
        },
        ValueTag::I64 => if pos + 8 <= len {
            Some(
                (
                    SpecSimpleValue::I64(
                        spec_u64_from_le_bytes(bytes.subrange(pos, pos + 8)) as i64,
                    ),
                    pos + 8,
                ),
            )
        } else {
            None
        },
        ValueTag::F64 => if pos + 8 <= len {
            Some(
                (SpecSimpleValue::F64(spec_u64_from_le_bytes(bytes.subrange(pos, pos + 8))), pos
                    + 8),
            )
        } else {
            None
        },
    }
}

/// Decodes `n` consecutive elements of tag `t` starting at `pos`.
pub open spec fn spec_dec_elems(bytes: Seq<u8>, pos: int, t: ValueTag, n: nat) -> Option<
    (Seq<SpecSimpleValue>, int),
>
    decreases n,
{
    if n == 0 {
        Some((Seq::<SpecSimpleValue>::empty(), pos))
    } else {
        match spec_dec_simple(bytes, pos, t) {
            Some((v, p1)) => match spec_dec_elems(bytes, p1, t, (n - 1) as nat) {
                Some((rest, end)) => Some((seq![v] + rest, end)),
                None => None,
            },
            None => None,
        }
    }
}

/// Decodes a metadata value of (outer) tag `t` at `pos`: the model of the
/// executable decoder. `None` stands for a truncated or malformed encoding,
/// an unknown element tag byte, or an array nested inside an array.
pub open spec fn spec_dec_value(bytes: Seq<u8>, pos: int, t: ValueTag) -> Option<
    (SpecValue, int),
> {
    let len = bytes.len() as int;
    if t == ValueTag::Arr {
        if pos + 9 <= len {
            match spec_tag_of_byte(bytes[pos]) {
                Some(et) => if et != ValueTag::Arr {
                    let n = spec_u64_from_le_bytes(bytes.subrange(pos + 1, pos + 9));
                    match spec_dec_elems(bytes, pos + 9, et, n as nat) {
                        Some((els, end)) => Some((SpecValue::Arr(et, els), end)),
                        None => None,
                    }
                } else {
                    None
                },
                None => None,
            }
        } else {
            None
        }
    } else {
        match spec_dec_simple(bytes, pos, t) {
            Some((v, end)) => Some((SpecValue::Simple(v), end)),
            None => None,
        }
    }
}

// ---------------------------------------------------------------------------
// Cast round trips for the signed variants
// ---------------------------------------------------------------------------

proof fn lemma_i8_casts(b: u8, x: i8)
    by (bit_vector)
    ensures
        (b as i8) as u8 == b,
        (x as u8) as i8 == x,
{
}

proof fn lemma_i16_casts(b: u16, x: i16)
    by (bit_vector)
    ensures
        (b as i16) as u16 == b,
        (x as u16) as i16 == x,
{
}

proof fn lemma_i32_casts(b: u32, x: i32)
    by (bit_vector)
    ensures
        (b as i32) as u32 == b,
        (x as u32) as i32 == x,
{
}

proof fn lemma_i64_casts(b: u64, x: i64)
    by (bit_vector)
    ensures
        (b as i64) as u64 == b,
        (x as u64) as i64 == x,
{
}

/// A tag byte the decoder recognises is the byte its tag is written as.
pub proof fn lemma_byte_of_tag(b: u8, t: ValueTag)
    requires
        spec_tag_of_byte(b) == Some(t),
    ensures
        spec_tag_byte(t) == b,
{
}

// ---------------------------------------------------------------------------
// Soundness: whatever decodes re-encodes to the consumed bytes
// ---------------------------------------------------------------------------

/// A decoded non-array value carries the requested tag and re-encodes to
/// exactly the bytes the decoder consumed.
pub proof fn lemma_dec_simple_sound(bytes: Seq<u8>, pos: int, t: ValueTag)
    requires
        0 <= pos,
        spec_dec_simple(bytes, pos, t) is Some,
    ensures
        ({
            let (v, end) = spec_dec_simple(bytes, pos, t).unwrap();
            &&& pos < end <= bytes.len()
            &&& spec_simple_tag(v) == t
            &&& spec_enc_simple(v) == bytes.subrange(pos, end)
        }),
{
    let (v, end) = spec_dec_simple(bytes, pos, t).unwrap();
    lemma_auto_spec_u16_to_from_le_bytes();
    lemma_auto_spec_u32_to_from_le_bytes();
    lemma_auto_spec_u64_to_from_le_bytes();
    match t {
        ValueTag::U8 => {
            assert(spec_enc_simple(v) =~= bytes.subrange(pos, end));
        },
        ValueTag::I8 => {
            lemma_i8_casts(bytes[pos], 0);
            assert(spec_enc_simple(v) =~= bytes.subrange(pos, end));
        },
        ValueTag::Bool => {
            assert(spec_enc_simple(v) =~= bytes.subrange(pos, end));
        },
        ValueTag::U16 => {
            assert(spec_enc_simple(v) == bytes.subrange(pos, end));
        },
        ValueTag::I16 => {
            lemma_i16_casts(spec_u16_from_le_bytes(bytes.subrange(pos, pos + 2)), 0);
            assert(spec_enc_simple(v) == bytes.subrange(pos, end));
        },
        ValueTag::U32 => {
            assert(spec_enc_simple(v) == bytes.subrange(pos, end));
        },
        ValueTag::I32 => {
            lemma_i32_casts(spec_u32_from_le_bytes(bytes.subrange(pos, pos + 4)), 0);
            assert(spec_enc_simple(v) == bytes.subrange(pos, end));
        },
        ValueTag::F32 => {
            assert(spec_enc_simple(v) == bytes.subrange(pos, end));
        },
        ValueTag::Str => {
            let n = spec_u64_from_le_bytes(bytes.subrange(pos, pos + 8)) as int;
            let s = bytes.subrange(pos + 8, pos + 8 + n);
            assert(s.len() == n);
            assert(spec_u64_to_le_bytes(s.len() as u64) == bytes.subrange(pos, pos + 8));
            assert(spec_enc_simple(v) =~= bytes.subrange(pos, end));
        },
        ValueTag::Arr => {
            assert(false);
        },
        ValueTag::U64 => {
            assert(spec_enc_simple(v) == bytes.subrange(pos, end));
        },
        ValueTag::I64 => {
            lemma_i64_casts(spec_u64_from_le_bytes(bytes.subrange(pos, pos + 8)), 0);
            assert(spec_enc_simple(v) == bytes.subrange(pos, end));
        },
        ValueTag::F64 => {
            assert(spec_enc_simple(v) == bytes.subrange(pos, end));
        },
    }
}

/// A decoded element run has the requested length and tags and re-encodes to
/// exactly the bytes the decoder consumed.
pub proof fn lemma_dec_elems_sound(bytes: Seq<u8>, pos: int, t: ValueTag, n: nat)
    requires
        0 <= pos <= bytes.len(),
        spec_dec_elems(bytes, pos, t, n) is Some,
    ensures
        ({
            let (els, end) = spec_dec_elems(bytes, pos, t, n).unwrap();
            &&& pos <= end <= bytes.len()
            &&& els.len() == n
            &&& forall|i: int| 0 <= i < els.len() ==> spec_simple_tag(#[trigger] els[i]) == t
            &&& spec_enc_elems(els) == bytes.subrange(pos, end)
        }),
    decreases n,
{
    if n == 0 {
        assert(spec_enc_elems(Seq::<SpecSimpleValue>::empty()) =~= bytes.subrange(pos, pos));
    } else {
        let (v, p1) = spec_dec_simple(bytes, pos, t).unwrap();
        lemma_dec_simple_sound(bytes, pos, t);
        lemma_dec_elems_sound(bytes, p1, t, (n - 1) as nat);
        let (rest, end) = spec_dec_elems(bytes, p1, t, (n - 1) as nat).unwrap();
        let els = seq![v] + rest;
        assert(els.first() == v);
        assert(els.drop_first() =~= rest);
        assert(spec_enc_elems(els) == spec_enc_simple(v) + spec_enc_elems(rest));
        assert(spec_enc_simple(v) + spec_enc_elems(rest) =~= bytes.subrange(pos, p1)
            + bytes.subrange(p1, end));
        assert(bytes.subrange(pos, p1) + bytes.subrange(p1, end) =~= bytes.subrange(pos, end));
    }
}

/// A decoded metadata value is well formed, carries the requested tag, and
/// re-encodes to exactly the bytes the decoder consumed.
pub proof fn lemma_dec_value_sound(bytes: Seq<u8>, pos: int, t: ValueTag)
    requires
        0 <= pos,
        spec_dec_value(bytes, pos, t) is Some,
    ensures
        ({
            let (v, end) = spec_dec_value(bytes, pos, t).unwrap();
            &&& pos < end <= bytes.len()
            &&& spec_value_tag(v) == t
            &&& spec_value_wf(v)
            &&& spec_enc_value(v) == bytes.subrange(pos, end)
        }),
{
    if t == ValueTag::Arr {
        let et = spec_tag_of_byte(bytes[pos]).unwrap();
        let n = spec_u64_from_le_bytes(bytes.subrange(pos + 1, pos + 9));
        let (els, end) = spec_dec_elems(bytes, pos + 9, et, n as nat).unwrap();
        lemma_dec_elems_sound(bytes, pos + 9, et, n as nat);
        lemma_byte_of_tag(bytes[pos], et);
        lemma_auto_spec_u64_to_from_le_bytes();
        assert(els.len() as u64 == n);
        assert(spec_u64_to_le_bytes(n) == bytes.subrange(pos + 1, pos + 9));
        let v = SpecValue::Arr(et, els);
        assert(spec_enc_value(v) == seq![bytes[pos]] + bytes.subrange(pos + 1, pos + 9)
            + spec_enc_elems(els));
        assert(seq![bytes[pos]] + bytes.subrange(pos + 1, pos + 9) + bytes.subrange(
            pos + 9,
            end,
        ) =~= bytes.subrange(pos, end));
    } else {
        lemma_dec_simple_sound(bytes, pos, t);
    }
}

// ---------------------------------------------------------------------------
// Executable encoding
// ---------------------------------------------------------------------------

/// Copies the subrange `[i, j)` of a byte vector.
pub fn bytes_subrange(v: &Vec<u8>, i: usize, j: usize) -> (r: Vec<u8>)
    requires
        i <= j <= v@.len(),
    ensures
        r@ == v@.subrange(i as int, j as int),
{
    let mut out: Vec<u8> = Vec::new();
    let mut k: usize = i;
    while k < j
        invariant
            i <= k <= j <= v@.len(),
            out@ == v@.subrange(i as int, k as int),
        decreases j - k,
    {
        out.push(v[k]);
        assert(out@ =~= v@.subrange(i as int, k + 1 as int));
        k = k + 1;
    }
    out
}

/// Appends the encoding of a non-array value.
pub fn encode_simple(v: &SimpleValue, out: &mut Vec<u8>)
    ensures
        final(out)@ == old(out)@ + spec_enc_simple(v@),
{
    match v {
        SimpleValue::U8(x) => {
            out.push(*x);
            assert(final(out)@ =~= old(out)@ + spec_enc_simple(v@));
        },
        SimpleValue::I8(x) => {
            out.push(*x as u8);
            assert(final(out)@ =~= old(out)@ + spec_enc_simple(v@));
        },
        SimpleValue::U16(x) => {
            let mut b = u16_to_le_bytes(*x);
            out.append(&mut b);
        },
        SimpleValue::I16(x) => {
            let mut b = u16_to_le_bytes(*x as u16);
            out.append(&mut b);
        },
        SimpleValue::U32(x) => {
            let mut b = u32_to_le_bytes(*x);
            out.append(&mut b);
        },
        SimpleValue::I32(x) => {
            let mut b = u32_to_le_bytes(*x as u32);
            out.append(&mut b);
        },
        SimpleValue::F32(x) => {
            let mut b = u32_to_le_bytes(*x);
            out.append(&mut b);
        },
        SimpleValue::Bool(x) => {
            out.push(if *x { 1 } else { 0 });
            assert(final(out)@ =~= old(out)@ + spec_enc_simple(v@));
        },
        SimpleValue::Str(s) => {
            let mut b = u64_to_le_bytes(s.len() as u64);
            out.append(&mut b);
            let mut c = clone_bytes(s);
            out.append(&mut c);
            assert(final(out)@ =~= old(out)@ + spec_enc_simple(v@));
        },
        SimpleValue::U64(x) => {
            let mut b = u64_to_le_bytes(*x);
            out.append(&mut b);
        },
        SimpleValue::I64(x) => {
            let mut b = u64_to_le_bytes(*x as u64);
            out.append(&mut b);
        },
        SimpleValue::F64(x) => {
            let mut b = u64_to_le_bytes(*x);
            out.append(&mut b);
        },
    }
}

/// Appends the encoding of a metadata value (without its outer type tag).
pub fn encode_value(v: &MetadataValue, out: &mut Vec<u8>)
    ensures
        final(out)@ == old(out)@ + spec_enc_value(v@),
{
    match v {
        MetadataValue::Simple(s) => {
            encode_simple(s, out);
        },
        MetadataValue::Arr(t, els) => {
            let ghost elsv = Seq::new(els@.len(), |i: int| els@[i]@);
            out.push(tag_byte(*t));
            let mut b = u64_to_le_bytes(els.len() as u64);
            out.append(&mut b);
            let ghost prefix = out@;
            let n = els.len();
            let mut i: usize = 0;
            while i < n
                invariant
                    n == els@.len(),
                    i <= n,
                    elsv == Seq::new(els@.len(), |k: int| els@[k]@),
                    out@ == prefix + spec_enc_elems(elsv.take(i as int)),
                decreases n - i,
            {
                let ghost before = out@;
                encode_simple(&els[i], out);
                proof {
                    assert(elsv.take(i + 1 as int) =~= elsv.take(i as int) + seq![elsv[i as int]]);
                    lemma_enc_elems_append(elsv.take(i as int), seq![elsv[i as int]]);
                    lemma_enc_elems_singleton(elsv[i as int]);
                    assert(elsv[i as int] == els@[i as int]@);
                    assert(out@ =~= prefix + spec_enc_elems(elsv.take(i + 1 as int)));
                }
                i = i + 1;
            }
            proof {
                assert(elsv.take(n as int) =~= elsv);
                assert(v@ == SpecValue::Arr(*t, elsv));
                assert(out@ =~= old(out)@ + spec_enc_value(v@));
            }
        },
    }
}

// ---------------------------------------------------------------------------
// Executable decoding
// ---------------------------------------------------------------------------

/// Decodes a non-array value of tag `t` at offset `pos`, following
/// [`spec_dec_simple`] exactly: `Ok` with the value and the offset just past
/// it when the model accepts, `CorruptValue` when it rejects.
pub fn decode_simple(bytes: &Vec<u8>, pos: usize, t: ValueTag) -> (r: Result<
    (SimpleValue, usize),
    GGUFError,
>)
    requires
        pos <= bytes@.len(),
    ensures
        r matches Ok((v, end)) ==> spec_dec_simple(bytes@, pos as int, t) == Some(
            (v@, end as int),
        ) && pos < end <= bytes@.len(),
        r is Err ==> spec_dec_simple(bytes@, pos as int, t) is None && (r matches Err(
            GGUFError::CorruptValue(_),
        )),
{
    let len = bytes.len();
    match t {
        ValueTag::U8 => {
            if len - pos < 1 {
                return Err(GGUFError::CorruptValue(pos as u64));
            }
            Ok((SimpleValue::U8(bytes[pos]), pos + 1))
        },
        ValueTag::I8 => {
            if len - pos < 1 {
                return Err(GGUFError::CorruptValue(pos as u64));
            }
            Ok((SimpleValue::I8(bytes[pos] as i8), pos + 1))
        },
        ValueTag::U16 => {
            if len - pos < 2 {
                return Err(GGUFError::CorruptValue(pos as u64));
            }
            let x = u16_from_le_bytes(vstd::slice::slice_subrange(
                bytes.as_slice(),
                pos,
                pos + 2,
            ));
            Ok((SimpleValue::U16(x), pos + 2))
        },
        ValueTag::I16 => {
            if len - pos < 2 {
                return Err(GGUFError::CorruptValue(pos as u64));
            }
            let x = u16_from_le_bytes(vstd::slice::slice_subrange(
                bytes.as_slice(),
                pos,
                pos + 2,
            ));
            Ok((SimpleValue::I16(x as i16), pos + 2))
        },
        ValueTag::U32 => {
            if len - pos < 4 {
                return Err(GGUFError::CorruptValue(pos as u64));
            }
            let x = u32_from_le_bytes(vstd::slice::slice_subrange(
                bytes.as_slice(),
                pos,
                pos + 4,
            ));
            Ok((SimpleValue::U32(x), pos + 4))
        },
        ValueTag::I32 => {
            if len - pos < 4 {
                return Err(GGUFError::CorruptValue(pos as u64));
            }
            let x = u32_from_le_bytes(vstd::slice::slice_subrange(
                bytes.as_slice(),
                pos,
                pos + 4,
            ));
            Ok((SimpleValue::I32(x as i32), pos + 4))
        },
        ValueTag::F32 => {
            if len - pos < 4 {
                return Err(GGUFError::CorruptValue(pos as u64));
            }
            let x = u32_from_le_bytes(vstd::slice::slice_subrange(
                bytes.as_slice(),
                pos,
                pos + 4,
            ));
            Ok((SimpleValue::F32(x), pos + 4))
        },
        ValueTag::Bool => {
            if len - pos < 1 {
                return Err(GGUFError::CorruptValue(pos as u64));
            }
            let b = bytes[pos];
            if b == 0 {
                Ok((SimpleValue::Bool(false), pos + 1))
            } else if b == 1 {
                Ok((SimpleValue::Bool(true), pos + 1))
            } else {
                Err(GGUFError::CorruptValue(pos as u64))
            }
        },
        ValueTag::Str => {
            if len - pos < 8 {
                return Err(GGUFError::CorruptValue(pos as u64));
            }
            let n = u64_from_le_bytes(vstd::slice::slice_subrange(
                bytes.as_slice(),
                pos,
                pos + 8,
            ));
            if n > (len - pos - 8) as u64 {
                return Err(GGUFError::CorruptValue(pos as u64));
            }
            let end = pos + 8 + n as usize;
            let s = bytes_subrange(bytes, pos + 8, end);
            Ok((SimpleValue::Str(s), end))
        },
        ValueTag::Arr => Err(GGUFError::CorruptValue(pos as u64)),
        ValueTag::U64 => {
            if len - pos < 8 {
                return Err(GGUFError::CorruptValue(pos as u64));
            }
            let x = u64_from_le_bytes(vstd::slice::slice_subrange(
                bytes.as_slice(),
                pos,
                pos + 8,
            ));
            Ok((SimpleValue::U64(x), pos + 8))
        },
        ValueTag::I64 => {
            if len - pos < 8 {
                return Err(GGUFError::CorruptValue(pos as u64));
            }
            let x = u64_from_le_bytes(vstd::slice::slice_subrange(
                bytes.as_slice(),
                pos,
                pos + 8,
            ));
            Ok((SimpleValue::I64(x as i64), pos + 8))
        },
        ValueTag::F64 => {
            if len - pos < 8 {
                return Err(GGUFError::CorruptValue(pos as u64));
            }
            let x = u64_from_le_bytes(vstd::slice::slice_subrange(
                bytes.as_slice(),
                pos,
                pos + 8,
            ));
            Ok((SimpleValue::F64(x), pos + 8))
        },
    }
}

/// Decodes a metadata value of (outer) tag `t` at offset `pos`, following
/// [`spec_dec_value`] exactly.
pub fn decode_value(bytes: &Vec<u8>, pos: usize, t: ValueTag) -> (r: Result<
    (MetadataValue, usize),
    GGUFError,
>)
    requires
        pos <= bytes@.len(),
    ensures
        r matches Ok((v, end)) ==> spec_dec_value(bytes@, pos as int, t) == Some(
            (v@, end as int),
        ) && pos < end <= bytes@.len(),
        r is Err ==> spec_dec_value(bytes@, pos as int, t) is None && (r matches Err(
            GGUFError::CorruptValue(_),
        )),
{
    let len = bytes.len();
    if t == ValueTag::Arr {
        if len - pos < 9 {
            return Err(GGUFError::CorruptValue(pos as u64));
        }
        let et = match tag_of_byte(bytes[pos]) {
            Some(et) => et,
            None => {
                return Err(GGUFError::CorruptValue(pos as u64));
            },
        };
        if et == ValueTag::Arr {
            return Err(GGUFError::CorruptValue(pos as u64));
        }
        let n = u64_from_le_bytes(vstd::slice::slice_subrange(
            bytes.as_slice(),
            pos + 1,
            pos + 9,
        ));
        let ghost pos0 = pos + 9 as int;
        let mut cur: usize = pos + 9;
        let mut out: Vec<SimpleValue> = Vec::new();
        let mut k: u64 = 0;
        while k < n
            invariant
                pos0 == pos + 9,
                pos + 9 <= bytes@.len(),
                t == ValueTag::Arr,
                spec_tag_of_byte(bytes@[pos as int]) == Some(et),
                et != ValueTag::Arr,
                n == spec_u64_from_le_bytes(bytes@.subrange(pos as int + 1, pos as int + 9)),
                pos0 <= cur <= bytes@.len(),
                k <= n,
                out@.len() == k,
                spec_dec_elems(bytes@, pos0, et, n as nat) == (match spec_dec_elems(
                    bytes@,
                    cur as int,
                    et,
                    (n - k) as nat,
                ) {
                    Some((rest, e)) => Some(
                        (Seq::new(out@.len(), |i: int| out@[i]@) + rest, e),
                    ),
                    None => None,
                }),
            decreases n - k,
        {
            let ghost out_pre = Seq::new(out@.len(), |i: int| out@[i]@);
            match decode_simple(bytes, cur, et) {
                Ok((v, next)) => {
                    proof {
                        assert(spec_dec_simple(bytes@, cur as int, et) == Some(
                            (v@, next as int),
                        ));
                    }
                    out.push(v);
                    proof {
                        let out_post = Seq::new(out@.len(), |i: int| out@[i]@);
                        assert(out_post =~= out_pre + seq![v@]);
                        assert forall|rest: Seq<SpecSimpleValue>| true implies out_pre + (
                        seq![v@] + rest) =~= out_post + rest by {
                            assert(out_pre + (seq![v@] + rest) =~= (out_pre + seq![v@]) + rest);
                        }
                    }
                    cur = next;
                    k = k + 1;
                },
                Err(e) => {
                    proof {
                        assert(spec_dec_simple(bytes@, cur as int, et) is None);
                        assert(spec_dec_elems(bytes@, cur as int, et, (n - k) as nat) is None);
                    }
                    return Err(e);
                },
            }
        }
        proof {
            assert(spec_dec_elems(bytes@, cur as int, et, 0) == Some(
                (Seq::<SpecSimpleValue>::empty(), cur as int),
            ));
            let outv = Seq::new(out@.len(), |i: int| out@[i]@);
            assert(outv + Seq::<SpecSimpleValue>::empty() =~= outv);
        }
        let val = MetadataValue::Arr(et, out);
        proof {
            assert(val@ == SpecValue::Arr(et, Seq::new(out@.len(), |i: int| out@[i]@)));
        }
        Ok((val, cur))
    } else {
        match decode_simple(bytes, pos, t) {
            Ok((v, end)) => Ok((MetadataValue::Simple(v), end)),
            Err(e) => Err(e),
        }
    }
}


// ---------------------------------------------------------------------------
// Losslessness: whatever encodes decodes back to the same value
// ---------------------------------------------------------------------------

/// Reading back the byte a tag was written as yields that same tag.
pub proof fn lemma_tag_byte_roundtrip(t: ValueTag)
    ensures
        spec_tag_of_byte(spec_tag_byte(t)) == Some(t),
{
}

/// A non-array value whose encoding the format can carry: a string fits its
/// 64-bit length prefix.
pub open spec fn spec_simple_representable(v: SpecSimpleValue) -> bool {
    match v {
        SpecSimpleValue::Str(s) => s.len() <= u64::MAX,
        _ => true,
    }
}

/// A value whose encoding the format can carry: strings fit their length
/// prefixes and an array fits its 64-bit element count.
pub open spec fn spec_value_representable(v: SpecValue) -> bool {
    match v {
        SpecValue::Simple(s) => spec_simple_representable(s),
        SpecValue::Arr(_, els) => els.len() <= u64::MAX && (forall|i: int|
            0 <= i < els.len() ==> spec_simple_representable(#[trigger] els[i])),
    }
}

/// Where a non-array value's encoding sits in a byte stream, the decoder
/// reads back exactly that value and stops exactly past it.
pub proof fn lemma_enc_dec_simple(bytes: Seq<u8>, pos: int, v: SpecSimpleValue)
    requires
        spec_simple_representable(v),
        0 <= pos,
        pos + spec_enc_simple(v).len() <= bytes.len(),
        bytes.subrange(pos, pos + spec_enc_simple(v).len() as int) == spec_enc_simple(v),
    ensures
        spec_dec_simple(bytes, pos, spec_simple_tag(v)) == Some(
            (v, pos + spec_enc_simple(v).len() as int),
        ),
{
    lemma_auto_spec_u16_to_from_le_bytes();
    lemma_auto_spec_u32_to_from_le_bytes();
    lemma_auto_spec_u64_to_from_le_bytes();
    let e = spec_enc_simple(v);
    match v {
        SpecSimpleValue::U8(x) => {
            assert(bytes[pos] == e[0]);
        },
        SpecSimpleValue::I8(x) => {
            assert(bytes[pos] == e[0]);
            lemma_i8_casts(0, x);
        },
        SpecSimpleValue::U16(x) => {
            assert(bytes.subrange(pos, pos + 2) == spec_u16_to_le_bytes(x));
        },
        SpecSimpleValue::I16(x) => {
            assert(bytes.subrange(pos, pos + 2) == spec_u16_to_le_bytes(x as u16));
            lemma_i16_casts(0, x);
        },
        SpecSimpleValue::U32(x) => {
            assert(bytes.subrange(pos, pos + 4) == spec_u32_to_le_bytes(x));
        },
        SpecSimpleValue::I32(x) => {
            assert(bytes.subrange(pos, pos + 4) == spec_u32_to_le_bytes(x as u32));
            lemma_i32_casts(0, x);
        },
        SpecSimpleValue::F32(x) => {
            assert(bytes.subrange(pos, pos + 4) == spec_u32_to_le_bytes(x));
        },
        SpecSimpleValue::Bool(b) => {
            assert(bytes[pos] == e[0]);
        },
        SpecSimpleValue::Str(s) => {
            let slen = s.len() as int;
            bytes.lemma_slice_of_slice(pos, pos + 8 + slen, 0, 8);
            bytes.lemma_slice_of_slice(pos, pos + 8 + slen, 8, 8 + slen);
            assert(e.subrange(0, 8) =~= spec_u64_to_le_bytes(s.len() as u64));
            assert(e.subrange(8, 8 + slen) =~= s);
            assert(bytes.subrange(pos, pos + 8) == e.subrange(0, 8));
            assert(spec_u64_from_le_bytes(bytes.subrange(pos, pos + 8)) == s.len() as u64);
            assert(bytes.subrange(pos + 8, pos + 8 + slen) == e.subrange(8, 8 + slen));
        },
        SpecSimpleValue::U64(x) => {
            assert(bytes.subrange(pos, pos + 8) == spec_u64_to_le_bytes(x));
        },
        SpecSimpleValue::I64(x) => {
            assert(bytes.subrange(pos, pos + 8) == spec_u64_to_le_bytes(x as u64));
            lemma_i64_casts(0, x);
        },
        SpecSimpleValue::F64(x) => {
            assert(bytes.subrange(pos, pos + 8) == spec_u64_to_le_bytes(x));
        },
    }
}

/// Where an element run's encoding sits in a byte stream, the decoder reads
/// back exactly those elements.
pub proof fn lemma_enc_dec_elems(bytes: Seq<u8>, pos: int, t: ValueTag, els: Seq<
    SpecSimpleValue,
>)
    requires
        t != ValueTag::Arr,
        forall|i: int|
            0 <= i < els.len() ==> spec_simple_tag(#[trigger] els[i]) == t
                && spec_simple_representable(els[i]),
        0 <= pos,
        pos + spec_enc_elems(els).len() <= bytes.len(),
        bytes.subrange(pos, pos + spec_enc_elems(els).len() as int) == spec_enc_elems(els),
    ensures
        spec_dec_elems(bytes, pos, t, els.len()) == Some(
            (els, pos + spec_enc_elems(els).len() as int),
        ),
    decreases els.len(),
{
    if els.len() == 0 {
        assert(els =~= Seq::<SpecSimpleValue>::empty());
    } else {
        let v = els.first();
        let ev = spec_enc_simple(v);
        let rest = els.drop_first();
        let er = spec_enc_elems(rest);
        let e = spec_enc_elems(els);
        assert(e == ev + er);
        bytes.lemma_slice_of_slice(pos, pos + e.len() as int, 0, ev.len() as int);
        bytes.lemma_slice_of_slice(pos, pos + e.len() as int, ev.len() as int, e.len() as int);
        assert(e.subrange(0, ev.len() as int) =~= ev);
        assert(e.subrange(ev.len() as int, e.len() as int) =~= er);
        assert(bytes.subrange(pos, pos + ev.len() as int) == e.subrange(0, ev.len() as int));
        lemma_enc_dec_simple(bytes, pos, v);
        let p1 = pos + ev.len() as int;
        assert(bytes.subrange(p1, p1 + er.len() as int) == e.subrange(
            ev.len() as int,
            e.len() as int,
        ));
        lemma_enc_dec_elems(bytes, p1, t, rest);
        assert(seq![v] + rest =~= els);
    }
}

/// Losslessness of the value codec: decoding an encoded representable value
/// yields exactly that value. Where a well-formed value's encoding sits in a
/// byte stream, the decoder, given the value's tag, reads it back unchanged
/// and stops exactly past it.
pub proof fn lemma_enc_dec_value(bytes: Seq<u8>, pos: int, v: SpecValue)
    requires
        spec_value_wf(v),
        spec_value_representable(v),
        0 <= pos,
        pos + spec_enc_value(v).len() <= bytes.len(),
        bytes.subrange(pos, pos + spec_enc_value(v).len() as int) == spec_enc_value(v),
    ensures
        spec_dec_value(bytes, pos, spec_value_tag(v)) == Some(
            (v, pos + spec_enc_value(v).len() as int),
        ),
{
    match v {
        SpecValue::Simple(s) => {
            lemma_enc_dec_simple(bytes, pos, s);
        },
        SpecValue::Arr(t, els) => {
            lemma_auto_spec_u64_to_from_le_bytes();
            let e = spec_enc_value(v);
            let ee = spec_enc_elems(els);
            assert(e == seq![spec_tag_byte(t)] + spec_u64_to_le_bytes(els.len() as u64) + ee);
            assert(bytes.subrange(pos, pos + e.len() as int)[0] == bytes[pos]);
            assert(bytes[pos] == e[0]);
            assert(bytes[pos] == spec_tag_byte(t));
            lemma_tag_byte_roundtrip(t);
            bytes.lemma_slice_of_slice(pos, pos + e.len() as int, 1, 9);
            bytes.lemma_slice_of_slice(pos, pos + e.len() as int, 9, e.len() as int);
            assert(e.subrange(1, 9) =~= spec_u64_to_le_bytes(els.len() as u64));
            assert(e.subrange(9, e.len() as int) =~= ee);
            assert(bytes.subrange(pos + 1, pos + 9) == e.subrange(1, 9));
            assert(spec_u64_from_le_bytes(bytes.subrange(pos + 1, pos + 9)) == els.len() as u64);
            assert(bytes.subrange(pos + 9, pos + 9 + ee.len() as int) == e.subrange(
                9,
                e.len() as int,
            ));
            lemma_enc_dec_elems(bytes, pos + 9, t, els);
        },
    }
}

} // verus!
