//! The tagged metadata value variants of the container format, their spec
//! models, and the variant-compatibility rules the update engine relies on.
//!
//! Strings are kept as raw byte vectors: the codec never reinterprets their
//! contents, so nothing here depends on a text encoding. Arrays hold a
//! homogeneous run of non-array values; an array nested inside an array is
//! outside this codec's value set and is rejected while decoding.

use vstd::prelude::*;

verus! {

/// The on-disk type tag of a metadata value.
#[derive(Clone, Copy, PartialEq, Eq, Structural, Debug)]
pub enum ValueTag {
    U8,
    I8,
    U16,
    I16,
    U32,
    I32,
    F32,
    Bool,
    Str,
    Arr,
    U64,
    I64,
    F64,
}

/// The tag byte each variant is written as.
pub open spec fn spec_tag_byte(t: ValueTag) -> u8 {
    match t {
        ValueTag::U8 => 0,
        ValueTag::I8 => 1,
        ValueTag::U16 => 2,
        ValueTag::I16 => 3,
        ValueTag::U32 => 4,
        ValueTag::I32 => 5,
        ValueTag::F32 => 6,
        ValueTag::Bool => 7,
        ValueTag::Str => 8,
        ValueTag::Arr => 9,
        ValueTag::U64 => 10,
        ValueTag::I64 => 11,
        ValueTag::F64 => 12,
    }
}

/// The variant a tag byte stands for; `None` for an unknown tag byte.
pub open spec fn spec_tag_of_byte(b: u8) -> Option<ValueTag> {
    if b == 0 {
        Some(ValueTag::U8)
    } else if b == 1 {
        Some(ValueTag::I8)
    } else if b == 2 {
        Some(ValueTag::U16)
    } else if b == 3 {
        Some(ValueTag::I16)
    } else if b == 4 {
        Some(ValueTag::U32)
    } else if b == 5 {
        Some(ValueTag::I32)
    } else if b == 6 {
        Some(ValueTag::F32)
    } else if b == 7 {
        Some(ValueTag::Bool)
    } else if b == 8 {
        Some(ValueTag::Str)
    } else if b == 9 {
        Some(ValueTag::Arr)
    } else if b == 10 {
        Some(ValueTag::U64)
    } else if b == 11 {
        Some(ValueTag::I64)
    } else if b == 12 {
        Some(ValueTag::F64)
    } else {
        None
    }
}

pub fn tag_byte(t: ValueTag) -> (b: u8)
    ensures
        b == spec_tag_byte(t),
{
    match t {
        ValueTag::U8 => 0,
        ValueTag::I8 => 1,
        ValueTag::U16 => 2,
        ValueTag::I16 => 3,
        ValueTag::U32 => 4,
        ValueTag::I32 => 5,
        ValueTag::F32 => 6,
        ValueTag::Bool => 7,
        ValueTag::Str => 8,
        ValueTag::Arr => 9,
        ValueTag::U64 => 10,
        ValueTag::I64 => 11,
        ValueTag::F64 => 12,
    }
}

pub fn tag_of_byte(b: u8) -> (r: Option<ValueTag>)
    ensures
        r == spec_tag_of_byte(b),
{
    if b == 0 {
        Some(ValueTag::U8)
    } else if b == 1 {
        Some(ValueTag::I8)
    } else if b == 2 {
        Some(ValueTag::U16)
    } else if b == 3 {
        Some(ValueTag::I16)
    } else if b == 4 {
        Some(ValueTag::U32)
    } else if b == 5 {
        Some(ValueTag::I32)
    } else if b == 6 {
        Some(ValueTag::F32)
    } else if b == 7 {
        Some(ValueTag::Bool)
    } else if b == 8 {
        Some(ValueTag::Str)
    } else if b == 9 {
        Some(ValueTag::Arr)
    } else if b == 10 {
        Some(ValueTag::U64)
    } else if b == 11 {
        Some(ValueTag::I64)
    } else if b == 12 {
        Some(ValueTag::F64)
    } else {
        None
    }
}

/// A non-array metadata value. The two float variants carry the IEEE-754 bit
/// pattern as an unsigned integer: the codec moves float fields byte for byte
/// and never computes with them.
pub enum SimpleValue {
    U8(u8),
    I8(i8),
    U16(u16),
    I16(i16),
    U32(u32),
    I32(i32),
    F32(u32),
    Bool(bool),
    Str(Vec<u8>),
    U64(u64),
    I64(i64),
    F64(u64),
}

/// Spec model of a non-array value.
pub enum SpecSimpleValue {
    U8(u8),
    I8(i8),
    U16(u16),
    I16(i16),
    U32(u32),
    I32(i32),
    F32(u32),
    Bool(bool),
    Str(Seq<u8>),
    U64(u64),
    I64(i64),
    F64(u64),
}

/// A metadata value: a single non-array value, or a homogeneous array of
/// non-array values with the element tag it is encoded under.
pub enum MetadataValue {
    Simple(SimpleValue),
    Arr(ValueTag, Vec<SimpleValue>),
}

/// Spec model of a metadata value.
pub enum SpecValue {
    Simple(SpecSimpleValue),
    Arr(ValueTag, Seq<SpecSimpleValue>),
}

impl View for SimpleValue {
    type V = SpecSimpleValue;

    open spec fn view(&self) -> SpecSimpleValue {
        match self {
            SimpleValue::U8(x) => SpecSimpleValue::U8(*x),
            SimpleValue::I8(x) => SpecSimpleValue::I8(*x),
            SimpleValue::U16(x) => SpecSimpleValue::U16(*x),
            SimpleValue::I16(x) => SpecSimpleValue::I16(*x),
            SimpleValue::U32(x) => SpecSimpleValue::U32(*x),
            SimpleValue::I32(x) => SpecSimpleValue::I32(*x),
            SimpleValue::F32(x) => SpecSimpleValue::F32(*x),
            SimpleValue::Bool(x) => SpecSimpleValue::Bool(*x),
            SimpleValue::Str(s) => SpecSimpleValue::Str(s@),
            SimpleValue::U64(x) => SpecSimpleValue::U64(*x),
            SimpleValue::I64(x) => SpecSimpleValue::I64(*x),
            SimpleValue::F64(x) => SpecSimpleValue::F64(*x),
        }
    }
}

impl View for MetadataValue {
    type V = SpecValue;

    open spec fn view(&self) -> SpecValue {
        match self {
            MetadataValue::Simple(s) => SpecValue::Simple(s@),
            MetadataValue::Arr(t, els) => SpecValue::Arr(
                *t,
                Seq::new(els@.len(), |i: int| els@[i]@),
            ),
        }
    }
}

/// The variant tag of a non-array value.
pub open spec fn spec_simple_tag(v: SpecSimpleValue) -> ValueTag {
    match v {
        SpecSimpleValue::U8(_) => ValueTag::U8,
        SpecSimpleValue::I8(_) => ValueTag::I8,
        SpecSimpleValue::U16(_) => ValueTag::U16,
        SpecSimpleValue::I16(_) => ValueTag::I16,
        SpecSimpleValue::U32(_) => ValueTag::U32,
        SpecSimpleValue::I32(_) => ValueTag::I32,
        SpecSimpleValue::F32(_) => ValueTag::F32,
        SpecSimpleValue::Bool(_) => ValueTag::Bool,
        SpecSimpleValue::Str(_) => ValueTag::Str,
        SpecSimpleValue::U64(_) => ValueTag::U64,
        SpecSimpleValue::I64(_) => ValueTag::I64,
        SpecSimpleValue::F64(_) => ValueTag::F64,
    }
}

/// The variant tag of a metadata value.
pub open spec fn spec_value_tag(v: SpecValue) -> ValueTag {
    match v {
        SpecValue::Simple(s) => spec_simple_tag(s),
        SpecValue::Arr(_, _) => ValueTag::Arr,
    }
}

/// The element tag of an array value; `None` for a non-array value.
pub open spec fn spec_elem_tag(v: SpecValue) -> Option<ValueTag> {
    match v {
        SpecValue::Simple(_) => None,
        SpecValue::Arr(t, _) => Some(t),
    }
}

/// Two values are of the same variant exactly when their tags agree, and,
/// for arrays, their element tags agree as well. This is the test the update
/// engine applies before replacing an entry's value.
pub open spec fn spec_variant_match(a: SpecValue, b: SpecValue) -> bool {
    spec_value_tag(a) == spec_value_tag(b) && spec_elem_tag(a) == spec_elem_tag(b)
}

/// A well-formed metadata value: an array's element tag is a non-array tag
/// and every element carries exactly that tag. Non-array values are always
/// well formed.
pub open spec fn spec_value_wf(v: SpecValue) -> bool {
    match v {
        SpecValue::Simple(_) => true,
        SpecValue::Arr(t, els) => {
            &&& t != ValueTag::Arr
            &&& forall|i: int| 0 <= i < els.len() ==> spec_simple_tag(#[trigger] els[i]) == t
        },
    }
}

pub fn simple_tag(v: &SimpleValue) -> (t: ValueTag)
    ensures
        t == spec_simple_tag(v@),
{
    match v {
        SimpleValue::U8(_) => ValueTag::U8,
        SimpleValue::I8(_) => ValueTag::I8,
        SimpleValue::U16(_) => ValueTag::U16,
        SimpleValue::I16(_) => ValueTag::I16,
        SimpleValue::U32(_) => ValueTag::U32,
        SimpleValue::I32(_) => ValueTag::I32,
        SimpleValue::F32(_) => ValueTag::F32,
        SimpleValue::Bool(_) => ValueTag::Bool,
        SimpleValue::Str(_) => ValueTag::Str,
        SimpleValue::U64(_) => ValueTag::U64,
        SimpleValue::I64(_) => ValueTag::I64,
        SimpleValue::F64(_) => ValueTag::F64,
    }
}

pub fn value_tag(v: &MetadataValue) -> (t: ValueTag)
    ensures
        t == spec_value_tag(v@),
{
    match v {
        MetadataValue::Simple(s) => simple_tag(s),
        MetadataValue::Arr(_, _) => ValueTag::Arr,
    }
}

/// Decides variant compatibility of an update value against an entry's value.
pub fn same_variant(a: &MetadataValue, b: &MetadataValue) -> (r: bool)
    ensures
        r == spec_variant_match(a@, b@),
{
    match (a, b) {
        (MetadataValue::Arr(ta, _), MetadataValue::Arr(tb, _)) => ta == tb,
        (MetadataValue::Arr(_, _), MetadataValue::Simple(_)) => false,
        (MetadataValue::Simple(_), MetadataValue::Arr(_, _)) => false,
        (MetadataValue::Simple(sa), MetadataValue::Simple(sb)) => {
            let ta = simple_tag(sa);
            let tb = simple_tag(sb);
            ta == tb
        },
    }
}

/// Checks that a caller-built value is well formed, so the I/O shell can
/// test [`spec_value_wf`] before handing a value to the update engine.
pub fn value_is_wf(v: &MetadataValue) -> (r: bool)
    ensures
        r == spec_value_wf(v@),
{
    match v {
        MetadataValue::Simple(_) => true,
        MetadataValue::Arr(t, els) => {
            if *t == ValueTag::Arr {
                return false;
            }
            let n = els.len();
            let mut i: usize = 0;
            while i < n
                invariant
                    n == els@.len(),
                    i <= n,
                    *t != ValueTag::Arr,
                    v@ == SpecValue::Arr(*t, Seq::new(els@.len(), |k: int| els@[k]@)),
                    forall|j: int| 0 <= j < i ==> spec_simple_tag(#[trigger] els@[j]@) == *t,
                decreases n - i,
            {
                let et = simple_tag(&els[i]);
                if et != *t {
                    proof {
                        let s = Seq::new(els@.len(), |k: int| els@[k]@);
                        assert(s[i as int] == els@[i as int]@);
                        assert(spec_simple_tag(s[i as int]) != *t);
                        assert(v@ == SpecValue::Arr(*t, s));
                        assert(!spec_value_wf(v@));
                    }
                    return false;
                }
                i = i + 1;
            }
            true
        },
    }
}

/// Copies a byte vector; the copy's view equals the original's.
pub fn clone_bytes(v: &Vec<u8>) -> (r: Vec<u8>)
    ensures
        r@ == v@,
{
    let mut out: Vec<u8> = Vec::new();
    let n = v.len();
    let mut i: usize = 0;
    while i < n
        invariant
            n == v@.len(),
            i <= n,
            out@ == v@.take(i as int),
        decreases n - i,
    {
        out.push(v[i]);
        assert(out@ == v@.take(i + 1 as int));
        i = i + 1;
    }
    assert(v@.take(n as int) == v@);
    out
}

/// Copies a non-array value; the copy's view equals the original's.
pub fn clone_simple(v: &SimpleValue) -> (r: SimpleValue)
    ensures
        r@ == v@,
{
    match v {
        SimpleValue::U8(x) => SimpleValue::U8(*x),
        SimpleValue::I8(x) => SimpleValue::I8(*x),
        SimpleValue::U16(x) => SimpleValue::U16(*x),
        SimpleValue::I16(x) => SimpleValue::I16(*x),
        SimpleValue::U32(x) => SimpleValue::U32(*x),
        SimpleValue::I32(x) => SimpleValue::I32(*x),
        SimpleValue::F32(x) => SimpleValue::F32(*x),
        SimpleValue::Bool(x) => SimpleValue::Bool(*x),
        SimpleValue::Str(s) => SimpleValue::Str(clone_bytes(s)),
        SimpleValue::U64(x) => SimpleValue::U64(*x),
        SimpleValue::I64(x) => SimpleValue::I64(*x),
        SimpleValue::F64(x) => SimpleValue::F64(*x),
    }
}

/// Copies a metadata value; the copy's view equals the original's.
pub fn clone_value(v: &MetadataValue) -> (r: MetadataValue)
    ensures
        r@ == v@,
{
    match v {
        MetadataValue::Simple(s) => MetadataValue::Simple(clone_simple(s)),
        MetadataValue::Arr(t, els) => {
            let n = els.len();
            let mut out: Vec<SimpleValue> = Vec::new();
            let mut i: usize = 0;
            while i < n
                invariant
                    n == els@.len(),
                    i <= n,
                    out@.len() == i,
                    forall|j: int| 0 <= j < i ==> #[trigger] out@[j]@ == els@[j]@,
                decreases n - i,
            {
                out.push(clone_simple(&els[i]));
                i = i + 1;
            }
            let r = MetadataValue::Arr(*t, out);
            proof {
                assert(Seq::new(out@.len(), |k: int| out@[k]@) =~= Seq::new(
                    els@.len(),
                    |k: int| els@[k]@,
                ));
            }
            r
        },
    }
}

} // verus!
