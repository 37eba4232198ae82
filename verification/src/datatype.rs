//! The typed PTP value system: a tagged variant over every PTP scalar
//! and array datatype plus the string type, read from a typed reader
//! given a type code and serialized back losslessly.
use vstd::prelude::*;
use crate::codec::{
    counted_end, fixed_end, str_end, le16, le32, le64, u16_at, u32_at, u64_at, concat_bytes,
    pair_bytes, spec_ptp_str,
    str_encodable, Reader, write_u8, write_u16, write_u32, write_u64, write_ptp_str,
    write_u8_vec, write_i8_vec, write_u16_vec, write_i16_vec, write_u32_vec, write_i32_vec,
    write_u64_vec, write_i64_vec, write_pair_vec, u8s_at, i8s_at, u16s_at, i16s_at, u32s_at,
    i32s_at, u64s_at, i64s_at, pairs_at, lemma_le16, lemma_le32, lemma_le64,
    lemma_concat_bytes_len, lemma_u8s_at_concat, lemma_u16s_at_concat, lemma_u32s_at_concat,
    lemma_u64s_at_concat, lemma_pairs_at_concat,
};
use crate::error::{Error, MalformedKind};

verus! {

/// The mathematical value of a `PtpDataType`: scalars as themselves,
/// arrays as sequences, the string as its characters.
pub enum DtValue {
    UNDEF,
    INT8(i8),
    UINT8(u8),
    INT16(i16),
    UINT16(u16),
    INT32(i32),
    UINT32(u32),
    INT64(i64),
    UINT64(u64),
    INT128((u64, u64)),
    UINT128((u64, u64)),
    AINT8(Seq<i8>),
    AUINT8(Seq<u8>),
    AINT16(Seq<i16>),
    AUINT16(Seq<u16>),
    AINT32(Seq<i32>),
    AUINT32(Seq<u32>),
    AINT64(Seq<i64>),
    AUINT64(Seq<u64>),
    AINT128(Seq<(u64, u64)>),
    AUINT128(Seq<(u64, u64)>),
    STR(Seq<char>),
}

/// A PTP value: a tagged variant over the PTP datatype codes.  128-bit
/// values are carried as a (low, high) pair of 64-bit halves, matching
/// the wire order.
#[derive(Debug, PartialEq)]
pub enum PtpDataType {
    UNDEF,
    INT8(i8),
    UINT8(u8),
    INT16(i16),
    UINT16(u16),
    INT32(i32),
    UINT32(u32),
    INT64(i64),
    UINT64(u64),
    INT128((u64, u64)),
    UINT128((u64, u64)),
    AINT8(Vec<i8>),
    AUINT8(Vec<u8>),
    AINT16(Vec<i16>),
    AUINT16(Vec<u16>),
    AINT32(Vec<i32>),
    AUINT32(Vec<u32>),
    AINT64(Vec<i64>),
    AUINT64(Vec<u64>),
    AINT128(Vec<(u64, u64)>),
    AUINT128(Vec<(u64, u64)>),
    STR(String),
}

impl View for PtpDataType {
    type V = DtValue;

    open spec fn view(&self) -> DtValue {
        match self {
            PtpDataType::UNDEF => DtValue::UNDEF,
            PtpDataType::INT8(x) => DtValue::INT8(*x),
            PtpDataType::UINT8(x) => DtValue::UINT8(*x),
            PtpDataType::INT16(x) => DtValue::INT16(*x),
            PtpDataType::UINT16(x) => DtValue::UINT16(*x),
            PtpDataType::INT32(x) => DtValue::INT32(*x),
            PtpDataType::UINT32(x) => DtValue::UINT32(*x),
            PtpDataType::INT64(x) => DtValue::INT64(*x),
            PtpDataType::UINT64(x) => DtValue::UINT64(*x),
            PtpDataType::INT128(x) => DtValue::INT128(*x),
            PtpDataType::UINT128(x) => DtValue::UINT128(*x),
            PtpDataType::AINT8(v) => DtValue::AINT8(v@),
            PtpDataType::AUINT8(v) => DtValue::AUINT8(v@),
            PtpDataType::AINT16(v) => DtValue::AINT16(v@),
            PtpDataType::AUINT16(v) => DtValue::AUINT16(v@),
            PtpDataType::AINT32(v) => DtValue::AINT32(v@),
            PtpDataType::AUINT32(v) => DtValue::AUINT32(v@),
            PtpDataType::AINT64(v) => DtValue::AINT64(v@),
            PtpDataType::AUINT64(v) => DtValue::AUINT64(v@),
            PtpDataType::AINT128(v) => DtValue::AINT128(v@),
            PtpDataType::AUINT128(v) => DtValue::AUINT128(v@),
            PtpDataType::STR(s) => DtValue::STR(s@),
        }
    }
}

/// The PTP datatype code of a value.
pub open spec fn dt_code(v: DtValue) -> u16 {
    match v {
        DtValue::UNDEF => 0x0000,
        DtValue::INT8(_) => 0x0001,
        DtValue::UINT8(_) => 0x0002,
        DtValue::INT16(_) => 0x0003,
        DtValue::UINT16(_) => 0x0004,
        DtValue::INT32(_) => 0x0005,
        DtValue::UINT32(_) => 0x0006,
        DtValue::INT64(_) => 0x0007,
        DtValue::UINT64(_) => 0x0008,
        DtValue::INT128(_) => 0x0009,
        DtValue::UINT128(_) => 0x000A,
        DtValue::AINT8(_) => 0x4001,
        DtValue::AUINT8(_) => 0x4002,
        DtValue::AINT16(_) => 0x4003,
        DtValue::AUINT16(_) => 0x4004,
        DtValue::AINT32(_) => 0x4005,
        DtValue::AUINT32(_) => 0x4006,
        DtValue::AINT64(_) => 0x4007,
        DtValue::AUINT64(_) => 0x4008,
        DtValue::AINT128(_) => 0x4009,
        DtValue::AUINT128(_) => 0x400A,
        DtValue::STR(_) => 0xFFFF,
    }
}

/// Is `k` one of the PTP datatype codes this value system reads?
pub open spec fn is_known_dt_code(k: u16) -> bool {
    (0x0001 <= k <= 0x000A) || (0x4001 <= k <= 0x400A) || k == 0xFFFF
}

/// A value fits its length prefixes: arrays count in 32 bits, strings
/// in the one-byte prefix.
pub open spec fn dt_encodable(v: DtValue) -> bool {
    match v {
        DtValue::AINT8(u) => u.len() <= 0xFFFF_FFFF,
        DtValue::AUINT8(u) => u.len() <= 0xFFFF_FFFF,
        DtValue::AINT16(u) => u.len() <= 0xFFFF_FFFF,
        DtValue::AUINT16(u) => u.len() <= 0xFFFF_FFFF,
        DtValue::AINT32(u) => u.len() <= 0xFFFF_FFFF,
        DtValue::AUINT32(u) => u.len() <= 0xFFFF_FFFF,
        DtValue::AINT64(u) => u.len() <= 0xFFFF_FFFF,
        DtValue::AUINT64(u) => u.len() <= 0xFFFF_FFFF,
        DtValue::AINT128(u) => u.len() <= 0xFFFF_FFFF,
        DtValue::AUINT128(u) => u.len() <= 0xFFFF_FFFF,
        DtValue::STR(s) => str_encodable(s),
        _ => true,
    }
}

/// The canonical wire bytes of a value: scalars little-endian, arrays a
/// 32-bit element count then the elements, strings in PTP string form.
pub open spec fn dt_bytes(v: DtValue) -> Seq<u8> {
    match v {
        DtValue::UNDEF => Seq::empty(),
        DtValue::INT8(x) => seq![x as u8],
        DtValue::UINT8(x) => seq![x],
        DtValue::INT16(x) => le16(x as u16),
        DtValue::UINT16(x) => le16(x),
        DtValue::INT32(x) => le32(x as u32),
        DtValue::UINT32(x) => le32(x),
        DtValue::INT64(x) => le64(x as u64),
        DtValue::UINT64(x) => le64(x),
        DtValue::INT128(x) => pair_bytes(x),
        DtValue::UINT128(x) => pair_bytes(x),
        DtValue::AINT8(u) => le32(u.len() as u32) + concat_bytes(u, |x: i8| seq![x as u8]),
        DtValue::AUINT8(u) => le32(u.len() as u32) + concat_bytes(u, |x: u8| seq![x]),
        DtValue::AINT16(u) => le32(u.len() as u32) + concat_bytes(u, |x: i16| le16(x as u16)),
        DtValue::AUINT16(u) => le32(u.len() as u32) + concat_bytes(u, |x: u16| le16(x)),
        DtValue::AINT32(u) => le32(u.len() as u32) + concat_bytes(u, |x: i32| le32(x as u32)),
        DtValue::AUINT32(u) => le32(u.len() as u32) + concat_bytes(u, |x: u32| le32(x)),
        DtValue::AINT64(u) => le32(u.len() as u32) + concat_bytes(u, |x: i64| le64(x as u64)),
        DtValue::AUINT64(u) => le32(u.len() as u32) + concat_bytes(u, |x: u64| le64(x)),
        DtValue::AINT128(u) => le32(u.len() as u32) + concat_bytes(u, |x: (u64, u64)| pair_bytes(x)),
        DtValue::AUINT128(u) => le32(u.len() as u32) + concat_bytes(
            u,
            |x: (u64, u64)| pair_bytes(x),
        ),
        DtValue::STR(s) => spec_ptp_str(s),
    }
}



/// Where a value of the PTP datatype `kind` starting at `p` ends, if
/// the buffer holds all of its bytes; an unrecognized code consumes
/// nothing.
pub open spec fn dt_end(kind: u16, b: Seq<u8>, p: int) -> Option<int> {
    if kind == 0x0001 || kind == 0x0002 {
        fixed_end(b, p, 1)
    } else if kind == 0x0003 || kind == 0x0004 {
        fixed_end(b, p, 2)
    } else if kind == 0x0005 || kind == 0x0006 {
        fixed_end(b, p, 4)
    } else if kind == 0x0007 || kind == 0x0008 {
        fixed_end(b, p, 8)
    } else if kind == 0x0009 || kind == 0x000A {
        fixed_end(b, p, 16)
    } else if kind == 0x4001 || kind == 0x4002 {
        counted_end(b, p, 1)
    } else if kind == 0x4003 || kind == 0x4004 {
        counted_end(b, p, 2)
    } else if kind == 0x4005 || kind == 0x4006 {
        counted_end(b, p, 4)
    } else if kind == 0x4007 || kind == 0x4008 {
        counted_end(b, p, 8)
    } else if kind == 0x4009 || kind == 0x400A {
        counted_end(b, p, 16)
    } else if kind == 0xFFFF {
        str_end(b, p)
    } else {
        Some(p)
    }
}

/// Casting a signed byte to unsigned and back is the identity.
pub proof fn lemma_cast_i8(x: i8)
    ensures
        (x as u8) as i8 == x,
{
    assert((x as u8) as i8 == x) by (bit_vector);
}

/// Casting a signed 16-bit value to unsigned and back is the identity.
pub proof fn lemma_cast_i16(x: i16)
    ensures
        (x as u16) as i16 == x,
{
    assert((x as u16) as i16 == x) by (bit_vector);
}

/// Casting a signed 32-bit value to unsigned and back is the identity.
pub proof fn lemma_cast_i32(x: i32)
    ensures
        (x as u32) as i32 == x,
{
    assert((x as u32) as i32 == x) by (bit_vector);
}

/// Casting a signed 64-bit value to unsigned and back is the identity.
pub proof fn lemma_cast_i64(x: i64)
    ensures
        (x as u64) as i64 == x,
{
    assert((x as u64) as i64 == x) by (bit_vector);
}

/// When a 32-bit count and the concatenated fixed-width elements sit at
/// `p` in `b`, the count field and the element region are pinned down.
pub proof fn lemma_counted_region<T>(b: Seq<u8>, p: int, u: Seq<T>, f: spec_fn(T) -> Seq<u8>, w: nat)
    requires
        forall|x: T| (#[trigger] f(x)).len() == w,
        u.len() <= 0xFFFF_FFFF,
        0 <= p,
        p + 4 + w * u.len() <= b.len(),
        b.subrange(p, p + 4 + w * u.len()) == le32(u.len() as u32) + concat_bytes(u, f),
    ensures
        u32_at(b, p) as int == u.len(),
        b.subrange(p + 4, p + 4 + w * u.len()) == concat_bytes(u, f),
{
    lemma_le32(u.len() as u32);
    lemma_concat_bytes_len(u, f, w);
    let c = le32(u.len() as u32) + concat_bytes(u, f);
    let l = 4 + w * u.len();
    assert forall|k: int| 0 <= k < 4 implies #[trigger] b.subrange(p, p + 4)[k] == le32(
        u.len() as u32,
    )[k] by {
        assert(b.subrange(p, p + 4)[k] == b[p + k]);
        assert(b[p + k] == b.subrange(p, p + l)[k]);
        assert(c[k] == le32(u.len() as u32)[k]);
    }
    assert(b.subrange(p, p + 4) =~= le32(u.len() as u32));
    assert(u32_at(b, p) == u.len() as u32) by {
        assert(b.subrange(p, p + 4) == le32(u.len() as u32));
        vstd::bytes::lemma_auto_spec_u32_to_from_le_bytes();
    }
    assert forall|k: int| 0 <= k < w * u.len() implies b.subrange(p + 4, p + 4 + w * u.len())[k]
        == concat_bytes(u, f)[k] by {
        assert(b.subrange(p + 4, p + 4 + w * u.len())[k] == b[p + 4 + k]);
        assert(b[p + 4 + k] == b.subrange(p, p + l)[4 + k]);
        assert(c[4 + k] == concat_bytes(u, f)[k]);
    }
    assert(b.subrange(p + 4, p + 4 + w * u.len()) =~= concat_bytes(u, f));
}

/// When one 128-bit pair sits at `p` in `b`, its two halves are the two
/// 64-bit values there.
pub proof fn lemma_pair_region(b: Seq<u8>, p: int, y: (u64, u64))
    requires
        0 <= p,
        p + 16 <= b.len(),
        b.subrange(p, p + 16) == pair_bytes(y),
    ensures
        u64_at(b, p) == y.0,
        u64_at(b, p + 8) == y.1,
{
    lemma_le64(y.0);
    lemma_le64(y.1);
    assert forall|k: int| 0 <= k < 8 implies b.subrange(p, p + 8)[k] == le64(y.0)[k] by {
        assert(b.subrange(p, p + 8)[k] == b[p + k]);
        assert(b[p + k] == b.subrange(p, p + 16)[k]);
        assert((le64(y.0) + le64(y.1))[k] == le64(y.0)[k]);
    }
    assert(b.subrange(p, p + 8) =~= le64(y.0));
    assert forall|k: int| 0 <= k < 8 implies b.subrange(p + 8, p + 16)[k] == le64(y.1)[k] by {
        assert(b.subrange(p + 8, p + 16)[k] == b[p + 8 + k]);
        assert(b[p + 8 + k] == b.subrange(p, p + 16)[8 + k]);
        assert((le64(y.0) + le64(y.1))[8 + k] == le64(y.1)[k]);
    }
    assert(b.subrange(p + 8, p + 16) =~= le64(y.1));
    assert(u64_at(b, p) == y.0 && u64_at(b, p + 8) == y.1) by {
        assert(b.subrange(p, p + 8) == le64(y.0));
        assert(b.subrange(p + 8, p + 16) == le64(y.1));
        vstd::bytes::lemma_auto_spec_u64_to_from_le_bytes();
    }
}

/// Reading signed 8-bit elements out of their concatenated
/// little-endian encoding gives the elements back.
pub proof fn lemma_i8s_at_concat(b: Seq<u8>, p: int, u: Seq<i8>)
    requires
        0 <= p,
        p + 1 * u.len() <= b.len(),
        b.subrange(p, p + 1 * u.len()) == concat_bytes(u, |x: i8| seq![x as u8]),
    ensures
        i8s_at(b, p, u.len()) == u,
    decreases u.len(),
{
    let f = |x: i8| seq![x as u8];
    if u.len() == 0 {
        assert(i8s_at(b, p, 0) =~= u);
    } else {
        lemma_cast_i8(u[0]);
        assert forall|x: i8| (#[trigger] f(x)).len() == 1 by {
            
        }
        lemma_concat_bytes_len(u.drop_first(), f, 1);
        let rest = u.drop_first();
        let c = concat_bytes(u, f);
        assert(c == f(u[0]) + concat_bytes(rest, f));
        assert(f(u[0]).len() == 1);
        assert forall|k: int| 0 <= k < 1 implies #[trigger] b.subrange(p, p + 1)[k] == f(u[0])[k] by {
            assert(b.subrange(p, p + 1)[k] == b[p + k]);
            assert(b[p + k] == b.subrange(p, p + 1 * u.len())[k]);
            assert(c[k] == f(u[0])[k]);
        }
        assert(b.subrange(p, p + 1) =~= f(u[0]));
        assert(b[p] == b.subrange(p, p + 1)[0]);
        assert(f(u[0])[0] == u[0] as u8);
        assert(b[p] == u[0] as u8);
        assert((u[0] as u8) as i8 == u[0]);
        assert forall|i: int| 0 <= i < 1 * rest.len() implies b[p + 1 + i] == concat_bytes(
            rest,
            f,
        )[i] by {
            assert(b[p + 1 + i] == b.subrange(p, p + 1 * u.len())[1 + i]);
            assert(c[1 + i] == concat_bytes(rest, f)[i]);
        }
        assert(b.subrange(p + 1, p + 1 + 1 * rest.len()) =~= concat_bytes(rest, f));
        lemma_i8s_at_concat(b, p + 1, rest);
        assert forall|i: int| 0 <= i < u.len() implies i8s_at(b, p, u.len())[i] == u[i] by {
            if i == 0 {
            } else {
                assert(i8s_at(b, p + 1, rest.len())[i - 1] == rest[i - 1]);
                assert(i8s_at(b, p + 1, rest.len())[i - 1] == b[p + 1 + (i - 1)] as i8);
            }
        }
        assert(i8s_at(b, p, u.len()) =~= u);
    }
}

/// Reading signed 16-bit elements out of their concatenated
/// little-endian encoding gives the elements back.
pub proof fn lemma_i16s_at_concat(b: Seq<u8>, p: int, u: Seq<i16>)
    requires
        0 <= p,
        p + 2 * u.len() <= b.len(),
        b.subrange(p, p + 2 * u.len()) == concat_bytes(u, |x: i16| le16(x as u16)),
    ensures
        i16s_at(b, p, u.len()) == u,
    decreases u.len(),
{
    let f = |x: i16| le16(x as u16);
    if u.len() == 0 {
        assert(i16s_at(b, p, 0) =~= u);
    } else {
        lemma_le16(u[0] as u16);
        lemma_cast_i16(u[0]);
        assert forall|x: i16| (#[trigger] f(x)).len() == 2 by {
            lemma_le16(x as u16);
        }
        lemma_concat_bytes_len(u.drop_first(), f, 2);
        let rest = u.drop_first();
        let c = concat_bytes(u, f);
        assert(c == f(u[0]) + concat_bytes(rest, f));
        assert(f(u[0]).len() == 2);
        assert forall|k: int| 0 <= k < 2 implies #[trigger] b.subrange(p, p + 2)[k] == f(u[0])[k] by {
            assert(b.subrange(p, p + 2)[k] == b[p + k]);
            assert(b[p + k] == b.subrange(p, p + 2 * u.len())[k]);
            assert(c[k] == f(u[0])[k]);
        }
        assert(b.subrange(p, p + 2) =~= f(u[0]));
        assert(u16_at(b, p) == u[0] as u16) by {
            assert(b.subrange(p, p + 2) == le16(u[0] as u16));
            vstd::bytes::lemma_auto_spec_u16_to_from_le_bytes();
        }
        assert forall|i: int| 0 <= i < 2 * rest.len() implies b[p + 2 + i] == concat_bytes(
            rest,
            f,
        )[i] by {
            assert(b[p + 2 + i] == b.subrange(p, p + 2 * u.len())[2 + i]);
            assert(c[2 + i] == concat_bytes(rest, f)[i]);
        }
        assert(b.subrange(p + 2, p + 2 + 2 * rest.len()) =~= concat_bytes(rest, f));
        lemma_i16s_at_concat(b, p + 2, rest);
        assert forall|i: int| 0 <= i < u.len() implies i16s_at(b, p, u.len())[i] == u[i] by {
            if i == 0 {
            } else {
                assert(i16s_at(b, p + 2, rest.len())[i - 1] == rest[i - 1]);
                assert(i16s_at(b, p + 2, rest.len())[i - 1] == u16_at(b, p + 2 + 2 * (i - 1)) as i16);
            }
        }
        assert(i16s_at(b, p, u.len()) =~= u);
    }
}

/// Reading signed 32-bit elements out of their concatenated
/// little-endian encoding gives the elements back.
pub proof fn lemma_i32s_at_concat(b: Seq<u8>, p: int, u: Seq<i32>)
    requires
        0 <= p,
        p + 4 * u.len() <= b.len(),
        b.subrange(p, p + 4 * u.len()) == concat_bytes(u, |x: i32| le32(x as u32)),
    ensures
        i32s_at(b, p, u.len()) == u,
    decreases u.len(),
{
    let f = |x: i32| le32(x as u32);
    if u.len() == 0 {
        assert(i32s_at(b, p, 0) =~= u);
    } else {
        lemma_le32(u[0] as u32);
        lemma_cast_i32(u[0]);
        assert forall|x: i32| (#[trigger] f(x)).len() == 4 by {
            lemma_le32(x as u32);
        }
        lemma_concat_bytes_len(u.drop_first(), f, 4);
        let rest = u.drop_first();
        let c = concat_bytes(u, f);
        assert(c == f(u[0]) + concat_bytes(rest, f));
        assert(f(u[0]).len() == 4);
        assert forall|k: int| 0 <= k < 4 implies #[trigger] b.subrange(p, p + 4)[k] == f(u[0])[k] by {
            assert(b.subrange(p, p + 4)[k] == b[p + k]);
            assert(b[p + k] == b.subrange(p, p + 4 * u.len())[k]);
            assert(c[k] == f(u[0])[k]);
        }
        assert(b.subrange(p, p + 4) =~= f(u[0]));
        assert(u32_at(b, p) == u[0] as u32) by {
            assert(b.subrange(p, p + 4) == le32(u[0] as u32));
            vstd::bytes::lemma_auto_spec_u32_to_from_le_bytes();
        }
        assert forall|i: int| 0 <= i < 4 * rest.len() implies b[p + 4 + i] == concat_bytes(
            rest,
            f,
        )[i] by {
            assert(b[p + 4 + i] == b.subrange(p, p + 4 * u.len())[4 + i]);
            assert(c[4 + i] == concat_bytes(rest, f)[i]);
        }
        assert(b.subrange(p + 4, p + 4 + 4 * rest.len()) =~= concat_bytes(rest, f));
        lemma_i32s_at_concat(b, p + 4, rest);
        assert forall|i: int| 0 <= i < u.len() implies i32s_at(b, p, u.len())[i] == u[i] by {
            if i == 0 {
            } else {
                assert(i32s_at(b, p + 4, rest.len())[i - 1] == rest[i - 1]);
                assert(i32s_at(b, p + 4, rest.len())[i - 1] == u32_at(b, p + 4 + 4 * (i - 1)) as i32);
            }
        }
        assert(i32s_at(b, p, u.len()) =~= u);
    }
}

/// Reading signed 64-bit elements out of their concatenated
/// little-endian encoding gives the elements back.
pub proof fn lemma_i64s_at_concat(b: Seq<u8>, p: int, u: Seq<i64>)
    requires
        0 <= p,
        p + 8 * u.len() <= b.len(),
        b.subrange(p, p + 8 * u.len()) == concat_bytes(u, |x: i64| le64(x as u64)),
    ensures
        i64s_at(b, p, u.len()) == u,
    decreases u.len(),
{
    let f = |x: i64| le64(x as u64);
    if u.len() == 0 {
        assert(i64s_at(b, p, 0) =~= u);
    } else {
        lemma_le64(u[0] as u64);
        lemma_cast_i64(u[0]);
        assert forall|x: i64| (#[trigger] f(x)).len() == 8 by {
            lemma_le64(x as u64);
        }
        lemma_concat_bytes_len(u.drop_first(), f, 8);
        let rest = u.drop_first();
        let c = concat_bytes(u, f);
        assert(c == f(u[0]) + concat_bytes(rest, f));
        assert(f(u[0]).len() == 8);
        assert forall|k: int| 0 <= k < 8 implies #[trigger] b.subrange(p, p + 8)[k] == f(u[0])[k] by {
            assert(b.subrange(p, p + 8)[k] == b[p + k]);
            assert(b[p + k] == b.subrange(p, p + 8 * u.len())[k]);
            assert(c[k] == f(u[0])[k]);
        }
        assert(b.subrange(p, p + 8) =~= f(u[0]));
        assert(u64_at(b, p) == u[0] as u64) by {
            assert(b.subrange(p, p + 8) == le64(u[0] as u64));
            vstd::bytes::lemma_auto_spec_u64_to_from_le_bytes();
        }
        assert forall|i: int| 0 <= i < 8 * rest.len() implies b[p + 8 + i] == concat_bytes(
            rest,
            f,
        )[i] by {
            assert(b[p + 8 + i] == b.subrange(p, p + 8 * u.len())[8 + i]);
            assert(c[8 + i] == concat_bytes(rest, f)[i]);
        }
        assert(b.subrange(p + 8, p + 8 + 8 * rest.len()) =~= concat_bytes(rest, f));
        lemma_i64s_at_concat(b, p + 8, rest);
        assert forall|i: int| 0 <= i < u.len() implies i64s_at(b, p, u.len())[i] == u[i] by {
            if i == 0 {
            } else {
                assert(i64s_at(b, p + 8, rest.len())[i - 1] == rest[i - 1]);
                assert(i64s_at(b, p + 8, rest.len())[i - 1] == u64_at(b, p + 8 + 8 * (i - 1)) as i64);
            }
        }
        assert(i64s_at(b, p, u.len()) =~= u);
    }
}


impl PtpDataType {
    /// Serialize this value to its canonical wire bytes.  A string or an
    /// array too large for its length prefix is rejected unencoded.
    pub fn encode(&self) -> (r: Result<Vec<u8>, Error>)
        ensures
            r is Ok ==> r->Ok_0@ == dt_bytes(self@),
            dt_encodable(self@) ==> r is Ok,
            r is Err ==> !dt_encodable(self@) && (r->Err_0 == Error::Malformed(
                MalformedKind::StringTooLong,
            ) || r->Err_0 == Error::Malformed(MalformedKind::ArrayTooLong)),
    {
        let mut out: Vec<u8> = Vec::new();
        match self {
            PtpDataType::UNDEF => {
                proof {
                    assert(out@ =~= dt_bytes(self@));
                }
            },
            PtpDataType::INT8(x) => {
                write_u8(&mut out, *x as u8);
                proof {
                    assert(out@ =~= dt_bytes(self@));
                }
            },
            PtpDataType::UINT8(x) => {
                write_u8(&mut out, *x);
                proof {
                    assert(out@ =~= dt_bytes(self@));
                }
            },
            PtpDataType::INT16(x) => {
                write_u16(&mut out, *x as u16);
                proof {
                    assert(out@ =~= dt_bytes(self@));
                }
            },
            PtpDataType::UINT16(x) => {
                write_u16(&mut out, *x);
                proof {
                    assert(out@ =~= dt_bytes(self@));
                }
            },
            PtpDataType::INT32(x) => {
                write_u32(&mut out, *x as u32);
                proof {
                    assert(out@ =~= dt_bytes(self@));
                }
            },
            PtpDataType::UINT32(x) => {
                write_u32(&mut out, *x);
                proof {
                    assert(out@ =~= dt_bytes(self@));
                }
            },
            PtpDataType::INT64(x) => {
                write_u64(&mut out, *x as u64);
                proof {
                    assert(out@ =~= dt_bytes(self@));
                }
            },
            PtpDataType::UINT64(x) => {
                write_u64(&mut out, *x);
                proof {
                    assert(out@ =~= dt_bytes(self@));
                }
            },
            PtpDataType::INT128(x) => {
                write_u64(&mut out, x.0);
                write_u64(&mut out, x.1);
                proof {
                    assert(out@ =~= dt_bytes(self@));
                }
            },
            PtpDataType::UINT128(x) => {
                write_u64(&mut out, x.0);
                write_u64(&mut out, x.1);
                proof {
                    assert(out@ =~= dt_bytes(self@));
                }
            },
            PtpDataType::AINT8(v) => {
                match write_i8_vec(&mut out, v) {
                    Ok(_) => {
                        proof {
                            assert(out@ =~= dt_bytes(self@));
                        }
                    },
                    Err(e) => {
                        return Err(e);
                    },
                }
            },
            PtpDataType::AUINT8(v) => {
                match write_u8_vec(&mut out, v) {
                    Ok(_) => {
                        proof {
                            assert(out@ =~= dt_bytes(self@));
                        }
                    },
                    Err(e) => {
                        return Err(e);
                    },
                }
            },
            PtpDataType::AINT16(v) => {
                match write_i16_vec(&mut out, v) {
                    Ok(_) => {
                        proof {
                            assert(out@ =~= dt_bytes(self@));
                        }
                    },
                    Err(e) => {
                        return Err(e);
                    },
                }
            },
            PtpDataType::AUINT16(v) => {
                match write_u16_vec(&mut out, v) {
                    Ok(_) => {
                        proof {
                            assert(out@ =~= dt_bytes(self@));
                        }
                    },
                    Err(e) => {
                        return Err(e);
                    },
                }
            },
            PtpDataType::AINT32(v) => {
                match write_i32_vec(&mut out, v) {
                    Ok(_) => {
                        proof {
                            assert(out@ =~= dt_bytes(self@));
                        }
                    },
                    Err(e) => {
                        return Err(e);
                    },
                }
            },
            PtpDataType::AUINT32(v) => {
                match write_u32_vec(&mut out, v) {
                    Ok(_) => {
                        proof {
                            assert(out@ =~= dt_bytes(self@));
                        }
                    },
                    Err(e) => {
                        return Err(e);
                    },
                }
            },
            PtpDataType::AINT64(v) => {
                match write_i64_vec(&mut out, v) {
                    Ok(_) => {
                        proof {
                            assert(out@ =~= dt_bytes(self@));
                        }
                    },
                    Err(e) => {
                        return Err(e);
                    },
                }
            },
            PtpDataType::AUINT64(v) => {
                match write_u64_vec(&mut out, v) {
                    Ok(_) => {
                        proof {
                            assert(out@ =~= dt_bytes(self@));
                        }
                    },
                    Err(e) => {
                        return Err(e);
                    },
                }
            },
            PtpDataType::AINT128(v) => {
                match write_pair_vec(&mut out, v) {
                    Ok(_) => {
                        proof {
                            assert(out@ =~= dt_bytes(self@));
                        }
                    },
                    Err(e) => {
                        return Err(e);
                    },
                }
            },
            PtpDataType::AUINT128(v) => {
                match write_pair_vec(&mut out, v) {
                    Ok(_) => {
                        proof {
                            assert(out@ =~= dt_bytes(self@));
                        }
                    },
                    Err(e) => {
                        return Err(e);
                    },
                }
            },
            PtpDataType::STR(s) => {
                match write_ptp_str(&mut out, s.as_str()) {
                    Ok(_) => {
                        proof {
                            assert(out@ =~= dt_bytes(self@));
                        }
                    },
                    Err(e) => {
                        return Err(e);
                    },
                }
            },
        }
        Ok(out)
    }
}


impl PtpDataType {
/// Read one value of the PTP datatype `kind` from the reader.  An
/// unrecognized type code yields UNDEF and consumes nothing; whenever
/// the bytes at the reader are the canonical encoding of a value of
/// this datatype, exactly that value comes back.
#[verifier::rlimit(100)]
#[verifier::spinoff_prover]
pub fn read_type(kind: u16, reader: &mut Reader) -> (r: Result<PtpDataType, Error>)
    requires
        old(reader).wf(),
    ensures
        final(reader).wf(),
        final(reader).bytes() == old(reader).bytes(),
        r is Err ==> r->Err_0 == Error::Malformed(MalformedKind::UnexpectedEnd) || r->Err_0
            == Error::Malformed(MalformedKind::InvalidUtf16),
        dt_end(kind, old(reader).bytes(), old(reader).position()) is None ==> r == Err::<
            PtpDataType,
            Error,
        >(Error::Malformed(MalformedKind::UnexpectedEnd)),
        r is Ok ==> dt_end(kind, old(reader).bytes(), old(reader).position()) == Some(
            final(reader).position(),
        ),
        !is_known_dt_code(kind) ==> r is Ok && r->Ok_0@ is UNDEF && *final(reader) == *old(reader),
        r is Ok && is_known_dt_code(kind) ==> dt_code(r->Ok_0@) == kind,
        forall|w: DtValue| #![trigger dt_bytes(w)]
            dt_code(w) == kind && dt_encodable(w) && old(reader).position() + dt_bytes(w).len()
                <= old(reader).bytes().len() && old(reader).bytes().subrange(
                old(reader).position(),
                old(reader).position() + dt_bytes(w).len(),
            ) == dt_bytes(w) ==> r is Ok && r->Ok_0@ == w && final(reader).position() == old(
                reader,
            ).position() + dt_bytes(w).len(),
{
    let ghost b = reader.bytes();
    let ghost p = reader.position();
    match kind {
            0x0001u16 => match reader.read_ptp_i8() {
                Ok(x) => {
                    let ret = PtpDataType::INT8(x);
                    proof {
                        assert forall|w: DtValue| #![trigger dt_bytes(w)]
                            dt_code(w) == kind && dt_encodable(w) && p + dt_bytes(w).len() <= b.len()
                                && b.subrange(p, p + dt_bytes(w).len()) == dt_bytes(w)
                            implies ret@ == w && reader.position() == p + dt_bytes(w).len() by {
                            let y = w->INT8_0;
                            assert(b[p] == b.subrange(p, p + dt_bytes(w).len())[0]);
                            assert(b[p] == y as u8);
                            lemma_cast_i8(y);
                        }
                    }
                    Ok(ret)
                },
                Err(e) => {
                    proof {
                        assert forall|w: DtValue| #![trigger dt_bytes(w)]
                            dt_code(w) == kind && dt_encodable(w) && p + dt_bytes(w).len() <= b.len()
                                && b.subrange(p, p + dt_bytes(w).len()) == dt_bytes(w)
                            implies false by {
                            assert(dt_bytes(w).len() == 1);
                        }
                    }
                    Err(e)
                },
            },
            0x0002u16 => match reader.read_ptp_u8() {
                Ok(x) => {
                    let ret = PtpDataType::UINT8(x);
                    proof {
                        assert forall|w: DtValue| #![trigger dt_bytes(w)]
                            dt_code(w) == kind && dt_encodable(w) && p + dt_bytes(w).len() <= b.len()
                                && b.subrange(p, p + dt_bytes(w).len()) == dt_bytes(w)
                            implies ret@ == w && reader.position() == p + dt_bytes(w).len() by {
                            let y = w->UINT8_0;
                            assert(b[p] == b.subrange(p, p + dt_bytes(w).len())[0]);
                            assert(b[p] == y);
                        }
                    }
                    Ok(ret)
                },
                Err(e) => {
                    proof {
                        assert forall|w: DtValue| #![trigger dt_bytes(w)]
                            dt_code(w) == kind && dt_encodable(w) && p + dt_bytes(w).len() <= b.len()
                                && b.subrange(p, p + dt_bytes(w).len()) == dt_bytes(w)
                            implies false by {
                            assert(dt_bytes(w).len() == 1);
                        }
                    }
                    Err(e)
                },
            },
            0x0003u16 => match reader.read_ptp_i16() {
                Ok(x) => {
                    let ret = PtpDataType::INT16(x);
                    proof {
                        assert forall|w: DtValue| #![trigger dt_bytes(w)]
                            dt_code(w) == kind && dt_encodable(w) && p + dt_bytes(w).len() <= b.len()
                                && b.subrange(p, p + dt_bytes(w).len()) == dt_bytes(w)
                            implies ret@ == w && reader.position() == p + dt_bytes(w).len() by {
                            let y = w->INT16_0;
                            lemma_le16(y as u16);
                            lemma_cast_i16(y);
                            assert(b.subrange(p, p + 2) == le16(y as u16));
                            assert(u16_at(b, p) == y as u16) by {
                                vstd::bytes::lemma_auto_spec_u16_to_from_le_bytes();
                            }
                        }
                    }
                    Ok(ret)
                },
                Err(e) => {
                    proof {
                        assert forall|w: DtValue| #![trigger dt_bytes(w)]
                            dt_code(w) == kind && dt_encodable(w) && p + dt_bytes(w).len() <= b.len()
                                && b.subrange(p, p + dt_bytes(w).len()) == dt_bytes(w)
                            implies false by {
                            lemma_le16(w->INT16_0 as u16);
                        }
                    }
                    Err(e)
                },
            },
            0x0004u16 => match reader.read_ptp_u16() {
                Ok(x) => {
                    let ret = PtpDataType::UINT16(x);
                    proof {
                        assert forall|w: DtValue| #![trigger dt_bytes(w)]
                            dt_code(w) == kind && dt_encodable(w) && p + dt_bytes(w).len() <= b.len()
                                && b.subrange(p, p + dt_bytes(w).len()) == dt_bytes(w)
                            implies ret@ == w && reader.position() == p + dt_bytes(w).len() by {
                            let y = w->UINT16_0;
                            lemma_le16(y);
                            assert(b.subrange(p, p + 2) == le16(y));
                            assert(u16_at(b, p) == y) by {
                                vstd::bytes::lemma_auto_spec_u16_to_from_le_bytes();
                            }
                        }
                    }
                    Ok(ret)
                },
                Err(e) => {
                    proof {
                        assert forall|w: DtValue| #![trigger dt_bytes(w)]
                            dt_code(w) == kind && dt_encodable(w) && p + dt_bytes(w).len() <= b.len()
                                && b.subrange(p, p + dt_bytes(w).len()) == dt_bytes(w)
                            implies false by {
                            lemma_le16(w->UINT16_0);
                        }
                    }
                    Err(e)
                },
            },
            0x0005u16 => match reader.read_ptp_i32() {
                Ok(x) => {
                    let ret = PtpDataType::INT32(x);
                    proof {
                        assert forall|w: DtValue| #![trigger dt_bytes(w)]
                            dt_code(w) == kind && dt_encodable(w) && p + dt_bytes(w).len() <= b.len()
                                && b.subrange(p, p + dt_bytes(w).len()) == dt_bytes(w)
                            implies ret@ == w && reader.position() == p + dt_bytes(w).len() by {
                            let y = w->INT32_0;
                            lemma_le32(y as u32);
                            lemma_cast_i32(y);
                            assert(b.subrange(p, p + 4) == le32(y as u32));
                            assert(u32_at(b, p) == y as u32) by {
                                vstd::bytes::lemma_auto_spec_u32_to_from_le_bytes();
                            }
                        }
                    }
                    Ok(ret)
                },
                Err(e) => {
                    proof {
                        assert forall|w: DtValue| #![trigger dt_bytes(w)]
                            dt_code(w) == kind && dt_encodable(w) && p + dt_bytes(w).len() <= b.len()
                                && b.subrange(p, p + dt_bytes(w).len()) == dt_bytes(w)
                            implies false by {
                            lemma_le32(w->INT32_0 as u32);
                        }
                    }
                    Err(e)
                },
            },
            0x0006u16 => match reader.read_ptp_u32() {
                Ok(x) => {
                    let ret = PtpDataType::UINT32(x);
                    proof {
                        assert forall|w: DtValue| #![trigger dt_bytes(w)]
                            dt_code(w) == kind && dt_encodable(w) && p + dt_bytes(w).len() <= b.len()
                                && b.subrange(p, p + dt_bytes(w).len()) == dt_bytes(w)
                            implies ret@ == w && reader.position() == p + dt_bytes(w).len() by {
                            let y = w->UINT32_0;
                            lemma_le32(y);
                            assert(b.subrange(p, p + 4) == le32(y));
                            assert(u32_at(b, p) == y) by {
                                vstd::bytes::lemma_auto_spec_u32_to_from_le_bytes();
                            }
                        }
                    }
                    Ok(ret)
                },
                Err(e) => {
                    proof {
                        assert forall|w: DtValue| #![trigger dt_bytes(w)]
                            dt_code(w) == kind && dt_encodable(w) && p + dt_bytes(w).len() <= b.len()
                                && b.subrange(p, p + dt_bytes(w).len()) == dt_bytes(w)
                            implies false by {
                            lemma_le32(w->UINT32_0);
                        }
                    }
                    Err(e)
                },
            },
            0x0007u16 => match reader.read_ptp_i64() {
                Ok(x) => {
                    let ret = PtpDataType::INT64(x);
                    proof {
                        assert forall|w: DtValue| #![trigger dt_bytes(w)]
                            dt_code(w) == kind && dt_encodable(w) && p + dt_bytes(w).len() <= b.len()
                                && b.subrange(p, p + dt_bytes(w).len()) == dt_bytes(w)
                            implies ret@ == w && reader.position() == p + dt_bytes(w).len() by {
                            let y = w->INT64_0;
                            lemma_le64(y as u64);
                            lemma_cast_i64(y);
                            assert(b.subrange(p, p + 8) == le64(y as u64));
                            assert(u64_at(b, p) == y as u64) by {
                                vstd::bytes::lemma_auto_spec_u64_to_from_le_bytes();
                            }
                        }
                    }
                    Ok(ret)
                },
                Err(e) => {
                    proof {
                        assert forall|w: DtValue| #![trigger dt_bytes(w)]
                            dt_code(w) == kind && dt_encodable(w) && p + dt_bytes(w).len() <= b.len()
                                && b.subrange(p, p + dt_bytes(w).len()) == dt_bytes(w)
                            implies false by {
                            lemma_le64(w->INT64_0 as u64);
                        }
                    }
                    Err(e)
                },
            },
            0x0008u16 => match reader.read_ptp_u64() {
                Ok(x) => {
                    let ret = PtpDataType::UINT64(x);
                    proof {
                        assert forall|w: DtValue| #![trigger dt_bytes(w)]
                            dt_code(w) == kind && dt_encodable(w) && p + dt_bytes(w).len() <= b.len()
                                && b.subrange(p, p + dt_bytes(w).len()) == dt_bytes(w)
                            implies ret@ == w && reader.position() == p + dt_bytes(w).len() by {
                            let y = w->UINT64_0;
                            lemma_le64(y);
                            assert(b.subrange(p, p + 8) == le64(y));
                            assert(u64_at(b, p) == y) by {
                                vstd::bytes::lemma_auto_spec_u64_to_from_le_bytes();
                            }
                        }
                    }
                    Ok(ret)
                },
                Err(e) => {
                    proof {
                        assert forall|w: DtValue| #![trigger dt_bytes(w)]
                            dt_code(w) == kind && dt_encodable(w) && p + dt_bytes(w).len() <= b.len()
                                && b.subrange(p, p + dt_bytes(w).len()) == dt_bytes(w)
                            implies false by {
                            lemma_le64(w->UINT64_0);
                        }
                    }
                    Err(e)
                },
            },
            0x0009u16 => match reader.read_ptp_i128() {
                Ok(x) => {
                    let ret = PtpDataType::INT128(x);
                    proof {
                        assert forall|w: DtValue| #![trigger dt_bytes(w)]
                            dt_code(w) == kind && dt_encodable(w) && p + dt_bytes(w).len() <= b.len()
                                && b.subrange(p, p + dt_bytes(w).len()) == dt_bytes(w)
                            implies ret@ == w && reader.position() == p + dt_bytes(w).len() by {
                            let y = w->INT128_0;
                            lemma_le64(y.0);
                            lemma_le64(y.1);
                            assert(dt_bytes(w).len() == 16);
                            lemma_pair_region(b, p, y);
                        }
                    }
                    Ok(ret)
                },
                Err(e) => {
                    proof {
                        assert forall|w: DtValue| #![trigger dt_bytes(w)]
                            dt_code(w) == kind && dt_encodable(w) && p + dt_bytes(w).len() <= b.len()
                                && b.subrange(p, p + dt_bytes(w).len()) == dt_bytes(w)
                            implies false by {
                            let y = w->INT128_0;
                            lemma_le64(y.0);
                            lemma_le64(y.1);
                            assert(dt_bytes(w).len() == 16);
                        }
                    }
                    Err(e)
                },
            },
            0x000Au16 => match reader.read_ptp_u128() {
                Ok(x) => {
                    let ret = PtpDataType::UINT128(x);
                    proof {
                        assert forall|w: DtValue| #![trigger dt_bytes(w)]
                            dt_code(w) == kind && dt_encodable(w) && p + dt_bytes(w).len() <= b.len()
                                && b.subrange(p, p + dt_bytes(w).len()) == dt_bytes(w)
                            implies ret@ == w && reader.position() == p + dt_bytes(w).len() by {
                            let y = w->UINT128_0;
                            lemma_le64(y.0);
                            lemma_le64(y.1);
                            assert(dt_bytes(w).len() == 16);
                            lemma_pair_region(b, p, y);
                        }
                    }
                    Ok(ret)
                },
                Err(e) => {
                    proof {
                        assert forall|w: DtValue| #![trigger dt_bytes(w)]
                            dt_code(w) == kind && dt_encodable(w) && p + dt_bytes(w).len() <= b.len()
                                && b.subrange(p, p + dt_bytes(w).len()) == dt_bytes(w)
                            implies false by {
                            let y = w->UINT128_0;
                            lemma_le64(y.0);
                            lemma_le64(y.1);
                            assert(dt_bytes(w).len() == 16);
                        }
                    }
                    Err(e)
                },
            },
            0x4001u16 => match reader.read_ptp_i8_vec() {
                Ok(x) => {
                    let ret = PtpDataType::AINT8(x);
                    proof {
                        assert forall|w: DtValue| #![trigger dt_bytes(w)]
                            dt_code(w) == kind && dt_encodable(w) && p + dt_bytes(w).len() <= b.len()
                                && b.subrange(p, p + dt_bytes(w).len()) == dt_bytes(w)
                            implies ret@ == w && reader.position() == p + dt_bytes(w).len() by {
                            let u = w->AINT8_0;
                            let fl = |x: i8| seq![x as u8];
                            assert forall|x: i8| (#[trigger] fl(x)).len() == 1 by {
                                
                            }
                            lemma_concat_bytes_len(u, fl, 1);
                            assert(w == DtValue::AINT8(u));
                            lemma_le32(u.len() as u32);
                            assert(dt_bytes(w) == le32(u.len() as u32) + concat_bytes(u, fl));
                            assert(dt_bytes(w).len() == 4 + 1 * u.len());
                            lemma_counted_region(b, p, u, fl, 1);
                            lemma_i8s_at_concat(b, p + 4, u);
                        }
                    }
                    Ok(ret)
                },
                Err(e) => {
                    proof {
                        assert forall|w: DtValue| #![trigger dt_bytes(w)]
                            dt_code(w) == kind && dt_encodable(w) && p + dt_bytes(w).len() <= b.len()
                                && b.subrange(p, p + dt_bytes(w).len()) == dt_bytes(w)
                            implies false by {
                            let u = w->AINT8_0;
                            let fl = |x: i8| seq![x as u8];
                            assert forall|x: i8| (#[trigger] fl(x)).len() == 1 by {
                                
                            }
                            lemma_concat_bytes_len(u, fl, 1);
                            assert(w == DtValue::AINT8(u));
                            lemma_le32(u.len() as u32);
                            assert(dt_bytes(w) == le32(u.len() as u32) + concat_bytes(u, fl));
                            assert(dt_bytes(w).len() == 4 + 1 * u.len());
                            lemma_counted_region(b, p, u, fl, 1);
                        }
                    }
                    Err(e)
                },
            },
            0x4002u16 => match reader.read_ptp_u8_vec() {
                Ok(x) => {
                    let ret = PtpDataType::AUINT8(x);
                    proof {
                        assert forall|w: DtValue| #![trigger dt_bytes(w)]
                            dt_code(w) == kind && dt_encodable(w) && p + dt_bytes(w).len() <= b.len()
                                && b.subrange(p, p + dt_bytes(w).len()) == dt_bytes(w)
                            implies ret@ == w && reader.position() == p + dt_bytes(w).len() by {
                            let u = w->AUINT8_0;
                            let fl = |x: u8| seq![x];
                            assert forall|x: u8| (#[trigger] fl(x)).len() == 1 by {
                                
                            }
                            lemma_concat_bytes_len(u, fl, 1);
                            assert(w == DtValue::AUINT8(u));
                            lemma_le32(u.len() as u32);
                            assert(dt_bytes(w) == le32(u.len() as u32) + concat_bytes(u, fl));
                            assert(dt_bytes(w).len() == 4 + 1 * u.len());
                            lemma_counted_region(b, p, u, fl, 1);
                            lemma_u8s_at_concat(b, p + 4, u);
                        }
                    }
                    Ok(ret)
                },
                Err(e) => {
                    proof {
                        assert forall|w: DtValue| #![trigger dt_bytes(w)]
                            dt_code(w) == kind && dt_encodable(w) && p + dt_bytes(w).len() <= b.len()
                                && b.subrange(p, p + dt_bytes(w).len()) == dt_bytes(w)
                            implies false by {
                            let u = w->AUINT8_0;
                            let fl = |x: u8| seq![x];
                            assert forall|x: u8| (#[trigger] fl(x)).len() == 1 by {
                                
                            }
                            lemma_concat_bytes_len(u, fl, 1);
                            assert(w == DtValue::AUINT8(u));
                            lemma_le32(u.len() as u32);
                            assert(dt_bytes(w) == le32(u.len() as u32) + concat_bytes(u, fl));
                            assert(dt_bytes(w).len() == 4 + 1 * u.len());
                            lemma_counted_region(b, p, u, fl, 1);
                        }
                    }
                    Err(e)
                },
            },
            0x4003u16 => match reader.read_ptp_i16_vec() {
                Ok(x) => {
                    let ret = PtpDataType::AINT16(x);
                    proof {
                        assert forall|w: DtValue| #![trigger dt_bytes(w)]
                            dt_code(w) == kind && dt_encodable(w) && p + dt_bytes(w).len() <= b.len()
                                && b.subrange(p, p + dt_bytes(w).len()) == dt_bytes(w)
                            implies ret@ == w && reader.position() == p + dt_bytes(w).len() by {
                            let u = w->AINT16_0;
                            let fl = |x: i16| le16(x as u16);
                            assert forall|x: i16| (#[trigger] fl(x)).len() == 2 by {
                                lemma_le16(x as u16);
                            }
                            lemma_concat_bytes_len(u, fl, 2);
                            assert(w == DtValue::AINT16(u));
                            lemma_le32(u.len() as u32);
                            assert(dt_bytes(w) == le32(u.len() as u32) + concat_bytes(u, fl));
                            assert(dt_bytes(w).len() == 4 + 2 * u.len());
                            lemma_counted_region(b, p, u, fl, 2);
                            lemma_i16s_at_concat(b, p + 4, u);
                        }
                    }
                    Ok(ret)
                },
                Err(e) => {
                    proof {
                        assert forall|w: DtValue| #![trigger dt_bytes(w)]
                            dt_code(w) == kind && dt_encodable(w) && p + dt_bytes(w).len() <= b.len()
                                && b.subrange(p, p + dt_bytes(w).len()) == dt_bytes(w)
                            implies false by {
                            let u = w->AINT16_0;
                            let fl = |x: i16| le16(x as u16);
                            assert forall|x: i16| (#[trigger] fl(x)).len() == 2 by {
                                lemma_le16(x as u16);
                            }
                            lemma_concat_bytes_len(u, fl, 2);
                            assert(w == DtValue::AINT16(u));
                            lemma_le32(u.len() as u32);
                            assert(dt_bytes(w) == le32(u.len() as u32) + concat_bytes(u, fl));
                            assert(dt_bytes(w).len() == 4 + 2 * u.len());
                            lemma_counted_region(b, p, u, fl, 2);
                        }
                    }
                    Err(e)
                },
            },
            0x4004u16 => match reader.read_ptp_u16_vec() {
                Ok(x) => {
                    let ret = PtpDataType::AUINT16(x);
                    proof {
                        assert forall|w: DtValue| #![trigger dt_bytes(w)]
                            dt_code(w) == kind && dt_encodable(w) && p + dt_bytes(w).len() <= b.len()
                                && b.subrange(p, p + dt_bytes(w).len()) == dt_bytes(w)
                            implies ret@ == w && reader.position() == p + dt_bytes(w).len() by {
                            let u = w->AUINT16_0;
                            let fl = |x: u16| le16(x);
                            assert forall|x: u16| (#[trigger] fl(x)).len() == 2 by {
                                lemma_le16(x);
                            }
                            lemma_concat_bytes_len(u, fl, 2);
                            assert(w == DtValue::AUINT16(u));
                            lemma_le32(u.len() as u32);
                            assert(dt_bytes(w) == le32(u.len() as u32) + concat_bytes(u, fl));
                            assert(dt_bytes(w).len() == 4 + 2 * u.len());
                            lemma_counted_region(b, p, u, fl, 2);
                            lemma_u16s_at_concat(b, p + 4, u);
                        }
                    }
                    Ok(ret)
                },
                Err(e) => {
                    proof {
                        assert forall|w: DtValue| #![trigger dt_bytes(w)]
                            dt_code(w) == kind && dt_encodable(w) && p + dt_bytes(w).len() <= b.len()
                                && b.subrange(p, p + dt_bytes(w).len()) == dt_bytes(w)
                            implies false by {
                            let u = w->AUINT16_0;
                            let fl = |x: u16| le16(x);
                            assert forall|x: u16| (#[trigger] fl(x)).len() == 2 by {
                                lemma_le16(x);
                            }
                            lemma_concat_bytes_len(u, fl, 2);
                            assert(w == DtValue::AUINT16(u));
                            lemma_le32(u.len() as u32);
                            assert(dt_bytes(w) == le32(u.len() as u32) + concat_bytes(u, fl));
                            assert(dt_bytes(w).len() == 4 + 2 * u.len());
                            lemma_counted_region(b, p, u, fl, 2);
                        }
                    }
                    Err(e)
                },
            },
            0x4005u16 => match reader.read_ptp_i32_vec() {
                Ok(x) => {
                    let ret = PtpDataType::AINT32(x);
                    proof {
                        assert forall|w: DtValue| #![trigger dt_bytes(w)]
                            dt_code(w) == kind && dt_encodable(w) && p + dt_bytes(w).len() <= b.len()
                                && b.subrange(p, p + dt_bytes(w).len()) == dt_bytes(w)
                            implies ret@ == w && reader.position() == p + dt_bytes(w).len() by {
                            let u = w->AINT32_0;
                            let fl = |x: i32| le32(x as u32);
                            assert forall|x: i32| (#[trigger] fl(x)).len() == 4 by {
                                lemma_le32(x as u32);
                            }
                            lemma_concat_bytes_len(u, fl, 4);
                            assert(w == DtValue::AINT32(u));
                            lemma_le32(u.len() as u32);
                            assert(dt_bytes(w) == le32(u.len() as u32) + concat_bytes(u, fl));
                            assert(dt_bytes(w).len() == 4 + 4 * u.len());
                            lemma_counted_region(b, p, u, fl, 4);
                            lemma_i32s_at_concat(b, p + 4, u);
                        }
                    }
                    Ok(ret)
                },
                Err(e) => {
                    proof {
                        assert forall|w: DtValue| #![trigger dt_bytes(w)]
                            dt_code(w) == kind && dt_encodable(w) && p + dt_bytes(w).len() <= b.len()
                                && b.subrange(p, p + dt_bytes(w).len()) == dt_bytes(w)
                            implies false by {
                            let u = w->AINT32_0;
                            let fl = |x: i32| le32(x as u32);
                            assert forall|x: i32| (#[trigger] fl(x)).len() == 4 by {
                                lemma_le32(x as u32);
                            }
                            lemma_concat_bytes_len(u, fl, 4);
                            assert(w == DtValue::AINT32(u));
                            lemma_le32(u.len() as u32);
                            assert(dt_bytes(w) == le32(u.len() as u32) + concat_bytes(u, fl));
                            assert(dt_bytes(w).len() == 4 + 4 * u.len());
                            lemma_counted_region(b, p, u, fl, 4);
                        }
                    }
                    Err(e)
                },
            },
            0x4006u16 => match reader.read_ptp_u32_vec() {
                Ok(x) => {
                    let ret = PtpDataType::AUINT32(x);
                    proof {
                        assert forall|w: DtValue| #![trigger dt_bytes(w)]
                            dt_code(w) == kind && dt_encodable(w) && p + dt_bytes(w).len() <= b.len()
                                && b.subrange(p, p + dt_bytes(w).len()) == dt_bytes(w)
                            implies ret@ == w && reader.position() == p + dt_bytes(w).len() by {
                            let u = w->AUINT32_0;
                            let fl = |x: u32| le32(x);
                            assert forall|x: u32| (#[trigger] fl(x)).len() == 4 by {
                                lemma_le32(x);
                            }
                            lemma_concat_bytes_len(u, fl, 4);
                            assert(w == DtValue::AUINT32(u));
                            lemma_le32(u.len() as u32);
                            assert(dt_bytes(w) == le32(u.len() as u32) + concat_bytes(u, fl));
                            assert(dt_bytes(w).len() == 4 + 4 * u.len());
                            lemma_counted_region(b, p, u, fl, 4);
                            lemma_u32s_at_concat(b, p + 4, u);
                        }
                    }
                    Ok(ret)
                },
                Err(e) => {
                    proof {
                        assert forall|w: DtValue| #![trigger dt_bytes(w)]
                            dt_code(w) == kind && dt_encodable(w) && p + dt_bytes(w).len() <= b.len()
                                && b.subrange(p, p + dt_bytes(w).len()) == dt_bytes(w)
                            implies false by {
                            let u = w->AUINT32_0;
                            let fl = |x: u32| le32(x);
                            assert forall|x: u32| (#[trigger] fl(x)).len() == 4 by {
                                lemma_le32(x);
                            }
                            lemma_concat_bytes_len(u, fl, 4);
                            assert(w == DtValue::AUINT32(u));
                            lemma_le32(u.len() as u32);
                            assert(dt_bytes(w) == le32(u.len() as u32) + concat_bytes(u, fl));
                            assert(dt_bytes(w).len() == 4 + 4 * u.len());
                            lemma_counted_region(b, p, u, fl, 4);
                        }
                    }
                    Err(e)
                },
            },
            0x4007u16 => match reader.read_ptp_i64_vec() {
                Ok(x) => {
                    let ret = PtpDataType::AINT64(x);
                    proof {
                        assert forall|w: DtValue| #![trigger dt_bytes(w)]
                            dt_code(w) == kind && dt_encodable(w) && p + dt_bytes(w).len() <= b.len()
                                && b.subrange(p, p + dt_bytes(w).len()) == dt_bytes(w)
                            implies ret@ == w && reader.position() == p + dt_bytes(w).len() by {
                            let u = w->AINT64_0;
                            let fl = |x: i64| le64(x as u64);
                            assert forall|x: i64| (#[trigger] fl(x)).len() == 8 by {
                                lemma_le64(x as u64);
                            }
                            lemma_concat_bytes_len(u, fl, 8);
                            assert(w == DtValue::AINT64(u));
                            lemma_le32(u.len() as u32);
                            assert(dt_bytes(w) == le32(u.len() as u32) + concat_bytes(u, fl));
                            assert(dt_bytes(w).len() == 4 + 8 * u.len());
                            lemma_counted_region(b, p, u, fl, 8);
                            lemma_i64s_at_concat(b, p + 4, u);
                        }
                    }
                    Ok(ret)
                },
                Err(e) => {
                    proof {
                        assert forall|w: DtValue| #![trigger dt_bytes(w)]
                            dt_code(w) == kind && dt_encodable(w) && p + dt_bytes(w).len() <= b.len()
                                && b.subrange(p, p + dt_bytes(w).len()) == dt_bytes(w)
                            implies false by {
                            let u = w->AINT64_0;
                            let fl = |x: i64| le64(x as u64);
                            assert forall|x: i64| (#[trigger] fl(x)).len() == 8 by {
                                lemma_le64(x as u64);
                            }
                            lemma_concat_bytes_len(u, fl, 8);
                            assert(w == DtValue::AINT64(u));
                            lemma_le32(u.len() as u32);
                            assert(dt_bytes(w) == le32(u.len() as u32) + concat_bytes(u, fl));
                            assert(dt_bytes(w).len() == 4 + 8 * u.len());
                            lemma_counted_region(b, p, u, fl, 8);
                        }
                    }
                    Err(e)
                },
            },
            0x4008u16 => match reader.read_ptp_u64_vec() {
                Ok(x) => {
                    let ret = PtpDataType::AUINT64(x);
                    proof {
                        assert forall|w: DtValue| #![trigger dt_bytes(w)]
                            dt_code(w) == kind && dt_encodable(w) && p + dt_bytes(w).len() <= b.len()
                                && b.subrange(p, p + dt_bytes(w).len()) == dt_bytes(w)
                            implies ret@ == w && reader.position() == p + dt_bytes(w).len() by {
                            let u = w->AUINT64_0;
                            let fl = |x: u64| le64(x);
                            assert forall|x: u64| (#[trigger] fl(x)).len() == 8 by {
                                lemma_le64(x);
                            }
                            lemma_concat_bytes_len(u, fl, 8);
                            assert(w == DtValue::AUINT64(u));
                            lemma_le32(u.len() as u32);
                            assert(dt_bytes(w) == le32(u.len() as u32) + concat_bytes(u, fl));
                            assert(dt_bytes(w).len() == 4 + 8 * u.len());
                            lemma_counted_region(b, p, u, fl, 8);
                            lemma_u64s_at_concat(b, p + 4, u);
                        }
                    }
                    Ok(ret)
                },
                Err(e) => {
                    proof {
                        assert forall|w: DtValue| #![trigger dt_bytes(w)]
                            dt_code(w) == kind && dt_encodable(w) && p + dt_bytes(w).len() <= b.len()
                                && b.subrange(p, p + dt_bytes(w).len()) == dt_bytes(w)
                            implies false by {
                            let u = w->AUINT64_0;
                            let fl = |x: u64| le64(x);
                            assert forall|x: u64| (#[trigger] fl(x)).len() == 8 by {
                                lemma_le64(x);
                            }
                            lemma_concat_bytes_len(u, fl, 8);
                            assert(w == DtValue::AUINT64(u));
                            lemma_le32(u.len() as u32);
                            assert(dt_bytes(w) == le32(u.len() as u32) + concat_bytes(u, fl));
                            assert(dt_bytes(w).len() == 4 + 8 * u.len());
                            lemma_counted_region(b, p, u, fl, 8);
                        }
                    }
                    Err(e)
                },
            },
            0x4009u16 => match reader.read_ptp_i128_vec() {
                Ok(x) => {
                    let ret = PtpDataType::AINT128(x);
                    proof {
                        assert forall|w: DtValue| #![trigger dt_bytes(w)]
                            dt_code(w) == kind && dt_encodable(w) && p + dt_bytes(w).len() <= b.len()
                                && b.subrange(p, p + dt_bytes(w).len()) == dt_bytes(w)
                            implies ret@ == w && reader.position() == p + dt_bytes(w).len() by {
                            let u = w->AINT128_0;
                            let fl = |x: (u64, u64)| pair_bytes(x);
                            assert forall|x: (u64, u64)| (#[trigger] fl(x)).len() == 16 by {
                                lemma_le64(x.0);
                                lemma_le64(x.1);
                            }
                            lemma_concat_bytes_len(u, fl, 16);
                            assert(w == DtValue::AINT128(u));
                            lemma_le32(u.len() as u32);
                            assert(dt_bytes(w) == le32(u.len() as u32) + concat_bytes(u, fl));
                            assert(dt_bytes(w).len() == 4 + 16 * u.len());
                            lemma_counted_region(b, p, u, fl, 16);
                            lemma_pairs_at_concat(b, p + 4, u);
                        }
                    }
                    Ok(ret)
                },
                Err(e) => {
                    proof {
                        assert forall|w: DtValue| #![trigger dt_bytes(w)]
                            dt_code(w) == kind && dt_encodable(w) && p + dt_bytes(w).len() <= b.len()
                                && b.subrange(p, p + dt_bytes(w).len()) == dt_bytes(w)
                            implies false by {
                            let u = w->AINT128_0;
                            let fl = |x: (u64, u64)| pair_bytes(x);
                            assert forall|x: (u64, u64)| (#[trigger] fl(x)).len() == 16 by {
                                lemma_le64(x.0);
                                lemma_le64(x.1);
                            }
                            lemma_concat_bytes_len(u, fl, 16);
                            assert(w == DtValue::AINT128(u));
                            lemma_le32(u.len() as u32);
                            assert(dt_bytes(w) == le32(u.len() as u32) + concat_bytes(u, fl));
                            assert(dt_bytes(w).len() == 4 + 16 * u.len());
                            lemma_counted_region(b, p, u, fl, 16);
                        }
                    }
                    Err(e)
                },
            },
            0x400Au16 => match reader.read_ptp_u128_vec() {
                Ok(x) => {
                    let ret = PtpDataType::AUINT128(x);
                    proof {
                        assert forall|w: DtValue| #![trigger dt_bytes(w)]
                            dt_code(w) == kind && dt_encodable(w) && p + dt_bytes(w).len() <= b.len()
                                && b.subrange(p, p + dt_bytes(w).len()) == dt_bytes(w)
                            implies ret@ == w && reader.position() == p + dt_bytes(w).len() by {
                            let u = w->AUINT128_0;
                            let fl = |x: (u64, u64)| pair_bytes(x);
                            assert forall|x: (u64, u64)| (#[trigger] fl(x)).len() == 16 by {
                                lemma_le64(x.0);
                                lemma_le64(x.1);
                            }
                            lemma_concat_bytes_len(u, fl, 16);
                            assert(w == DtValue::AUINT128(u));
                            lemma_le32(u.len() as u32);
                            assert(dt_bytes(w) == le32(u.len() as u32) + concat_bytes(u, fl));
                            assert(dt_bytes(w).len() == 4 + 16 * u.len());
                            lemma_counted_region(b, p, u, fl, 16);
                            lemma_pairs_at_concat(b, p + 4, u);
                        }
                    }
                    Ok(ret)
                },
                Err(e) => {
                    proof {
                        assert forall|w: DtValue| #![trigger dt_bytes(w)]
                            dt_code(w) == kind && dt_encodable(w) && p + dt_bytes(w).len() <= b.len()
                                && b.subrange(p, p + dt_bytes(w).len()) == dt_bytes(w)
                            implies false by {
                            let u = w->AUINT128_0;
                            let fl = |x: (u64, u64)| pair_bytes(x);
                            assert forall|x: (u64, u64)| (#[trigger] fl(x)).len() == 16 by {
                                lemma_le64(x.0);
                                lemma_le64(x.1);
                            }
                            lemma_concat_bytes_len(u, fl, 16);
                            assert(w == DtValue::AUINT128(u));
                            lemma_le32(u.len() as u32);
                            assert(dt_bytes(w) == le32(u.len() as u32) + concat_bytes(u, fl));
                            assert(dt_bytes(w).len() == 4 + 16 * u.len());
                            lemma_counted_region(b, p, u, fl, 16);
                        }
                    }
                    Err(e)
                },
            },
            0xFFFFu16 => match reader.read_ptp_str() {
                Ok(x) => {
                    let ret = PtpDataType::STR(x);
                    proof {
                        assert forall|w: DtValue| #![trigger dt_bytes(w)]
                            dt_code(w) == kind && dt_encodable(w) && p + dt_bytes(w).len() <= b.len()
                                && b.subrange(p, p + dt_bytes(w).len()) == dt_bytes(w)
                            implies ret@ == w && reader.position() == p + dt_bytes(w).len() by {
                            let sv = w->STR_0;
                            assert(dt_bytes(w) == spec_ptp_str(sv));
                        }
                    }
                    Ok(ret)
                },
                Err(e) => {
                    proof {
                        assert forall|w: DtValue| #![trigger dt_bytes(w)]
                            dt_code(w) == kind && dt_encodable(w) && p + dt_bytes(w).len() <= b.len()
                                && b.subrange(p, p + dt_bytes(w).len()) == dt_bytes(w)
                            implies false by {
                            let sv = w->STR_0;
                            assert(dt_bytes(w) == spec_ptp_str(sv));
                        }
                    }
                    Err(e)
                },
            },
        _ => {
            let ret = PtpDataType::UNDEF;
            proof {
                assert forall|w: DtValue| #![trigger dt_bytes(w)]
                    dt_code(w) == kind && dt_encodable(w) && p + dt_bytes(w).len() <= b.len()
                        && b.subrange(p, p + dt_bytes(w).len()) == dt_bytes(w)
                    implies ret@ == w && reader.position() == p + dt_bytes(w).len() by {
                    assert(w is UNDEF);
                    assert(dt_bytes(w).len() == 0);
                }
            }
            Ok(ret)
        },
    }
}
}

} // verus!
