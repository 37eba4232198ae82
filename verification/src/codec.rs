//! Little-endian byte codec for PTP wire data: a positioned reader over a
//! byte buffer, append-style writers, and the spec-level byte layouts that
//! the contracts of the whole library are stated over.
use vstd::prelude::*;
use vstd::bytes::*;
use vstd::slice::slice_subrange;
use crate::error::{Error, MalformedKind};

verus! {

/// The two little-endian bytes of a 16-bit value.
pub open spec fn le16(x: u16) -> Seq<u8> {
    spec_u16_to_le_bytes(x)
}

/// The four little-endian bytes of a 32-bit value.
pub open spec fn le32(x: u32) -> Seq<u8> {
    spec_u32_to_le_bytes(x)
}

/// The eight little-endian bytes of a 64-bit value.
pub open spec fn le64(x: u64) -> Seq<u8> {
    spec_u64_to_le_bytes(x)
}

/// The 16-bit value whose little-endian bytes sit at `p` in `b`.
pub open spec fn u16_at(b: Seq<u8>, p: int) -> u16 {
    spec_u16_from_le_bytes(b.subrange(p, p + 2))
}

/// The 32-bit value whose little-endian bytes sit at `p` in `b`.
pub open spec fn u32_at(b: Seq<u8>, p: int) -> u32 {
    spec_u32_from_le_bytes(b.subrange(p, p + 4))
}

/// The 64-bit value whose little-endian bytes sit at `p` in `b`.
pub open spec fn u64_at(b: Seq<u8>, p: int) -> u64 {
    spec_u64_from_le_bytes(b.subrange(p, p + 8))
}

/// Round trip of the 16-bit layout: reading back what was written, and
/// the injectivity that follows.
pub proof fn lemma_le16(x: u16)
    ensures
        le16(x).len() == 2,
        u16_at(le16(x), 0) == x,
        forall|y: u16| le16(x) == le16(y) ==> x == y,
{
    lemma_auto_spec_u16_to_from_le_bytes();
    assert(le16(x).subrange(0, 2) =~= le16(x));
    assert forall|y: u16| le16(x) == le16(y) implies x == y by {
        lemma_auto_spec_u16_to_from_le_bytes();
    }
}

/// Round trip of the 32-bit layout, and injectivity.
pub proof fn lemma_le32(x: u32)
    ensures
        le32(x).len() == 4,
        u32_at(le32(x), 0) == x,
        forall|y: u32| le32(x) == le32(y) ==> x == y,
{
    lemma_auto_spec_u32_to_from_le_bytes();
    assert(le32(x).subrange(0, 4) =~= le32(x));
    assert forall|y: u32| le32(x) == le32(y) implies x == y by {
        lemma_auto_spec_u32_to_from_le_bytes();
    }
}

/// Round trip of the 64-bit layout, and injectivity.
pub proof fn lemma_le64(x: u64)
    ensures
        le64(x).len() == 8,
        u64_at(le64(x), 0) == x,
        forall|y: u64| le64(x) == le64(y) ==> x == y,
{
    lemma_auto_spec_u64_to_from_le_bytes();
    assert(le64(x).subrange(0, 8) =~= le64(x));
    assert forall|y: u64| le64(x) == le64(y) implies x == y by {
        lemma_auto_spec_u64_to_from_le_bytes();
    }
}

/// The concatenated encodings of the elements of `s` under `f`.
pub open spec fn concat_bytes<T>(s: Seq<T>, f: spec_fn(T) -> Seq<u8>) -> Seq<u8>
    decreases s.len(),
{
    if s.len() == 0 {
        Seq::empty()
    } else {
        f(s[0]) + concat_bytes(s.drop_first(), f)
    }
}

/// Appending one element appends its encoding.
pub proof fn lemma_concat_bytes_push<T>(s: Seq<T>, x: T, f: spec_fn(T) -> Seq<u8>)
    ensures
        concat_bytes(s.push(x), f) == concat_bytes(s, f) + f(x),
    decreases s.len(),
{
    let t = s.push(x);
    if s.len() == 0 {
        assert(t[0] == x);
        assert(t.drop_first() =~= Seq::<T>::empty());
        assert(concat_bytes(t, f) == f(t[0]) + concat_bytes(t.drop_first(), f));
        assert(concat_bytes(t.drop_first(), f) == Seq::<u8>::empty());
        assert(f(x) + Seq::<u8>::empty() =~= f(x));
        assert(concat_bytes(t, f) =~= f(x));
        assert(concat_bytes(s, f) + f(x) =~= f(x));
    } else {
        assert(t[0] == s[0]);
        assert(t.drop_first() =~= s.drop_first().push(x));
        lemma_concat_bytes_push(s.drop_first(), x, f);
        assert(concat_bytes(t, f) =~= f(s[0]) + (concat_bytes(s.drop_first(), f) + f(x)));
        assert(f(s[0]) + (concat_bytes(s.drop_first(), f) + f(x)) =~= (f(s[0]) + concat_bytes(
            s.drop_first(),
            f,
        )) + f(x));
        assert(concat_bytes(t, f) =~= concat_bytes(s, f) + f(x));
    }
}

/// When every element encodes to `w` bytes, the concatenation has
/// `w * s.len()` bytes.
pub proof fn lemma_concat_bytes_len<T>(s: Seq<T>, f: spec_fn(T) -> Seq<u8>, w: nat)
    requires
        forall|x: T| (#[trigger] f(x)).len() == w,
    ensures
        concat_bytes(s, f).len() == w * s.len(),
    decreases s.len(),
{
    if s.len() == 0 {
    } else {
        lemma_concat_bytes_len(s.drop_first(), f, w);
        assert(w * s.len() == w + w * (s.len() - 1)) by (nonlinear_arith);
    }
}


/// The `n` bytes of `b` starting at `p`.
pub open spec fn u8s_at(b: Seq<u8>, p: int, n: nat) -> Seq<u8> {
    Seq::new(n, |i: int| b[p + i])
}

/// The `n` bytes of `b` starting at `p`, as signed values.
pub open spec fn i8s_at(b: Seq<u8>, p: int, n: nat) -> Seq<i8> {
    Seq::new(n, |i: int| b[p + i] as i8)
}

/// The `n` 16-bit little-endian values of `b` starting at `p`.
pub open spec fn u16s_at(b: Seq<u8>, p: int, n: nat) -> Seq<u16> {
    Seq::new(n, |i: int| u16_at(b, p + 2 * i))
}

/// The `n` 16-bit little-endian values of `b` starting at `p`, signed.
pub open spec fn i16s_at(b: Seq<u8>, p: int, n: nat) -> Seq<i16> {
    Seq::new(n, |i: int| u16_at(b, p + 2 * i) as i16)
}

/// The `n` 32-bit little-endian values of `b` starting at `p`.
pub open spec fn u32s_at(b: Seq<u8>, p: int, n: nat) -> Seq<u32> {
    Seq::new(n, |i: int| u32_at(b, p + 4 * i))
}

/// The `n` 32-bit little-endian values of `b` starting at `p`, signed.
pub open spec fn i32s_at(b: Seq<u8>, p: int, n: nat) -> Seq<i32> {
    Seq::new(n, |i: int| u32_at(b, p + 4 * i) as i32)
}

/// The `n` 64-bit little-endian values of `b` starting at `p`.
pub open spec fn u64s_at(b: Seq<u8>, p: int, n: nat) -> Seq<u64> {
    Seq::new(n, |i: int| u64_at(b, p + 8 * i))
}

/// The `n` 64-bit little-endian values of `b` starting at `p`, signed.
pub open spec fn i64s_at(b: Seq<u8>, p: int, n: nat) -> Seq<i64> {
    Seq::new(n, |i: int| u64_at(b, p + 8 * i) as i64)
}

/// The `n` 128-bit values of `b` starting at `p`, each carried as a
/// (low, high) pair of 64-bit halves, the low half first on the wire.
pub open spec fn pairs_at(b: Seq<u8>, p: int, n: nat) -> Seq<(u64, u64)> {
    Seq::new(n, |i: int| (u64_at(b, p + 16 * i), u64_at(b, p + 16 * i + 8)))
}

/// A concatenation of single-byte encodings is the sequence itself.
pub proof fn lemma_concat_bytes_u8(u: Seq<u8>)
    ensures
        concat_bytes(u, |x: u8| seq![x]) == u,
    decreases u.len(),
{
    let f = |x: u8| seq![x];
    if u.len() == 0 {
        assert(concat_bytes(u, f) =~= u);
    } else {
        lemma_concat_bytes_u8(u.drop_first());
        assert(concat_bytes(u, f) =~= u);
    }
}

/// Reading byte elements out of their concatenated encoding gives the
/// elements back.
pub proof fn lemma_u8s_at_concat(b: Seq<u8>, p: int, u: Seq<u8>)
    requires
        0 <= p,
        p + u.len() <= b.len(),
        b.subrange(p, p + u.len() as int) == concat_bytes(u, |x: u8| seq![x]),
    ensures
        u8s_at(b, p, u.len()) == u,
{
    lemma_concat_bytes_u8(u);
    assert(u8s_at(b, p, u.len()) =~= u);
}

/// Reading 16-bit elements out of their concatenated little-endian
/// encoding gives the elements back.
pub proof fn lemma_u16s_at_concat(b: Seq<u8>, p: int, u: Seq<u16>)
    requires
        0 <= p,
        p + 2 * u.len() <= b.len(),
        b.subrange(p, p + 2 * u.len()) == concat_bytes(u, |x: u16| le16(x)),
    ensures
        u16s_at(b, p, u.len()) == u,
    decreases u.len(),
{
    let f = |x: u16| le16(x);
    if u.len() == 0 {
        assert(u16s_at(b, p, 0) =~= u);
    } else {
        lemma_le16(u[0]);
        assert forall|x: u16| (#[trigger] f(x)).len() == 2 by {
            lemma_le16(x);
        }
        lemma_concat_bytes_len(u.drop_first(), f, 2);
        assert(b.subrange(p, p + 2) =~= le16(u[0]));
        assert(u16_at(b, p) == u[0]) by {
            assert(b.subrange(p, p + 2) == le16(u[0]));
            lemma_auto_spec_u16_to_from_le_bytes();
        }
        let rest = u.drop_first();
        let c = concat_bytes(u, f);
        assert(c == f(u[0]) + concat_bytes(rest, f));
        assert(f(u[0]).len() == 2);
        assert forall|i: int| 0 <= i < 2 * rest.len() implies b[p + 2 + i] == concat_bytes(
            rest,
            f,
        )[i] by {
            assert(b[p + 2 + i] == b.subrange(p, p + 2 * u.len())[2 + i]);
            assert(c[2 + i] == concat_bytes(rest, f)[i]);
        }
        assert(b.subrange(p + 2, p + 2 + 2 * rest.len()) =~= concat_bytes(rest, f));
        lemma_u16s_at_concat(b, p + 2, rest);
        assert forall|i: int| 0 <= i < u.len() implies u16s_at(b, p, u.len())[i] == u[i] by {
            if i == 0 {
            } else {
                assert(u16s_at(b, p + 2, rest.len())[i - 1] == rest[i - 1]);
                assert(u16s_at(b, p + 2, rest.len())[i - 1] == u16_at(b, p + 2 + 2 * (i - 1)));
            }
        }
        assert(u16s_at(b, p, u.len()) =~= u);
    }
}

/// Reading 32-bit elements out of their concatenated little-endian
/// encoding gives the elements back.
pub proof fn lemma_u32s_at_concat(b: Seq<u8>, p: int, u: Seq<u32>)
    requires
        0 <= p,
        p + 4 * u.len() <= b.len(),
        b.subrange(p, p + 4 * u.len()) == concat_bytes(u, |x: u32| le32(x)),
    ensures
        u32s_at(b, p, u.len()) == u,
    decreases u.len(),
{
    let f = |x: u32| le32(x);
    if u.len() == 0 {
        assert(u32s_at(b, p, 0) =~= u);
    } else {
        lemma_le32(u[0]);
        assert forall|x: u32| (#[trigger] f(x)).len() == 4 by {
            lemma_le32(x);
        }
        lemma_concat_bytes_len(u.drop_first(), f, 4);
        assert(b.subrange(p, p + 4) =~= le32(u[0]));
        assert(u32_at(b, p) == u[0]) by {
            assert(b.subrange(p, p + 4) == le32(u[0]));
            lemma_auto_spec_u32_to_from_le_bytes();
        }
        let rest = u.drop_first();
        let c = concat_bytes(u, f);
        assert(c == f(u[0]) + concat_bytes(rest, f));
        assert(f(u[0]).len() == 4);
        assert forall|i: int| 0 <= i < 4 * rest.len() implies b[p + 4 + i] == concat_bytes(
            rest,
            f,
        )[i] by {
            assert(b[p + 4 + i] == b.subrange(p, p + 4 * u.len())[4 + i]);
            assert(c[4 + i] == concat_bytes(rest, f)[i]);
        }
        assert(b.subrange(p + 4, p + 4 + 4 * rest.len()) =~= concat_bytes(rest, f));
        lemma_u32s_at_concat(b, p + 4, rest);
        assert forall|i: int| 0 <= i < u.len() implies u32s_at(b, p, u.len())[i] == u[i] by {
            if i == 0 {
            } else {
                assert(u32s_at(b, p + 4, rest.len())[i - 1] == rest[i - 1]);
                assert(u32s_at(b, p + 4, rest.len())[i - 1] == u32_at(b, p + 4 + 4 * (i - 1)));
            }
        }
        assert(u32s_at(b, p, u.len()) =~= u);
    }
}

/// Reading 64-bit elements out of their concatenated little-endian
/// encoding gives the elements back.
pub proof fn lemma_u64s_at_concat(b: Seq<u8>, p: int, u: Seq<u64>)
    requires
        0 <= p,
        p + 8 * u.len() <= b.len(),
        b.subrange(p, p + 8 * u.len()) == concat_bytes(u, |x: u64| le64(x)),
    ensures
        u64s_at(b, p, u.len()) == u,
    decreases u.len(),
{
    let f = |x: u64| le64(x);
    if u.len() == 0 {
        assert(u64s_at(b, p, 0) =~= u);
    } else {
        lemma_le64(u[0]);
        assert forall|x: u64| (#[trigger] f(x)).len() == 8 by {
            lemma_le64(x);
        }
        lemma_concat_bytes_len(u.drop_first(), f, 8);
        assert(b.subrange(p, p + 8) =~= le64(u[0]));
        assert(u64_at(b, p) == u[0]) by {
            assert(b.subrange(p, p + 8) == le64(u[0]));
            lemma_auto_spec_u64_to_from_le_bytes();
        }
        let rest = u.drop_first();
        let c = concat_bytes(u, f);
        assert(c == f(u[0]) + concat_bytes(rest, f));
        assert(f(u[0]).len() == 8);
        assert forall|i: int| 0 <= i < 8 * rest.len() implies b[p + 8 + i] == concat_bytes(
            rest,
            f,
        )[i] by {
            assert(b[p + 8 + i] == b.subrange(p, p + 8 * u.len())[8 + i]);
            assert(c[8 + i] == concat_bytes(rest, f)[i]);
        }
        assert(b.subrange(p + 8, p + 8 + 8 * rest.len()) =~= concat_bytes(rest, f));
        lemma_u64s_at_concat(b, p + 8, rest);
        assert forall|i: int| 0 <= i < u.len() implies u64s_at(b, p, u.len())[i] == u[i] by {
            if i == 0 {
            } else {
                assert(u64s_at(b, p + 8, rest.len())[i - 1] == rest[i - 1]);
                assert(u64s_at(b, p + 8, rest.len())[i - 1] == u64_at(b, p + 8 + 8 * (i - 1)));
            }
        }
        assert(u64s_at(b, p, u.len()) =~= u);
    }
}

/// The wire form of one 128-bit value: the low 64-bit half, then the
/// high half.
pub open spec fn pair_bytes(x: (u64, u64)) -> Seq<u8> {
    le64(x.0) + le64(x.1)
}

/// Reading 128-bit pairs out of their concatenated encoding gives the
/// pairs back.
pub proof fn lemma_pairs_at_concat(b: Seq<u8>, p: int, u: Seq<(u64, u64)>)
    requires
        0 <= p,
        p + 16 * u.len() <= b.len(),
        b.subrange(p, p + 16 * u.len()) == concat_bytes(u, |x: (u64, u64)| pair_bytes(x)),
    ensures
        pairs_at(b, p, u.len()) == u,
    decreases u.len(),
{
    let f = |x: (u64, u64)| pair_bytes(x);
    if u.len() == 0 {
        assert(pairs_at(b, p, 0) =~= u);
    } else {
        lemma_le64(u[0].0);
        lemma_le64(u[0].1);
        assert forall|x: (u64, u64)| (#[trigger] f(x)).len() == 16 by {
            lemma_le64(x.0);
            lemma_le64(x.1);
        }
        lemma_concat_bytes_len(u.drop_first(), f, 16);
        let rest = u.drop_first();
        let c = concat_bytes(u, f);
        assert(c == f(u[0]) + concat_bytes(rest, f));
        assert(f(u[0]) == le64(u[0].0) + le64(u[0].1));
        assert(f(u[0]).len() == 16);
        assert forall|k: int| 0 <= k < 16 implies #[trigger] b[p + k] == f(u[0])[k] by {
            assert(b[p + k] == b.subrange(p, p + 16 * u.len())[k]);
            assert(c[k] == f(u[0])[k]);
        }
        assert(b.subrange(p, p + 8) =~= le64(u[0].0));
        assert forall|k: int| 0 <= k < 8 implies b.subrange(p + 8, p + 16)[k] == le64(
            u[0].1,
        )[k] by {
            assert(b.subrange(p + 8, p + 16)[k] == b[p + 8 + k]);
            assert(b[p + 8 + k] == b.subrange(p, p + 16 * u.len())[8 + k]);
            assert(c[8 + k] == f(u[0])[8 + k]);
            assert(f(u[0])[8 + k] == le64(u[0].1)[k]);
        }
        assert(b.subrange(p + 8, p + 16) =~= le64(u[0].1));
        assert(u64_at(b, p) == u[0].0 && u64_at(b, p + 8) == u[0].1) by {
            assert(b.subrange(p, p + 8) == le64(u[0].0));
            assert(b.subrange(p + 8, p + 16) == le64(u[0].1));
            lemma_auto_spec_u64_to_from_le_bytes();
        }
        assert forall|i: int| 0 <= i < 16 * rest.len() implies b[p + 16 + i] == concat_bytes(
            rest,
            f,
        )[i] by {
            assert(b[p + 16 + i] == b.subrange(p, p + 16 * u.len())[16 + i]);
            assert(c[16 + i] == concat_bytes(rest, f)[i]);
        }
        assert(b.subrange(p + 16, p + 16 + 16 * rest.len()) =~= concat_bytes(rest, f));
        lemma_pairs_at_concat(b, p + 16, rest);
        assert forall|i: int| 0 <= i < u.len() implies pairs_at(b, p, u.len())[i] == u[i] by {
            if i == 0 {
            } else {
                assert(pairs_at(b, p + 16, rest.len())[i - 1] == rest[i - 1]);
                assert(pairs_at(b, p + 16, rest.len())[i - 1] == (
                    u64_at(b, p + 16 + 16 * (i - 1)),
                    u64_at(b, p + 16 + 16 * (i - 1) + 8),
                ));
            }
        }
        assert(pairs_at(b, p, u.len()) =~= u);
    }
}


/// When the canonical encoding of a nonempty, encodable string sits at
/// `p` in `b`, the length byte and the code-unit region are pinned down.
proof fn lemma_spec_ptp_str_shape(s: Seq<char>, b: Seq<u8>, p: int)
    requires
        s.len() > 0,
        str_encodable(s),
        0 <= p,
        p + spec_ptp_str(s).len() <= b.len(),
        b.subrange(p, p + spec_ptp_str(s).len()) == spec_ptp_str(s),
    ensures
        spec_ptp_str(s).len() == 3 + 2 * utf16_units(s).len(),
        b[p] == utf16_units(s).len() + 1,
        b.subrange(p + 1, p + 1 + 2 * utf16_units(s).len()) == concat_bytes(
            utf16_units(s),
            |x: u16| le16(x),
        ),
{
    let f = |x: u16| le16(x);
    let u = utf16_units(s);
    let m = u.len() as int;
    assert forall|x: u16| (#[trigger] f(x)).len() == 2 by {
        lemma_le16(x);
    }
    lemma_concat_bytes_len(u, f, 2);
    let enc = spec_ptp_str(s);
    assert(enc == seq![(m + 1) as u8] + concat_bytes(u, f) + seq![0u8, 0u8]);
    assert(enc.len() == 3 + 2 * m);
    assert(b[p] == b.subrange(p, p + enc.len())[0]);
    assert(enc[0] == (m + 1) as u8);
    assert(m + 1 <= 255);
    assert forall|k: int| 0 <= k < 2 * m implies b.subrange(p + 1, p + 1 + 2 * m)[k]
        == concat_bytes(u, f)[k] by {
        assert(b.subrange(p + 1, p + 1 + 2 * m)[k] == b[p + 1 + k]);
        assert(b[p + 1 + k] == b.subrange(p, p + enc.len())[1 + k]);
        assert(enc[1 + k] == (seq![(m + 1) as u8] + concat_bytes(u, f))[1 + k]);
        assert(enc[1 + k] == concat_bytes(u, f)[k]);
    }
    assert(b.subrange(p + 1, p + 1 + 2 * m) =~= concat_bytes(u, f));
}

/// A reader over a borrowed byte buffer with a current position,
/// the decoding half of the codec.
pub struct Reader<'a> {
    buf: &'a [u8],
    pos: usize,
}

impl<'a> Reader<'a> {
    /// The whole underlying buffer.
    pub closed spec fn bytes(&self) -> Seq<u8> {
        self.buf@
    }

    /// How many bytes have been consumed so far.
    pub closed spec fn position(&self) -> int {
        self.pos as int
    }

    /// The position never passes the end of the buffer.
    pub open spec fn wf(&self) -> bool {
        0 <= self.position() <= self.bytes().len()
    }

    /// A reader standing at the start of `buf`.
    pub fn new(buf: &'a [u8]) -> (r: Reader<'a>)
        ensures
            r.wf(),
            r.bytes() == buf@,
            r.position() == 0,
    {
        Reader { buf, pos: 0 }
    }

    /// Succeeds exactly when the whole buffer has been consumed; a
    /// whole-payload parser calls this to reject trailing bytes.
    pub fn expect_end(&self) -> (r: Result<(), Error>)
        requires
            self.wf(),
        ensures
            r is Ok <==> self.position() == self.bytes().len(),
            r is Err ==> r->Err_0 == Error::Malformed(MalformedKind::TrailingBytes),
    {
        if self.pos == self.buf.len() {
            Ok(())
        } else {
            Err(Error::Malformed(MalformedKind::TrailingBytes))
        }
    }

    /// One byte.
    pub fn read_ptp_u8(&mut self) -> (r: Result<u8, Error>)
        requires
            old(self).wf(),
        ensures
            final(self).wf(),
            final(self).bytes() == old(self).bytes(),
            r is Ok <==> old(self).position() + 1 <= old(self).bytes().len(),
            r is Ok ==> final(self).position() == old(self).position() + 1
                && r->Ok_0 == old(self).bytes()[old(self).position()],
            r is Err ==> *final(self) == *old(self)
                && r->Err_0 == Error::Malformed(MalformedKind::UnexpectedEnd),
    {
        if self.pos < self.buf.len() {
            let b = self.buf[self.pos];
            self.pos = self.pos + 1;
            Ok(b)
        } else {
            Err(Error::Malformed(MalformedKind::UnexpectedEnd))
        }
    }

    /// One byte, as a signed value.
    pub fn read_ptp_i8(&mut self) -> (r: Result<i8, Error>)
        requires
            old(self).wf(),
        ensures
            final(self).wf(),
            final(self).bytes() == old(self).bytes(),
            r is Ok <==> old(self).position() + 1 <= old(self).bytes().len(),
            r is Ok ==> final(self).position() == old(self).position() + 1
                && r->Ok_0 == old(self).bytes()[old(self).position()] as i8,
            r is Err ==> *final(self) == *old(self)
                && r->Err_0 == Error::Malformed(MalformedKind::UnexpectedEnd),
    {
        match self.read_ptp_u8() {
            Ok(v) => Ok(v as i8),
            Err(e) => Err(e),
        }
    }

    /// A 16-bit little-endian value.
    pub fn read_ptp_u16(&mut self) -> (r: Result<u16, Error>)
        requires
            old(self).wf(),
        ensures
            final(self).wf(),
            final(self).bytes() == old(self).bytes(),
            r is Ok <==> old(self).position() + 2 <= old(self).bytes().len(),
            r is Ok ==> final(self).position() == old(self).position() + 2
                && r->Ok_0 == u16_at(old(self).bytes(), old(self).position())
                && le16(r->Ok_0) == old(self).bytes().subrange(
                    old(self).position(),
                    old(self).position() + 2,
                ),
            r is Err ==> *final(self) == *old(self)
                && r->Err_0 == Error::Malformed(MalformedKind::UnexpectedEnd),
    {
        if self.buf.len() - self.pos >= 2 {
            let s = slice_subrange(self.buf, self.pos, self.pos + 2);
            let v = u16_from_le_bytes(s);
            self.pos = self.pos + 2;
            proof {
                lemma_auto_spec_u16_to_from_le_bytes();
            }
            Ok(v)
        } else {
            Err(Error::Malformed(MalformedKind::UnexpectedEnd))
        }
    }

    /// A 16-bit little-endian value, as a signed value.
    pub fn read_ptp_i16(&mut self) -> (r: Result<i16, Error>)
        requires
            old(self).wf(),
        ensures
            final(self).wf(),
            final(self).bytes() == old(self).bytes(),
            r is Ok <==> old(self).position() + 2 <= old(self).bytes().len(),
            r is Ok ==> final(self).position() == old(self).position() + 2
                && r->Ok_0 == u16_at(old(self).bytes(), old(self).position()) as i16,
            r is Err ==> *final(self) == *old(self)
                && r->Err_0 == Error::Malformed(MalformedKind::UnexpectedEnd),
    {
        match self.read_ptp_u16() {
            Ok(v) => Ok(v as i16),
            Err(e) => Err(e),
        }
    }

    /// A 32-bit little-endian value.
    pub fn read_ptp_u32(&mut self) -> (r: Result<u32, Error>)
        requires
            old(self).wf(),
        ensures
            final(self).wf(),
            final(self).bytes() == old(self).bytes(),
            r is Ok <==> old(self).position() + 4 <= old(self).bytes().len(),
            r is Ok ==> final(self).position() == old(self).position() + 4
                && r->Ok_0 == u32_at(old(self).bytes(), old(self).position())
                && le32(r->Ok_0) == old(self).bytes().subrange(
                    old(self).position(),
                    old(self).position() + 4,
                ),
            r is Err ==> *final(self) == *old(self)
                && r->Err_0 == Error::Malformed(MalformedKind::UnexpectedEnd),
    {
        if self.buf.len() - self.pos >= 4 {
            let s = slice_subrange(self.buf, self.pos, self.pos + 4);
            let v = u32_from_le_bytes(s);
            self.pos = self.pos + 4;
            proof {
                lemma_auto_spec_u32_to_from_le_bytes();
            }
            Ok(v)
        } else {
            Err(Error::Malformed(MalformedKind::UnexpectedEnd))
        }
    }

    /// A 32-bit little-endian value, as a signed value.
    pub fn read_ptp_i32(&mut self) -> (r: Result<i32, Error>)
        requires
            old(self).wf(),
        ensures
            final(self).wf(),
            final(self).bytes() == old(self).bytes(),
            r is Ok <==> old(self).position() + 4 <= old(self).bytes().len(),
            r is Ok ==> final(self).position() == old(self).position() + 4
                && r->Ok_0 == u32_at(old(self).bytes(), old(self).position()) as i32,
            r is Err ==> *final(self) == *old(self)
                && r->Err_0 == Error::Malformed(MalformedKind::UnexpectedEnd),
    {
        match self.read_ptp_u32() {
            Ok(v) => Ok(v as i32),
            Err(e) => Err(e),
        }
    }

    /// A 64-bit little-endian value.
    pub fn read_ptp_u64(&mut self) -> (r: Result<u64, Error>)
        requires
            old(self).wf(),
        ensures
            final(self).wf(),
            final(self).bytes() == old(self).bytes(),
            r is Ok <==> old(self).position() + 8 <= old(self).bytes().len(),
            r is Ok ==> final(self).position() == old(self).position() + 8
                && r->Ok_0 == u64_at(old(self).bytes(), old(self).position())
                && le64(r->Ok_0) == old(self).bytes().subrange(
                    old(self).position(),
                    old(self).position() + 8,
                ),
            r is Err ==> *final(self) == *old(self)
                && r->Err_0 == Error::Malformed(MalformedKind::UnexpectedEnd),
    {
        if self.buf.len() - self.pos >= 8 {
            let s = slice_subrange(self.buf, self.pos, self.pos + 8);
            let v = u64_from_le_bytes(s);
            self.pos = self.pos + 8;
            proof {
                lemma_auto_spec_u64_to_from_le_bytes();
            }
            Ok(v)
        } else {
            Err(Error::Malformed(MalformedKind::UnexpectedEnd))
        }
    }

    /// A 64-bit little-endian value, as a signed value.
    pub fn read_ptp_i64(&mut self) -> (r: Result<i64, Error>)
        requires
            old(self).wf(),
        ensures
            final(self).wf(),
            final(self).bytes() == old(self).bytes(),
            r is Ok <==> old(self).position() + 8 <= old(self).bytes().len(),
            r is Ok ==> final(self).position() == old(self).position() + 8
                && r->Ok_0 == u64_at(old(self).bytes(), old(self).position()) as i64,
            r is Err ==> *final(self) == *old(self)
                && r->Err_0 == Error::Malformed(MalformedKind::UnexpectedEnd),
    {
        match self.read_ptp_u64() {
            Ok(v) => Ok(v as i64),
            Err(e) => Err(e),
        }
    }

    /// A 128-bit value carried as two 64-bit halves, the low half first
    /// on the wire and first in the returned pair.
    pub fn read_ptp_u128(&mut self) -> (r: Result<(u64, u64), Error>)
        requires
            old(self).wf(),
        ensures
            final(self).wf(),
            final(self).bytes() == old(self).bytes(),
            r is Ok <==> old(self).position() + 16 <= old(self).bytes().len(),
            r is Ok ==> final(self).position() == old(self).position() + 16
                && r->Ok_0 == (
                    u64_at(old(self).bytes(), old(self).position()),
                    u64_at(old(self).bytes(), old(self).position() + 8),
                ),
            r is Err ==> r->Err_0 == Error::Malformed(MalformedKind::UnexpectedEnd)
                && final(self).bytes() == old(self).bytes(),
    {
        let lo = match self.read_ptp_u64() {
            Ok(v) => v,
            Err(e) => { return Err(e); },
        };
        let hi = match self.read_ptp_u64() {
            Ok(v) => v,
            Err(e) => { return Err(e); },
        };
        Ok((lo, hi))
    }

    /// A 128-bit signed value, carried exactly like the unsigned pair.
    pub fn read_ptp_i128(&mut self) -> (r: Result<(u64, u64), Error>)
        requires
            old(self).wf(),
        ensures
            final(self).wf(),
            final(self).bytes() == old(self).bytes(),
            r is Ok <==> old(self).position() + 16 <= old(self).bytes().len(),
            r is Ok ==> final(self).position() == old(self).position() + 16
                && r->Ok_0 == (
                    u64_at(old(self).bytes(), old(self).position()),
                    u64_at(old(self).bytes(), old(self).position() + 8),
                ),
            r is Err ==> r->Err_0 == Error::Malformed(MalformedKind::UnexpectedEnd)
                && final(self).bytes() == old(self).bytes(),
    {
        self.read_ptp_u128()
    }

    /// A 32-bit element count, then that many bytes.
    pub fn read_ptp_u8_vec(&mut self) -> (r: Result<Vec<u8>, Error>)
        requires
            old(self).wf(),
        ensures
            final(self).wf(),
            final(self).bytes() == old(self).bytes(),
            ({
                let b = old(self).bytes();
                let p = old(self).position();
                let n = u32_at(b, p) as int;
                &&& (r is Ok <==> p + 4 <= b.len() && p + 4 + 1 * n <= b.len())
                &&& (r is Ok ==> final(self).position() == p + 4 + 1 * n
                    && r->Ok_0@ == u8s_at(b, p + 4, n as nat))
                &&& (r is Err ==> *final(self) == *old(self)
                    && r->Err_0 == Error::Malformed(MalformedKind::UnexpectedEnd))
            }),
    {
        if self.buf.len() - self.pos < 4 {
            return Err(Error::Malformed(MalformedKind::UnexpectedEnd));
        }
        let count = u32_from_le_bytes(slice_subrange(self.buf, self.pos, self.pos + 4));
        if ((self.buf.len() - self.pos - 4) as u64) < (count as u64) * 1 {
            return Err(Error::Malformed(MalformedKind::UnexpectedEnd));
        }
        self.pos = self.pos + 4;
        let ghost b = self.bytes();
        let ghost p0 = self.position() - 4;
        let mut out: Vec<u8> = Vec::new();
        let mut i: u32 = 0;
        while i < count
            invariant
                self.wf(),
                self.bytes() == b,
                count == u32_at(b, p0),
                p0 + 4 + 1 * (count as int) <= b.len(),
                i <= count,
                self.position() == p0 + 4 + 1 * (i as int),
                out@ == u8s_at(b, p0 + 4, i as nat),
            decreases count - i,
        {
            let v = match self.read_ptp_u8() {
                Ok(v) => v,
                Err(e) => {
                    return Err(e);
                },
            };
            out.push(v);
            i = i + 1;
            proof {
                assert(out@ =~= u8s_at(b, p0 + 4, i as nat));
            }
        }
        Ok(out)
    }

    /// A 32-bit element count, then that many signed bytes.
    pub fn read_ptp_i8_vec(&mut self) -> (r: Result<Vec<i8>, Error>)
        requires
            old(self).wf(),
        ensures
            final(self).wf(),
            final(self).bytes() == old(self).bytes(),
            ({
                let b = old(self).bytes();
                let p = old(self).position();
                let n = u32_at(b, p) as int;
                &&& (r is Ok <==> p + 4 <= b.len() && p + 4 + 1 * n <= b.len())
                &&& (r is Ok ==> final(self).position() == p + 4 + 1 * n
                    && r->Ok_0@ == i8s_at(b, p + 4, n as nat))
                &&& (r is Err ==> *final(self) == *old(self)
                    && r->Err_0 == Error::Malformed(MalformedKind::UnexpectedEnd))
            }),
    {
        if self.buf.len() - self.pos < 4 {
            return Err(Error::Malformed(MalformedKind::UnexpectedEnd));
        }
        let count = u32_from_le_bytes(slice_subrange(self.buf, self.pos, self.pos + 4));
        if ((self.buf.len() - self.pos - 4) as u64) < (count as u64) * 1 {
            return Err(Error::Malformed(MalformedKind::UnexpectedEnd));
        }
        self.pos = self.pos + 4;
        let ghost b = self.bytes();
        let ghost p0 = self.position() - 4;
        let mut out: Vec<i8> = Vec::new();
        let mut i: u32 = 0;
        while i < count
            invariant
                self.wf(),
                self.bytes() == b,
                count == u32_at(b, p0),
                p0 + 4 + 1 * (count as int) <= b.len(),
                i <= count,
                self.position() == p0 + 4 + 1 * (i as int),
                out@ == i8s_at(b, p0 + 4, i as nat),
            decreases count - i,
        {
            let v = match self.read_ptp_i8() {
                Ok(v) => v,
                Err(e) => {
                    return Err(e);
                },
            };
            out.push(v);
            i = i + 1;
            proof {
                assert(out@ =~= i8s_at(b, p0 + 4, i as nat));
            }
        }
        Ok(out)
    }

    /// A 32-bit element count, then that many 16-bit little-endian values.
    pub fn read_ptp_u16_vec(&mut self) -> (r: Result<Vec<u16>, Error>)
        requires
            old(self).wf(),
        ensures
            final(self).wf(),
            final(self).bytes() == old(self).bytes(),
            ({
                let b = old(self).bytes();
                let p = old(self).position();
                let n = u32_at(b, p) as int;
                &&& (r is Ok <==> p + 4 <= b.len() && p + 4 + 2 * n <= b.len())
                &&& (r is Ok ==> final(self).position() == p + 4 + 2 * n
                    && r->Ok_0@ == u16s_at(b, p + 4, n as nat))
                &&& (r is Err ==> *final(self) == *old(self)
                    && r->Err_0 == Error::Malformed(MalformedKind::UnexpectedEnd))
            }),
    {
        if self.buf.len() - self.pos < 4 {
            return Err(Error::Malformed(MalformedKind::UnexpectedEnd));
        }
        let count = u32_from_le_bytes(slice_subrange(self.buf, self.pos, self.pos + 4));
        if ((self.buf.len() - self.pos - 4) as u64) < (count as u64) * 2 {
            return Err(Error::Malformed(MalformedKind::UnexpectedEnd));
        }
        self.pos = self.pos + 4;
        let ghost b = self.bytes();
        let ghost p0 = self.position() - 4;
        let mut out: Vec<u16> = Vec::new();
        let mut i: u32 = 0;
        while i < count
            invariant
                self.wf(),
                self.bytes() == b,
                count == u32_at(b, p0),
                p0 + 4 + 2 * (count as int) <= b.len(),
                i <= count,
                self.position() == p0 + 4 + 2 * (i as int),
                out@ == u16s_at(b, p0 + 4, i as nat),
            decreases count - i,
        {
            let v = match self.read_ptp_u16() {
                Ok(v) => v,
                Err(e) => {
                    return Err(e);
                },
            };
            out.push(v);
            i = i + 1;
            proof {
                assert(out@ =~= u16s_at(b, p0 + 4, i as nat));
            }
        }
        Ok(out)
    }

    /// A 32-bit element count, then that many signed 16-bit little-endian values.
    pub fn read_ptp_i16_vec(&mut self) -> (r: Result<Vec<i16>, Error>)
        requires
            old(self).wf(),
        ensures
            final(self).wf(),
            final(self).bytes() == old(self).bytes(),
            ({
                let b = old(self).bytes();
                let p = old(self).position();
                let n = u32_at(b, p) as int;
                &&& (r is Ok <==> p + 4 <= b.len() && p + 4 + 2 * n <= b.len())
                &&& (r is Ok ==> final(self).position() == p + 4 + 2 * n
                    && r->Ok_0@ == i16s_at(b, p + 4, n as nat))
                &&& (r is Err ==> *final(self) == *old(self)
                    && r->Err_0 == Error::Malformed(MalformedKind::UnexpectedEnd))
            }),
    {
        if self.buf.len() - self.pos < 4 {
            return Err(Error::Malformed(MalformedKind::UnexpectedEnd));
        }
        let count = u32_from_le_bytes(slice_subrange(self.buf, self.pos, self.pos + 4));
        if ((self.buf.len() - self.pos - 4) as u64) < (count as u64) * 2 {
            return Err(Error::Malformed(MalformedKind::UnexpectedEnd));
        }
        self.pos = self.pos + 4;
        let ghost b = self.bytes();
        let ghost p0 = self.position() - 4;
        let mut out: Vec<i16> = Vec::new();
        let mut i: u32 = 0;
        while i < count
            invariant
                self.wf(),
                self.bytes() == b,
                count == u32_at(b, p0),
                p0 + 4 + 2 * (count as int) <= b.len(),
                i <= count,
                self.position() == p0 + 4 + 2 * (i as int),
                out@ == i16s_at(b, p0 + 4, i as nat),
            decreases count - i,
        {
            let v = match self.read_ptp_i16() {
                Ok(v) => v,
                Err(e) => {
                    return Err(e);
                },
            };
            out.push(v);
            i = i + 1;
            proof {
                assert(out@ =~= i16s_at(b, p0 + 4, i as nat));
            }
        }
        Ok(out)
    }

    /// A 32-bit element count, then that many 32-bit little-endian values.
    pub fn read_ptp_u32_vec(&mut self) -> (r: Result<Vec<u32>, Error>)
        requires
            old(self).wf(),
        ensures
            final(self).wf(),
            final(self).bytes() == old(self).bytes(),
            ({
                let b = old(self).bytes();
                let p = old(self).position();
                let n = u32_at(b, p) as int;
                &&& (r is Ok <==> p + 4 <= b.len() && p + 4 + 4 * n <= b.len())
                &&& (r is Ok ==> final(self).position() == p + 4 + 4 * n
                    && r->Ok_0@ == u32s_at(b, p + 4, n as nat))
                &&& (r is Err ==> *final(self) == *old(self)
                    && r->Err_0 == Error::Malformed(MalformedKind::UnexpectedEnd))
            }),
    {
        if self.buf.len() - self.pos < 4 {
            return Err(Error::Malformed(MalformedKind::UnexpectedEnd));
        }
        let count = u32_from_le_bytes(slice_subrange(self.buf, self.pos, self.pos + 4));
        if ((self.buf.len() - self.pos - 4) as u64) < (count as u64) * 4 {
            return Err(Error::Malformed(MalformedKind::UnexpectedEnd));
        }
        self.pos = self.pos + 4;
        let ghost b = self.bytes();
        let ghost p0 = self.position() - 4;
        let mut out: Vec<u32> = Vec::new();
        let mut i: u32 = 0;
        while i < count
            invariant
                self.wf(),
                self.bytes() == b,
                count == u32_at(b, p0),
                p0 + 4 + 4 * (count as int) <= b.len(),
                i <= count,
                self.position() == p0 + 4 + 4 * (i as int),
                out@ == u32s_at(b, p0 + 4, i as nat),
            decreases count - i,
        {
            let v = match self.read_ptp_u32() {
                Ok(v) => v,
                Err(e) => {
                    return Err(e);
                },
            };
            out.push(v);
            i = i + 1;
            proof {
                assert(out@ =~= u32s_at(b, p0 + 4, i as nat));
            }
        }
        Ok(out)
    }

    /// A 32-bit element count, then that many signed 32-bit little-endian values.
    pub fn read_ptp_i32_vec(&mut self) -> (r: Result<Vec<i32>, Error>)
        requires
            old(self).wf(),
        ensures
            final(self).wf(),
            final(self).bytes() == old(self).bytes(),
            ({
                let b = old(self).bytes();
                let p = old(self).position();
                let n = u32_at(b, p) as int;
                &&& (r is Ok <==> p + 4 <= b.len() && p + 4 + 4 * n <= b.len())
                &&& (r is Ok ==> final(self).position() == p + 4 + 4 * n
                    && r->Ok_0@ == i32s_at(b, p + 4, n as nat))
                &&& (r is Err ==> *final(self) == *old(self)
                    && r->Err_0 == Error::Malformed(MalformedKind::UnexpectedEnd))
            }),
    {
        if self.buf.len() - self.pos < 4 {
            return Err(Error::Malformed(MalformedKind::UnexpectedEnd));
        }
        let count = u32_from_le_bytes(slice_subrange(self.buf, self.pos, self.pos + 4));
        if ((self.buf.len() - self.pos - 4) as u64) < (count as u64) * 4 {
            return Err(Error::Malformed(MalformedKind::UnexpectedEnd));
        }
        self.pos = self.pos + 4;
        let ghost b = self.bytes();
        let ghost p0 = self.position() - 4;
        let mut out: Vec<i32> = Vec::new();
        let mut i: u32 = 0;
        while i < count
            invariant
                self.wf(),
                self.bytes() == b,
                count == u32_at(b, p0),
                p0 + 4 + 4 * (count as int) <= b.len(),
                i <= count,
                self.position() == p0 + 4 + 4 * (i as int),
                out@ == i32s_at(b, p0 + 4, i as nat),
            decreases count - i,
        {
            let v = match self.read_ptp_i32() {
                Ok(v) => v,
                Err(e) => {
                    return Err(e);
                },
            };
            out.push(v);
            i = i + 1;
            proof {
                assert(out@ =~= i32s_at(b, p0 + 4, i as nat));
            }
        }
        Ok(out)
    }

    /// A 32-bit element count, then that many 64-bit little-endian values.
    pub fn read_ptp_u64_vec(&mut self) -> (r: Result<Vec<u64>, Error>)
        requires
            old(self).wf(),
        ensures
            final(self).wf(),
            final(self).bytes() == old(self).bytes(),
            ({
                let b = old(self).bytes();
                let p = old(self).position();
                let n = u32_at(b, p) as int;
                &&& (r is Ok <==> p + 4 <= b.len() && p + 4 + 8 * n <= b.len())
                &&& (r is Ok ==> final(self).position() == p + 4 + 8 * n
                    && r->Ok_0@ == u64s_at(b, p + 4, n as nat))
                &&& (r is Err ==> *final(self) == *old(self)
                    && r->Err_0 == Error::Malformed(MalformedKind::UnexpectedEnd))
            }),
    {
        if self.buf.len() - self.pos < 4 {
            return Err(Error::Malformed(MalformedKind::UnexpectedEnd));
        }
        let count = u32_from_le_bytes(slice_subrange(self.buf, self.pos, self.pos + 4));
        if ((self.buf.len() - self.pos - 4) as u64) < (count as u64) * 8 {
            return Err(Error::Malformed(MalformedKind::UnexpectedEnd));
        }
        self.pos = self.pos + 4;
        let ghost b = self.bytes();
        let ghost p0 = self.position() - 4;
        let mut out: Vec<u64> = Vec::new();
        let mut i: u32 = 0;
        while i < count
            invariant
                self.wf(),
                self.bytes() == b,
                count == u32_at(b, p0),
                p0 + 4 + 8 * (count as int) <= b.len(),
                i <= count,
                self.position() == p0 + 4 + 8 * (i as int),
                out@ == u64s_at(b, p0 + 4, i as nat),
            decreases count - i,
        {
            let v = match self.read_ptp_u64() {
                Ok(v) => v,
                Err(e) => {
                    return Err(e);
                },
            };
            out.push(v);
            i = i + 1;
            proof {
                assert(out@ =~= u64s_at(b, p0 + 4, i as nat));
            }
        }
        Ok(out)
    }

    /// A 32-bit element count, then that many signed 64-bit little-endian values.
    pub fn read_ptp_i64_vec(&mut self) -> (r: Result<Vec<i64>, Error>)
        requires
            old(self).wf(),
        ensures
            final(self).wf(),
            final(self).bytes() == old(self).bytes(),
            ({
                let b = old(self).bytes();
                let p = old(self).position();
                let n = u32_at(b, p) as int;
                &&& (r is Ok <==> p + 4 <= b.len() && p + 4 + 8 * n <= b.len())
                &&& (r is Ok ==> final(self).position() == p + 4 + 8 * n
                    && r->Ok_0@ == i64s_at(b, p + 4, n as nat))
                &&& (r is Err ==> *final(self) == *old(self)
                    && r->Err_0 == Error::Malformed(MalformedKind::UnexpectedEnd))
            }),
    {
        if self.buf.len() - self.pos < 4 {
            return Err(Error::Malformed(MalformedKind::UnexpectedEnd));
        }
        let count = u32_from_le_bytes(slice_subrange(self.buf, self.pos, self.pos + 4));
        if ((self.buf.len() - self.pos - 4) as u64) < (count as u64) * 8 {
            return Err(Error::Malformed(MalformedKind::UnexpectedEnd));
        }
        self.pos = self.pos + 4;
        let ghost b = self.bytes();
        let ghost p0 = self.position() - 4;
        let mut out: Vec<i64> = Vec::new();
        let mut i: u32 = 0;
        while i < count
            invariant
                self.wf(),
                self.bytes() == b,
                count == u32_at(b, p0),
                p0 + 4 + 8 * (count as int) <= b.len(),
                i <= count,
                self.position() == p0 + 4 + 8 * (i as int),
                out@ == i64s_at(b, p0 + 4, i as nat),
            decreases count - i,
        {
            let v = match self.read_ptp_i64() {
                Ok(v) => v,
                Err(e) => {
                    return Err(e);
                },
            };
            out.push(v);
            i = i + 1;
            proof {
                assert(out@ =~= i64s_at(b, p0 + 4, i as nat));
            }
        }
        Ok(out)
    }

    /// A 32-bit element count, then that many 128-bit values as (low, high) pairs.
    pub fn read_ptp_u128_vec(&mut self) -> (r: Result<Vec<(u64, u64)>, Error>)
        requires
            old(self).wf(),
        ensures
            final(self).wf(),
            final(self).bytes() == old(self).bytes(),
            ({
                let b = old(self).bytes();
                let p = old(self).position();
                let n = u32_at(b, p) as int;
                &&& (r is Ok <==> p + 4 <= b.len() && p + 4 + 16 * n <= b.len())
                &&& (r is Ok ==> final(self).position() == p + 4 + 16 * n
                    && r->Ok_0@ == pairs_at(b, p + 4, n as nat))
                &&& (r is Err ==> *final(self) == *old(self)
                    && r->Err_0 == Error::Malformed(MalformedKind::UnexpectedEnd))
            }),
    {
        if self.buf.len() - self.pos < 4 {
            return Err(Error::Malformed(MalformedKind::UnexpectedEnd));
        }
        let count = u32_from_le_bytes(slice_subrange(self.buf, self.pos, self.pos + 4));
        if ((self.buf.len() - self.pos - 4) as u64) < (count as u64) * 16 {
            return Err(Error::Malformed(MalformedKind::UnexpectedEnd));
        }
        self.pos = self.pos + 4;
        let ghost b = self.bytes();
        let ghost p0 = self.position() - 4;
        let mut out: Vec<(u64, u64)> = Vec::new();
        let mut i: u32 = 0;
        while i < count
            invariant
                self.wf(),
                self.bytes() == b,
                count == u32_at(b, p0),
                p0 + 4 + 16 * (count as int) <= b.len(),
                i <= count,
                self.position() == p0 + 4 + 16 * (i as int),
                out@ == pairs_at(b, p0 + 4, i as nat),
            decreases count - i,
        {
            let v = match self.read_ptp_u128() {
                Ok(v) => v,
                Err(e) => {
                    return Err(e);
                },
            };
            out.push(v);
            i = i + 1;
            proof {
                assert(out@ =~= pairs_at(b, p0 + 4, i as nat));
            }
        }
        Ok(out)
    }

    /// A 32-bit element count, then that many signed 128-bit values as (low, high) pairs.
    pub fn read_ptp_i128_vec(&mut self) -> (r: Result<Vec<(u64, u64)>, Error>)
        requires
            old(self).wf(),
        ensures
            final(self).wf(),
            final(self).bytes() == old(self).bytes(),
            ({
                let b = old(self).bytes();
                let p = old(self).position();
                let n = u32_at(b, p) as int;
                &&& (r is Ok <==> p + 4 <= b.len() && p + 4 + 16 * n <= b.len())
                &&& (r is Ok ==> final(self).position() == p + 4 + 16 * n
                    && r->Ok_0@ == pairs_at(b, p + 4, n as nat))
                &&& (r is Err ==> *final(self) == *old(self)
                    && r->Err_0 == Error::Malformed(MalformedKind::UnexpectedEnd))
            }),
    {
        if self.buf.len() - self.pos < 4 {
            return Err(Error::Malformed(MalformedKind::UnexpectedEnd));
        }
        let count = u32_from_le_bytes(slice_subrange(self.buf, self.pos, self.pos + 4));
        if ((self.buf.len() - self.pos - 4) as u64) < (count as u64) * 16 {
            return Err(Error::Malformed(MalformedKind::UnexpectedEnd));
        }
        self.pos = self.pos + 4;
        let ghost b = self.bytes();
        let ghost p0 = self.position() - 4;
        let mut out: Vec<(u64, u64)> = Vec::new();
        let mut i: u32 = 0;
        while i < count
            invariant
                self.wf(),
                self.bytes() == b,
                count == u32_at(b, p0),
                p0 + 4 + 16 * (count as int) <= b.len(),
                i <= count,
                self.position() == p0 + 4 + 16 * (i as int),
                out@ == pairs_at(b, p0 + 4, i as nat),
            decreases count - i,
        {
            let v = match self.read_ptp_i128() {
                Ok(v) => v,
                Err(e) => {
                    return Err(e);
                },
            };
            out.push(v);
            i = i + 1;
            proof {
                assert(out@ =~= pairs_at(b, p0 + 4, i as nat));
            }
        }
        Ok(out)
    }

    /// A PTP string: one length byte counting UTF-16 code units including
    /// the mandatory terminator, then the code units little-endian; the
    /// terminator unit is consumed and discarded.  A zero length byte is
    /// the empty string.
    pub fn read_ptp_str(&mut self) -> (r: Result<String, Error>)
        requires
            old(self).wf(),
        ensures
            final(self).wf(),
            final(self).bytes() == old(self).bytes(),
            ({
                let b = old(self).bytes();
                let p = old(self).position();
                let n = b[p] as int;
                &&& (r is Ok <==> p < b.len() && (b[p] == 0 || (p + 1 + 2 * n <= b.len()
                    && exists|s: Seq<char>| u16s_at(b, p + 1, (n - 1) as nat) == utf16_units(s))))
                &&& (r is Ok && b[p] == 0 ==> final(self).position() == p + 1
                    && r->Ok_0@ == Seq::<char>::empty())
                &&& (r is Ok && b[p] != 0 ==> final(self).position() == p + 1 + 2 * n
                    && utf16_units(r->Ok_0@) == u16s_at(b, p + 1, (n - 1) as nat))
                &&& (r is Err ==> *final(self) == *old(self))
                &&& (r is Err && r->Err_0 == Error::Malformed(MalformedKind::UnexpectedEnd) <==> !(
                    p < b.len() && (b[p] == 0 || p + 1 + 2 * n <= b.len())))
                &&& (r is Err ==> r->Err_0 == Error::Malformed(MalformedKind::UnexpectedEnd)
                    || r->Err_0 == Error::Malformed(MalformedKind::InvalidUtf16))
                &&& (forall|s: Seq<char>| #![trigger spec_ptp_str(s)]
                    str_encodable(s) && p + spec_ptp_str(s).len() <= b.len()
                        && b.subrange(p, p + spec_ptp_str(s).len()) == spec_ptp_str(s)
                        ==> r is Ok && r->Ok_0@ == s
                            && final(self).position() == p + spec_ptp_str(s).len())
            }),
    {
        let ghost b = self.bytes();
        let ghost p = self.position();
        if self.pos >= self.buf.len() {
            proof {
                assert forall|s: Seq<char>|
                    str_encodable(s) && p + spec_ptp_str(s).len() <= b.len() && b.subrange(
                        p,
                        p + spec_ptp_str(s).len(),
                    ) == spec_ptp_str(s) implies false by {
                    assert(spec_ptp_str(s).len() >= 1);
                }
            }
            return Err(Error::Malformed(MalformedKind::UnexpectedEnd));
        }
        let n = self.buf[self.pos] as usize;
        if n == 0 {
            self.pos = self.pos + 1;
            let ret = String::new();
            proof {
                assert forall|s: Seq<char>|
                    str_encodable(s) && p + spec_ptp_str(s).len() <= b.len() && b.subrange(
                        p,
                        p + spec_ptp_str(s).len(),
                    ) == spec_ptp_str(s) implies ret@ == s && self.position() == p
                    + spec_ptp_str(s).len() by {
                    if s.len() == 0 {
                        assert(s =~= Seq::<char>::empty());
                        assert(spec_ptp_str(s).len() == 1);
                    } else {
                        assert(b.subrange(p, p + spec_ptp_str(s).len())[0] == b[p]);
                        assert(spec_ptp_str(s)[0] == (utf16_units(s).len() + 1) as u8);
                        assert(utf16_units(s).len() + 1 <= 255);
                        assert(b[p] != 0);
                        assert(false);
                    }
                }
            }
            return Ok(ret);
        }
        if (self.buf.len() - self.pos - 1) < 2 * n {
            proof {
                assert forall|s: Seq<char>|
                    str_encodable(s) && p + spec_ptp_str(s).len() <= b.len() && b.subrange(
                        p,
                        p + spec_ptp_str(s).len(),
                    ) == spec_ptp_str(s) implies false by {
                    if s.len() == 0 {
                        assert(b.subrange(p, p + spec_ptp_str(s).len())[0] == b[p]);
                    } else {
                        lemma_spec_ptp_str_shape(s, b, p);
                    }
                }
            }
            return Err(Error::Malformed(MalformedKind::UnexpectedEnd));
        }
        let mut units: Vec<u16> = Vec::new();
        let mut i: usize = 0;
        while i < n - 1
            invariant
                self == old(self),
                self.wf(),
                self.bytes() == b,
                self.position() == p,
                p < b.len(),
                n == b[p] as int,
                1 <= n <= 255,
                p + 1 + 2 * n <= b.len(),
                b.len() <= usize::MAX,
                i <= n - 1,
                units@ == u16s_at(b, p + 1, i as nat),
            decreases n - 1 - i,
        {
            let off = self.pos + 1 + 2 * i;
            let v = u16_from_le_bytes(slice_subrange(self.buf, off, off + 2));
            units.push(v);
            i = i + 1;
            proof {
                assert(units@ =~= u16s_at(b, p + 1, i as nat));
            }
        }
        proof {
            assert forall|s: Seq<char>|
                str_encodable(s) && p + spec_ptp_str(s).len() <= b.len() && b.subrange(
                    p,
                    p + spec_ptp_str(s).len(),
                ) == spec_ptp_str(s) implies units@ == utf16_units(s) && p + spec_ptp_str(
                s,
            ).len() == p + 1 + 2 * n by {
                if s.len() == 0 {
                    assert(b.subrange(p, p + spec_ptp_str(s).len())[0] == b[p]);
                    assert(false);
                } else {
                    lemma_spec_ptp_str_shape(s, b, p);
                    assert(utf16_units(s).len() == n - 1);
                    lemma_u16s_at_concat(b, p + 1, utf16_units(s));
                }
            }
        }
        match decode_utf16_units(units.as_slice()) {
            Ok(s) => {
                self.pos = self.pos + 1 + 2 * n;
                Ok(s)
            },
            Err(e) => {
                proof {
                    if exists|s: Seq<char>| u16s_at(b, p + 1, (n - 1) as nat) == utf16_units(s) {
                        let ghost s = choose|s: Seq<char>|
                            u16s_at(b, p + 1, (n - 1) as nat) == utf16_units(s);
                        assert(units@ == utf16_units(s));
                        assert(false);
                    }
                }
                Err(e)
            },
        }
    }
}

/// Append one byte.
pub fn write_u8(out: &mut Vec<u8>, v: u8)
    ensures
        final(out)@ == old(out)@ + seq![v],
{
    out.push(v);
    assert(out@ =~= old(out)@ + seq![v]);
}





/// Where a `w`-byte field starting at `p` ends, if its bytes are there.
pub open spec fn fixed_end(b: Seq<u8>, p: int, w: int) -> Option<int> {
    if p + w <= b.len() {
        Some(p + w)
    } else {
        None
    }
}

/// Where a PTP string starting at `p` ends, if the buffer holds all of
/// it: the length byte, then twice that many bytes of code units,
/// terminator included.
pub open spec fn str_end(b: Seq<u8>, p: int) -> Option<int> {
    if p < b.len() {
        if b[p] == 0 {
            Some(p + 1)
        } else if p + 1 + 2 * (b[p] as int) <= b.len() {
            Some(p + 1 + 2 * (b[p] as int))
        } else {
            None
        }
    } else {
        None
    }
}

/// Where a counted array of `w`-byte elements starting at `p` ends, if
/// the buffer holds the count field and every element.
pub open spec fn counted_end(b: Seq<u8>, p: int, w: int) -> Option<int> {
    if p + 4 <= b.len() {
        if p + 4 + w * (u32_at(b, p) as int) <= b.len() {
            Some(p + 4 + w * (u32_at(b, p) as int))
        } else {
            None
        }
    } else {
        None
    }
}

/// A PTP string standing as one field of a larger dataset: whenever the
/// canonical encoding of a string sits at the reader's position, exactly
/// that string comes back.  This narrow restatement of `read_ptp_str`
/// keeps dataset parsers' proofs small.
pub fn read_str_field(cur: &mut Reader) -> (r: Result<String, Error>)
    requires
        old(cur).wf(),
    ensures
        final(cur).wf(),
        final(cur).bytes() == old(cur).bytes(),
        r is Err ==> r->Err_0 == Error::Malformed(MalformedKind::UnexpectedEnd) || r->Err_0
            == Error::Malformed(MalformedKind::InvalidUtf16),
        r is Ok ==> str_end(old(cur).bytes(), old(cur).position()) == Some(
            final(cur).position(),
        ),
        (r is Err && r->Err_0 == Error::Malformed(MalformedKind::UnexpectedEnd)) <==> str_end(
            old(cur).bytes(),
            old(cur).position(),
        ) is None,
        forall|s: Seq<char>| #![trigger spec_ptp_str(s)]
            str_encodable(s) && old(cur).position() + spec_ptp_str(s).len() <= old(
                cur,
            ).bytes().len() && old(cur).bytes().subrange(
                old(cur).position(),
                old(cur).position() + spec_ptp_str(s).len(),
            ) == spec_ptp_str(s) ==> r is Ok && r->Ok_0@ == s && final(cur).position() == old(
                cur,
            ).position() + spec_ptp_str(s).len(),
{
    cur.read_ptp_str()
}

/// Splitting a two-part concatenation found inside a buffer.
pub proof fn lemma_concat_parts(b: Seq<u8>, p: int, x: Seq<u8>, y: Seq<u8>)
    requires
        0 <= p,
        p + x.len() + y.len() <= b.len(),
        b.subrange(p, p + x.len() + y.len()) == x + y,
    ensures
        b.subrange(p, p + x.len()) == x,
        b.subrange(p + x.len(), p + x.len() + y.len()) == y,
{
    assert forall|k: int| 0 <= k < x.len() implies #[trigger] b.subrange(p, p + x.len())[k]
        == x[k] by {
        assert(b.subrange(p, p + x.len())[k] == b[p + k]);
        assert(b[p + k] == b.subrange(p, p + x.len() + y.len())[k]);
        assert((x + y)[k] == x[k]);
    }
    assert(b.subrange(p, p + x.len()) =~= x);
    assert forall|k: int| 0 <= k < y.len() implies #[trigger] b.subrange(
        p + x.len(),
        p + x.len() + y.len(),
    )[k] == y[k] by {
        assert(b.subrange(p + x.len(), p + x.len() + y.len())[k] == b[p + x.len() + k]);
        assert(b[p + x.len() + k] == b.subrange(p, p + x.len() + y.len())[x.len() + k]);
        assert((x + y)[x.len() + k] == y[k]);
    }
    assert(b.subrange(p + x.len(), p + x.len() + y.len()) =~= y);
}

/// The length of a string's canonical PTP wire form.
pub proof fn lemma_ptp_str_len(s: Seq<char>)
    ensures
        spec_ptp_str(s).len() == (if s.len() == 0 {
            1int
        } else {
            3 + 2 * utf16_units(s).len() as int
        }),
{
    if s.len() == 0 {
    } else {
        let f = |x: u16| le16(x);
        assert forall|x: u16| (#[trigger] f(x)).len() == 2 by {
            lemma_le16(x);
        }
        lemma_concat_bytes_len(utf16_units(s), f, 2);
    }
}

/// Append a borrowed byte slice.
pub fn write_bytes(out: &mut Vec<u8>, b: &[u8])
    ensures
        final(out)@ == old(out)@ + b@,
{
    let ghost base = out@;
    let mut i: usize = 0;
    proof {
        assert(out@ =~= base + b@.take(0));
    }
    while i < b.len()
        invariant
            i <= b@.len(),
            out@ == base + b@.take(i as int),
        decreases b@.len() - i,
    {
        out.push(b[i]);
        i = i + 1;
        proof {
            assert(out@ =~= base + b@.take(i as int));
        }
    }
    proof {
        assert(b@.take(b@.len() as int) =~= b@);
    }
}

/// Append the two little-endian bytes of a 16-bit value.
pub fn write_u16(out: &mut Vec<u8>, v: u16)
    ensures
        final(out)@ == old(out)@ + le16(v),
{
    let mut b = u16_to_le_bytes(v);
    out.append(&mut b);
}

/// Append the four little-endian bytes of a 32-bit value.
pub fn write_u32(out: &mut Vec<u8>, v: u32)
    ensures
        final(out)@ == old(out)@ + le32(v),
{
    let mut b = u32_to_le_bytes(v);
    out.append(&mut b);
}

/// Append the eight little-endian bytes of a 64-bit value.
pub fn write_u64(out: &mut Vec<u8>, v: u64)
    ensures
        final(out)@ == old(out)@ + le64(v),
{
    let mut b = u64_to_le_bytes(v);
    out.append(&mut b);
}


/// The UTF-16 code units of a string, as str::encode_utf16 produces
/// them: a function of the characters alone.
pub uninterp spec fn utf16_units(s: Seq<char>) -> Seq<u16>;

/// A string fits the one-byte PTP length prefix: its code units plus
/// the terminator count at most 255.
pub open spec fn str_encodable(s: Seq<char>) -> bool {
    utf16_units(s).len() + 1 <= 255
}

/// The canonical PTP wire form of a string: a single zero byte for the
/// empty string; otherwise one length byte counting the code units plus
/// the terminator, the code units little-endian, then a null code unit.
pub open spec fn spec_ptp_str(s: Seq<char>) -> Seq<u8> {
    if s.len() == 0 {
        seq![0u8]
    } else {
        seq![(utf16_units(s).len() + 1) as u8] + concat_bytes(utf16_units(s), |x: u16| le16(x))
            + seq![0u8, 0u8]
    }
}

/// Relies on str::encode_utf16: the UTF-16 code units of a string are a
/// function of its characters alone, and are empty exactly for the
/// empty string.
#[verifier::external_body]
pub(crate) fn encode_utf16_units(s: &str) -> (r: Vec<u16>)
    ensures
        r@ == utf16_units(s@),
        (s@.len() == 0) <==> (r@.len() == 0),
{
    s.encode_utf16().collect()
}

/// Relies on String::from_utf16: it succeeds exactly on valid UTF-16,
/// and decodes what str::encode_utf16 produced back to the same string.
#[verifier::external_body]
pub(crate) fn decode_utf16_units(u: &[u16]) -> (r: Result<String, Error>)
    ensures
        r is Ok ==> utf16_units(r->Ok_0@) == u@,
        forall|s: Seq<char>| u@ == utf16_units(s) ==> r is Ok && r->Ok_0@ == s,
        r is Err ==> r->Err_0 == Error::Malformed(MalformedKind::InvalidUtf16),
{
    match String::from_utf16(u) {
        Ok(s) => Ok(s),
        Err(_) => Err(Error::Malformed(MalformedKind::InvalidUtf16)),
    }
}

/// Append the canonical PTP wire form of a string; a string whose code
/// units overflow the one-byte length prefix is rejected unwritten.
pub fn write_ptp_str(out: &mut Vec<u8>, s: &str) -> (r: Result<(), Error>)
    ensures
        s@.len() == 0 ==> r is Ok && final(out)@ == old(out)@ + spec_ptp_str(s@),
        str_encodable(s@) ==> r is Ok && final(out)@ == old(out)@ + spec_ptp_str(s@),
        s@.len() > 0 && !str_encodable(s@) ==> r is Err
            && r->Err_0 == Error::Malformed(MalformedKind::StringTooLong)
            && final(out)@ == old(out)@,
{
    let ghost base = out@;
    if s.is_empty() {
        write_u8(out, 0);
        proof {
            assert(out@ =~= base + spec_ptp_str(s@));
        }
        return Ok(());
    }
    let units = encode_utf16_units(s);
    if units.len() > 254 {
        return Err(Error::Malformed(MalformedKind::StringTooLong));
    }
    let ghost f = |x: u16| le16(x);
    write_u8(out, (units.len() + 1) as u8);
    let ghost mid = out@;
    let mut i: usize = 0;
    proof {
        assert(units@.take(0) =~= Seq::<u16>::empty());
        assert(out@ =~= mid + concat_bytes(units@.take(0), f));
    }
    while i < units.len()
        invariant
            i <= units@.len(),
            f == (|x: u16| le16(x)),
            out@ == mid + concat_bytes(units@.take(i as int), f),
        decreases units@.len() - i,
    {
        write_u16(out, units[i]);
        proof {
            assert(units@.take(i as int).push(units@[i as int]) =~= units@.take(i as int + 1));
            lemma_concat_bytes_push(units@.take(i as int), units@[i as int], f);
            assert(f(units@[i as int]) == le16(units@[i as int]));
            assert(concat_bytes(units@.take(i as int + 1), f) == concat_bytes(
                units@.take(i as int),
                f,
            ) + le16(units@[i as int]));
            assert(out@ =~= mid + concat_bytes(units@.take(i as int + 1), f));
        }
        i = i + 1;
    }
    write_u8(out, 0);
    write_u8(out, 0);
    proof {
        assert(units@.take(units@.len() as int) =~= units@);
        assert(out@ =~= base + spec_ptp_str(s@));
    }
    Ok(())
}


/// Append a 32-bit element count, then the bytes.
pub fn write_u8_vec(out: &mut Vec<u8>, v: &Vec<u8>) -> (r: Result<(), Error>)
    ensures
        v@.len() <= 0xFFFF_FFFF ==> r is Ok && final(out)@ == old(out)@ + le32(v@.len() as u32)
            + concat_bytes(v@, |x: u8| seq![x]),
        v@.len() > 0xFFFF_FFFF ==> r is Err
            && r->Err_0 == Error::Malformed(MalformedKind::ArrayTooLong)
            && final(out)@ == old(out)@,
{
    if (v.len() as u64) > 0xFFFF_FFFFu64 {
        return Err(Error::Malformed(MalformedKind::ArrayTooLong));
    }
    let ghost f = |x: u8| seq![x];
    write_u32(out, v.len() as u32);
    let ghost mid = out@;
    let mut i: usize = 0;
    proof {
        assert(v@.take(0) =~= v@.subrange(0, 0));
        assert(concat_bytes(v@.take(0), f) == Seq::<u8>::empty());
        assert(out@ =~= mid + concat_bytes(v@.take(0), f));
    }
    while i < v.len()
        invariant
            i <= v@.len(),
            f == (|x: u8| seq![x]),
            out@ == mid + concat_bytes(v@.take(i as int), f),
        decreases v@.len() - i,
    {
        write_u8(out, v[i]);
        proof {
            assert(v@.take(i as int).push(v@[i as int]) =~= v@.take(i as int + 1));
            lemma_concat_bytes_push(v@.take(i as int), v@[i as int], f);
            assert(out@ =~= mid + concat_bytes(v@.take(i as int + 1), f));
        }
        i = i + 1;
    }
    proof {
        assert(v@.take(v@.len() as int) =~= v@);
    }
    Ok(())
}

/// Append a 32-bit element count, then the bytes of the signed values.
pub fn write_i8_vec(out: &mut Vec<u8>, v: &Vec<i8>) -> (r: Result<(), Error>)
    ensures
        v@.len() <= 0xFFFF_FFFF ==> r is Ok && final(out)@ == old(out)@ + le32(v@.len() as u32)
            + concat_bytes(v@, |x: i8| seq![x as u8]),
        v@.len() > 0xFFFF_FFFF ==> r is Err
            && r->Err_0 == Error::Malformed(MalformedKind::ArrayTooLong)
            && final(out)@ == old(out)@,
{
    if (v.len() as u64) > 0xFFFF_FFFFu64 {
        return Err(Error::Malformed(MalformedKind::ArrayTooLong));
    }
    let ghost f = |x: i8| seq![x as u8];
    write_u32(out, v.len() as u32);
    let ghost mid = out@;
    let mut i: usize = 0;
    proof {
        assert(v@.take(0) =~= v@.subrange(0, 0));
        assert(concat_bytes(v@.take(0), f) == Seq::<u8>::empty());
        assert(out@ =~= mid + concat_bytes(v@.take(0), f));
    }
    while i < v.len()
        invariant
            i <= v@.len(),
            f == (|x: i8| seq![x as u8]),
            out@ == mid + concat_bytes(v@.take(i as int), f),
        decreases v@.len() - i,
    {
        write_u8(out, v[i] as u8);
        proof {
            assert(v@.take(i as int).push(v@[i as int]) =~= v@.take(i as int + 1));
            lemma_concat_bytes_push(v@.take(i as int), v@[i as int], f);
            assert(out@ =~= mid + concat_bytes(v@.take(i as int + 1), f));
        }
        i = i + 1;
    }
    proof {
        assert(v@.take(v@.len() as int) =~= v@);
    }
    Ok(())
}

/// Append a 32-bit element count, then the little-endian 16-bit elements.
pub fn write_u16_vec(out: &mut Vec<u8>, v: &Vec<u16>) -> (r: Result<(), Error>)
    ensures
        v@.len() <= 0xFFFF_FFFF ==> r is Ok && final(out)@ == old(out)@ + le32(v@.len() as u32)
            + concat_bytes(v@, |x: u16| le16(x)),
        v@.len() > 0xFFFF_FFFF ==> r is Err
            && r->Err_0 == Error::Malformed(MalformedKind::ArrayTooLong)
            && final(out)@ == old(out)@,
{
    if (v.len() as u64) > 0xFFFF_FFFFu64 {
        return Err(Error::Malformed(MalformedKind::ArrayTooLong));
    }
    let ghost f = |x: u16| le16(x);
    write_u32(out, v.len() as u32);
    let ghost mid = out@;
    let mut i: usize = 0;
    proof {
        assert(v@.take(0) =~= v@.subrange(0, 0));
        assert(concat_bytes(v@.take(0), f) == Seq::<u8>::empty());
        assert(out@ =~= mid + concat_bytes(v@.take(0), f));
    }
    while i < v.len()
        invariant
            i <= v@.len(),
            f == (|x: u16| le16(x)),
            out@ == mid + concat_bytes(v@.take(i as int), f),
        decreases v@.len() - i,
    {
        write_u16(out, v[i]);
        proof {
            assert(v@.take(i as int).push(v@[i as int]) =~= v@.take(i as int + 1));
            lemma_concat_bytes_push(v@.take(i as int), v@[i as int], f);
            assert(out@ =~= mid + concat_bytes(v@.take(i as int + 1), f));
        }
        i = i + 1;
    }
    proof {
        assert(v@.take(v@.len() as int) =~= v@);
    }
    Ok(())
}

/// Append a 32-bit element count, then the little-endian signed 16-bit elements.
pub fn write_i16_vec(out: &mut Vec<u8>, v: &Vec<i16>) -> (r: Result<(), Error>)
    ensures
        v@.len() <= 0xFFFF_FFFF ==> r is Ok && final(out)@ == old(out)@ + le32(v@.len() as u32)
            + concat_bytes(v@, |x: i16| le16(x as u16)),
        v@.len() > 0xFFFF_FFFF ==> r is Err
            && r->Err_0 == Error::Malformed(MalformedKind::ArrayTooLong)
            && final(out)@ == old(out)@,
{
    if (v.len() as u64) > 0xFFFF_FFFFu64 {
        return Err(Error::Malformed(MalformedKind::ArrayTooLong));
    }
    let ghost f = |x: i16| le16(x as u16);
    write_u32(out, v.len() as u32);
    let ghost mid = out@;
    let mut i: usize = 0;
    proof {
        assert(v@.take(0) =~= v@.subrange(0, 0));
        assert(concat_bytes(v@.take(0), f) == Seq::<u8>::empty());
        assert(out@ =~= mid + concat_bytes(v@.take(0), f));
    }
    while i < v.len()
        invariant
            i <= v@.len(),
            f == (|x: i16| le16(x as u16)),
            out@ == mid + concat_bytes(v@.take(i as int), f),
        decreases v@.len() - i,
    {
        write_u16(out, v[i] as u16);
        proof {
            assert(v@.take(i as int).push(v@[i as int]) =~= v@.take(i as int + 1));
            lemma_concat_bytes_push(v@.take(i as int), v@[i as int], f);
            assert(out@ =~= mid + concat_bytes(v@.take(i as int + 1), f));
        }
        i = i + 1;
    }
    proof {
        assert(v@.take(v@.len() as int) =~= v@);
    }
    Ok(())
}

/// Append a 32-bit element count, then the little-endian 32-bit elements.
pub fn write_u32_vec(out: &mut Vec<u8>, v: &Vec<u32>) -> (r: Result<(), Error>)
    ensures
        v@.len() <= 0xFFFF_FFFF ==> r is Ok && final(out)@ == old(out)@ + le32(v@.len() as u32)
            + concat_bytes(v@, |x: u32| le32(x)),
        v@.len() > 0xFFFF_FFFF ==> r is Err
            && r->Err_0 == Error::Malformed(MalformedKind::ArrayTooLong)
            && final(out)@ == old(out)@,
{
    if (v.len() as u64) > 0xFFFF_FFFFu64 {
        return Err(Error::Malformed(MalformedKind::ArrayTooLong));
    }
    let ghost f = |x: u32| le32(x);
    write_u32(out, v.len() as u32);
    let ghost mid = out@;
    let mut i: usize = 0;
    proof {
        assert(v@.take(0) =~= v@.subrange(0, 0));
        assert(concat_bytes(v@.take(0), f) == Seq::<u8>::empty());
        assert(out@ =~= mid + concat_bytes(v@.take(0), f));
    }
    while i < v.len()
        invariant
            i <= v@.len(),
            f == (|x: u32| le32(x)),
            out@ == mid + concat_bytes(v@.take(i as int), f),
        decreases v@.len() - i,
    {
        write_u32(out, v[i]);
        proof {
            assert(v@.take(i as int).push(v@[i as int]) =~= v@.take(i as int + 1));
            lemma_concat_bytes_push(v@.take(i as int), v@[i as int], f);
            assert(out@ =~= mid + concat_bytes(v@.take(i as int + 1), f));
        }
        i = i + 1;
    }
    proof {
        assert(v@.take(v@.len() as int) =~= v@);
    }
    Ok(())
}

/// Append a 32-bit element count, then the little-endian signed 32-bit elements.
pub fn write_i32_vec(out: &mut Vec<u8>, v: &Vec<i32>) -> (r: Result<(), Error>)
    ensures
        v@.len() <= 0xFFFF_FFFF ==> r is Ok && final(out)@ == old(out)@ + le32(v@.len() as u32)
            + concat_bytes(v@, |x: i32| le32(x as u32)),
        v@.len() > 0xFFFF_FFFF ==> r is Err
            && r->Err_0 == Error::Malformed(MalformedKind::ArrayTooLong)
            && final(out)@ == old(out)@,
{
    if (v.len() as u64) > 0xFFFF_FFFFu64 {
        return Err(Error::Malformed(MalformedKind::ArrayTooLong));
    }
    let ghost f = |x: i32| le32(x as u32);
    write_u32(out, v.len() as u32);
    let ghost mid = out@;
    let mut i: usize = 0;
    proof {
        assert(v@.take(0) =~= v@.subrange(0, 0));
        assert(concat_bytes(v@.take(0), f) == Seq::<u8>::empty());
        assert(out@ =~= mid + concat_bytes(v@.take(0), f));
    }
    while i < v.len()
        invariant
            i <= v@.len(),
            f == (|x: i32| le32(x as u32)),
            out@ == mid + concat_bytes(v@.take(i as int), f),
        decreases v@.len() - i,
    {
        write_u32(out, v[i] as u32);
        proof {
            assert(v@.take(i as int).push(v@[i as int]) =~= v@.take(i as int + 1));
            lemma_concat_bytes_push(v@.take(i as int), v@[i as int], f);
            assert(out@ =~= mid + concat_bytes(v@.take(i as int + 1), f));
        }
        i = i + 1;
    }
    proof {
        assert(v@.take(v@.len() as int) =~= v@);
    }
    Ok(())
}

/// Append a 32-bit element count, then the little-endian 64-bit elements.
pub fn write_u64_vec(out: &mut Vec<u8>, v: &Vec<u64>) -> (r: Result<(), Error>)
    ensures
        v@.len() <= 0xFFFF_FFFF ==> r is Ok && final(out)@ == old(out)@ + le32(v@.len() as u32)
            + concat_bytes(v@, |x: u64| le64(x)),
        v@.len() > 0xFFFF_FFFF ==> r is Err
            && r->Err_0 == Error::Malformed(MalformedKind::ArrayTooLong)
            && final(out)@ == old(out)@,
{
    if (v.len() as u64) > 0xFFFF_FFFFu64 {
        return Err(Error::Malformed(MalformedKind::ArrayTooLong));
    }
    let ghost f = |x: u64| le64(x);
    write_u32(out, v.len() as u32);
    let ghost mid = out@;
    let mut i: usize = 0;
    proof {
        assert(v@.take(0) =~= v@.subrange(0, 0));
        assert(concat_bytes(v@.take(0), f) == Seq::<u8>::empty());
        assert(out@ =~= mid + concat_bytes(v@.take(0), f));
    }
    while i < v.len()
        invariant
            i <= v@.len(),
            f == (|x: u64| le64(x)),
            out@ == mid + concat_bytes(v@.take(i as int), f),
        decreases v@.len() - i,
    {
        write_u64(out, v[i]);
        proof {
            assert(v@.take(i as int).push(v@[i as int]) =~= v@.take(i as int + 1));
            lemma_concat_bytes_push(v@.take(i as int), v@[i as int], f);
            assert(out@ =~= mid + concat_bytes(v@.take(i as int + 1), f));
        }
        i = i + 1;
    }
    proof {
        assert(v@.take(v@.len() as int) =~= v@);
    }
    Ok(())
}

/// Append a 32-bit element count, then the little-endian signed 64-bit elements.
pub fn write_i64_vec(out: &mut Vec<u8>, v: &Vec<i64>) -> (r: Result<(), Error>)
    ensures
        v@.len() <= 0xFFFF_FFFF ==> r is Ok && final(out)@ == old(out)@ + le32(v@.len() as u32)
            + concat_bytes(v@, |x: i64| le64(x as u64)),
        v@.len() > 0xFFFF_FFFF ==> r is Err
            && r->Err_0 == Error::Malformed(MalformedKind::ArrayTooLong)
            && final(out)@ == old(out)@,
{
    if (v.len() as u64) > 0xFFFF_FFFFu64 {
        return Err(Error::Malformed(MalformedKind::ArrayTooLong));
    }
    let ghost f = |x: i64| le64(x as u64);
    write_u32(out, v.len() as u32);
    let ghost mid = out@;
    let mut i: usize = 0;
    proof {
        assert(v@.take(0) =~= v@.subrange(0, 0));
        assert(concat_bytes(v@.take(0), f) == Seq::<u8>::empty());
        assert(out@ =~= mid + concat_bytes(v@.take(0), f));
    }
    while i < v.len()
        invariant
            i <= v@.len(),
            f == (|x: i64| le64(x as u64)),
            out@ == mid + concat_bytes(v@.take(i as int), f),
        decreases v@.len() - i,
    {
        write_u64(out, v[i] as u64);
        proof {
            assert(v@.take(i as int).push(v@[i as int]) =~= v@.take(i as int + 1));
            lemma_concat_bytes_push(v@.take(i as int), v@[i as int], f);
            assert(out@ =~= mid + concat_bytes(v@.take(i as int + 1), f));
        }
        i = i + 1;
    }
    proof {
        assert(v@.take(v@.len() as int) =~= v@);
    }
    Ok(())
}

/// Append a 32-bit element count, then the 128-bit elements, low half first.
pub fn write_pair_vec(out: &mut Vec<u8>, v: &Vec<(u64, u64)>) -> (r: Result<(), Error>)
    ensures
        v@.len() <= 0xFFFF_FFFF ==> r is Ok && final(out)@ == old(out)@ + le32(v@.len() as u32)
            + concat_bytes(v@, |x: (u64, u64)| pair_bytes(x)),
        v@.len() > 0xFFFF_FFFF ==> r is Err
            && r->Err_0 == Error::Malformed(MalformedKind::ArrayTooLong)
            && final(out)@ == old(out)@,
{
    if (v.len() as u64) > 0xFFFF_FFFFu64 {
        return Err(Error::Malformed(MalformedKind::ArrayTooLong));
    }
    let ghost f = |x: (u64, u64)| pair_bytes(x);
    write_u32(out, v.len() as u32);
    let ghost mid = out@;
    let mut i: usize = 0;
    proof {
        assert(v@.take(0) =~= v@.subrange(0, 0));
        assert(concat_bytes(v@.take(0), f) == Seq::<u8>::empty());
        assert(out@ =~= mid + concat_bytes(v@.take(0), f));
    }
    while i < v.len()
        invariant
            i <= v@.len(),
            f == (|x: (u64, u64)| pair_bytes(x)),
            out@ == mid + concat_bytes(v@.take(i as int), f),
        decreases v@.len() - i,
    {
        write_u64(out, v[i].0);
        write_u64(out, v[i].1);
        proof {
            assert(v@.take(i as int).push(v@[i as int]) =~= v@.take(i as int + 1));
            lemma_concat_bytes_push(v@.take(i as int), v@[i as int], f);
            assert(out@ =~= mid + concat_bytes(v@.take(i as int + 1), f));
        }
        i = i + 1;
    }
    proof {
        assert(v@.take(v@.len() as int) =~= v@);
    }
    Ok(())
}

} // verus!
