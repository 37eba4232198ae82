//! PTP container framing: the 12-byte header {length, kind, code,
//! transaction id} that frames every bulk message, and the writers that
//! produce framed messages.
use vstd::prelude::*;
use crate::codec::{
    le16, le32, u16_at, u32_at, concat_bytes, Reader, write_u16, write_u32, write_bytes,
    lemma_le16, lemma_le32, lemma_concat_bytes_push, lemma_concat_bytes_len,
};
use crate::error::{Error, MalformedKind};

verus! {

/// The four container kinds of the PTP USB transport.
#[derive(Debug, Clone, Copy, PartialEq, Eq, Structural)]
pub enum PtpContainerType {
    Command,
    Data,
    Response,
    Event,
}

impl PtpContainerType {
    /// The wire code of this container kind.
    pub open spec fn spec_code(self) -> u16 {
        match self {
            PtpContainerType::Command => 1,
            PtpContainerType::Data => 2,
            PtpContainerType::Response => 3,
            PtpContainerType::Event => 4,
        }
    }

    /// The wire code of this container kind.
    pub fn as_u16(&self) -> (r: u16)
        ensures
            r == self.spec_code(),
    {
        match self {
            PtpContainerType::Command => 1,
            PtpContainerType::Data => 2,
            PtpContainerType::Response => 3,
            PtpContainerType::Event => 4,
        }
    }

    /// The container kind carrying the wire code `v`, if any.
    pub open spec fn spec_from_u16(v: u16) -> Option<PtpContainerType> {
        match v {
            1u16 => Some(PtpContainerType::Command),
            2u16 => Some(PtpContainerType::Data),
            3u16 => Some(PtpContainerType::Response),
            4u16 => Some(PtpContainerType::Event),
            _ => None,
        }
    }

    /// The container kind carrying the wire code `v`, if any.
    pub fn from_u16(v: u16) -> (r: Option<PtpContainerType>)
        ensures
            r == Self::spec_from_u16(v),
            (r is Some) <==> (1 <= v <= 4),
    {
        match v {
            1u16 => Some(PtpContainerType::Command),
            2u16 => Some(PtpContainerType::Data),
            3u16 => Some(PtpContainerType::Response),
            4u16 => Some(PtpContainerType::Event),
            _ => None,
        }
    }
}

/// The size of the container header on the wire.
pub const PTP_CONTAINER_INFO_SIZE: usize = 12;

/// One whole container on the wire: a length field counting header and
/// payload, the kind and code fields, the transaction id, the payload.
pub open spec fn container_bytes(
    kind: PtpContainerType,
    code: u16,
    tid: u32,
    payload: Seq<u8>,
) -> Seq<u8> {
    le32((12 + payload.len()) as u32) + le16(kind.spec_code()) + le16(code) + le32(tid) + payload
}

/// A parsed container header.
#[derive(Debug, Clone, Copy, PartialEq, Eq, Structural)]
pub struct PtpContainerInfo {
    /// Payload length in bytes: the length field less the header size.
    pub payload_len: usize,
    /// Container kind.
    pub kind: PtpContainerType,
    /// An operation code or a response code, depending on `kind`.
    pub code: u16,
    /// The transaction this container belongs to.
    pub tid: u32,
}

impl PtpContainerInfo {
    /// What parsing the first 12 bytes of `b` yields: the header fields,
    /// or the malformed-data error naming what is wrong.
    pub open spec fn spec_parse(b: Seq<u8>) -> Result<PtpContainerInfo, Error> {
        if b.len() < 12 {
            Err(Error::Malformed(MalformedKind::UnexpectedEnd))
        } else if PtpContainerType::spec_from_u16(u16_at(b, 4)) is None {
            Err(Error::Malformed(MalformedKind::InvalidContainerKind))
        } else if u32_at(b, 0) < 12 {
            Err(Error::Malformed(MalformedKind::ContainerTooShort))
        } else {
            Ok(
                PtpContainerInfo {
                    payload_len: (u32_at(b, 0) - 12) as usize,
                    kind: PtpContainerType::spec_from_u16(u16_at(b, 4))->Some_0,
                    code: u16_at(b, 6),
                    tid: u32_at(b, 8),
                },
            )
        }
    }

    /// Parse a container header from the front of `buf`.
    pub fn parse(buf: &[u8]) -> (r: Result<PtpContainerInfo, Error>)
        ensures
            r == Self::spec_parse(buf@),
    {
        let mut cur = Reader::new(buf);
        let len = match cur.read_ptp_u32() {
            Ok(v) => v,
            Err(_) => {
                return Err(Error::Malformed(MalformedKind::UnexpectedEnd));
            },
        };
        let kind_u16 = match cur.read_ptp_u16() {
            Ok(v) => v,
            Err(_) => {
                return Err(Error::Malformed(MalformedKind::UnexpectedEnd));
            },
        };
        let code = match cur.read_ptp_u16() {
            Ok(v) => v,
            Err(_) => {
                return Err(Error::Malformed(MalformedKind::UnexpectedEnd));
            },
        };
        let tid = match cur.read_ptp_u32() {
            Ok(v) => v,
            Err(_) => {
                return Err(Error::Malformed(MalformedKind::UnexpectedEnd));
            },
        };
        let kind = match PtpContainerType::from_u16(kind_u16) {
            Some(k) => k,
            None => {
                return Err(Error::Malformed(MalformedKind::InvalidContainerKind));
            },
        };
        if len < 12 {
            return Err(Error::Malformed(MalformedKind::ContainerTooShort));
        }
        Ok(PtpContainerInfo { payload_len: (len - 12) as usize, kind, code, tid })
    }

    /// Does this container belong to the transaction with id `tid`?
    pub fn belongs_to(&self, tid: u32) -> (r: bool)
        ensures
            r == (self.tid == tid),
    {
        self.tid == tid
    }
}

/// A whole container taken apart: its transaction id, its code, and its
/// payload bytes.
#[derive(Debug, PartialEq)]
pub struct PtpTransaction {
    pub tid: u32,
    pub code: u16,
    pub data: Vec<u8>,
}

impl PtpTransaction {
    /// Split a whole buffer into its container kind and the message; the
    /// payload is everything after the 12-byte header, whatever the
    /// length field says.
    pub fn parse(buf: &[u8]) -> (r: Result<(PtpContainerType, PtpTransaction), Error>)
        ensures
            (r is Ok <==> buf@.len() >= 12 && (PtpContainerType::spec_from_u16(
                u16_at(buf@, 4),
            ) is Some)),
            r is Ok ==> ({
                let (kind, t) = r->Ok_0;
                &&& Some(kind) == PtpContainerType::spec_from_u16(u16_at(buf@, 4))
                &&& t.code == u16_at(buf@, 6)
                &&& t.tid == u32_at(buf@, 8)
                &&& t.data@ == buf@.skip(12)
            }),
            r is Err ==> (buf@.len() < 12 && r->Err_0 == Error::Malformed(
                MalformedKind::UnexpectedEnd,
            )) || (buf@.len() >= 12 && r->Err_0 == Error::Malformed(
                MalformedKind::InvalidContainerKind,
            )),
    {
        if buf.len() < 12 {
            return Err(Error::Malformed(MalformedKind::UnexpectedEnd));
        }
        let mut cur = Reader::new(buf);
        let _len = match cur.read_ptp_u32() {
            Ok(v) => v,
            Err(e) => {
                return Err(e);
            },
        };
        let kind_u16 = match cur.read_ptp_u16() {
            Ok(v) => v,
            Err(e) => {
                return Err(e);
            },
        };
        let code = match cur.read_ptp_u16() {
            Ok(v) => v,
            Err(e) => {
                return Err(e);
            },
        };
        let tid = match cur.read_ptp_u32() {
            Ok(v) => v,
            Err(e) => {
                return Err(e);
            },
        };
        let kind = match PtpContainerType::from_u16(kind_u16) {
            Some(k) => k,
            None => {
                return Err(Error::Malformed(MalformedKind::InvalidContainerKind));
            },
        };
        let rest = vstd::slice::slice_subrange(buf, 12, buf.len());
        let data = vstd::slice::slice_to_vec(rest);
        proof {
            assert(data@ =~= buf@.skip(12));
        }
        Ok((kind, PtpTransaction { tid, code, data }))
    }

    /// Does this message answer `target`, that is, share its
    /// transaction id?
    pub fn is_response(&self, target: &PtpTransaction) -> (r: bool)
        ensures
            r == (self.tid == target.tid),
    {
        self.tid == target.tid
    }
}

/// The payload of a Command container: the parameters as consecutive
/// little-endian 32-bit values.
pub open spec fn params_payload(params: Seq<u32>) -> Seq<u8> {
    concat_bytes(params, |p: u32| le32(p))
}

/// Append one whole container: the 12-byte header, then the payload.
pub fn ptp_gen_message(
    w: &mut Vec<u8>,
    kind: PtpContainerType,
    code: u16,
    tid: u32,
    payload: &[u8],
)
    requires
        payload@.len() + 12 <= 0xFFFF_FFFF,
    ensures
        final(w)@ == old(w)@ + container_bytes(kind, code, tid, payload@),
{
    let ghost base = w@;
    write_u32(w, (payload.len() as u32) + 12);
    write_u16(w, kind.as_u16());
    write_u16(w, code);
    write_u32(w, tid);
    write_bytes(w, payload);
    proof {
        assert(w@ =~= base + container_bytes(kind, code, tid, payload@));
    }
}

/// Append one Command container carrying the given parameters.
pub fn ptp_gen_cmd_message(w: &mut Vec<u8>, code: u16, tid: u32, params: &[u32])
    requires
        4 * params@.len() + 12 <= 0xFFFF_FFFF,
    ensures
        final(w)@ == old(w)@ + container_bytes(
            PtpContainerType::Command,
            code,
            tid,
            params_payload(params@),
        ),
{
    let ghost f = |p: u32| le32(p);
    let mut payload: Vec<u8> = Vec::new();
    let mut i: usize = 0;
    proof {
        assert(payload@ =~= concat_bytes(params@.take(0), f));
    }
    while i < params.len()
        invariant
            i <= params@.len(),
            f == (|p: u32| le32(p)),
            payload@ == concat_bytes(params@.take(i as int), f),
            payload@.len() == 4 * i,
        decreases params@.len() - i,
    {
        write_u32(&mut payload, params[i]);
        proof {
            assert(params@.take(i as int).push(params@[i as int]) =~= params@.take(i as int + 1));
            lemma_concat_bytes_push(params@.take(i as int), params@[i as int], f);
            assert(payload@ =~= concat_bytes(params@.take(i as int + 1), f));
            lemma_le32(params@[i as int]);
        }
        i = i + 1;
    }
    proof {
        assert(params@.take(params@.len() as int) =~= params@);
    }
    ptp_gen_message(w, PtpContainerType::Command, code, tid, payload.as_slice());
}

/// The container law: a framed message is exactly twelve header bytes
/// before the payload, the length field counts both, and parsing the
/// front of the message recovers the header that framed it.
pub proof fn lemma_container_round_trip(
    kind: PtpContainerType,
    code: u16,
    tid: u32,
    payload: Seq<u8>,
)
    requires
        payload.len() + 12 <= 0xFFFF_FFFF,
    ensures
        container_bytes(kind, code, tid, payload).len() == 12 + payload.len(),
        container_bytes(kind, code, tid, payload).skip(12) == payload,
        PtpContainerInfo::spec_parse(container_bytes(kind, code, tid, payload)) == Ok::<
            PtpContainerInfo,
            Error,
        >(
            PtpContainerInfo {
                payload_len: payload.len() as usize,
                kind,
                code,
                tid,
            },
        ),
{
    let b = container_bytes(kind, code, tid, payload);
    let len_field = (12 + payload.len()) as u32;
    lemma_le32(len_field);
    lemma_le16(kind.spec_code());
    lemma_le16(code);
    lemma_le32(tid);
    assert(b.len() == 12 + payload.len());
    assert(b.subrange(0, 4) =~= le32(len_field));
    assert(b.subrange(4, 6) =~= le16(kind.spec_code()));
    assert(b.subrange(6, 8) =~= le16(code));
    assert(b.subrange(8, 12) =~= le32(tid));
    assert(u32_at(b, 0) == len_field) by {
        assert(b.subrange(0, 4) == le32(len_field));
        vstd::bytes::lemma_auto_spec_u32_to_from_le_bytes();
    }
    assert(u16_at(b, 4) == kind.spec_code()) by {
        assert(b.subrange(4, 6) == le16(kind.spec_code()));
        vstd::bytes::lemma_auto_spec_u16_to_from_le_bytes();
    }
    assert(u16_at(b, 6) == code) by {
        assert(b.subrange(6, 8) == le16(code));
        vstd::bytes::lemma_auto_spec_u16_to_from_le_bytes();
    }
    assert(u32_at(b, 8) == tid) by {
        assert(b.subrange(8, 12) == le32(tid));
        vstd::bytes::lemma_auto_spec_u32_to_from_le_bytes();
    }
    assert(PtpContainerType::spec_from_u16(kind.spec_code()) == Some(kind));
    assert(b.skip(12) =~= payload);
}

} // verus!
