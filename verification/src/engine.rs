//! The PTP transaction engine: a session over a bulk transport with a
//! monotonically increasing transaction id, driving the
//! command/data-out/data-in/response protocol with chunked writes,
//! chunked reads, and zero-length-packet handling.
use vstd::prelude::*;
use crate::codec::{u32_at, u32s_at, write_bytes, write_u16, write_u32, Reader};
use crate::container::{
    container_bytes, lemma_container_round_trip, params_payload, ptp_gen_cmd_message,
    PtpContainerInfo, PtpContainerType,
};
use crate::error::{Error, MalformedKind, TransportError};
use crate::transport::Transport;
use crate::descriptors::{
    storage_info_bytes, storage_info_encodable, device_info_bytes, device_info_encodable,
    object_info_bytes, object_info_encodable, PtpDeviceInfo, PtpObjectInfo, PtpStorageInfo,
    DeviceInfoV, ObjectInfoV, StorageInfoV,
};

verus! {

/// Each data-out bulk transfer carries at most this many bytes; it must
/// be a multiple of the endpoint's max packet size.
pub const CHUNK_SIZE: usize = 1024 * 1024;

/// The size of the scratch read that starts every inbound container;
/// large enough for control payloads without reallocation.
pub const SCRATCH_SIZE: usize = 8 * 1024;

/// A byte sequence cut into transfers of at most `size` bytes each,
/// all but the last exactly `size`.
pub open spec fn chunks_of(b: Seq<u8>, size: int) -> Seq<Seq<u8>>
    decreases b.len(),
{
    if size <= 0 {
        Seq::empty()
    } else if b.len() == 0 {
        Seq::empty()
    } else if b.len() <= size {
        seq![b]
    } else {
        seq![b.take(size)] + chunks_of(b.skip(size), size)
    }
}

/// The bulk writes of one transaction: the framed Command container,
/// then, when there is outbound data, the framed Data container cut
/// into transfers of at most `CHUNK_SIZE` bytes — the first transfer
/// carries the header, later ones raw payload.
pub open spec fn txn_writes(code: u16, tid: u32, params: Seq<u32>, data: Option<Seq<u8>>) -> Seq<
    Seq<u8>,
> {
    let cmd = container_bytes(PtpContainerType::Command, code, tid, params_payload(params));
    match data {
        Some(d) => seq![cmd] + chunks_of(
            container_bytes(PtpContainerType::Data, code, tid, d),
            CHUNK_SIZE as int,
        ),
        None => seq![cmd],
    }
}

/// How the read side of a transaction can end, up to the detail of a
/// transport error.
pub enum TxnErr {
    /// The transport failed, or the inbound queue ran dry.
    Transport,
    /// A container violated the framing rules.
    Malformed(MalformedKind),
    /// The responder closed the transaction with a code other than Ok.
    Responder(u16),
}

/// Does the engine error `e` report the read-side outcome `te`?
pub open spec fn matches_txn_err(e: Error, te: TxnErr) -> bool {
    match (e, te) {
        (Error::Transport(_), TxnErr::Transport) => true,
        (Error::Malformed(k), TxnErr::Malformed(k2)) => k == k2,
        (Error::Response(c), TxnErr::Responder(c2)) => c == c2,
        _ => false,
    }
}

/// The malformed-data kind of a framing error.
pub open spec fn malformed_kind_of(e: Error) -> MalformedKind {
    match e {
        Error::Malformed(k) => k,
        _ => MalformedKind::UnexpectedEnd,
    }
}


/// `w` extends `w0` by a strict prefix of the planned writes `ws`.
pub open spec fn written_prefix(w0: Seq<Seq<u8>>, ws: Seq<Seq<u8>>, w: Seq<Seq<u8>>) -> bool {
    exists|k: int| #![trigger ws.take(k)] 0 <= k < ws.len() && w == w0 + ws.take(k)
}

/// Collecting a payload remainder from the queue: each read asks for
/// exactly what is missing, and short reads continue the loop.  Yields
/// how many transfers were consumed and the bytes collected.
pub open spec fn spec_fill(inb: Seq<Seq<u8>>, need: int) -> (int, Result<Seq<u8>, TxnErr>)
    decreases inb.len(),
{
    if need <= 0 {
        (0, Ok(Seq::empty()))
    } else if inb.len() == 0 || inb[0].len() > need {
        (0, Err(TxnErr::Transport))
    } else {
        let rest = spec_fill(inb.drop_first(), need - inb[0].len());
        (
            1 + rest.0,
            match rest.1 {
                Ok(s) => Ok(inb[0] + s),
                Err(e) => Err(e),
            },
        )
    }
}

/// Reading one container from the queue: a scratch-sized first read,
/// the header parse, the payload fill, and — when the first read filled
/// the scratch exactly and the payload length is a multiple of the max
/// packet size — one more read to consume the zero-length packet.
/// Yields how many transfers were consumed and the parsed container.
pub open spec fn spec_phase(inb: Seq<Seq<u8>>, scratch: int, mp: int) -> (
    int,
    Result<(PtpContainerInfo, Seq<u8>), TxnErr>,
) {
    if inb.len() == 0 || inb[0].len() > scratch {
        (0, Err(TxnErr::Transport))
    } else {
        let r0 = inb[0];
        match PtpContainerInfo::spec_parse(r0) {
            Err(e) => (1, Err(TxnErr::Malformed(malformed_kind_of(e)))),
            Ok(ci) => {
                if ci.payload_len == 0 {
                    (1, Ok((ci, Seq::empty())))
                } else {
                    let got0 = if r0.len() - 12 <= ci.payload_len {
                        r0.skip(12)
                    } else {
                        r0.skip(12).take(ci.payload_len as int)
                    };
                    let fill = spec_fill(inb.drop_first(), ci.payload_len - got0.len());
                    match fill.1 {
                        Err(e) => (1 + fill.0, Err(e)),
                        Ok(tail) => {
                            if r0.len() == scratch && (ci.payload_len as int) % mp == 0 {
                                let j = 1 + fill.0;
                                if inb.len() <= j || inb[j].len() > mp {
                                    (j, Err(TxnErr::Transport))
                                } else {
                                    (j + 1, Ok((ci, got0 + tail)))
                                }
                            } else {
                                (1 + fill.0, Ok((ci, got0 + tail)))
                            }
                        },
                    }
                }
            },
        }
    }
}

/// The read loop of one transaction: containers with a stale
/// transaction id are discarded, a Data container replaces the
/// accumulated payload, and a Response ends the transaction — with its
/// payload on the Ok code, with the responder's code otherwise.
pub open spec fn spec_txn_reads(
    inb: Seq<Seq<u8>>,
    tid: u32,
    scratch: int,
    mp: int,
    acc: Seq<u8>,
) -> (int, Result<Seq<u8>, TxnErr>)
    decreases inb.len(),
{
    let ph = spec_phase(inb, scratch, mp);
    match ph.1 {
        Err(e) => (ph.0, Err(e)),
        Ok((ci, payload)) => {
            if !(1 <= ph.0 <= inb.len()) {
                (ph.0, Err(TxnErr::Transport))
            } else if ci.tid != tid {
                let rest = spec_txn_reads(inb.skip(ph.0), tid, scratch, mp, acc);
                (ph.0 + rest.0, rest.1)
            } else {
                match ci.kind {
                    PtpContainerType::Data => {
                        let rest = spec_txn_reads(inb.skip(ph.0), tid, scratch, mp, payload);
                        (ph.0 + rest.0, rest.1)
                    },
                    PtpContainerType::Response => {
                        if ci.code == 0x2001 {
                            (ph.0, Ok(acc))
                        } else {
                            (ph.0, Err(TxnErr::Responder(ci.code)))
                        }
                    },
                    _ => {
                        let rest = spec_txn_reads(inb.skip(ph.0), tid, scratch, mp, acc);
                        (ph.0 + rest.0, rest.1)
                    },
                }
            }
        },
    }
}

/// The fill step never consumes more transfers than the queue holds.
pub proof fn lemma_spec_fill_bounds(inb: Seq<Seq<u8>>, need: int)
    ensures
        0 <= spec_fill(inb, need).0 <= inb.len(),
    decreases inb.len(),
{
    if need <= 0 {
    } else if inb.len() == 0 || inb[0].len() > need {
    } else {
        lemma_spec_fill_bounds(inb.drop_first(), need - inb[0].len());
    }
}

/// A phase consumes at least one transfer when it yields a container,
/// and never more than the queue holds.
pub proof fn lemma_spec_phase_bounds(inb: Seq<Seq<u8>>, scratch: int, mp: int)
    ensures
        0 <= spec_phase(inb, scratch, mp).0 <= inb.len(),
        spec_phase(inb, scratch, mp).1 is Ok ==> spec_phase(inb, scratch, mp).0 >= 1,
{
    if inb.len() == 0 || inb[0].len() > scratch {
    } else {
        let r0 = inb[0];
        match PtpContainerInfo::spec_parse(r0) {
            Err(_) => {},
            Ok(ci) => {
                if ci.payload_len == 0 {
                } else {
                    let got0 = if r0.len() - 12 <= ci.payload_len {
                        r0.skip(12)
                    } else {
                        r0.skip(12).take(ci.payload_len as int)
                    };
                    lemma_spec_fill_bounds(inb.drop_first(), ci.payload_len - got0.len());
                }
            },
        }
    }
}



/// The read-side outcome of the transaction that `tid` names, over the
/// queued inbound transfers.
pub open spec fn txn_outcome(inb: Seq<Seq<u8>>, tid: u32, mp: int) -> Result<Seq<u8>, TxnErr> {
    spec_txn_reads(inb, tid, SCRATCH_SIZE as int, mp, Seq::empty()).1
}

/// How many inbound transfers the transaction that `tid` names consumes.
pub open spec fn txn_consumed(inb: Seq<Seq<u8>>, tid: u32, mp: int) -> int {
    spec_txn_reads(inb, tid, SCRATCH_SIZE as int, mp, Seq::empty()).0
}



/// A payload holding exactly a 32-bit element count and that many
/// 32-bit values.
pub open spec fn u32_array_payload(d: Seq<u8>) -> bool {
    d.len() >= 4 && 4 + 4 * (u32_at(d, 0) as int) == d.len()
}

/// The format filter actually sent: zero stands for any format.
pub open spec fn filter_or_zero(f: Option<u32>) -> u32 {
    match f {
        Some(x) => x,
        None => 0u32,
    }
}

/// A PTP session: a bulk transport, the next transaction id, and the
/// endpoint's max packet size, needed for zero-length-packet handling.
pub struct PtpCamera<T: Transport> {
    pub transport: T,
    pub current_tid: u32,
    pub max_packet: usize,
}

impl<T: Transport> PtpCamera<T> {
    /// The max packet size of a usable endpoint is positive.
    pub open spec fn wf(&self) -> bool {
        self.max_packet >= 1
    }

    /// A session over `transport` whose first transaction gets id 0.
    pub fn new(transport: T, max_packet: usize) -> (r: PtpCamera<T>)
        requires
            max_packet >= 1,
        ensures
            r.wf(),
            r.transport == transport,
            r.current_tid == 0,
            r.max_packet == max_packet,
    {
        PtpCamera { transport, current_tid: 0, max_packet }
    }

    /// Write one protocol phase: the container framing `payload`, cut
    /// into bulk transfers of at most `CHUNK_SIZE` bytes.  The first
    /// transfer carries the header and as much payload as fits; later
    /// transfers carry raw payload without re-framing.
    fn write_txn_phase(
        &mut self,
        kind: PtpContainerType,
        code: u16,
        tid: u32,
        payload: &[u8],
        timeout_ms: u64,
    ) -> (r: Result<(), Error>)
        requires
            old(self).wf(),
            payload@.len() + 12 <= 0xFFFF_FFFF,
        ensures
            final(self).wf(),
            final(self).current_tid == old(self).current_tid,
            final(self).max_packet == old(self).max_packet,
            final(self).transport.inbound() == old(self).transport.inbound(),
            final(self).transport.infallible() == old(self).transport.infallible(),
            old(self).transport.infallible() ==> r is Ok,
            ({
                let ws = chunks_of(container_bytes(kind, code, tid, payload@), CHUNK_SIZE as int);
                &&& (r is Ok ==> final(self).transport.written() == old(self).transport.written()
                    + ws)
                &&& (r is Err ==> r->Err_0 is Transport && exists|k: int|
                    0 <= k < ws.len() && final(self).transport.written() == old(
                        self,
                    ).transport.written() + ws.take(k))
            }),
    {
        let ghost framed = container_bytes(kind, code, tid, payload@);
        let ghost ws = chunks_of(framed, CHUNK_SIZE as int);
        let ghost w0 = old(self).transport.written();
        let first_chunk_payload = if payload.len() <= CHUNK_SIZE - 12 {
            payload.len()
        } else {
            CHUNK_SIZE - 12
        };
        let mut buf: Vec<u8> = Vec::new();
        write_u32(&mut buf, (payload.len() as u32) + 12);
        write_u16(&mut buf, kind.as_u16());
        write_u16(&mut buf, code);
        write_u32(&mut buf, tid);
        write_bytes(&mut buf, vstd::slice::slice_subrange(payload, 0, first_chunk_payload));
        proof {
            lemma_container_round_trip(kind, code, tid, payload@);
            assert(framed =~= buf@ + payload@.skip(first_chunk_payload as int));
            if payload@.len() <= CHUNK_SIZE - 12 {
                assert(buf@ =~= framed);
                assert(ws == seq![framed]);
            } else {
                assert(buf@ =~= framed.take(CHUNK_SIZE as int));
                assert(ws == seq![framed.take(CHUNK_SIZE as int)] + chunks_of(
                    framed.skip(CHUNK_SIZE as int),
                    CHUNK_SIZE as int,
                ));
                assert(framed.skip(CHUNK_SIZE as int) =~= payload@.skip(
                    first_chunk_payload as int,
                ));
            }
        }
        match self.transport.bulk_write(buf.as_slice(), timeout_ms) {
            Ok(_) => {},
            Err(e) => {
                proof {
                    assert(self.transport.written() == w0 + ws.take(0));
                }
                return Err(Error::Transport(e));
            },
        }
        let mut off: usize = first_chunk_payload;
        let ghost mut sent: int = 1;
        proof {
            if payload@.len() <= CHUNK_SIZE - 12 {
                assert(self.transport.written() =~= w0 + ws.take(1));
            } else {
                assert(self.transport.written() =~= w0 + ws.take(1));
            }
            assert(ws.skip(sent) =~= chunks_of(payload@.skip(off as int), CHUNK_SIZE as int));
        }
        while off < payload.len()
            invariant
                self.wf(),
                self.current_tid == old(self).current_tid,
                self.max_packet == old(self).max_packet,
                self.transport.inbound() == old(self).transport.inbound(),
                self.transport.infallible() == old(self).transport.infallible(),
                off <= payload@.len(),
                payload@.len() + 12 <= 0xFFFF_FFFF,
                w0 == old(self).transport.written(),
                framed == container_bytes(kind, code, tid, payload@),
                framed.len() == 12 + payload@.len(),
                ws == chunks_of(framed, CHUNK_SIZE as int),
                1 <= sent <= ws.len(),
                self.transport.written() == w0 + ws.take(sent),
                ws.skip(sent) == chunks_of(payload@.skip(off as int), CHUNK_SIZE as int),
            decreases payload@.len() - off,
        {
            let end = if payload.len() - off <= CHUNK_SIZE {
                payload.len()
            } else {
                off + CHUNK_SIZE
            };
            let chunk = vstd::slice::slice_subrange(payload, off, end);
            proof {
                let restb = payload@.skip(off as int);
                assert(restb.len() > 0);
                if restb.len() <= CHUNK_SIZE {
                    assert(chunk@ =~= restb);
                    assert(chunks_of(restb, CHUNK_SIZE as int) == seq![restb]);
                    assert(chunks_of(restb, CHUNK_SIZE as int).drop_first() =~= Seq::<Seq<
                        u8,
                    >>::empty());
                } else {
                    assert(chunk@ =~= restb.take(CHUNK_SIZE as int));
                    assert(chunks_of(restb, CHUNK_SIZE as int) == seq![
                        restb.take(CHUNK_SIZE as int),
                    ] + chunks_of(restb.skip(CHUNK_SIZE as int), CHUNK_SIZE as int));
                    assert(restb.skip(CHUNK_SIZE as int) =~= payload@.skip(end as int));
                    assert(chunks_of(restb, CHUNK_SIZE as int).drop_first() =~= chunks_of(
                        payload@.skip(end as int),
                        CHUNK_SIZE as int,
                    ));
                }
                assert(chunks_of(restb, CHUNK_SIZE as int)[0] == chunk@);
                assert(ws.skip(sent).len() >= 1);
                assert(sent < ws.len());
                assert(ws[sent] == ws.skip(sent)[0]);
                assert(ws[sent] == chunk@);
            }
            match self.transport.bulk_write(chunk, timeout_ms) {
                Ok(_) => {},
                Err(e) => {
                    proof {
                        assert(self.transport.written() == w0 + ws.take(sent));
                        assert(exists|k: int|
                            0 <= k < ws.len() && self.transport.written() == w0 + ws.take(k)) by {
                            assert(0 <= sent < ws.len() && self.transport.written() == w0
                                + ws.take(sent));
                        }
                    }
                    return Err(Error::Transport(e));
                },
            }
            proof {
                assert(ws.take(sent).push(ws[sent]) =~= ws.take(sent + 1));
                assert(self.transport.written() =~= w0 + ws.take(sent + 1));
                assert(ws.skip(sent + 1) =~= ws.skip(sent).drop_first());
                assert(ws.skip(sent).drop_first() == chunks_of(
                    payload@.skip(off as int),
                    CHUNK_SIZE as int,
                ).drop_first());
                sent = sent + 1;
                assert(ws.skip(sent) =~= chunks_of(payload@.skip(end as int), CHUNK_SIZE as int));
            }
            off = end;
        }
        proof {
            assert(payload@.skip(off as int).len() == 0);
            assert(chunks_of(payload@.skip(off as int), CHUNK_SIZE as int) =~= Seq::<Seq<
                u8,
            >>::empty());
            assert(ws.skip(sent).len() == 0);
            assert(sent == ws.len());
            assert(ws.take(sent) =~= ws);
        }
        Ok(())
    }

    /// Read one container from the transport: a scratch-sized first
    /// read, the header parse, further reads until the payload is
    /// complete, and the extra read that consumes the zero-length
    /// packet when one is owed.
    fn read_txn_phase(&mut self, timeout_ms: u64) -> (r: Result<(PtpContainerInfo, Vec<u8>), Error>)
        requires
            old(self).wf(),
        ensures
            final(self).wf(),
            final(self).current_tid == old(self).current_tid,
            final(self).max_packet == old(self).max_packet,
            final(self).transport.written() == old(self).transport.written(),
            final(self).transport.infallible() == old(self).transport.infallible(),
            ({
                let ph = spec_phase(
                    old(self).transport.inbound(),
                    SCRATCH_SIZE as int,
                    old(self).max_packet as int,
                );
                &&& final(self).transport.inbound() == old(self).transport.inbound().skip(ph.0)
                &&& match r {
                    Ok(p) => ph.1 is Ok && p.0 == ph.1->Ok_0.0 && p.1@ == ph.1->Ok_0.1,
                    Err(e) => ph.1 is Err && matches_txn_err(e, ph.1->Err_0),
                }
            }),
    {
        let ghost inb0 = self.transport.inbound();
        let ghost mp = self.max_packet as int;
        let ghost ph = spec_phase(inb0, SCRATCH_SIZE as int, mp);
        let r0 = match self.transport.bulk_read(SCRATCH_SIZE, timeout_ms) {
            Ok(v) => v,
            Err(e) => {
                proof {
                    assert(inb0.skip(0) =~= inb0);
                }
                return Err(Error::Transport(e));
            },
        };
        let cinfo = match PtpContainerInfo::parse(r0.as_slice()) {
            Ok(c) => c,
            Err(e) => {
                return Err(e);
            },
        };
        if cinfo.payload_len == 0 {
            let out: Vec<u8> = Vec::new();
            return Ok((cinfo, out));
        }
        let mut payload: Vec<u8> = Vec::new();
        let got0_end = if r0.len() - 12 <= cinfo.payload_len {
            r0.len()
        } else {
            12 + cinfo.payload_len
        };
        write_bytes(&mut payload, vstd::slice::slice_subrange(r0.as_slice(), 12, got0_end));
        let ghost got0 = payload@;
        proof {
            if r0@.len() - 12 <= cinfo.payload_len {
                assert(got0 =~= r0@.skip(12));
            } else {
                assert(got0 =~= r0@.skip(12).take(cinfo.payload_len as int));
            }
            assert(inb0.drop_first() =~= inb0.skip(1));
        }
        let ghost fill = spec_fill(inb0.drop_first(), cinfo.payload_len - got0.len());
        let ghost mut consumed: int = 1;
        proof {
            lemma_spec_fill_bounds(inb0.drop_first(), cinfo.payload_len - got0.len());
            assert(payload@.skip(got0.len() as int) =~= Seq::<u8>::empty());
            assert(payload@.take(got0.len() as int) =~= got0);
        }
        while payload.len() < cinfo.payload_len
            invariant
                self.wf(),
                self.current_tid == old(self).current_tid,
                self.max_packet == old(self).max_packet,
                mp == self.max_packet as int,
                self.transport.written() == old(self).transport.written(),
                self.transport.infallible() == old(self).transport.infallible(),
                inb0 == old(self).transport.inbound(),
                ph == spec_phase(inb0, SCRATCH_SIZE as int, mp),
                inb0.len() >= 1,
                inb0[0] == r0@,
                r0@.len() <= SCRATCH_SIZE,
                r0@.len() >= 12,
                PtpContainerInfo::spec_parse(r0@) == Ok::<PtpContainerInfo, Error>(cinfo),
                cinfo.payload_len > 0,
                got0 == (if r0@.len() - 12 <= cinfo.payload_len {
                    r0@.skip(12)
                } else {
                    r0@.skip(12).take(cinfo.payload_len as int)
                }),
                1 <= consumed <= inb0.len(),
                self.transport.inbound() == inb0.skip(consumed),
                payload@.len() <= cinfo.payload_len,
                got0.len() <= payload@.len(),
                payload@.take(got0.len() as int) == got0,
                fill == spec_fill(inb0.drop_first(), cinfo.payload_len - got0.len()),
                ({
                    let cur = spec_fill(
                        self.transport.inbound(),
                        cinfo.payload_len - payload@.len(),
                    );
                    &&& fill.0 == (consumed - 1) + cur.0
                    &&& (cur.1 is Ok ==> fill.1 is Ok && fill.1->Ok_0 == payload@.skip(
                        got0.len() as int,
                    ) + cur.1->Ok_0)
                    &&& (cur.1 is Err ==> fill.1 == cur.1)
                }),
            decreases inb0.len() - consumed,
        {
            let need = cinfo.payload_len - payload.len();
            let chunk = match self.transport.bulk_read(need, timeout_ms) {
                Ok(v) => v,
                Err(e) => {
                    proof {
                        let cur = spec_fill(
                            self.transport.inbound(),
                            cinfo.payload_len - payload@.len(),
                        );
                        assert(cur == (0int, Err::<Seq<u8>, TxnErr>(TxnErr::Transport)));
                        assert(fill.1 == Err::<Seq<u8>, TxnErr>(TxnErr::Transport));
                        assert(fill.0 == consumed - 1);
                        assert(ph.0 == consumed);
                        assert(ph.1 == Err::<(PtpContainerInfo, Seq<u8>), TxnErr>(
                            TxnErr::Transport,
                        ));
                    }
                    return Err(Error::Transport(e));
                },
            };
            let ghost cur_inb = inb0.skip(consumed);
            write_bytes(&mut payload, chunk.as_slice());
            proof {
                assert(cur_inb.drop_first() =~= inb0.skip(consumed + 1));
                assert(payload@.skip(got0.len() as int) =~= (payload@.take(
                    payload@.len() - chunk@.len(),
                ).skip(got0.len() as int)) + chunk@);
                assert(payload@.take(got0.len() as int) =~= got0);
                consumed = consumed + 1;
            }
        }
        proof {
            assert(payload@.len() == cinfo.payload_len);
            assert(payload@.skip(got0.len() as int) + Seq::<u8>::empty() =~= payload@.skip(
                got0.len() as int,
            ));
            assert(fill.0 == consumed - 1);
            assert(fill.1 == Ok::<Seq<u8>, TxnErr>(payload@.skip(got0.len() as int)));
            assert(got0 + payload@.skip(got0.len() as int) =~= payload@);
        }
        if r0.len() == SCRATCH_SIZE && cinfo.payload_len % self.max_packet == 0 {
            match self.transport.bulk_read(self.max_packet, timeout_ms) {
                Ok(_) => {},
                Err(e) => {
                    return Err(Error::Transport(e));
                },
            }
            proof {
                assert(self.transport.inbound() =~= inb0.skip(consumed + 1));
                consumed = consumed + 1;
            }
        }
        Ok((cinfo, payload))
    }

    /// Execute one PTP transaction: write the Command container, then
    /// the optional data-out phase in chunks, then read containers until
    /// the matching Response — skipping stale transaction ids, keeping
    /// the latest Data payload, and returning it on the Ok response
    /// code or the responder's error code otherwise.  The transaction id
    /// is consumed even when the transaction fails.  A `None` timeout
    /// means wait indefinitely.
    pub fn command(
        &mut self,
        code: u16,
        params: &[u32],
        data: Option<&[u8]>,
        timeout: Option<u64>,
    ) -> (r: Result<Vec<u8>, Error>)
        requires
            old(self).wf(),
            old(self).current_tid < 0xFFFF_FFFF,
            params@.len() <= 5,
            (match data {
                Some(d) => d@.len() + 12 <= 0xFFFF_FFFF,
                None => true,
            }),
        ensures
            final(self).wf(),
            final(self).max_packet == old(self).max_packet,
            final(self).current_tid == old(self).current_tid + 1,
            final(self).transport.infallible() == old(self).transport.infallible(),
            old(self).transport.infallible() ==> ({
                let tid = old(self).current_tid;
                let inb0 = old(self).transport.inbound();
                let w0 = old(self).transport.written();
                let ws = txn_writes(
                    code,
                    tid,
                    params@,
                    match data {
                        Some(d) => Some(d@),
                        None => None,
                    },
                );
                let rd = spec_txn_reads(
                    inb0,
                    tid,
                    SCRATCH_SIZE as int,
                    old(self).max_packet as int,
                    Seq::empty(),
                );
                &&& final(self).transport.written() == w0 + ws
                &&& final(self).transport.inbound() == inb0.skip(rd.0)
                &&& match r {
                    Ok(v) => rd.1 == Ok::<Seq<u8>, TxnErr>(v@),
                    Err(e) => rd.1 is Err && matches_txn_err(e, rd.1->Err_0),
                }
            }),
            ({
                let tid = old(self).current_tid;
                let inb0 = old(self).transport.inbound();
                let w0 = old(self).transport.written();
                let ws = txn_writes(
                    code,
                    tid,
                    params@,
                    match data {
                        Some(d) => Some(d@),
                        None => None,
                    },
                );
                let rd = spec_txn_reads(
                    inb0,
                    tid,
                    SCRATCH_SIZE as int,
                    old(self).max_packet as int,
                    Seq::empty(),
                );
                match r {
                    Ok(v) => final(self).transport.written() == w0 + ws
                        && final(self).transport.inbound() == inb0.skip(rd.0)
                        && rd.1 == Ok::<Seq<u8>, TxnErr>(v@),
                    Err(e) => (e is Transport && final(self).transport.inbound() == inb0
                        && written_prefix(w0, ws, final(self).transport.written())) || (
                    final(self).transport.written() == w0 + ws && final(self).transport.inbound()
                        == inb0.skip(rd.0) && rd.1 is Err && matches_txn_err(e, rd.1->Err_0)),
                }
            }),
    {
        let timeout_ms: u64 = match timeout {
            Some(t) => t,
            None => 0,
        };
        let tid = self.current_tid;
        self.current_tid = self.current_tid + 1;
        let ghost inb0 = self.transport.inbound();
        let ghost w0 = self.transport.written();
        let ghost mp = self.max_packet as int;
        let ghost dview = (match data {
            Some(d) => Some(d@),
            None => None::<Seq<u8>>,
        });
        let ghost ws = txn_writes(code, tid, params@, dview);
        let mut cmd_message: Vec<u8> = Vec::new();
        ptp_gen_cmd_message(&mut cmd_message, code, tid, params);
        proof {
            assert(cmd_message@ =~= container_bytes(
                PtpContainerType::Command,
                code,
                tid,
                params_payload(params@),
            ));
            assert(ws.len() >= 1);
            assert(ws[0] == cmd_message@);
        }
        match self.transport.bulk_write(cmd_message.as_slice(), timeout_ms) {
            Ok(_) => {},
            Err(e) => {
                proof {
                    assert(self.transport.written() =~= w0 + ws.take(0));
                    assert(written_prefix(w0, ws, self.transport.written())) by {
                        assert(0 <= 0 < ws.len() && self.transport.written() == w0 + ws.take(0));
                    }
                }
                return Err(Error::Transport(e));
            },
        }
        proof {
            assert(self.transport.written() =~= w0 + ws.take(1));
        }
        if let Some(d) = data {
            let ghost w1 = self.transport.written();
            let ghost chunks = chunks_of(
                container_bytes(PtpContainerType::Data, code, tid, d@),
                CHUNK_SIZE as int,
            );
            proof {
                assert(ws =~= seq![cmd_message@] + chunks);
            }
            match self.write_txn_phase(PtpContainerType::Data, code, tid, d, timeout_ms) {
                Ok(_) => {
                    proof {
                        assert(self.transport.written() =~= w0 + ws);
                    }
                },
                Err(e) => {
                    proof {
                        let k = choose|k: int|
                            0 <= k < chunks.len() && self.transport.written() == w1 + chunks.take(
                                k,
                            );
                        assert(ws.take(1 + k) =~= ws.take(1) + chunks.take(k));
                        assert(self.transport.written() =~= w0 + ws.take(1 + k));
                        assert(written_prefix(w0, ws, self.transport.written())) by {
                            assert(0 <= 1 + k < ws.len() && self.transport.written() == w0
                                + ws.take(1 + k));
                        }
                    }
                    return Err(e);
                },
            }
        } else {
            proof {
                assert(ws =~= seq![cmd_message@]);
                assert(self.transport.written() =~= w0 + ws);
            }
        }
        let mut data_phase_payload: Vec<u8> = Vec::new();
        let ghost mut consumed: int = 0;
        proof {
            assert(inb0.skip(0) =~= inb0);
        }
        loop
            invariant
                self.wf(),
                self.max_packet == old(self).max_packet,
                mp == self.max_packet as int,
                self.current_tid == old(self).current_tid + 1,
                tid == old(self).current_tid,
                ws == txn_writes(code, tid, params@, dview),
                dview == (match data {
                    Some(d) => Some(d@),
                    None => None::<Seq<u8>>,
                }),
                w0 == old(self).transport.written(),
                self.transport.written() == w0 + ws,
                self.transport.infallible() == old(self).transport.infallible(),
                inb0 == old(self).transport.inbound(),
                0 <= consumed <= inb0.len(),
                self.transport.inbound() == inb0.skip(consumed),
                ({
                    let cur = spec_txn_reads(
                        inb0.skip(consumed),
                        tid,
                        SCRATCH_SIZE as int,
                        mp,
                        data_phase_payload@,
                    );
                    let whole = spec_txn_reads(inb0, tid, SCRATCH_SIZE as int, mp, Seq::empty());
                    whole.0 == consumed + cur.0 && whole.1 == cur.1
                }),
            decreases inb0.len() - consumed,
        {
            let phase = match self.read_txn_phase(timeout_ms) {
                Ok(x) => x,
                Err(e) => {
                    proof {
                        lemma_spec_phase_bounds(inb0.skip(consumed), SCRATCH_SIZE as int, mp);
                    }
                    return Err(e);
                },
            };
            let (cinfo, payload) = phase;
            proof {
                lemma_spec_phase_bounds(inb0.skip(consumed), SCRATCH_SIZE as int, mp);
                let ph = spec_phase(inb0.skip(consumed), SCRATCH_SIZE as int, mp);
                assert(inb0.skip(consumed).skip(ph.0) =~= inb0.skip(consumed + ph.0));
                consumed = consumed + ph.0;
            }
            if cinfo.belongs_to(tid) {
                match cinfo.kind {
                    PtpContainerType::Data => {
                        data_phase_payload = payload;
                    },
                    PtpContainerType::Response => {
                        if cinfo.code != crate::StandardResponseCode::Okay {
                            return Err(Error::Response(cinfo.code));
                        }
                        return Ok(data_phase_payload);
                    },
                    _ => {},
                }
            }
        }
    }

    /// Issue GetStorageIDs and decode the array of storage ids; the
    /// response payload must hold the array exactly, with no residue.
    pub fn get_storageids(&mut self, timeout: Option<u64>) -> (r: Result<Vec<u32>, Error>)
        requires
            old(self).wf(),
            old(self).current_tid < 0xFFFF_FFFF,
        ensures
            final(self).wf(),
            final(self).max_packet == old(self).max_packet,
            final(self).current_tid == old(self).current_tid + 1,
            final(self).transport.infallible() == old(self).transport.infallible(),
            ({
                let tid = old(self).current_tid;
                let inb0 = old(self).transport.inbound();
                let w0 = old(self).transport.written();
                let mp = old(self).max_packet as int;
                let ws = txn_writes(0x1004u16, tid, Seq::<u32>::empty(), None);
                let rd = txn_outcome(inb0, tid, mp);
                let nc = txn_consumed(inb0, tid, mp);
                &&& (old(self).transport.infallible() ==> final(self).transport.written()
                    == w0 + ws && final(self).transport.inbound() == inb0.skip(nc) && (match r {
                    Ok(v) => rd is Ok && u32_array_payload(rd->Ok_0) && v@ == u32s_at(
                        rd->Ok_0,
                        4,
                        u32_at(rd->Ok_0, 0) as nat,
                    ),
                    Err(e) => (rd is Err && matches_txn_err(e, rd->Err_0)) || (rd is Ok
                        && !u32_array_payload(rd->Ok_0) && e is Malformed),
                }))
                &&& (r is Ok ==> final(self).transport.written() == w0 + ws
                    && final(self).transport.inbound() == inb0.skip(nc) && rd is Ok && ({
                    let d = rd->Ok_0;
                    &&& d.len() >= 4
                    &&& 4 + 4 * (u32_at(d, 0) as int) == d.len()
                    &&& r->Ok_0@ == u32s_at(d, 4, u32_at(d, 0) as nat)
                }))
                &&& (r is Err && r->Err_0 is Response ==> rd == Err::<Seq<u8>, TxnErr>(
                    TxnErr::Responder(r->Err_0->Response_0),
                ))
            }),
    {
        let params: [u32; 0] = [];
        proof {
            assert(params@ =~= Seq::<u32>::empty());
        }
        let data = match self.command(0x1004, &params, None, timeout) {
            Ok(d) => d,
            Err(e) => {
                return Err(e);
            },
        };
        let mut cur = Reader::new(data.as_slice());
        let value = match cur.read_ptp_u32_vec() {
            Ok(v) => v,
            Err(e) => {
                return Err(e);
            },
        };
        match cur.expect_end() {
            Ok(_) => {},
            Err(e) => {
                return Err(e);
            },
        }
        Ok(value)
    }

    /// Issue GetObjectHandles for one storage, parent and format filter
    /// and decode the handle array; `0xFFFFFFFF` as the parent means the
    /// root of the store, zero means all objects.
    pub fn get_objecthandles(
        &mut self,
        storage_id: u32,
        handle_id: u32,
        filter: Option<u32>,
        timeout: Option<u64>,
    ) -> (r: Result<Vec<u32>, Error>)
        requires
            old(self).wf(),
            old(self).current_tid < 0xFFFF_FFFF,
        ensures
            final(self).wf(),
            final(self).max_packet == old(self).max_packet,
            final(self).current_tid == old(self).current_tid + 1,
            final(self).transport.infallible() == old(self).transport.infallible(),
            ({
                let tid = old(self).current_tid;
                let inb0 = old(self).transport.inbound();
                let w0 = old(self).transport.written();
                let mp = old(self).max_packet as int;
                let ws = txn_writes(0x1007u16, tid, seq![storage_id, filter_or_zero(filter), handle_id], None);
                let rd = txn_outcome(inb0, tid, mp);
                let nc = txn_consumed(inb0, tid, mp);
                &&& (old(self).transport.infallible() ==> final(self).transport.written()
                    == w0 + ws && final(self).transport.inbound() == inb0.skip(nc) && (match r {
                    Ok(v) => rd is Ok && u32_array_payload(rd->Ok_0) && v@ == u32s_at(
                        rd->Ok_0,
                        4,
                        u32_at(rd->Ok_0, 0) as nat,
                    ),
                    Err(e) => (rd is Err && matches_txn_err(e, rd->Err_0)) || (rd is Ok
                        && !u32_array_payload(rd->Ok_0) && e is Malformed),
                }))
                &&& (r is Ok ==> final(self).transport.written() == w0 + ws
                    && final(self).transport.inbound() == inb0.skip(nc) && rd is Ok && ({
                    let d = rd->Ok_0;
                    &&& d.len() >= 4
                    &&& 4 + 4 * (u32_at(d, 0) as int) == d.len()
                    &&& r->Ok_0@ == u32s_at(d, 4, u32_at(d, 0) as nat)
                }))
                &&& (r is Err && r->Err_0 is Response ==> rd == Err::<Seq<u8>, TxnErr>(
                    TxnErr::Responder(r->Err_0->Response_0),
                ))
            }),
    {
        let f = match filter {
            Some(v) => v,
            None => 0,
        };
        proof {
            assert(f == filter_or_zero(filter));
        }
        let params = [storage_id, f, handle_id];
        proof {
            assert(params@ =~= seq![storage_id, f, handle_id]);
        }
        let data = match self.command(0x1007, &params, None, timeout) {
            Ok(d) => d,
            Err(e) => {
                return Err(e);
            },
        };
        let mut cur = Reader::new(data.as_slice());
        let value = match cur.read_ptp_u32_vec() {
            Ok(v) => v,
            Err(e) => {
                return Err(e);
            },
        };
        match cur.expect_end() {
            Ok(_) => {},
            Err(e) => {
                return Err(e);
            },
        }
        proof {
            assert(params@ =~= seq![storage_id, f, handle_id]);
        }
        Ok(value)
    }

    /// Issue GetNumObjects and decode the single 32-bit count; the
    /// response payload must hold the count exactly.
    pub fn get_numobjects(
        &mut self,
        storage_id: u32,
        handle_id: u32,
        filter: Option<u32>,
        timeout: Option<u64>,
    ) -> (r: Result<u32, Error>)
        requires
            old(self).wf(),
            old(self).current_tid < 0xFFFF_FFFF,
        ensures
            final(self).wf(),
            final(self).max_packet == old(self).max_packet,
            final(self).current_tid == old(self).current_tid + 1,
            final(self).transport.infallible() == old(self).transport.infallible(),
            ({
                let tid = old(self).current_tid;
                let inb0 = old(self).transport.inbound();
                let w0 = old(self).transport.written();
                let mp = old(self).max_packet as int;
                let ws = txn_writes(0x1006u16, tid, seq![storage_id, filter_or_zero(filter), handle_id], None);
                let rd = txn_outcome(inb0, tid, mp);
                let nc = txn_consumed(inb0, tid, mp);
                &&& (old(self).transport.infallible() ==> final(self).transport.written()
                    == w0 + ws && final(self).transport.inbound() == inb0.skip(nc) && (match r {
                    Ok(v) => rd is Ok && rd->Ok_0.len() == 4 && v == u32_at(rd->Ok_0, 0),
                    Err(e) => (rd is Err && matches_txn_err(e, rd->Err_0)) || (rd is Ok
                        && rd->Ok_0.len() != 4 && e is Malformed),
                }))
                &&& (r is Ok ==> final(self).transport.written() == w0 + ws
                    && final(self).transport.inbound() == inb0.skip(nc) && rd is Ok && ({
                    let d = rd->Ok_0;
                    &&& d.len() == 4
                    &&& r->Ok_0 == u32_at(d, 0)
                }))
                &&& (r is Err && r->Err_0 is Response ==> rd == Err::<Seq<u8>, TxnErr>(
                    TxnErr::Responder(r->Err_0->Response_0),
                ))
            }),
    {
        let f = match filter {
            Some(v) => v,
            None => 0,
        };
        proof {
            assert(f == filter_or_zero(filter));
        }
        let params = [storage_id, f, handle_id];
        proof {
            assert(params@ =~= seq![storage_id, f, handle_id]);
        }
        let data = match self.command(0x1006, &params, None, timeout) {
            Ok(d) => d,
            Err(e) => {
                return Err(e);
            },
        };
        let mut cur = Reader::new(data.as_slice());
        let value = match cur.read_ptp_u32() {
            Ok(v) => v,
            Err(e) => {
                return Err(e);
            },
        };
        match cur.expect_end() {
            Ok(_) => {},
            Err(e) => {
                return Err(e);
            },
        }
        proof {
            assert(params@ =~= seq![storage_id, f, handle_id]);
        }
        Ok(value)
    }

    /// Issue GetObject and return the object's bytes.
    pub fn get_object(&mut self, handle: u32, timeout: Option<u64>) -> (r: Result<Vec<u8>, Error>)
        requires
            old(self).wf(),
            old(self).current_tid < 0xFFFF_FFFF,
        ensures
            final(self).wf(),
            final(self).max_packet == old(self).max_packet,
            final(self).current_tid == old(self).current_tid + 1,
            final(self).transport.infallible() == old(self).transport.infallible(),
            ({
                let tid = old(self).current_tid;
                let inb0 = old(self).transport.inbound();
                let w0 = old(self).transport.written();
                let mp = old(self).max_packet as int;
                let ws = txn_writes(0x1009u16, tid, seq![handle], None);
                let rd = txn_outcome(inb0, tid, mp);
                let nc = txn_consumed(inb0, tid, mp);
                &&& (old(self).transport.infallible() ==> final(self).transport.written()
                    == w0 + ws && final(self).transport.inbound() == inb0.skip(nc) && (match r {
                    Ok(v) => rd == Ok::<Seq<u8>, TxnErr>(v@),
                    Err(e) => rd is Err && matches_txn_err(e, rd->Err_0),
                }))
                &&& (r is Ok ==> final(self).transport.written() == w0 + ws
                    && final(self).transport.inbound() == inb0.skip(nc) && rd == Ok::<Seq<u8>, TxnErr>(r->Ok_0@))
                &&& (r is Err && r->Err_0 is Response ==> rd == Err::<Seq<u8>, TxnErr>(
                    TxnErr::Responder(r->Err_0->Response_0),
                ))
            }),
    {
        let params = [handle];
        let r = self.command(0x1009, &params, None, timeout);
        proof {
            assert(params@ =~= seq![handle]);
        }
        r
    }

    /// Issue GetPartialObject for at most `max` bytes from `offset` and
    /// return the bytes the responder sent.
    pub fn get_partialobject(
        &mut self,
        handle: u32,
        offset: u32,
        max: u32,
        timeout: Option<u64>,
    ) -> (r: Result<Vec<u8>, Error>)
        requires
            old(self).wf(),
            old(self).current_tid < 0xFFFF_FFFF,
        ensures
            final(self).wf(),
            final(self).max_packet == old(self).max_packet,
            final(self).current_tid == old(self).current_tid + 1,
            final(self).transport.infallible() == old(self).transport.infallible(),
            ({
                let tid = old(self).current_tid;
                let inb0 = old(self).transport.inbound();
                let w0 = old(self).transport.written();
                let mp = old(self).max_packet as int;
                let ws = txn_writes(0x101Bu16, tid, seq![handle, offset, max], None);
                let rd = txn_outcome(inb0, tid, mp);
                let nc = txn_consumed(inb0, tid, mp);
                &&& (old(self).transport.infallible() ==> final(self).transport.written()
                    == w0 + ws && final(self).transport.inbound() == inb0.skip(nc) && (match r {
                    Ok(v) => rd == Ok::<Seq<u8>, TxnErr>(v@),
                    Err(e) => rd is Err && matches_txn_err(e, rd->Err_0),
                }))
                &&& (r is Ok ==> final(self).transport.written() == w0 + ws
                    && final(self).transport.inbound() == inb0.skip(nc) && rd == Ok::<Seq<u8>, TxnErr>(r->Ok_0@))
                &&& (r is Err && r->Err_0 is Response ==> rd == Err::<Seq<u8>, TxnErr>(
                    TxnErr::Responder(r->Err_0->Response_0),
                ))
            }),
    {
        let params = [handle, offset, max];
        let r = self.command(0x101B, &params, None, timeout);
        proof {
            assert(params@ =~= seq![handle, offset, max]);
        }
        r
    }

    /// Issue DeleteObject for one handle.
    pub fn delete_object(&mut self, handle: u32, timeout: Option<u64>) -> (r: Result<(), Error>)
        requires
            old(self).wf(),
            old(self).current_tid < 0xFFFF_FFFF,
        ensures
            final(self).wf(),
            final(self).max_packet == old(self).max_packet,
            final(self).current_tid == old(self).current_tid + 1,
            final(self).transport.infallible() == old(self).transport.infallible(),
            ({
                let tid = old(self).current_tid;
                let inb0 = old(self).transport.inbound();
                let w0 = old(self).transport.written();
                let mp = old(self).max_packet as int;
                let ws = txn_writes(0x100Bu16, tid, seq![handle], None);
                let rd = txn_outcome(inb0, tid, mp);
                let nc = txn_consumed(inb0, tid, mp);
                &&& (old(self).transport.infallible() ==> final(self).transport.written()
                    == w0 + ws && final(self).transport.inbound() == inb0.skip(nc) && (match r {
                    Ok(_) => rd is Ok,
                    Err(e) => rd is Err && matches_txn_err(e, rd->Err_0),
                }))
                &&& (r is Ok ==> final(self).transport.written() == w0 + ws
                    && final(self).transport.inbound() == inb0.skip(nc) && rd is Ok)
                &&& (r is Err && r->Err_0 is Response ==> rd == Err::<Seq<u8>, TxnErr>(
                    TxnErr::Responder(r->Err_0->Response_0),
                ))
            }),
    {
        let params = [handle];
        let r = match self.command(0x100B, &params, None, timeout) {
            Ok(_) => Ok(()),
            Err(e) => Err(e),
        };
        proof {
            assert(params@ =~= seq![handle]);
        }
        r
    }

    /// Issue PowerDown.
    pub fn power_down(&mut self, timeout: Option<u64>) -> (r: Result<(), Error>)
        requires
            old(self).wf(),
            old(self).current_tid < 0xFFFF_FFFF,
        ensures
            final(self).wf(),
            final(self).max_packet == old(self).max_packet,
            final(self).current_tid == old(self).current_tid + 1,
            final(self).transport.infallible() == old(self).transport.infallible(),
            ({
                let tid = old(self).current_tid;
                let inb0 = old(self).transport.inbound();
                let w0 = old(self).transport.written();
                let mp = old(self).max_packet as int;
                let ws = txn_writes(0x1013u16, tid, Seq::<u32>::empty(), None);
                let rd = txn_outcome(inb0, tid, mp);
                let nc = txn_consumed(inb0, tid, mp);
                &&& (old(self).transport.infallible() ==> final(self).transport.written()
                    == w0 + ws && final(self).transport.inbound() == inb0.skip(nc) && (match r {
                    Ok(_) => rd is Ok,
                    Err(e) => rd is Err && matches_txn_err(e, rd->Err_0),
                }))
                &&& (r is Ok ==> final(self).transport.written() == w0 + ws
                    && final(self).transport.inbound() == inb0.skip(nc) && rd is Ok)
                &&& (r is Err && r->Err_0 is Response ==> rd == Err::<Seq<u8>, TxnErr>(
                    TxnErr::Responder(r->Err_0->Response_0),
                ))
            }),
    {
        let params = [];
        let r = match self.command(0x1013, &params, None, timeout) {
            Ok(_) => Ok(()),
            Err(e) => Err(e),
        };
        proof {
            assert(params@ =~= Seq::<u32>::empty());
        }
        r
    }

    /// Open the session: OpenSession with a fixed non-zero session id.
    pub fn open_session(&mut self, timeout: Option<u64>) -> (r: Result<(), Error>)
        requires
            old(self).wf(),
            old(self).current_tid < 0xFFFF_FFFF,
        ensures
            final(self).wf(),
            final(self).max_packet == old(self).max_packet,
            final(self).current_tid == old(self).current_tid + 1,
            final(self).transport.infallible() == old(self).transport.infallible(),
            ({
                let tid = old(self).current_tid;
                let inb0 = old(self).transport.inbound();
                let w0 = old(self).transport.written();
                let mp = old(self).max_packet as int;
                let ws = txn_writes(0x1002u16, tid, seq![3u32], None);
                let rd = txn_outcome(inb0, tid, mp);
                let nc = txn_consumed(inb0, tid, mp);
                &&& (old(self).transport.infallible() ==> final(self).transport.written()
                    == w0 + ws && final(self).transport.inbound() == inb0.skip(nc) && (match r {
                    Ok(_) => rd is Ok,
                    Err(e) => rd is Err && matches_txn_err(e, rd->Err_0),
                }))
                &&& (r is Ok ==> final(self).transport.written() == w0 + ws
                    && final(self).transport.inbound() == inb0.skip(nc) && rd is Ok)
                &&& (r is Err && r->Err_0 is Response ==> rd == Err::<Seq<u8>, TxnErr>(
                    TxnErr::Responder(r->Err_0->Response_0),
                ))
            }),
    {
        let session_id: u32 = 3;
        let params = [session_id];
        proof {
            assert(params@ =~= seq![3u32]);
        }
        match self.command(0x1002, &params, None, timeout) {
            Ok(_) => Ok(()),
            Err(e) => Err(e),
        }
    }

    /// Close the session with CloseSession.
    pub fn close_session(&mut self, timeout: Option<u64>) -> (r: Result<(), Error>)
        requires
            old(self).wf(),
            old(self).current_tid < 0xFFFF_FFFF,
        ensures
            final(self).wf(),
            final(self).max_packet == old(self).max_packet,
            final(self).current_tid == old(self).current_tid + 1,
            final(self).transport.infallible() == old(self).transport.infallible(),
            ({
                let tid = old(self).current_tid;
                let inb0 = old(self).transport.inbound();
                let w0 = old(self).transport.written();
                let mp = old(self).max_packet as int;
                let ws = txn_writes(0x1003u16, tid, Seq::<u32>::empty(), None);
                let rd = txn_outcome(inb0, tid, mp);
                let nc = txn_consumed(inb0, tid, mp);
                &&& (old(self).transport.infallible() ==> final(self).transport.written()
                    == w0 + ws && final(self).transport.inbound() == inb0.skip(nc) && (match r {
                    Ok(_) => rd is Ok,
                    Err(e) => rd is Err && matches_txn_err(e, rd->Err_0),
                }))
                &&& (r is Ok ==> final(self).transport.written() == w0 + ws
                    && final(self).transport.inbound() == inb0.skip(nc) && rd is Ok)
                &&& (r is Err && r->Err_0 is Response ==> rd == Err::<Seq<u8>, TxnErr>(
                    TxnErr::Responder(r->Err_0->Response_0),
                ))
            }),
    {
        let params = [];
        let r = match self.command(0x1003, &params, None, timeout) {
            Ok(_) => Ok(()),
            Err(e) => Err(e),
        };
        proof {
            assert(params@ =~= Seq::<u32>::empty());
        }
        r
    }

    /// The object handles at the root of one store.
    pub fn get_objecthandles_root(
        &mut self,
        storage_id: u32,
        filter: Option<u32>,
        timeout: Option<u64>,
    ) -> (r: Result<Vec<u32>, Error>)
        requires
            old(self).wf(),
            old(self).current_tid < 0xFFFF_FFFF,
        ensures
            final(self).wf(),
            final(self).max_packet == old(self).max_packet,
            final(self).current_tid == old(self).current_tid + 1,
            final(self).transport.infallible() == old(self).transport.infallible(),
            ({
                let tid = old(self).current_tid;
                let inb0 = old(self).transport.inbound();
                let w0 = old(self).transport.written();
                let mp = old(self).max_packet as int;
                let ws = txn_writes(0x1007u16, tid, seq![storage_id, filter_or_zero(filter), 0xFFFF_FFFFu32], None);
                let rd = txn_outcome(inb0, tid, mp);
                let nc = txn_consumed(inb0, tid, mp);
                &&& (old(self).transport.infallible() ==> final(self).transport.written()
                    == w0 + ws && final(self).transport.inbound() == inb0.skip(nc) && (match r {
                    Ok(v) => rd is Ok && u32_array_payload(rd->Ok_0) && v@ == u32s_at(
                        rd->Ok_0,
                        4,
                        u32_at(rd->Ok_0, 0) as nat,
                    ),
                    Err(e) => (rd is Err && matches_txn_err(e, rd->Err_0)) || (rd is Ok
                        && !u32_array_payload(rd->Ok_0) && e is Malformed),
                }))
                &&& (r is Ok ==> final(self).transport.written() == w0 + ws
                    && final(self).transport.inbound() == inb0.skip(nc) && rd is Ok && ({
                    let d = rd->Ok_0;
                    &&& d.len() >= 4
                    &&& 4 + 4 * (u32_at(d, 0) as int) == d.len()
                    &&& r->Ok_0@ == u32s_at(d, 4, u32_at(d, 0) as nat)
                }))
                &&& (r is Err && r->Err_0 is Response ==> rd == Err::<Seq<u8>, TxnErr>(
                    TxnErr::Responder(r->Err_0->Response_0),
                ))
            }),
    {
        self.get_objecthandles(storage_id, 0xFFFF_FFFF, filter, timeout)
    }

    /// The object handles of every object in one store.
    pub fn get_objecthandles_all(
        &mut self,
        storage_id: u32,
        filter: Option<u32>,
        timeout: Option<u64>,
    ) -> (r: Result<Vec<u32>, Error>)
        requires
            old(self).wf(),
            old(self).current_tid < 0xFFFF_FFFF,
        ensures
            final(self).wf(),
            final(self).max_packet == old(self).max_packet,
            final(self).current_tid == old(self).current_tid + 1,
            final(self).transport.infallible() == old(self).transport.infallible(),
            ({
                let tid = old(self).current_tid;
                let inb0 = old(self).transport.inbound();
                let w0 = old(self).transport.written();
                let mp = old(self).max_packet as int;
                let ws = txn_writes(0x1007u16, tid, seq![storage_id, filter_or_zero(filter), 0x0u32], None);
                let rd = txn_outcome(inb0, tid, mp);
                let nc = txn_consumed(inb0, tid, mp);
                &&& (old(self).transport.infallible() ==> final(self).transport.written()
                    == w0 + ws && final(self).transport.inbound() == inb0.skip(nc) && (match r {
                    Ok(v) => rd is Ok && u32_array_payload(rd->Ok_0) && v@ == u32s_at(
                        rd->Ok_0,
                        4,
                        u32_at(rd->Ok_0, 0) as nat,
                    ),
                    Err(e) => (rd is Err && matches_txn_err(e, rd->Err_0)) || (rd is Ok
                        && !u32_array_payload(rd->Ok_0) && e is Malformed),
                }))
                &&& (r is Ok ==> final(self).transport.written() == w0 + ws
                    && final(self).transport.inbound() == inb0.skip(nc) && rd is Ok && ({
                    let d = rd->Ok_0;
                    &&& d.len() >= 4
                    &&& 4 + 4 * (u32_at(d, 0) as int) == d.len()
                    &&& r->Ok_0@ == u32s_at(d, 4, u32_at(d, 0) as nat)
                }))
                &&& (r is Err && r->Err_0 is Response ==> rd == Err::<Seq<u8>, TxnErr>(
                    TxnErr::Responder(r->Err_0->Response_0),
                ))
            }),
    {
        self.get_objecthandles(storage_id, 0x0, filter, timeout)
    }

    /// How many objects stand at the root of one store.
    pub fn get_numobjects_roots(
        &mut self,
        storage_id: u32,
        filter: Option<u32>,
        timeout: Option<u64>,
    ) -> (r: Result<u32, Error>)
        requires
            old(self).wf(),
            old(self).current_tid < 0xFFFF_FFFF,
        ensures
            final(self).wf(),
            final(self).max_packet == old(self).max_packet,
            final(self).current_tid == old(self).current_tid + 1,
            final(self).transport.infallible() == old(self).transport.infallible(),
            ({
                let tid = old(self).current_tid;
                let inb0 = old(self).transport.inbound();
                let w0 = old(self).transport.written();
                let mp = old(self).max_packet as int;
                let ws = txn_writes(0x1006u16, tid, seq![storage_id, filter_or_zero(filter), 0xFFFF_FFFFu32], None);
                let rd = txn_outcome(inb0, tid, mp);
                let nc = txn_consumed(inb0, tid, mp);
                &&& (old(self).transport.infallible() ==> final(self).transport.written()
                    == w0 + ws && final(self).transport.inbound() == inb0.skip(nc) && (match r {
                    Ok(v) => rd is Ok && rd->Ok_0.len() == 4 && v == u32_at(rd->Ok_0, 0),
                    Err(e) => (rd is Err && matches_txn_err(e, rd->Err_0)) || (rd is Ok
                        && rd->Ok_0.len() != 4 && e is Malformed),
                }))
                &&& (r is Ok ==> final(self).transport.written() == w0 + ws
                    && final(self).transport.inbound() == inb0.skip(nc) && rd is Ok && ({
                    let d = rd->Ok_0;
                    &&& d.len() == 4
                    &&& r->Ok_0 == u32_at(d, 0)
                }))
                &&& (r is Err && r->Err_0 is Response ==> rd == Err::<Seq<u8>, TxnErr>(
                    TxnErr::Responder(r->Err_0->Response_0),
                ))
            }),
    {
        self.get_numobjects(storage_id, 0xFFFF_FFFF, filter, timeout)
    }

    /// How many objects one store holds in all.
    pub fn get_numobjects_all(
        &mut self,
        storage_id: u32,
        filter: Option<u32>,
        timeout: Option<u64>,
    ) -> (r: Result<u32, Error>)
        requires
            old(self).wf(),
            old(self).current_tid < 0xFFFF_FFFF,
        ensures
            final(self).wf(),
            final(self).max_packet == old(self).max_packet,
            final(self).current_tid == old(self).current_tid + 1,
            final(self).transport.infallible() == old(self).transport.infallible(),
            ({
                let tid = old(self).current_tid;
                let inb0 = old(self).transport.inbound();
                let w0 = old(self).transport.written();
                let mp = old(self).max_packet as int;
                let ws = txn_writes(0x1006u16, tid, seq![storage_id, filter_or_zero(filter), 0x0u32], None);
                let rd = txn_outcome(inb0, tid, mp);
                let nc = txn_consumed(inb0, tid, mp);
                &&& (old(self).transport.infallible() ==> final(self).transport.written()
                    == w0 + ws && final(self).transport.inbound() == inb0.skip(nc) && (match r {
                    Ok(v) => rd is Ok && rd->Ok_0.len() == 4 && v == u32_at(rd->Ok_0, 0),
                    Err(e) => (rd is Err && matches_txn_err(e, rd->Err_0)) || (rd is Ok
                        && rd->Ok_0.len() != 4 && e is Malformed),
                }))
                &&& (r is Ok ==> final(self).transport.written() == w0 + ws
                    && final(self).transport.inbound() == inb0.skip(nc) && rd is Ok && ({
                    let d = rd->Ok_0;
                    &&& d.len() == 4
                    &&& r->Ok_0 == u32_at(d, 0)
                }))
                &&& (r is Err && r->Err_0 is Response ==> rd == Err::<Seq<u8>, TxnErr>(
                    TxnErr::Responder(r->Err_0->Response_0),
                ))
            }),
    {
        self.get_numobjects(storage_id, 0x0, filter, timeout)
    }

    /// Issue GetStorageInfo and decode the dataset; whenever the
    /// responder's payload is the canonical encoding of a dataset and
    /// the transport held, exactly that dataset comes back.
    pub fn get_storage_info(
        &mut self,
        storage_id: u32,
        timeout: Option<u64>,
    ) -> (r: Result<PtpStorageInfo, Error>)
        requires
            old(self).wf(),
            old(self).current_tid < 0xFFFF_FFFF,
        ensures
            final(self).wf(),
            final(self).max_packet == old(self).max_packet,
            final(self).current_tid == old(self).current_tid + 1,
            final(self).transport.infallible() == old(self).transport.infallible(),
            ({
                let tid = old(self).current_tid;
                let inb0 = old(self).transport.inbound();
                let w0 = old(self).transport.written();
                let mp = old(self).max_packet as int;
                let ws = txn_writes(0x1005u16, tid, seq![storage_id], None);
                let rd = txn_outcome(inb0, tid, mp);
                let nc = txn_consumed(inb0, tid, mp);
                &&& (old(self).transport.infallible() ==> final(self).transport.written()
                    == w0 + ws && final(self).transport.inbound() == inb0.skip(nc) && (match r {
                    Ok(_) => rd is Ok,
                    Err(e) => (rd is Err && matches_txn_err(e, rd->Err_0)) || (rd is Ok
                        && e is Malformed),
                }))
                &&& (r is Ok ==> final(self).transport.written() == w0 + ws
                    && final(self).transport.inbound() == inb0.skip(nc) && rd is Ok)
                &&& (forall|dv: StorageInfoV| #![trigger storage_info_bytes(dv)]
                    storage_info_encodable(dv) && rd == Ok::<Seq<u8>, TxnErr>(
                        storage_info_bytes(dv),
                    ) && !(r is Err && r->Err_0 is Transport) ==> r is Ok && r->Ok_0@ == dv)
                &&& (r is Err && r->Err_0 is Response ==> rd == Err::<Seq<u8>, TxnErr>(
                    TxnErr::Responder(r->Err_0->Response_0),
                ))
            }),
    {
        let params = [storage_id];
        proof {
            assert(params@ =~= seq![storage_id]);
        }
        let data = match self.command(0x1005, &params, None, timeout) {
            Ok(d) => d,
            Err(e) => {
                return Err(e);
            },
        };
        let mut cur = Reader::new(data.as_slice());
        let res = match PtpStorageInfo::decode(&mut cur) {
            Ok(v) => v,
            Err(e) => {
                proof {
                    assert forall|dv: StorageInfoV| #![trigger storage_info_bytes(dv)]
                        storage_info_encodable(dv) && data@ == storage_info_bytes(dv)
                        implies false by {
                        assert(data@.subrange(0, storage_info_bytes(dv).len() as int) =~= data@);
                    }
                }
                return Err(e);
            },
        };
        match cur.expect_end() {
            Ok(_) => {},
            Err(e) => {
                proof {
                    assert forall|dv: StorageInfoV| #![trigger storage_info_bytes(dv)]
                        storage_info_encodable(dv) && data@ == storage_info_bytes(dv)
                        implies false by {
                        assert(data@.subrange(0, storage_info_bytes(dv).len() as int) =~= data@);
                    }
                }
                return Err(e);
            },
        }
        proof {
            assert forall|dv: StorageInfoV| #![trigger storage_info_bytes(dv)]
                storage_info_encodable(dv) && data@ == storage_info_bytes(dv) implies res@
                == dv by {
                assert(data@.subrange(0, storage_info_bytes(dv).len() as int) =~= data@);
            }
        }
        Ok(res)
    }

    /// Issue GetDeviceInfo and decode the dataset.  Whenever the responder's payload is the canonical
    /// encoding of a dataset and the transport held, exactly that
    /// dataset comes back.
    pub fn get_device_info(&mut self, timeout: Option<u64>) -> (r: Result<PtpDeviceInfo, Error>)
        requires
            old(self).wf(),
            old(self).current_tid < 0xFFFF_FFFF,
        ensures
            final(self).wf(),
            final(self).max_packet == old(self).max_packet,
            final(self).current_tid == old(self).current_tid + 1,
            final(self).transport.infallible() == old(self).transport.infallible(),
            ({
                let tid = old(self).current_tid;
                let inb0 = old(self).transport.inbound();
                let w0 = old(self).transport.written();
                let mp = old(self).max_packet as int;
                let ws = txn_writes(0x1001u16, tid, Seq::<u32>::empty(), None);
                let rd = txn_outcome(inb0, tid, mp);
                let nc = txn_consumed(inb0, tid, mp);
                &&& (old(self).transport.infallible() ==> final(self).transport.written()
                    == w0 + ws && final(self).transport.inbound() == inb0.skip(nc) && (match r {
                    Ok(_) => rd is Ok,
                    Err(e) => (rd is Err && matches_txn_err(e, rd->Err_0)) || (rd is Ok
                        && e is Malformed),
                }))
                &&& (r is Ok ==> final(self).transport.written() == w0 + ws
                    && final(self).transport.inbound() == inb0.skip(nc) && rd is Ok)
                &&& (forall|dv: DeviceInfoV| #![trigger device_info_bytes(dv)]
                    device_info_encodable(dv) && rd == Ok::<Seq<u8>, TxnErr>(device_info_bytes(dv)) && !(
                    r is Err && r->Err_0 is Transport) ==> r is Ok && r->Ok_0@ == dv)
                &&& (r is Err && r->Err_0 is Response ==> rd == Err::<Seq<u8>, TxnErr>(
                    TxnErr::Responder(r->Err_0->Response_0),
                ))
            }),
    {
        let params: [u32; 0] = [];
        proof {
            assert(params@ =~= Seq::<u32>::empty());
        }
        let data = match self.command(0x1001, &params, None, timeout) {
            Ok(d) => d,
            Err(e) => {
                return Err(e);
            },
        };
        match PtpDeviceInfo::decode(data.as_slice()) {
            Ok(v) => Ok(v),
            Err(e) => Err(e),
        }
    }

    /// Issue GetObjectInfo for one handle and decode the dataset.  Whenever the responder's payload is the canonical
    /// encoding of a dataset and the transport held, exactly that
    /// dataset comes back.
    pub fn get_objectinfo(&mut self, handle: u32, timeout: Option<u64>) -> (r: Result<PtpObjectInfo, Error>)
        requires
            old(self).wf(),
            old(self).current_tid < 0xFFFF_FFFF,
        ensures
            final(self).wf(),
            final(self).max_packet == old(self).max_packet,
            final(self).current_tid == old(self).current_tid + 1,
            final(self).transport.infallible() == old(self).transport.infallible(),
            ({
                let tid = old(self).current_tid;
                let inb0 = old(self).transport.inbound();
                let w0 = old(self).transport.written();
                let mp = old(self).max_packet as int;
                let ws = txn_writes(0x1008u16, tid, seq![handle], None);
                let rd = txn_outcome(inb0, tid, mp);
                let nc = txn_consumed(inb0, tid, mp);
                &&& (old(self).transport.infallible() ==> final(self).transport.written()
                    == w0 + ws && final(self).transport.inbound() == inb0.skip(nc) && (match r {
                    Ok(_) => rd is Ok,
                    Err(e) => (rd is Err && matches_txn_err(e, rd->Err_0)) || (rd is Ok
                        && e is Malformed),
                }))
                &&& (r is Ok ==> final(self).transport.written() == w0 + ws
                    && final(self).transport.inbound() == inb0.skip(nc) && rd is Ok)
                &&& (forall|dv: ObjectInfoV| #![trigger object_info_bytes(dv)]
                    object_info_encodable(dv) && rd == Ok::<Seq<u8>, TxnErr>(object_info_bytes(dv)) && !(
                    r is Err && r->Err_0 is Transport) ==> r is Ok && r->Ok_0@ == dv)
                &&& (r is Err && r->Err_0 is Response ==> rd == Err::<Seq<u8>, TxnErr>(
                    TxnErr::Responder(r->Err_0->Response_0),
                ))
            }),
    {
        let params = [handle];
        proof {
            assert(params@ =~= seq![handle]);
        }
        let data = match self.command(0x1008, &params, None, timeout) {
            Ok(d) => d,
            Err(e) => {
                return Err(e);
            },
        };
        match PtpObjectInfo::decode(data.as_slice()) {
            Ok(v) => Ok(v),
            Err(e) => Err(e),
        }
    }

    /// Tear the session down: issue CloseSession, then release the
    /// underlying interface.
    pub fn disconnect(&mut self, timeout: Option<u64>) -> (r: Result<(), Error>)
        requires
            old(self).wf(),
            old(self).current_tid < 0xFFFF_FFFF,
        ensures
            final(self).wf(),
            final(self).max_packet == old(self).max_packet,
            final(self).current_tid == old(self).current_tid + 1,
            final(self).transport.infallible() == old(self).transport.infallible(),
            ({
                let tid = old(self).current_tid;
                let inb0 = old(self).transport.inbound();
                let w0 = old(self).transport.written();
                let mp = old(self).max_packet as int;
                let ws = txn_writes(0x1003u16, tid, Seq::<u32>::empty(), None);
                let rd = txn_outcome(inb0, tid, mp);
                let nc = txn_consumed(inb0, tid, mp);
                &&& (old(self).transport.infallible() ==> final(self).transport.written()
                    == w0 + ws && final(self).transport.inbound() == inb0.skip(nc) && (match r {
                    Ok(_) => rd is Ok,
                    Err(e) => rd is Err && matches_txn_err(e, rd->Err_0),
                }))
                &&& (r is Ok ==> final(self).transport.written() == w0 + ws
                    && final(self).transport.inbound() == inb0.skip(nc) && rd is Ok)
                &&& (r is Err && r->Err_0 is Response ==> rd == Err::<Seq<u8>, TxnErr>(
                    TxnErr::Responder(r->Err_0->Response_0),
                ))
            }),
    {
        match self.close_session(timeout) {
            Ok(_) => {},
            Err(e) => {
                return Err(e);
            },
        }
        match self.transport.release() {
            Ok(_) => Ok(()),
            Err(e) => Err(Error::Transport(e)),
        }
    }
}

/// The transfers of a split payload, joined back together.
pub open spec fn joined(parts: Seq<Seq<u8>>) -> Seq<u8> {
    crate::codec::concat_bytes(parts, |x: Seq<u8>| x)
}

/// Filling a payload from transfers that hold exactly the missing bytes
/// consumes exactly those transfers and yields their bytes in order,
/// however the payload was cut.
pub proof fn lemma_fill_parts(parts: Seq<Seq<u8>>, rest: Seq<Seq<u8>>, need: int)
    requires
        joined(parts).len() == need,
        forall|i: int| 0 <= i < parts.len() ==> #[trigger] parts[i].len() > 0,
    ensures
        spec_fill(parts + rest, need) == (parts.len() as int, Ok::<Seq<u8>, TxnErr>(
            joined(parts),
        )),
    decreases parts.len(),
{
    let f = |x: Seq<u8>| x;
    if parts.len() == 0 {
        assert(joined(parts) =~= Seq::<u8>::empty());
        assert(spec_fill(parts + rest, 0).1 == Ok::<Seq<u8>, TxnErr>(Seq::<u8>::empty()));
    } else {
        let p0 = parts[0];
        assert(joined(parts) == f(p0) + joined(parts.drop_first()));
        assert(p0.len() > 0);
        assert(need >= p0.len()) by {
            assert(joined(parts).len() == p0.len() + joined(parts.drop_first()).len());
        }
        let inb = parts + rest;
        assert(inb[0] == p0);
        assert(inb.drop_first() =~= parts.drop_first() + rest);
        lemma_fill_parts(parts.drop_first(), rest, need - p0.len());
        assert(spec_fill(inb, need).0 == 1 + parts.drop_first().len());
        assert(spec_fill(inb, need).1 == Ok::<Seq<u8>, TxnErr>(p0 + joined(parts.drop_first())));
        assert(p0 + joined(parts.drop_first()) =~= joined(parts));
    }
}

/// A Data-in payload split across any number of bulk reads reassembles
/// identically: the phase yields the header's declared payload, cut
/// however the transport cut it, and consumes exactly those reads.
pub proof fn lemma_reassembly(first: Seq<u8>, parts: Seq<Seq<u8>>, rest: Seq<Seq<u8>>, mp: int)
    requires
        12 <= first.len() < SCRATCH_SIZE,
        PtpContainerInfo::spec_parse(first) is Ok,
        ({
            let ci = PtpContainerInfo::spec_parse(first)->Ok_0;
            &&& ci.payload_len >= first.len() - 12
            &&& ci.payload_len > 0
            &&& joined(parts).len() == ci.payload_len - (first.len() - 12)
        }),
        forall|i: int| 0 <= i < parts.len() ==> #[trigger] parts[i].len() > 0,
    ensures
        spec_phase(seq![first] + parts + rest, SCRATCH_SIZE as int, mp) == (
            1 + parts.len() as int,
            Ok::<(PtpContainerInfo, Seq<u8>), TxnErr>(
                (
                    PtpContainerInfo::spec_parse(first)->Ok_0,
                    first.skip(12) + joined(parts),
                ),
            ),
        ),
{
    let inb = seq![first] + parts + rest;
    let ci = PtpContainerInfo::spec_parse(first)->Ok_0;
    assert(inb[0] == first);
    assert(inb.drop_first() =~= parts + rest);
    assert(first.skip(12).len() == first.len() - 12);
    lemma_fill_parts(parts, rest, ci.payload_len - first.skip(12).len());
}

/// A container carrying a stale transaction id, delivered whole in a
/// single transfer, is discarded: the transaction's outcome over the
/// queue is the outcome over the rest of the queue.
pub proof fn lemma_stale_tid_skipped(stale: Seq<u8>, rest: Seq<Seq<u8>>, tid: u32, mp: int)
    requires
        12 <= stale.len() < SCRATCH_SIZE,
        PtpContainerInfo::spec_parse(stale) is Ok,
        ({
            let ci = PtpContainerInfo::spec_parse(stale)->Ok_0;
            &&& ci.tid != tid
            &&& ci.payload_len == stale.len() - 12
        }),
    ensures
        txn_outcome(seq![stale] + rest, tid, mp) == txn_outcome(rest, tid, mp),
        txn_consumed(seq![stale] + rest, tid, mp) == 1 + txn_consumed(rest, tid, mp),
{
    let inb = seq![stale] + rest;
    let ci = PtpContainerInfo::spec_parse(stale)->Ok_0;
    assert(inb[0] == stale);
    assert(inb.drop_first() =~= rest);
    assert(inb.skip(1) =~= rest);
    if ci.payload_len == 0 {
        assert(spec_phase(inb, SCRATCH_SIZE as int, mp) == (1int, Ok::<
            (PtpContainerInfo, Seq<u8>),
            TxnErr,
        >((ci, Seq::empty()))));
    } else {
        assert(stale.skip(12).len() == ci.payload_len);
        assert(spec_fill(rest, ci.payload_len - stale.skip(12).len()) == (0int, Ok::<
            Seq<u8>,
            TxnErr,
        >(Seq::empty())));
        assert(spec_phase(inb, SCRATCH_SIZE as int, mp) == (1int, Ok::<
            (PtpContainerInfo, Seq<u8>),
            TxnErr,
        >((ci, stale.skip(12) + Seq::empty()))));
    }
}

/// A Response container whose code is not Ok ends the transaction with
/// exactly that code, and whatever Data payload was gathered before is
/// discarded.
pub proof fn lemma_error_response(resp: Seq<u8>, rest: Seq<Seq<u8>>, tid: u32, mp: int, acc: Seq<u8>)
    requires
        12 <= resp.len() < SCRATCH_SIZE,
        PtpContainerInfo::spec_parse(resp) is Ok,
        ({
            let ci = PtpContainerInfo::spec_parse(resp)->Ok_0;
            &&& ci.kind == PtpContainerType::Response
            &&& ci.tid == tid
            &&& ci.code != 0x2001
            &&& ci.payload_len == resp.len() - 12
        }),
    ensures
        spec_txn_reads(seq![resp] + rest, tid, SCRATCH_SIZE as int, mp, acc).1 == Err::<
            Seq<u8>,
            TxnErr,
        >(TxnErr::Responder(PtpContainerInfo::spec_parse(resp)->Ok_0.code)),
{
    let inb = seq![resp] + rest;
    let ci = PtpContainerInfo::spec_parse(resp)->Ok_0;
    assert(inb[0] == resp);
    assert(inb.drop_first() =~= rest);
    if ci.payload_len == 0 {
    } else {
        assert(resp.skip(12).len() == ci.payload_len);
        assert(spec_fill(rest, ci.payload_len - resp.skip(12).len()) == (0int, Ok::<
            Seq<u8>,
            TxnErr,
        >(Seq::empty())));
    }
}

/// When the first read fills the scratch buffer exactly and the payload
/// length is a multiple of the endpoint's max packet size, the phase
/// performs one additional read to consume the zero-length packet that
/// terminates the bulk transfer.
pub proof fn lemma_zlp_extra_read(
    first: Seq<u8>,
    parts: Seq<Seq<u8>>,
    zlp: Seq<u8>,
    rest: Seq<Seq<u8>>,
    mp: int,
)
    requires
        first.len() == SCRATCH_SIZE,
        PtpContainerInfo::spec_parse(first) is Ok,
        ({
            let ci = PtpContainerInfo::spec_parse(first)->Ok_0;
            &&& ci.payload_len >= first.len() - 12
            &&& ci.payload_len > 0
            &&& joined(parts).len() == ci.payload_len - (first.len() - 12)
            &&& (ci.payload_len as int) % mp == 0
        }),
        forall|i: int| 0 <= i < parts.len() ==> #[trigger] parts[i].len() > 0,
        zlp.len() <= mp,
    ensures
        spec_phase(seq![first] + parts + seq![zlp] + rest, SCRATCH_SIZE as int, mp) == (
            2 + parts.len() as int,
            Ok::<(PtpContainerInfo, Seq<u8>), TxnErr>(
                (
                    PtpContainerInfo::spec_parse(first)->Ok_0,
                    first.skip(12) + joined(parts),
                ),
            ),
        ),
{
    let inb = seq![first] + parts + seq![zlp] + rest;
    let ci = PtpContainerInfo::spec_parse(first)->Ok_0;
    assert(inb[0] == first);
    assert(inb.drop_first() =~= parts + (seq![zlp] + rest));
    assert(first.skip(12).len() == first.len() - 12);
    lemma_fill_parts(parts, seq![zlp] + rest, ci.payload_len - first.skip(12).len());
    let j = 1 + spec_fill(parts + (seq![zlp] + rest), ci.payload_len - first.skip(12).len()).0;
    assert(j == 1 + parts.len());
    assert(inb[j] == zlp) by {
        assert((parts + (seq![zlp] + rest))[parts.len() as int] == zlp);
    }
    assert(inb.len() > j);
}


} // verus!
