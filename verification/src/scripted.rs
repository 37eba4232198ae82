//! A transport whose behaviour is written out in advance: a queue of
//! transfers to hand to reads, and the writes the engine is expected to
//! make.  Tests drive the transaction engine over it and check that the
//! script was followed to its end.
use vstd::prelude::*;
use crate::codec::write_bytes;
use crate::error::TransportError;
use crate::transport::Transport;

verus! {

/// A scripted bulk transport.
pub struct ScriptedTransport {
    reads: Vec<Vec<u8>>,
    rpos: usize,
    expected: Vec<Vec<u8>>,
    wpos: usize,
    mismatch: bool,
    log: Ghost<Seq<Seq<u8>>>,
}

/// Do two byte slices hold the same bytes?
fn bytes_eq(a: &[u8], b: &[u8]) -> (r: bool)
    ensures
        r == (a@ == b@),
{
    if a.len() != b.len() {
        proof {
            assert(a@ != b@);
        }
        return false;
    }
    let mut i: usize = 0;
    while i < a.len()
        invariant
            i <= a@.len(),
            a@.len() == b@.len(),
            forall|j: int| 0 <= j < i ==> a@[j] == b@[j],
        decreases a@.len() - i,
    {
        if a[i] != b[i] {
            proof {
                assert(a@ != b@);
            }
            return false;
        }
        i = i + 1;
    }
    proof {
        assert(a@ =~= b@);
    }
    true
}

impl ScriptedTransport {
    /// The reads not yet handed out.
    pub closed spec fn pending_reads(&self) -> Seq<Seq<u8>> {
        if self.rpos <= self.reads@.len() {
            self.reads@.subrange(self.rpos as int, self.reads@.len() as int).map_values(
                |v: Vec<u8>| v@,
            )
        } else {
            Seq::empty()
        }
    }

    /// Every expected write arrived, in order and byte for byte, and
    /// nothing else was written.
    pub closed spec fn writes_matched(&self) -> bool {
        !self.mismatch && self.wpos == self.expected@.len()
    }

    /// A transport that will answer reads with `reads`, front first,
    /// and check writes against `expected_writes`.
    pub fn new(reads: Vec<Vec<u8>>, expected_writes: Vec<Vec<u8>>) -> (r: ScriptedTransport)
        ensures
            r.inbound() == reads@.map_values(|v: Vec<u8>| v@),
            r.written() == Seq::<Seq<u8>>::empty(),
            r.writes_matched() <==> expected_writes@.len() == 0,
    {
        let r = ScriptedTransport {
            reads,
            rpos: 0,
            expected: expected_writes,
            wpos: 0,
            mismatch: false,
            log: Ghost(Seq::empty()),
        };
        proof {
            assert(r.pending_reads() =~= r.reads@.map_values(|v: Vec<u8>| v@));
        }
        r
    }

    /// The script ran to its end: every read was consumed and every
    /// expected write arrived as expected.
    pub fn finished(&self) -> (r: bool)
        ensures
            r == (self.inbound().len() == 0 && self.writes_matched()),
    {
        self.rpos >= self.reads.len() && self.wpos == self.expected.len() && !self.mismatch
    }
}

impl Transport for ScriptedTransport {
    closed spec fn inbound(&self) -> Seq<Seq<u8>> {
        self.pending_reads()
    }

    closed spec fn written(&self) -> Seq<Seq<u8>> {
        self.log@
    }

    open spec fn infallible(&self) -> bool {
        true
    }

    fn bulk_write(&mut self, data: &[u8], timeout_ms: u64) -> (r: Result<(), TransportError>)
        ensures
            final(self).inbound() == old(self).inbound(),
            final(self).infallible() == old(self).infallible(),
            r is Ok ==> final(self).written() == old(self).written().push(data@),
            r is Err ==> final(self).written() == old(self).written(),
            old(self).infallible() ==> r is Ok,
    {
        if self.wpos < self.expected.len() {
            let matches = bytes_eq(data, self.expected[self.wpos].as_slice());
            if matches {
                self.wpos = self.wpos + 1;
            } else {
                self.mismatch = true;
            }
        } else {
            self.mismatch = true;
        }
        self.log = Ghost(self.log@.push(data@));
        proof {
            assert(self.pending_reads() =~= old(self).pending_reads());
        }
        Ok(())
    }

    fn bulk_read(&mut self, max_len: usize, timeout_ms: u64) -> (r: Result<
        Vec<u8>,
        TransportError,
    >)
        ensures
            final(self).written() == old(self).written(),
            final(self).infallible() == old(self).infallible(),
            r is Ok ==> old(self).inbound().len() > 0 && r->Ok_0@ == old(self).inbound()[0]
                && old(self).inbound()[0].len() <= max_len && final(self).inbound() == old(
                self,
            ).inbound().drop_first(),
            r is Err ==> final(self).inbound() == old(self).inbound() && (old(
                self,
            ).inbound().len() == 0 || old(self).inbound()[0].len() > max_len),
    {
        if self.rpos < self.reads.len() {
            if self.reads[self.rpos].len() <= max_len {
                let mut out: Vec<u8> = Vec::new();
                write_bytes(&mut out, self.reads[self.rpos].as_slice());
                self.rpos = self.rpos + 1;
                proof {
                    assert(old(self).pending_reads()[0] == out@);
                    assert(self.pending_reads() =~= old(self).pending_reads().drop_first());
                }
                Ok(out)
            } else {
                proof {
                    assert(old(self).pending_reads()[0].len() > max_len);
                }
                Err(TransportError::Other)
            }
        } else {
            proof {
                assert(old(self).pending_reads().len() == 0);
            }
            Err(TransportError::Other)
        }
    }

    fn release(&mut self) -> (r: Result<(), TransportError>)
        ensures
            final(self).inbound() == old(self).inbound(),
            final(self).written() == old(self).written(),
            final(self).infallible() == old(self).infallible(),
            old(self).infallible() ==> r is Ok,
    {
        Ok(())
    }
}

} // verus!
