//! The bulk transport a PTP session runs on, with a ghost model: a
//! queue of the transfers that reads will return, and a log of the
//! transfers written.  The transaction engine is verified against this
//! model; a USB binding implements it outside the library.
use vstd::prelude::*;
use crate::error::TransportError;

verus! {


/// Where a USB endpoint lives: configuration, interface, alternate
/// setting, and the endpoint address itself.
#[derive(Debug, Clone, Copy, PartialEq, Eq, Structural)]
pub struct EndpointAddress {
    pub config: u8,
    pub iface: u8,
    pub setting: u8,
    pub address: u8,
}

/// A bulk endpoint pair.  `inbound()` is the queue of transfer payloads
/// the coming reads will hand over, front first; `written()` is the log
/// of payloads written so far, oldest first.
pub trait Transport: Sized {
    /// The transfers the coming bulk reads will return, front first.
    spec fn inbound(&self) -> Seq<Seq<u8>>;

    /// The transfers written so far, oldest first.
    spec fn written(&self) -> Seq<Seq<u8>>;

    /// Does this transport never fail of itself?  Reads then go only by
    /// the inbound queue, and writes and the release always succeed.  A
    /// scripted transport is infallible; a real USB pipe is not.
    spec fn infallible(&self) -> bool;

    /// Write one bulk transfer: on success the whole buffer went out,
    /// on failure nothing did.  A zero timeout means wait indefinitely.
    fn bulk_write(&mut self, data: &[u8], timeout_ms: u64) -> (r: Result<(), TransportError>)
        ensures
            final(self).inbound() == old(self).inbound(),
            final(self).infallible() == old(self).infallible(),
            r is Ok ==> final(self).written() == old(self).written().push(data@),
            r is Err ==> final(self).written() == old(self).written(),
            old(self).infallible() ==> r is Ok,
    ;

    /// Read one bulk transfer of at most `max_len` bytes.  While the
    /// queue holds a front transfer that fits, the read hands over
    /// exactly that transfer; it fails only on an empty queue or a
    /// front transfer that does not fit.
    fn bulk_read(&mut self, max_len: usize, timeout_ms: u64) -> (r: Result<
        Vec<u8>,
        TransportError,
    >)
        ensures
            final(self).written() == old(self).written(),
            final(self).infallible() == old(self).infallible(),
            r is Ok ==> old(self).inbound().len() > 0 && r->Ok_0@ == old(self).inbound()[0]
                && old(self).inbound()[0].len() <= max_len && final(self).inbound() == old(
                self,
            ).inbound().drop_first(),
            r is Err ==> final(self).inbound() == old(self).inbound() && (old(
                self,
            ).inbound().len() == 0 || old(self).inbound()[0].len() > max_len),
    ;

    /// Release the underlying interface when the session is torn down.
    fn release(&mut self) -> (r: Result<(), TransportError>)
        ensures
            final(self).inbound() == old(self).inbound(),
            final(self).written() == old(self).written(),
            final(self).infallible() == old(self).infallible(),
            old(self).infallible() ==> r is Ok,
    ;
}

} // verus!
