//! Batching of the fan-out stream for the upstream collector, with loop
//! prevention.

use vstd::prelude::*;
use crate::aggregator::records_view;
use crate::record::{get_str_attr, LogRecord, LogRecordView};
use crate::remote::is_remote;
use crate::text::same_text;

verus! {

/// Whether a record may be sent upstream: anything that did not arrive from a
/// remote peer.
pub fn should_export(r: &LogRecord) -> (b: bool)
    ensures
        b == !is_remote(r@),
{
    match get_str_attr(&r.attributes, "source") {
        Some(s) => !same_text(s.as_str(), "grpc"),
        None => true,
    }
}

/// Collects records into batches for the registered emitters.
pub struct ExportManager {
    batch_size: usize,
    flush_interval_secs: u64,
    buffer: Vec<LogRecord>,
}

impl ExportManager {
    /// The records waiting for the next flush.
    pub closed spec fn pending(&self) -> Seq<LogRecordView> {
        records_view(self.buffer@)
    }

    pub closed spec fn batch_limit(&self) -> usize {
        self.batch_size
    }

    /// Nothing remote waits, and fewer records wait than make a batch.
    pub open spec fn wf(&self) -> bool {
        &&& forall|i: int| 0 <= i < self.pending().len() ==> !is_remote(#[trigger] self.pending()[i])
        &&& self.pending().len() < self.batch_limit() || self.pending().len() == 0
    }

    /// A batcher that flushes at `batch_size` records or every
    /// `flush_interval_secs` seconds.
    pub fn new(batch_size: usize, flush_interval_secs: u64) -> (r: ExportManager)
        ensures
            r.wf(),
            r.pending() == Seq::<LogRecordView>::empty(),
            r.batch_limit() == batch_size,
            r.flush_interval() == flush_interval_secs,
    {
        let r = ExportManager { batch_size, flush_interval_secs, buffer: Vec::new() };
        assert(r.pending() =~= Seq::<LogRecordView>::empty());
        r
    }

    pub closed spec fn flush_interval(&self) -> u64 {
        self.flush_interval_secs
    }

    /// The flush period in seconds.
    pub fn flush_interval_secs(&self) -> (r: u64)
        ensures
            r == self.flush_interval(),
    {
        self.flush_interval_secs
    }

    /// Offers one record from the fan-out stream. A remote record is
    /// dropped; any other is queued, and a full batch is handed back.
    pub fn offer(&mut self, r: LogRecord) -> (out: Option<Vec<LogRecord>>)
        requires
            old(self).wf(),
        ensures
            final(self).wf(),
            final(self).batch_limit() == old(self).batch_limit(),
            final(self).flush_interval() == old(self).flush_interval(),
            is_remote(r@) ==> out is None && final(self).pending() == old(self).pending(),
            !is_remote(r@) && old(self).pending().len() + 1 >= old(self).batch_limit() ==> out is Some
                && records_view(out->0@) == old(self).pending().push(r@) && final(self).pending()
                == Seq::<LogRecordView>::empty(),
            !is_remote(r@) && old(self).pending().len() + 1 < old(self).batch_limit() ==> out is None
                && final(self).pending() == old(self).pending().push(r@),
            out matches Some(b) ==> forall|i: int|
                0 <= i < b@.len() ==> !is_remote(#[trigger] records_view(b@)[i]),
    {
        if !should_export(&r) {
            return None;
        }
        let ghost p0 = self.pending();
        let ghost rv = r@;
        self.buffer.push(r);
        assert(self.pending() =~= p0.push(rv));
        if self.buffer.len() >= self.batch_size {
            let mut batch: Vec<LogRecord> = Vec::new();
            std::mem::swap(&mut batch, &mut self.buffer);
            assert(self.pending() =~= Seq::<LogRecordView>::empty());
            Some(batch)
        } else {
            None
        }
    }

    /// The flush timer fired: hands back whatever waits.
    pub fn on_tick(&mut self) -> (out: Option<Vec<LogRecord>>)
        requires
            old(self).wf(),
        ensures
            final(self).wf(),
            final(self).batch_limit() == old(self).batch_limit(),
            final(self).flush_interval() == old(self).flush_interval(),
            final(self).pending() == Seq::<LogRecordView>::empty(),
            old(self).pending().len() == 0 ==> out is None,
            old(self).pending().len() > 0 ==> out is Some && records_view(out->0@) == old(
                self,
            ).pending(),
            out matches Some(b) ==> forall|i: int|
                0 <= i < b@.len() ==> !is_remote(#[trigger] records_view(b@)[i]),
    {
        if self.buffer.len() == 0 {
            assert(self.pending() =~= Seq::<LogRecordView>::empty());
            return None;
        }
        let mut batch: Vec<LogRecord> = Vec::new();
        std::mem::swap(&mut batch, &mut self.buffer);
        assert(self.pending() =~= Seq::<LogRecordView>::empty());
        Some(batch)
    }
}

} // verus!
