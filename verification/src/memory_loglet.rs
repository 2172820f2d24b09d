//! A loglet that keeps its records in memory: the smallest provider that
//! meets the loglet contract.

use crate::loglet::{
    payloads_of, AppendError, LogRecord, LogRecordModel, LogletBase, LogletModel, LogletOffset,
    LogletReadStream, OperationError, Record, RecordModel, TailState,
};
use crate::sequence::{spec_next, INVALID_RAW, OLDEST_RAW};
use vstd::prelude::*;

verus! {

/// A copy of `payload`.
fn copy_payload(payload: &Vec<u8>) -> (r: Vec<u8>)
    ensures
        r@ == payload@,
{
    let mut copy: Vec<u8> = Vec::new();
    let mut i: usize = 0;
    while i < payload.len()
        invariant
            i <= payload.len(),
            copy@ == payload@.take(i as int),
        decreases payload.len() - i,
    {
        copy.push(payload[i]);
        assert(copy@ =~= payload@.take(i + 1));
        i += 1;
    }
    assert(payload@.take(payload.len() as int) =~= payload@);
    copy
}

/// A loglet in memory.
pub struct MemoryLoglet {
    records: Vec<Vec<u8>>,
    trim_point: u64,
    sealed: bool,
}

impl MemoryLoglet {
    /// The trim point lies below the tail, and the tail is an offset.
    #[verifier::type_invariant]
    spec fn inv(&self) -> bool {
        self.trim_point <= self.records@.len() < u64::MAX
    }

    /// Puts one more record at the tail.
    fn push_record(&mut self, data: Vec<u8>)
        requires
            old(self).records@.len() + 1 < u64::MAX,
        ensures
            final(self).records@ == old(self).records@.push(data),
            final(self).trim_point == old(self).trim_point,
            final(self).sealed == old(self).sealed,
    {
        proof {
            use_type_invariant(&*self);
        }
        let mut taken = MemoryLoglet { records: Vec::new(), trim_point: INVALID_RAW, sealed: false };
        core::mem::swap(self, &mut taken);
        let MemoryLoglet { mut records, trim_point, sealed } = taken;
        records.push(data);
        *self = MemoryLoglet { records, trim_point, sealed };
    }

    /// An open loglet without records.
    pub fn new() -> (r: MemoryLoglet)
        ensures
            r.model() == LogletModel::empty(),
            r.model().wf(),
    {
        let records: Vec<Vec<u8>> = Vec::new();
        assert(payloads_of(records@) =~= Seq::<Seq<u8>>::empty());
        MemoryLoglet { records, trim_point: INVALID_RAW, sealed: false }
    }
}

impl LogletBase for MemoryLoglet {
    type Offset = LogletOffset;

    type ReadStream = MemoryReadStream;

    closed spec fn model(&self) -> LogletModel {
        LogletModel {
            records: payloads_of(self.records@),
            trim_point: self.trim_point,
            sealed: self.sealed,
        }
    }

    /// A reader of the records from `from` on, up to and including `to`
    /// where it is given. The reader sees the loglet as it is now; making
    /// one never fails.
    fn create_read_stream(&self, from: LogletOffset, to: Option<LogletOffset>) -> (r: Result<
        MemoryReadStream,
        OperationError,
    >)
        ensures
            r is Ok,
            r matches Ok(stream) ==> {
                &&& stream.source() == self.model()
                &&& stream.last() == match to {
                    Some(offset) => Some(offset.0),
                    None => None::<u64>,
                }
            },
    {
        proof {
            use_type_invariant(self);
        }
        let mut records: Vec<Vec<u8>> = Vec::new();
        let mut i: usize = 0;
        while i < self.records.len()
            invariant
                i <= self.records.len(),
                records@.len() == i,
                payloads_of(records@) == payloads_of(self.records@).take(i as int),
            decreases self.records.len() - i,
        {
            let copy = copy_payload(&self.records[i]);
            let ghost copied = records@;
            records.push(copy);
            proof {
                let all = payloads_of(self.records@);
                assert forall|k: int| 0 <= k < i + 1 implies payloads_of(records@)[k]
                    == all[k] by {
                    if k < i {
                        assert(payloads_of(copied)[k] == all.take(i as int)[k]);
                        assert(records@[k] == copied[k]);
                    } else {
                        assert(records@[k] == copy);
                    }
                }
                assert(payloads_of(records@) =~= all.take(i + 1));
            }
            i += 1;
        }
        assert(payloads_of(self.records@).take(self.records.len() as int) =~= payloads_of(
            self.records@,
        ));
        Ok(MemoryReadStream {
            records,
            trim_point: self.trim_point,
            sealed: self.sealed,
            read_pointer: if from.0 < OLDEST_RAW {
                OLDEST_RAW
            } else {
                from.0
            },
            to: match to {
                Some(offset) => Some(offset.0),
                None => None,
            },
            terminated: false,
        })
    }

    /// Appends a record. The append is taken unless the loglet is sealed or
    /// out of offsets; it never fails for another reason.
    fn append(&mut self, data: Vec<u8>) -> (r: Result<LogletOffset, AppendError>)
        ensures
            r is Ok <==> old(self).model().takes(1),
            r is Err ==> r == Err::<LogletOffset, AppendError>(AppendError::Sealed),
    {
        proof {
            use_type_invariant(&*self);
        }
        if self.sealed {
            return Err(AppendError::Sealed);
        }
        if self.records.len() as u64 >= u64::MAX - 1 {
            self.sealed = true;
            return Err(AppendError::Sealed);
        }
        let offset = self.records.len() as u64 + 1;
        let ghost before = self.records@;
        self.push_record(data);
        assert(payloads_of(self.records@) =~= payloads_of(before).push(data@));
        Ok(LogletOffset(offset))
    }

    /// Appends a batch. The batch is taken unless the loglet is sealed or
    /// has not enough offsets left; it never fails for another reason.
    fn append_batch(&mut self, payloads: &Vec<Vec<u8>>) -> (r: Result<LogletOffset, AppendError>)
        ensures
            r is Ok <==> old(self).model().takes(payloads@.len()),
            r is Err ==> r == Err::<LogletOffset, AppendError>(AppendError::Sealed),
    {
        proof {
            use_type_invariant(&*self);
        }
        if self.sealed {
            return Err(AppendError::Sealed);
        }
        if self.records.len() as u64 >= u64::MAX - payloads.len() as u64 {
            self.sealed = true;
            return Err(AppendError::Sealed);
        }
        let first = self.records.len() as u64 + 1;
        let ghost before = self.records@;
        let mut i: usize = 0;
        while i < payloads.len()
            invariant
                i <= payloads.len(),
                self.records@.len() == before.len() + i,
                before.len() + payloads.len() < u64::MAX,
                self.trim_point == old(self).trim_point,
                self.sealed == old(self).sealed,
                payloads_of(self.records@) == payloads_of(before) + payloads_of(payloads@).take(
                    i as int,
                ),
            decreases payloads.len() - i,
        {
            let copy = copy_payload(&payloads[i]);
            let ghost so_far = self.records@;
            self.push_record(copy);
            proof {
                let batch = payloads_of(payloads@);
                let wanted = payloads_of(before) + batch.take(i + 1);
                assert(payloads_of(so_far) == payloads_of(before) + batch.take(i as int));
                assert forall|k: int| 0 <= k < wanted.len() implies payloads_of(
                    self.records@,
                )[k] == wanted[k] by {
                    if k < so_far.len() {
                        assert(payloads_of(so_far)[k] == (payloads_of(before) + batch.take(
                            i as int,
                        ))[k]);
                        assert(self.records@[k] == so_far[k]);
                    } else {
                        assert(self.records@[k] == copy);
                        assert(wanted[k] == batch[i as int]);
                    }
                }
                assert(payloads_of(self.records@) =~= wanted);
            }
            i += 1;
        }
        assert(payloads_of(payloads@).take(payloads.len() as int) =~= payloads_of(payloads@));
        Ok(LogletOffset(first))
    }

    fn find_tail(&self) -> (r: Result<TailState<LogletOffset>, OperationError>)
        ensures
            r is Ok,
    {
        proof {
            use_type_invariant(&*self);
        }
        let tail = LogletOffset(self.records.len() as u64 + 1);
        if self.sealed {
            Ok(TailState::Sealed(tail))
        } else {
            Ok(TailState::Open(tail))
        }
    }

    fn get_trim_point(&self) -> (r: Result<Option<LogletOffset>, OperationError>)
        ensures
            r is Ok,
    {
        proof {
            use_type_invariant(&*self);
        }
        if self.trim_point == INVALID_RAW {
            Ok(None)
        } else {
            Ok(Some(LogletOffset(self.trim_point)))
        }
    }

    fn trim(&mut self, trim_point: LogletOffset) -> (r: Result<(), OperationError>)
        ensures
            r is Ok,
    {
        proof {
            use_type_invariant(&*self);
        }
        let last = self.records.len() as u64;
        let reach = if trim_point.0 <= last {
            trim_point.0
        } else {
            last
        };
        if reach > self.trim_point {
            self.trim_point = reach;
        }
        Ok(())
    }

    fn seal(&mut self) -> (r: Result<(), OperationError>)
        ensures
            r is Ok,
    {
        proof {
            use_type_invariant(&*self);
        }
        self.sealed = true;
        Ok(())
    }

    fn read_opt(&self, from: LogletOffset) -> (r: Result<Option<LogRecord>, OperationError>)
        ensures
            r is Ok,
    {
        proof {
            use_type_invariant(&*self);
        }
        let at = if from.0 < OLDEST_RAW {
            OLDEST_RAW
        } else {
            from.0
        };
        if at > self.records.len() as u64 {
            Ok(None)
        } else if at <= self.trim_point {
            Ok(Some(LogRecord { offset: at, record: Record::TrimGap { to: self.trim_point } }))
        } else {
            let payload = copy_payload(&self.records[(at - 1) as usize]);
            Ok(Some(LogRecord { offset: at, record: Record::Data(payload) }))
        }
    }
}

/// A reader of a `MemoryLoglet` as it was when the reader was made.
pub struct MemoryReadStream {
    records: Vec<Vec<u8>>,
    trim_point: u64,
    sealed: bool,
    read_pointer: u64,
    to: Option<u64>,
    terminated: bool,
}

impl MemoryReadStream {
    /// The loglet that the reader reads.
    pub closed spec fn source(&self) -> LogletModel {
        LogletModel {
            records: payloads_of(self.records@),
            trim_point: self.trim_point,
            sealed: self.sealed,
        }
    }

    /// The last offset that the reader reads, where it has one.
    pub closed spec fn last(&self) -> Option<u64> {
        self.to
    }

    /// The reader's loglet is well formed and its read pointer is an offset.
    #[verifier::type_invariant]
    spec fn inv(&self) -> bool {
        self.source().wf() && self.read_pointer >= OLDEST_RAW
    }

    /// The reader has read beyond its last offset.
    pub open spec fn past_last(&self) -> bool {
        self.last() matches Some(to) && self.spec_read_pointer() > to
    }

    /// The record that the reader hands out next: the one that its loglet
    /// holds at the read pointer. It has none to hand out once it has
    /// ended, beyond its last offset, and at the tail.
    pub open spec fn pending(&self) -> Option<LogRecordModel> {
        if self.spec_is_terminated() || self.past_last() {
            None
        } else {
            self.source().read_opt(self.spec_read_pointer())
        }
    }

    /// Where the read pointer stands after `handed_out`: behind a record,
    /// behind the whole of a trim gap, and where it stood if nothing was
    /// handed out.
    pub open spec fn pointer_after(&self, handed_out: Option<LogRecordModel>) -> u64 {
        match handed_out {
            Some(record) => match record.record {
                RecordModel::TrimGap { to } => spec_next(to),
                RecordModel::Data(_) => spec_next(record.offset),
            },
            None => self.spec_read_pointer(),
        }
    }

    /// The next record of the loglet that the reader reads, and the reader
    /// after it. The reader ends when it is asked for a record beyond its
    /// last offset; at the tail it has nothing to hand out and does not end.
    pub fn read_next(&mut self) -> (r: Option<LogRecord>)
        ensures
            final(self).source() == old(self).source(),
            final(self).last() == old(self).last(),
            match r {
                Some(record) => old(self).pending() == Some(record@),
                None => old(self).pending() is None,
            },
            final(self).spec_is_terminated() == (old(self).spec_is_terminated()
                || old(self).past_last()),
            final(self).spec_read_pointer() == old(self).pointer_after(old(self).pending()),
    {
        proof {
            use_type_invariant(&*self);
        }
        if self.terminated {
            return None;
        }
        let at = self.read_pointer;
        let past_last = match self.to {
            Some(to) => at > to,
            None => false,
        };
        if past_last {
            self.terminated = true;
            return None;
        }
        if at > self.records.len() as u64 {
            None
        } else if at <= self.trim_point {
            self.read_pointer = self.trim_point + 1;
            Some(LogRecord { offset: at, record: Record::TrimGap { to: self.trim_point } })
        } else {
            let payload = copy_payload(&self.records[(at - 1) as usize]);
            self.read_pointer = at + 1;
            Some(LogRecord { offset: at, record: Record::Data(payload) })
        }
    }
}

impl LogletReadStream<LogletOffset> for MemoryReadStream {
    closed spec fn spec_read_pointer(&self) -> u64 {
        self.read_pointer
    }

    closed spec fn spec_is_terminated(&self) -> bool {
        self.terminated
    }

    fn read_pointer(&self) -> (r: LogletOffset) {
        LogletOffset(self.read_pointer)
    }

    fn is_terminated(&self) -> (r: bool) {
        self.terminated
    }

    /// The next record of the loglet that the reader reads; reading from
    /// memory never fails. The reader ends when it is asked for a record
    /// beyond its last offset.
    fn next_record(&mut self) -> (r: Option<Result<LogRecord, OperationError>>)
        ensures
            final(self).source() == old(self).source(),
            final(self).last() == old(self).last(),
            match r {
                Some(Ok(record)) => old(self).pending() == Some(record@),
                Some(Err(_)) => false,
                None => old(self).pending() is None,
            },
            final(self).spec_is_terminated() == (old(self).spec_is_terminated()
                || old(self).past_last()),
            final(self).spec_read_pointer() == old(self).pointer_after(old(self).pending()),
    {
        match self.read_next() {
            Some(record) => Some(Ok(record)),
            None => None,
        }
    }
}

} // verus!
