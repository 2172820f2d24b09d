//! The contract of a loglet: one segment of a log, as its provider has to
//! serve it.
//!
//! Offsets within a loglet start at the oldest position. The tail is the
//! first position that is not written yet; the trim point is the last
//! position whose record is gone.
//!
//! ```text
//!       [  1  2  3  4  5  6  7  ]
//!       [  ----  A  B  C  ----- ]
//!             ^           ^
//!      trim point         tail
//! ```

use crate::sequence::{spec_advance, spec_next, spec_prev, SequenceNumber, INVALID_RAW, OLDEST_RAW};
use vstd::prelude::*;
use vstd::std_specs::convert::FromSpecImpl;
use vstd::std_specs::ops::AddSpecImpl;

verus! {

/// A position within one loglet.
#[derive(Debug, Copy, Clone, PartialEq, Eq, Structural, PartialOrd, Ord, Hash)]
pub struct LogletOffset(pub u64);

impl View for LogletOffset {
    type V = u64;

    open spec fn view(&self) -> u64 {
        self.0
    }
}

impl From<u64> for LogletOffset {
    fn from(raw: u64) -> (r: LogletOffset) {
        LogletOffset(raw)
    }
}

impl FromSpecImpl<u64> for LogletOffset {
    open spec fn obeys_from_spec() -> bool {
        true
    }

    open spec fn from_spec(raw: u64) -> LogletOffset {
        LogletOffset(raw)
    }
}

impl From<LogletOffset> for u64 {
    fn from(offset: LogletOffset) -> (r: u64) {
        offset.0
    }
}

impl FromSpecImpl<LogletOffset> for u64 {
    open spec fn obeys_from_spec() -> bool {
        true
    }

    open spec fn from_spec(offset: LogletOffset) -> u64 {
        offset.0
    }
}

impl core::ops::Add<usize> for LogletOffset {
    type Output = LogletOffset;

    /// The offset `rhs` positions further on, saturating at the largest.
    fn add(self, rhs: usize) -> (r: LogletOffset) {
        if rhs as u64 >= u64::MAX - self.0 {
            LogletOffset(u64::MAX)
        } else {
            LogletOffset(self.0 + rhs as u64)
        }
    }
}

impl AddSpecImpl<usize> for LogletOffset {
    open spec fn obeys_add_spec() -> bool {
        true
    }

    open spec fn add_req(self, rhs: usize) -> bool {
        true
    }

    open spec fn add_spec(self, rhs: usize) -> LogletOffset {
        LogletOffset(spec_advance(self.0, rhs as nat))
    }
}

impl SequenceNumber for LogletOffset {
    open spec fn raw(self) -> u64 {
        self.0
    }

    fn max_value() -> (r: Self) {
        LogletOffset(u64::MAX)
    }

    fn invalid() -> (r: Self) {
        LogletOffset(INVALID_RAW)
    }

    fn oldest() -> (r: Self) {
        LogletOffset(OLDEST_RAW)
    }

    fn next(self) -> (r: Self) {
        if self.0 == u64::MAX {
            self
        } else {
            LogletOffset(self.0 + 1)
        }
    }

    fn prev(self) -> (r: Self) {
        if self.0 <= 1 {
            LogletOffset(OLDEST_RAW)
        } else {
            LogletOffset(self.0 - 1)
        }
    }
}

/// Where a loglet ends, and whether it can still grow.
#[derive(Debug, Copy, Clone, PartialEq, Eq, Structural)]
pub enum TailState<Offset> {
    /// The loglet takes appends; the next one is written at the offset.
    Open(Offset),
    /// The loglet is sealed; the offset is the first that was never written.
    Sealed(Offset),
}

/// Why an append failed. Only `Sealed` is final for the loglet: every other
/// failure may be tried again.
#[derive(Debug, Copy, Clone, PartialEq, Eq, Structural)]
pub enum AppendError {
    Sealed,
    Shutdown,
    TransientIo,
    PermanentCorruption,
}

/// Why an operation other than an append failed.
#[derive(Debug, Copy, Clone, PartialEq, Eq, Structural)]
pub enum OperationError {
    Shutdown,
    TransientIo,
    PermanentCorruption,
}

/// What a read finds at an offset.
#[derive(Debug, Clone, PartialEq, Eq)]
pub enum Record {
    /// The records up to and including `to` are trimmed.
    TrimGap { to: u64 },
    Data(Vec<u8>),
}

/// A record with the offset it was read at.
#[derive(Debug, Clone, PartialEq, Eq)]
pub struct LogRecord {
    pub offset: u64,
    pub record: Record,
}

/// What a read finds at an offset, with the payload as a sequence of bytes.
pub enum RecordModel {
    TrimGap { to: u64 },
    Data(Seq<u8>),
}

/// A record as a read returns it, with the payload as a sequence of bytes.
pub struct LogRecordModel {
    pub offset: u64,
    pub record: RecordModel,
}

impl View for LogRecord {
    type V = LogRecordModel;

    open spec fn view(&self) -> LogRecordModel {
        LogRecordModel {
            offset: self.offset,
            record: match self.record {
                Record::TrimGap { to } => RecordModel::TrimGap { to },
                Record::Data(payload) => RecordModel::Data(payload@),
            },
        }
    }
}

/// A loglet as its user sees it: every record that was ever appended, how
/// far it is trimmed, and whether it is sealed. The record at offset `o`
/// is `records[o - 1]`.
#[verifier::ext_equal]
pub struct LogletModel {
    pub records: Seq<Seq<u8>>,
    pub trim_point: u64,
    pub sealed: bool,
}

impl LogletModel {
    /// The loglet before anything was appended.
    pub open spec fn empty() -> LogletModel {
        LogletModel { records: Seq::empty(), trim_point: INVALID_RAW, sealed: false }
    }

    /// The trim point lies below the tail, and the tail is an offset.
    pub open spec fn wf(self) -> bool {
        self.trim_point <= self.records.len() < u64::MAX
    }

    /// The first offset that is not written.
    pub open spec fn tail(self) -> u64 {
        (self.records.len() + 1) as u64
    }

    pub open spec fn tail_state(self) -> TailState<u64> {
        if self.sealed {
            TailState::Sealed(self.tail())
        } else {
            TailState::Open(self.tail())
        }
    }

    /// The trim point as users get it: none where nothing was ever trimmed.
    pub open spec fn get_trim_point(self) -> Option<u64> {
        if self.trim_point == INVALID_RAW {
            None
        } else {
            Some(self.trim_point)
        }
    }

    /// Whether an append of `count` records is taken: not by a sealed
    /// loglet, nor where the offsets would run out.
    pub open spec fn takes(self, count: nat) -> bool {
        !self.sealed && self.records.len() + count < u64::MAX
    }

    pub open spec fn append(self, data: Seq<u8>) -> LogletModel {
        LogletModel { records: self.records.push(data), ..self }
    }

    pub open spec fn append_batch(self, payloads: Seq<Seq<u8>>) -> LogletModel {
        LogletModel { records: self.records + payloads, ..self }
    }

    pub open spec fn seal(self) -> LogletModel {
        LogletModel { sealed: true, ..self }
    }

    /// The trim point after a trim up to and including `up_to`: it never
    /// moves back, and never beyond the last written offset.
    pub open spec fn trimmed_to(self, up_to: u64) -> u64 {
        let last = self.records.len() as u64;
        let reach = if up_to <= last {
            up_to
        } else {
            last
        };
        if reach > self.trim_point {
            reach
        } else {
            self.trim_point
        }
    }

    pub open spec fn trim(self, up_to: u64) -> LogletModel {
        LogletModel { trim_point: self.trimmed_to(up_to), ..self }
    }

    /// What a read at `from` finds without waiting: nothing at or beyond the
    /// tail, a gap at or below the trim point, the record elsewhere. A read
    /// below the oldest offset starts at the oldest.
    pub open spec fn read_opt(self, from: u64) -> Option<LogRecordModel> {
        let at = if from < OLDEST_RAW {
            OLDEST_RAW
        } else {
            from
        };
        if at >= self.tail() {
            None
        } else if at <= self.trim_point {
            Some(LogRecordModel { offset: at, record: RecordModel::TrimGap { to: self.trim_point } })
        } else {
            Some(LogRecordModel { offset: at, record: RecordModel::Data(self.records[at - 1]) })
        }
    }

    /// `self` is a later state of `earlier`: what was written stays as it
    /// was, the trim point has not moved back, and a seal stays.
    pub open spec fn extends(self, earlier: LogletModel) -> bool {
        &&& earlier.records.is_prefix_of(self.records)
        &&& earlier.trim_point <= self.trim_point
        &&& earlier.sealed ==> self.sealed && self.records == earlier.records
    }

    /// An append is read back: the record at the offset that a taken append
    /// returns holds the payload that was appended, unless it is trimmed.
    pub proof fn lemma_append_then_read(self, data: Seq<u8>)
        requires
            self.wf(),
            self.takes(1),
        ensures
            self.append(data).wf(),
            self.append(data).read_opt(self.tail()) == Some(
                LogRecordModel { offset: self.tail(), record: RecordModel::Data(data) },
            ),
    {
    }

    /// What was appended stays: after any later appends, the record at the
    /// offset of an earlier append still holds its payload, until a trim
    /// reaches it.
    pub proof fn lemma_record_is_immutable(self, later: LogletModel, offset: u64)
        requires
            self.wf(),
            later.wf(),
            later.extends(self),
            later.trim_point < offset < self.tail(),
        ensures
            later.read_opt(offset) == self.read_opt(offset),
    {
    }

    /// A seal is for ever: a sealed loglet takes no append, and neither a
    /// seal nor a trim opens it or moves its tail.
    pub proof fn lemma_seal_is_permanent(self, up_to: u64, count: nat)
        requires
            self.sealed,
        ensures
            !self.takes(count),
            self.seal() == self,
            self.trim(up_to).sealed,
            self.trim(up_to).tail_state() == self.tail_state(),
            self.seal().tail_state() == TailState::Sealed(self.tail()),
    {
    }

    /// Trimming twice to the same offset is trimming once, and trimming to
    /// the invalid offset changes nothing.
    pub proof fn lemma_trim_idempotent(self, up_to: u64)
        requires
            self.wf(),
        ensures
            self.trim(up_to).trim(up_to) == self.trim(up_to),
            self.trim(INVALID_RAW) == self,
            self.trim(up_to).wf(),
    {
    }

    /// Trimming beyond the tail is trimming to the last written offset.
    pub proof fn lemma_trim_beyond_tail(self, up_to: u64)
        requires
            self.wf(),
            up_to >= self.tail(),
        ensures
            self.trim(up_to) == self.trim(spec_prev(self.tail())),
            self.trim(u64::MAX) == self.trim(up_to),
    {
    }

    /// Sealing twice is sealing once.
    pub proof fn lemma_seal_idempotent(self)
        ensures
            self.seal().seal() == self.seal(),
            self.seal().tail_state() is Sealed,
    {
    }
}

/// The payloads of a batch, as sequences of bytes.
pub open spec fn payloads_of(payloads: Seq<Vec<u8>>) -> Seq<Seq<u8>> {
    payloads.map_values(|p: Vec<u8>| p@)
}

/// What every provider of loglets has to implement, for one user at a time.
///
/// `model` is what the user can tell of the loglet, and is well formed
/// after every call that changes it; every method says what it does to it.
/// A failure other than `AppendError::Sealed` promises only that nothing
/// written is lost.
pub trait LogletBase {
    type Offset: SequenceNumber;

    type ReadStream: LogletReadStream<Self::Offset>;

    /// The loglet as its user sees it.
    spec fn model(&self) -> LogletModel;

    /// A reader of the records of this loglet from `from` on: up to and
    /// including `to` where it is given, and without an end where it is
    /// not. A reader that is asked to start below the oldest offset starts
    /// at the oldest.
    fn create_read_stream(&self, from: Self::Offset, to: Option<Self::Offset>) -> (r: Result<
        Self::ReadStream,
        OperationError,
    >)
        ensures
            r matches Ok(stream) ==> {
                &&& stream.spec_read_pointer() == if from.raw() < OLDEST_RAW {
                    OLDEST_RAW
                } else {
                    from.raw()
                }
                &&& !stream.spec_is_terminated()
            },
    ;

    /// Appends a record, which is durable when the call returns, and gives
    /// its offset. A loglet that takes no more appends seals itself.
    fn append(&mut self, data: Vec<u8>) -> (r: Result<Self::Offset, AppendError>)
        ensures
            final(self).model().wf(),
            match r {
                Ok(offset) => {
                    &&& old(self).model().takes(1)
                    &&& offset.raw() == old(self).model().tail()
                    &&& final(self).model() == old(self).model().append(data@)
                },
                Err(AppendError::Sealed) => final(self).model() == old(self).model().seal(),
                Err(_) => final(self).model().extends(old(self).model()),
            },
    ;

    /// An offset at or below the tail that was seen before the loglet was
    /// sealed, where the provider keeps one.
    fn last_known_unsealed_tail(&self) -> (r: Option<Self::Offset>)
        ensures
            r matches Some(offset) ==> OLDEST_RAW <= offset.raw() <= self.model().tail(),
    {
        None
    }

    /// Appends the records of a batch, all or none, and gives the offset of
    /// the first.
    fn append_batch(&mut self, payloads: &Vec<Vec<u8>>) -> (r: Result<Self::Offset, AppendError>)
        ensures
            final(self).model().wf(),
            match r {
                Ok(first) => {
                    &&& old(self).model().takes(payloads@.len())
                    &&& first.raw() == old(self).model().tail()
                    &&& final(self).model() == old(self).model().append_batch(
                        payloads_of(payloads@),
                    )
                },
                Err(AppendError::Sealed) => final(self).model() == old(self).model().seal(),
                Err(_) => {
                    let before = old(self).model();
                    let after = final(self).model();
                    &&& after.extends(before)
                    &&& (after.records == before.records || after.records == before.records
                        + payloads_of(payloads@))
                },
            },
    ;

    /// The first offset that is not written, and whether the loglet is
    /// sealed. Of an empty loglet this is the oldest offset.
    fn find_tail(&self) -> (r: Result<TailState<Self::Offset>, OperationError>)
        ensures
            match r {
                Ok(TailState::Open(offset)) => self.model().tail_state() == TailState::Open(
                    offset.raw(),
                ),
                Ok(TailState::Sealed(offset)) => self.model().tail_state() == TailState::Sealed(
                    offset.raw(),
                ),
                Err(_) => true,
            },
    ;

    /// The last offset whose record is trimmed; none if nothing was ever
    /// trimmed.
    fn get_trim_point(&self) -> (r: Result<Option<Self::Offset>, OperationError>)
        ensures
            match r {
                Ok(Some(offset)) => self.model().get_trim_point() == Some(offset.raw()),
                Ok(None) => self.model().get_trim_point() is None,
                Err(_) => true,
            },
    ;

    /// Trims the records up to and including `trim_point`, as far as they
    /// are written.
    fn trim(&mut self, trim_point: Self::Offset) -> (r: Result<(), OperationError>)
        ensures
            final(self).model().wf(),
            match r {
                Ok(_) => final(self).model() == old(self).model().trim(trim_point.raw()),
                Err(_) => final(self).model().extends(old(self).model()),
            },
    ;

    /// Seals the loglet: no append is taken from now on.
    fn seal(&mut self) -> (r: Result<(), OperationError>)
        ensures
            final(self).model().wf(),
            match r {
                Ok(_) => final(self).model() == old(self).model().seal(),
                Err(_) => final(self).model().extends(old(self).model()),
            },
    ;

    /// The record at `from` if it is written, without waiting for it.
    fn read_opt(&self, from: Self::Offset) -> (r: Result<Option<LogRecord>, OperationError>)
        ensures
            match r {
                Ok(Some(record)) => self.model().read_opt(from.raw()) == Some(record@),
                Ok(None) => self.model().read_opt(from.raw()) is None,
                Err(_) => true,
            },
    ;
}

/// A loglet whose offsets are `LogletOffset`s.
pub trait Loglet: LogletBase<Offset = LogletOffset> {

}

impl<T> Loglet for T where T: LogletBase<Offset = LogletOffset> {

}

/// A reader that hands out the records of one loglet in the order of their
/// offsets, each offset at most once.
pub trait LogletReadStream<S: SequenceNumber> {
    /// The offset of the next record that the stream could hand out.
    spec fn spec_read_pointer(&self) -> u64;

    /// The stream has handed out its last record.
    spec fn spec_is_terminated(&self) -> bool;

    /// The offset of the next record to be read.
    fn read_pointer(&self) -> (r: S)
        ensures
            r.raw() == self.spec_read_pointer(),
    ;

    /// Whether the stream has ended.
    fn is_terminated(&self) -> (r: bool)
        ensures
            r == self.spec_is_terminated(),
    ;

    /// The next record, if one is there; `None` also where the stream has
    /// ended. A record lies at or after the read pointer, and the read
    /// pointer then lies after it. A stream that has ended stays ended.
    fn next_record(&mut self) -> (r: Option<Result<LogRecord, OperationError>>)
        ensures
            old(self).spec_is_terminated() ==> r is None && final(self).spec_is_terminated(),
            final(self).spec_read_pointer() >= old(self).spec_read_pointer(),
            r matches Some(Ok(record)) ==> {
                &&& record.offset >= old(self).spec_read_pointer()
                &&& final(self).spec_read_pointer() == match record.record {
                    Record::TrimGap { to } => spec_next(to),
                    Record::Data(_) => spec_next(record.offset),
                }
            },
    ;
}

} // verus!
