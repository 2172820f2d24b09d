//! Sequence numbers: positions in a log, with three distinguished values and
//! saturating successor and predecessor.

use vstd::prelude::*;

verus! {

/// The raw value that stands for "no position".
pub const INVALID_RAW: u64 = 0;

/// The raw value of the first position that can hold a record.
pub const OLDEST_RAW: u64 = 1;

/// The successor of a raw position, saturating at `u64::MAX`.
pub open spec fn spec_next(raw: u64) -> u64 {
    if raw == u64::MAX {
        u64::MAX
    } else {
        (raw + 1) as u64
    }
}

/// The predecessor of a raw position, saturating at the oldest position.
pub open spec fn spec_prev(raw: u64) -> u64 {
    if raw <= 1 {
        1
    } else {
        (raw - 1) as u64
    }
}

/// A raw position moved forward by `n`, saturating at `u64::MAX`.
pub open spec fn spec_advance(raw: u64, n: nat) -> u64 {
    if raw + n >= u64::MAX {
        u64::MAX
    } else {
        (raw + n) as u64
    }
}

/// A totally ordered position type over `u64`.
pub trait SequenceNumber: Sized + Copy {
    /// The position as a plain integer.
    spec fn raw(self) -> u64;

    /// The largest position.
    fn max_value() -> (r: Self)
        ensures
            r.raw() == u64::MAX,
    ;

    /// The position that denotes "none".
    fn invalid() -> (r: Self)
        ensures
            r.raw() == INVALID_RAW,
    ;

    /// The first position that can hold a record.
    fn oldest() -> (r: Self)
        ensures
            r.raw() == OLDEST_RAW,
    ;

    /// The following position; the largest position is its own successor.
    fn next(self) -> (r: Self)
        ensures
            r.raw() == spec_next(self.raw()),
    ;

    /// The preceding position; never goes below the oldest position.
    fn prev(self) -> (r: Self)
        ensures
            r.raw() == spec_prev(self.raw()),
    ;
}

/// A log sequence number: the position of a record within a log.
#[derive(Clone, Copy, Debug, PartialEq, Eq, Structural, PartialOrd, Ord, Hash)]
pub struct Lsn(pub u64);

impl View for Lsn {
    type V = u64;

    open spec fn view(&self) -> u64 {
        self.0
    }
}

impl Lsn {
    pub fn new(raw: u64) -> (r: Lsn)
        ensures
            r@ == raw,
    {
        Lsn(raw)
    }

    pub fn as_u64(&self) -> (r: u64)
        ensures
            r == self@,
    {
        self.0
    }
}

impl SequenceNumber for Lsn {
    open spec fn raw(self) -> u64 {
        self@
    }

    fn max_value() -> (r: Self) {
        Lsn(u64::MAX)
    }

    fn invalid() -> (r: Self) {
        Lsn(INVALID_RAW)
    }

    fn oldest() -> (r: Self) {
        Lsn(OLDEST_RAW)
    }

    fn next(self) -> (r: Self) {
        if self.0 == u64::MAX {
            self
        } else {
            Lsn(self.0 + 1)
        }
    }

    fn prev(self) -> (r: Self) {
        if self.0 <= 1 {
            Lsn(OLDEST_RAW)
        } else {
            Lsn(self.0 - 1)
        }
    }
}

} // verus!
