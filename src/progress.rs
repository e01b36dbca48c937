//! Completion fractions, and the byte counters that report them while a
//! stream is written or read.

use vstd::prelude::*;

verus! {

/// A completion fraction `num / den` of one operation; `1 / 1` is done.
#[derive(Debug, Clone, Copy, PartialEq, Eq, Structural)]
pub struct Percent {
    pub num: u64,
    pub den: u64,
}

/// A fraction between nothing and all.
pub open spec fn valid_percent(p: Percent) -> bool {
    p.den > 0 && p.num <= p.den
}

/// `p` is no further along than `q`.
pub open spec fn percent_le(p: Percent, q: Percent) -> bool {
    p.num * q.den <= q.num * p.den
}

/// The fraction that stands for completion.
pub open spec fn full() -> Percent {
    Percent { num: 1, den: 1 }
}

/// The fraction `done / total` of a stream, capped at all of it.
pub open spec fn fraction_of(done: u64, total: u64) -> Percent {
    Percent { num: if done <= total { done } else { total }, den: total }
}

impl Percent {
    /// Completion.
    pub fn complete() -> (r: Percent)
        ensures
            r == full(),
    {
        Percent { num: 1, den: 1 }
    }

    /// The fraction `done / total`, capped at all of it.
    pub fn of(done: u64, total: u64) -> (r: Percent)
        requires
            total > 0,
        ensures
            r == fraction_of(done, total),
            valid_percent(r),
    {
        let num = if done <= total {
            done
        } else {
            total
        };
        Percent { num, den: total }
    }
}

/// No fraction is further along than completion.
pub proof fn lemma_below_full(p: Percent)
    requires
        valid_percent(p),
    ensures
        percent_le(p, full()),
{
    assert(p.num * 1 == p.num);
    assert(1 * p.den == p.den);
}

/// Against one total, more bytes never report less progress.
pub proof fn lemma_fraction_monotone(a: u64, b: u64, total: u64)
    requires
        a <= b,
        total > 0,
    ensures
        percent_le(fraction_of(a, total), fraction_of(b, total)),
        valid_percent(fraction_of(b, total)),
{
    let p = fraction_of(a, total);
    let q = fraction_of(b, total);
    assert(p.num <= q.num);
    assert(p.num * total <= q.num * total) by (nonlinear_arith)
        requires
            p.num <= q.num,
    ;
}

/// The counter behind a writer that reports how much of a known total has
/// been written.
#[derive(Debug)]
pub struct ProgressWriter {
    pub total_size: u64,
    pub bytes_written: u64,
    pub filename: String,
}

impl ProgressWriter {
    /// A counter for a stream of `total_size` bytes, shown under `filename`.
    pub fn new(total_size: u64, filename: String) -> (r: ProgressWriter)
        ensures
            r.total_size == total_size,
            r.bytes_written == 0,
            r.filename == filename,
    {
        ProgressWriter { total_size, bytes_written: 0, filename }
    }

    /// Counts `bytes` more written, and returns the fraction to report; none
    /// when the total is zero.
    pub fn record(&mut self, bytes: usize) -> (r: Option<Percent>)
        ensures
            final(self).total_size == old(self).total_size,
            final(self).filename == old(self).filename,
            final(self).bytes_written == if old(self).bytes_written + bytes <= u64::MAX {
                (old(self).bytes_written + bytes) as u64
            } else {
                u64::MAX
            },
            r == if old(self).total_size > 0 {
                Some(fraction_of(final(self).bytes_written, old(self).total_size))
            } else {
                None::<Percent>
            },
    {
        self.bytes_written = self.bytes_written.saturating_add(bytes as u64);
        if self.total_size > 0 {
            Some(Percent::of(self.bytes_written, self.total_size))
        } else {
            None
        }
    }
}

/// The counter behind a reader that reports how much of a known total has
/// been read.
#[derive(Debug)]
pub struct ProgressReader {
    pub total_size: u64,
    pub bytes_read: u64,
    pub filename: String,
}

impl ProgressReader {
    /// A counter for a stream of `total_size` bytes, shown under `filename`.
    pub fn new(total_size: u64, filename: String) -> (r: ProgressReader)
        ensures
            r.total_size == total_size,
            r.bytes_read == 0,
            r.filename == filename,
    {
        ProgressReader { total_size, bytes_read: 0, filename }
    }

    /// Counts `bytes` more read, and returns the fraction to report; none
    /// when the total is zero.
    pub fn record(&mut self, bytes: usize) -> (r: Option<Percent>)
        ensures
            final(self).total_size == old(self).total_size,
            final(self).filename == old(self).filename,
            final(self).bytes_read == if old(self).bytes_read + bytes <= u64::MAX {
                (old(self).bytes_read + bytes) as u64
            } else {
                u64::MAX
            },
            r == if old(self).total_size > 0 {
                Some(fraction_of(final(self).bytes_read, old(self).total_size))
            } else {
                None::<Percent>
            },
    {
        self.bytes_read = self.bytes_read.saturating_add(bytes as u64);
        if self.total_size > 0 {
            Some(Percent::of(self.bytes_read, self.total_size))
        } else {
            None
        }
    }
}

/// Two successive reports of one stream counter never go backwards, and
/// completion, reported at the end of every operation, is never behind them.
pub proof fn lemma_stream_reports_monotone(before: u64, after: u64, total: u64)
    requires
        before <= after,
        total > 0,
    ensures
        percent_le(fraction_of(before, total), fraction_of(after, total)),
        percent_le(fraction_of(after, total), full()),
{
    lemma_fraction_monotone(before, after, total);
    lemma_below_full(fraction_of(after, total));
}

} // verus!
