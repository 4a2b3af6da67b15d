use vstd::prelude::*;
use super::clock_nanos;

verus! {

/// Accumulates the time spent between calls of `start` and `end`.
#[allow(non_snake_case)]
pub struct TinyProfiler {
    t0: u128,
    t1: u128,
    tD: u128,
    tC: usize,
}

impl TinyProfiler {
    /// The moment the current measurement started.
    pub closed spec fn spec_start(&self) -> u128 {
        self.t0
    }

    /// The moment the last measurement ended (or started, while one runs).
    pub closed spec fn spec_last(&self) -> u128 {
        self.t1
    }

    /// The total time of all finished measurements.
    pub closed spec fn spec_total(&self) -> u128 {
        self.tD
    }

    /// The number of finished measurements.
    pub closed spec fn spec_count(&self) -> usize {
        self.tC
    }

    pub fn new() -> (r: TinyProfiler)
        ensures
            r.spec_start() == 0 && r.spec_last() == 0 && r.spec_total() == 0 && r.spec_count() == 0,
    {
        TinyProfiler { t0: 0, t1: 0, tD: 0, tC: 0 }
    }

    /// Starts a measurement at the present moment.
    pub fn start(&mut self)
        ensures
            final(self).spec_start() == final(self).spec_last(),
            final(self).spec_total() == old(self).spec_total(),
            final(self).spec_count() == old(self).spec_count(),
    {
        self.t0 = clock_nanos();
        self.t1 = self.t0;
    }

    /// Ends a measurement that started at `t0` at the moment `now`: its length is
    /// added to the total and the count goes up by one.
    pub fn end_at(&mut self, now: u128)
        requires
            now >= old(self).spec_start(),
            old(self).spec_total() + (now - old(self).spec_start()) <= u128::MAX,
            old(self).spec_count() < usize::MAX,
        ensures
            final(self).spec_start() == old(self).spec_start(),
            final(self).spec_last() == now,
            final(self).spec_total() == old(self).spec_total() + (now - old(self).spec_start()),
            final(self).spec_count() == old(self).spec_count() + 1,
    {
        self.t1 = now;
        self.tD = self.tD + (self.t1 - self.t0);
        self.tC = self.tC + 1;
    }

    /// Whether a measurement ending at `now` can be counted: it does not end
    /// before it started, and neither the total nor the count overflows.
    pub open spec fn can_count(&self, now: u128) -> bool {
        &&& now >= self.spec_start()
        &&& self.spec_total() + (now - self.spec_start()) <= u128::MAX
        &&& self.spec_count() < usize::MAX
    }

    /// Ends the running measurement at the present moment, which becomes the
    /// moment the last measurement ended. The measurement is counted (its length
    /// added to the total, the count up by one) unless the reading of the clock
    /// lies before the start or would overflow the total or the count.
    pub fn end(&mut self)
        ensures
            final(self).spec_start() == old(self).spec_start(),
            old(self).can_count(final(self).spec_last()) ==> {
                &&& final(self).spec_count() == old(self).spec_count() + 1
                &&& final(self).spec_total() == old(self).spec_total() + (final(self).spec_last() - old(self).spec_start())
            },
            !old(self).can_count(final(self).spec_last()) ==> {
                &&& final(self).spec_count() == old(self).spec_count()
                &&& final(self).spec_total() == old(self).spec_total()
            },
    {
        let now = clock_nanos();
        if now >= self.t0 && u128::MAX - self.tD >= now - self.t0 && self.tC < usize::MAX {
            self.end_at(now);
        } else {
            self.t1 = now;
        }
    }

    /// The average length of the finished measurements, or 0 if there are none.
    pub fn average(&self) -> (r: u128)
        ensures
            self.spec_count() == 0 ==> r == 0,
            self.spec_count() != 0 ==> r == self.spec_total() / (self.spec_count() as u128),
    {
        if self.tC == 0 {
            return 0;
        }
        self.tD / self.tC as u128
    }

    /// The total length of the finished measurements.
    pub fn total(&self) -> (r: u128)
        ensures
            r == self.spec_total(),
    {
        self.tD
    }
}

} // verus!
