//! The rolling sample accumulator feeding the estimators.
//!
//! Capture delivers chunks of arbitrary length; processing consumes
//! fixed-size windows. Whenever the accumulator holds at least one window,
//! exactly one window is drained per call, so the processing cadence is
//! driven by sample count, not by capture callbacks.

use vstd::prelude::*;

verus! {

/// Accumulates incoming sample chunks and hands out fixed-size windows.
pub struct SampleWindowBuffer {
    samples: Vec<i16>,
}

impl SampleWindowBuffer {
    /// The buffered samples, oldest first.
    pub closed spec fn view_spec(self) -> Seq<i16> {
        self.samples@
    }

    /// An empty accumulator.
    pub fn new() -> (r: SampleWindowBuffer)
        ensures
            r.view_spec() =~= Seq::<i16>::empty(),
    {
        SampleWindowBuffer { samples: Vec::new() }
    }

    /// How many samples are currently buffered.
    pub fn len(&self) -> (r: usize)
        ensures
            r == self.view_spec().len(),
    {
        self.samples.len()
    }

    /// Append one captured chunk.
    pub fn push_chunk(&mut self, chunk: &[i16])
        requires
            old(self).view_spec().len() + chunk@.len() <= usize::MAX,
        ensures
            final(self).view_spec() == old(self).view_spec() + chunk@,
    {
        let mut i: usize = 0;
        while i < chunk.len()
            invariant
                0 <= i <= chunk@.len(),
                self.samples@ == old(self).samples@ + chunk@.take(i as int),
                old(self).view_spec().len() + chunk@.len() <= usize::MAX,
            decreases chunk.len() - i,
        {
            self.samples.push(chunk[i]);
            proof {
                assert(self.samples@ =~= old(self).samples@ + chunk@.take(i as int + 1));
            }
            i = i + 1;
        }
        proof {
            assert(chunk@.take(chunk@.len() as int) =~= chunk@);
        }
    }

    /// Drain exactly one window of `n` samples if at least that many are
    /// buffered; otherwise leave the accumulator untouched.
    pub fn take_window(&mut self, n: usize) -> (r: Option<Vec<i16>>)
        ensures
            old(self).view_spec().len() < n ==> r is None && final(self).view_spec() == old(
                self,
            ).view_spec(),
            old(self).view_spec().len() >= n ==> (r matches Some(w) && w@ == old(
                self,
            ).view_spec().take(n as int) && final(self).view_spec() == old(self).view_spec().skip(
                n as int,
            )),
    {
        if self.samples.len() < n {
            return None;
        }
        let mut window: Vec<i16> = Vec::new();
        let mut i: usize = 0;
        while i < n
            invariant
                0 <= i <= n <= self.samples@.len(),
                self.samples@ == old(self).samples@,
                window@ == self.samples@.take(i as int),
            decreases n - i,
        {
            window.push(self.samples[i]);
            proof {
                assert(window@ =~= self.samples@.take(i as int + 1));
            }
            i = i + 1;
        }
        let mut rest: Vec<i16> = Vec::new();
        let mut j: usize = n;
        while j < self.samples.len()
            invariant
                n <= j <= self.samples@.len(),
                self.samples@ == old(self).samples@,
                rest@ == self.samples@.subrange(n as int, j as int),
            decreases self.samples.len() - j,
        {
            rest.push(self.samples[j]);
            proof {
                assert(rest@ =~= self.samples@.subrange(n as int, j as int + 1));
            }
            j = j + 1;
        }
        proof {
            assert(rest@ =~= old(self).samples@.skip(n as int));
        }
        self.samples = rest;
        Some(window)
    }
}

} // verus!
