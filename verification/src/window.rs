//! A sliding-time-window counter.
//!
//! A `Window` receives timestamps in non-decreasing order and, queried at a
//! time `t`, answers how many received timestamps `ts` satisfy
//! `t - ts <= window_size`. Older timestamps are evicted as queries move
//! forward; a ghost record of every timestamp ever added lets the contract
//! promise the count a brute-force re-scan of all additions would give.

use std::collections::VecDeque;
use vstd::prelude::*;

verus! {

/// How many entries of `times` lie within the window `w` ending at `end`:
/// those with `end - times[i] <= w`, counting entries later than `end` too.
pub open spec fn count_in_window(times: Seq<u64>, end: u64, w: u64) -> nat
    decreases times.len(),
{
    if times.len() == 0 {
        0
    } else {
        count_in_window(times.drop_last(), end, w) + if end <= times.last() + w {
            1nat
        } else {
            0nat
        }
    }
}

/// No window ever counts more entries than were added.
pub proof fn lemma_count_le_len(s: Seq<u64>, end: u64, w: u64)
    ensures
        count_in_window(s, end, w) <= s.len(),
    decreases s.len(),
{
    if s.len() > 0 {
        lemma_count_le_len(s.drop_last(), end, w);
    }
}

/// `s` never decreases from one entry to the next.
pub open spec fn nondecreasing(s: Seq<u64>) -> bool {
    forall|i: int, j: int| 0 <= i <= j < s.len() ==> s[i] <= s[j]
}

/// If every entry of `s` falls outside the window, none is counted.
proof fn lemma_count_none(s: Seq<u64>, end: u64, w: u64)
    requires
        forall|i: int| 0 <= i < s.len() ==> s[i] + w < end,
    ensures
        count_in_window(s, end, w) == 0,
    decreases s.len(),
{
    if s.len() > 0 {
        lemma_count_none(s.drop_last(), end, w);
    }
}

/// If every entry of `s` falls inside the window, all are counted.
proof fn lemma_count_all(s: Seq<u64>, end: u64, w: u64)
    requires
        forall|i: int| 0 <= i < s.len() ==> end <= s[i] + w,
    ensures
        count_in_window(s, end, w) == s.len(),
    decreases s.len(),
{
    if s.len() > 0 {
        lemma_count_all(s.drop_last(), end, w);
    }
}

/// Counting over a concatenation whose left part falls entirely outside the
/// window counts only the right part.
proof fn lemma_count_concat(prefix: Seq<u64>, suffix: Seq<u64>, end: u64, w: u64)
    requires
        forall|i: int| 0 <= i < prefix.len() ==> prefix[i] + w < end,
    ensures
        count_in_window(prefix + suffix, end, w) == count_in_window(suffix, end, w),
    decreases suffix.len(),
{
    if suffix.len() == 0 {
        assert(prefix + suffix =~= prefix);
        lemma_count_none(prefix, end, w);
    } else {
        assert((prefix + suffix).drop_last() =~= prefix + suffix.drop_last());
        lemma_count_concat(prefix, suffix.drop_last(), end, w);
    }
}

/// A sliding-time-window counter: an oldest-first queue of recent timestamps
/// and a fixed window length.
pub struct Window {
    times: VecDeque<u64>,
    window_size: u64,
    /// Every timestamp ever added, in order.
    history: Ghost<Seq<u64>>,
    /// No timestamp added so far, and no query time seen so far, exceeds this.
    watermark: Ghost<u64>,
}

impl Window {
    /// The window length this counter was built with.
    pub closed spec fn spec_window_size(self) -> u64 {
        self.window_size
    }

    /// Every timestamp ever added, oldest first.
    pub closed spec fn spec_history(self) -> Seq<u64> {
        self.history@
    }

    /// An upper bound on everything seen so far: later additions and queries
    /// must not go below it.
    pub closed spec fn spec_watermark(self) -> u64 {
        self.watermark@
    }

    /// The retained queue is the suffix of the history still inside the
    /// window at the highest time seen; everything evicted fell outside it.
    pub closed spec fn wf(self) -> bool {
        let h = self.history@;
        let kept = self.times@;
        &&& nondecreasing(h)
        &&& kept.len() <= h.len()
        &&& kept =~= h.skip(h.len() - kept.len())
        &&& forall|i: int|
            0 <= i < h.len() - kept.len() ==> h[i] + self.window_size < self.watermark@
        &&& forall|i: int| 0 <= i < h.len() ==> h[i] <= self.watermark@
    }

    pub fn new(window_size: u64) -> (w: Window)
        ensures
            w.wf(),
            w.spec_window_size() == window_size,
            w.spec_history() == Seq::<u64>::empty(),
            w.spec_watermark() == 0,
    {
        Window {
            times: VecDeque::new(),
            window_size,
            history: Ghost(Seq::empty()),
            watermark: Ghost(0),
        }
    }

    /// Record one timestamp and return the count at that same time.
    /// Timestamps must arrive in non-decreasing order, at or after every
    /// query time seen so far.
    pub fn add(&mut self, time: u64) -> (count: usize)
        requires
            old(self).wf(),
            time >= old(self).spec_watermark(),
        ensures
            final(self).wf(),
            final(self).spec_window_size() == old(self).spec_window_size(),
            final(self).spec_history() == old(self).spec_history().push(time),
            final(self).spec_watermark() == time,
            count == count_in_window(
                old(self).spec_history().push(time),
                time,
                old(self).spec_window_size(),
            ),
    {
        self.times.push_back(time);
        proof {
            self.history@ = self.history@.push(time);
            self.watermark@ = time;
            assert(self.times@ =~= self.history@.skip(self.history@.len() - self.times@.len()));
        }
        self.count(time)
    }

    /// The count of timestamps within the window ending at `end`, evicting
    /// those that have fallen out. Query times must be non-decreasing and at
    /// or after every timestamp added so far; under that discipline the
    /// result equals a brute-force re-scan of every timestamp ever added.
    pub fn count(&mut self, end: u64) -> (count: usize)
        requires
            old(self).wf(),
            end >= old(self).spec_watermark(),
        ensures
            final(self).wf(),
            final(self).spec_window_size() == old(self).spec_window_size(),
            final(self).spec_history() == old(self).spec_history(),
            final(self).spec_watermark() == end,
            count == count_in_window(
                old(self).spec_history(),
                end,
                old(self).spec_window_size(),
            ),
    {
        proof {
            self.watermark@ = end;
        }
        let ghost h = self.history@;
        let ghost w = self.window_size;
        while self.times.len() > 0 && end - self.times[0] > self.window_size
            invariant
                self.wf(),
                self.watermark@ == end,
                self.history@ == h,
                self.window_size == w,
            decreases self.times.len(),
        {
            self.times.pop_front();
            proof {
                assert(self.times@ =~= self.history@.skip(
                    self.history@.len() - self.times@.len(),
                ));
            }
        }
        proof {
            let kept = self.times@;
            let prefix = h.take(h.len() - kept.len());
            assert(h =~= prefix + kept);
            assert forall|i: int| 0 <= i < kept.len() implies end <= #[trigger] kept[i] + w by {
                assert(kept[0] == h[h.len() - kept.len()]);
                assert(kept[i] == h[h.len() - kept.len() + i]);
                assert(kept[0] <= kept[i]);
                assert(kept[0] <= end);
            }
            lemma_count_concat(prefix, kept, end, w);
            lemma_count_all(kept, end, w);
        }
        self.times.len()
    }
}

} // verus!
