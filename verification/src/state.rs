use std::collections::VecDeque;

use vstd::prelude::*;

verus! {

/// The last `n` elements of `s`, or all of them when there are fewer.
pub open spec fn keep_last<S>(s: Seq<S>, n: nat) -> Seq<S> {
    if s.len() <= n {
        s
    } else {
        s.skip(s.len() - n)
    }
}

/// The history after one more sample: the sample appended, then the oldest
/// entry dropped when that makes the history longer than `size`.
pub open spec fn pushed_history<S>(h: Seq<S>, sample: S, size: nat) -> Seq<S> {
    if h.len() + 1 > size {
        h.push(sample).drop_first()
    } else {
        h.push(sample)
    }
}

/// How many samples a history request returns at most: the limit asked
/// for, or the history size when none is asked for, kept within 1 and the
/// history size.
pub open spec fn window_len(limit: Option<usize>, size: usize) -> int {
    let l = match limit {
        Some(l) => l as int,
        None => size as int,
    };
    if l < 1 {
        1
    } else if l > size {
        size as int
    } else {
        l
    }
}

/// The samples that the collector has gathered: the latest, the recent ones
/// oldest first, and how many attempts failed.
#[derive(Debug)]
pub struct RuntimeState<S> {
    pub current: S,
    pub history: VecDeque<S>,
    pub sample_errors: u64,
}

impl<S: Clone> RuntimeState<S> {
    /// A state with `initial` as the latest sample, an empty history, and no
    /// failed attempt.
    pub fn new(initial: S, history_size: usize) -> (r: Self)
        ensures
            r.current == initial,
            r.history@ == Seq::<S>::empty(),
            r.sample_errors == 0,
    {
        RuntimeState {
            current: initial,
            history: VecDeque::with_capacity(history_size),
            sample_errors: 0,
        }
    }

    /// Records a new sample: it becomes the latest (as a clone) and is
    /// appended to the history, whose oldest entry is dropped when the
    /// history then holds more than `history_size` samples.
    pub fn record_sample(&mut self, sample: S, history_size: usize)
        ensures
            cloned(sample, final(self).current),
            final(self).history@ == pushed_history(old(self).history@, sample, history_size as nat),
            old(self).history@.len() <= history_size ==> final(self).history@.len() <= history_size,
            history_size > 0 ==> final(self).history@.last() == sample,
            final(self).sample_errors == old(self).sample_errors,
    {
        proof {
            if self.history@.len() <= history_size {
                lemma_history_bounded(self.history@, sample, history_size as nat);
            }
        }
        self.current = sample.clone();
        self.history.push_back(sample);
        if self.history.len() > history_size {
            let _ = self.history.pop_front();
        }
    }

    /// Counts one failed sampling attempt.
    pub fn record_error(&mut self)
        requires
            old(self).sample_errors < u64::MAX,
        ensures
            final(self).sample_errors == old(self).sample_errors + 1,
            final(self).current == old(self).current,
            final(self).history@ == old(self).history@,
    {
        self.sample_errors = self.sample_errors + 1;
    }

    /// The most recent samples, oldest first: as many as `window_len` allows,
    /// or the whole history when it is shorter. Each is a clone.
    pub fn recent(&self, limit: Option<usize>, history_size: usize) -> (r: Vec<S>)
        requires
            history_size >= 1,
        ensures
            r.len() == keep_last(self.history@, window_len(limit, history_size) as nat).len(),
            forall|i: int|
                0 <= i < r.len() ==> cloned(
                    keep_last(self.history@, window_len(limit, history_size) as nat)[i],
                    #[trigger] r@[i],
                ),
    {
        let wanted = match limit {
            Some(l) => l,
            None => history_size,
        };
        let clamped = if wanted < 1 {
            1
        } else if wanted > history_size {
            history_size
        } else {
            wanted
        };
        let len = self.history.len();
        let start = len.saturating_sub(clamped);
        let ghost kept = keep_last(self.history@, window_len(limit, history_size) as nat);
        assert(kept =~= self.history@.skip(start as int));
        let mut out: Vec<S> = Vec::new();
        let mut i = start;
        while i < len
            invariant
                start <= i <= len,
                len == self.history@.len(),
                kept == self.history@.skip(start as int),
                out.len() == i - start,
                forall|k: int| 0 <= k < out.len() ==> cloned(kept[k], #[trigger] out@[k]),
            decreases len - i,
        {
            let c = self.history[i].clone();
            out.push(c);
            i = i + 1;
        }
        out
    }
}

/// What a bounded history holds: after each sample is recorded with the same
/// size, the history is the last `size` samples ever recorded, oldest first.
pub proof fn lemma_history_keeps_last<S>(all: Seq<S>, sample: S, size: nat)
    ensures
        pushed_history(keep_last(all, size), sample, size) == keep_last(all.push(sample), size),
{
    let h = keep_last(all, size);
    let n = all.push(sample);
    if all.len() + 1 <= size {
        assert(pushed_history(h, sample, size) =~= n);
    } else if all.len() <= size {
        assert(h == all);
        assert(pushed_history(h, sample, size) =~= n.skip(n.len() - size));
    } else {
        assert(pushed_history(h, sample, size) =~= n.skip(n.len() - size));
    }
}

/// A history never grows beyond its size once it is within it.
pub proof fn lemma_history_bounded<S>(h: Seq<S>, sample: S, size: nat)
    requires
        h.len() <= size,
    ensures
        pushed_history(h, sample, size).len() <= size,
        size > 0 ==> pushed_history(h, sample, size).last() == sample,
{
}

} // verus!
