use std::collections::VecDeque;
use vstd::prelude::*;

use crate::sample::Sample;

verus! {

/// How many samples at the old end of the buffer are stale, i.e. no newer
/// than `base_ms`. Index 0 is the newest sample and the last index the
/// oldest; the count stops at the first sample worth retaining, as the
/// eviction pass does, so only a contiguous run at the old end is counted.
pub open spec fn stale_suffix_len(s: Seq<Sample>, base_ms: int) -> int
    decreases s.len(),
{
    if s.len() == 0 {
        0
    } else if s.last().timestamp_ms <= base_ms {
        1 + stale_suffix_len(s.drop_last(), base_ms)
    } else {
        0
    }
}

pub proof fn lemma_stale_suffix_len_bounds(s: Seq<Sample>, base_ms: int)
    ensures
        0 <= stale_suffix_len(s, base_ms) <= s.len(),
    decreases s.len(),
{
    if s.len() != 0 && s.last().timestamp_ms <= base_ms {
        lemma_stale_suffix_len_bounds(s.drop_last(), base_ms);
    }
}

/// What one eviction pass leaves behind: the buffer without its stale run
/// at the old end.
pub open spec fn spec_evict(s: Seq<Sample>, base_ms: int) -> Seq<Sample> {
    s.subrange(0, s.len() - stale_suffix_len(s, base_ms))
}

/// Newest-first in arrival order: every earlier index holds a sample at
/// least as new as every later one.
pub open spec fn newest_first(s: Seq<Sample>) -> bool {
    forall|i: int, j: int|
        0 <= i <= j < s.len() ==> #[trigger] s[i].timestamp_ms >= #[trigger] s[j].timestamp_ms
}

/// The rolling window of recent samples. New samples enter at the front,
/// stale ones leave from the back; nothing in between ever moves.
pub struct WindowBuffer {
    samples: VecDeque<Sample>,
}

impl View for WindowBuffer {
    type V = Seq<Sample>;

    closed spec fn view(&self) -> Seq<Sample> {
        self.samples@
    }
}

impl WindowBuffer {
    /// An empty buffer.
    pub fn new() -> (b: WindowBuffer)
        ensures
            b@ == Seq::<Sample>::empty(),
    {
        WindowBuffer { samples: VecDeque::new() }
    }

    pub fn len(&self) -> (n: usize)
        ensures
            n == self@.len(),
    {
        self.samples.len()
    }

    /// The sample at position `i`, counting from the newest.
    pub fn get(&self, i: usize) -> (s: Sample)
        requires
            i < self@.len(),
        ensures
            s == self@[i as int],
    {
        *(&self.samples[i])
    }

    /// Inserts a freshly ingested sample at the new end of the buffer.
    pub fn push(&mut self, s: Sample)
        ensures
            final(self)@ == seq![s] + old(self)@,
    {
        self.samples.push_front(s);
    }

    /// One eviction pass: discards samples from the old end while they are
    /// no newer than `base_ms`, and stops at the first one that is.
    pub fn evict(&mut self, base_ms: i64)
        ensures
            final(self)@ == spec_evict(old(self)@, base_ms as int),
    {
        let ghost mut k: int = old(self)@.len() as int;
        proof {
            assert(old(self)@.subrange(0, k) =~= old(self)@);
        }
        loop
            invariant_except_break
                0 <= k <= old(self)@.len(),
                self@ == old(self)@.subrange(0, k),
                stale_suffix_len(old(self)@, base_ms as int) == (old(self)@.len() - k)
                    + stale_suffix_len(self@, base_ms as int),
            ensures
                self@ == spec_evict(old(self)@, base_ms as int),
            decreases k,
        {
            let ghost pre = self@;
            match self.samples.pop_back() {
                Some(s) => {
                    if s.timestamp_ms > base_ms {
                        self.samples.push_back(s);
                        proof {
                            assert(self@ =~= pre);
                            assert(stale_suffix_len(pre, base_ms as int) == 0);
                            assert(self@ =~= spec_evict(old(self)@, base_ms as int));
                        }
                        break;
                    }
                    proof {
                        assert(self@ =~= pre.drop_last());
                        assert(self@ =~= old(self)@.subrange(0, k - 1));
                        k = k - 1;
                    }
                },
                None => {
                    proof {
                        assert(self@ =~= spec_evict(old(self)@, base_ms as int));
                    }
                    break;
                },
            }
        }
    }
}

/// The eviction window law: when the buffer holds its samples newest first,
/// an eviction pass leaves only samples strictly newer than `base_ms`.
pub proof fn lemma_eviction_window(s: Seq<Sample>, base_ms: int)
    requires
        newest_first(s),
    ensures
        forall|i: int|
            0 <= i < spec_evict(s, base_ms).len() ==> #[trigger] spec_evict(
                s,
                base_ms,
            )[i].timestamp_ms > base_ms,
    decreases s.len(),
{
    lemma_stale_suffix_len_bounds(s, base_ms);
    if s.len() != 0 && s.last().timestamp_ms <= base_ms {
        assert forall|i: int, j: int| 0 <= i <= j < s.drop_last().len() implies #[trigger] s.drop_last()[i].timestamp_ms
            >= #[trigger] s.drop_last()[j].timestamp_ms by {
            assert(s.drop_last()[i] == s[i]);
            assert(s.drop_last()[j] == s[j]);
        }
        lemma_eviction_window(s.drop_last(), base_ms);
        lemma_stale_suffix_len_bounds(s.drop_last(), base_ms);
        assert(spec_evict(s, base_ms) =~= spec_evict(s.drop_last(), base_ms));
    }
}

/// The ordering law, push half: a push shifts every retained sample one
/// place toward the old end and reorders nothing.
pub proof fn lemma_push_preserves_order(buf: Seq<Sample>, s: Sample, i: int)
    requires
        0 <= i < buf.len(),
    ensures
        (seq![s] + buf).len() == buf.len() + 1,
        (seq![s] + buf)[i + 1] == buf[i],
{
}

/// The ordering law, eviction half: an eviction pass retains a prefix of the
/// buffer, so any two samples that survive it keep both their positions and
/// their relative order; no pass ever reorders survivors.
pub proof fn lemma_eviction_preserves_order(s: Seq<Sample>, base_ms: int, i: int, j: int)
    requires
        0 <= i < j < spec_evict(s, base_ms).len(),
    ensures
        spec_evict(s, base_ms).len() <= s.len(),
        spec_evict(s, base_ms)[i] == s[i],
        spec_evict(s, base_ms)[j] == s[j],
    decreases s.len(),
{
    lemma_stale_suffix_len_bounds(s, base_ms);
    if s.len() != 0 && s.last().timestamp_ms <= base_ms {
        lemma_stale_suffix_len_bounds(s.drop_last(), base_ms);
        assert(spec_evict(s, base_ms) =~= spec_evict(s.drop_last(), base_ms));
        lemma_eviction_preserves_order(s.drop_last(), base_ms, i, j);
        assert(s.drop_last()[i] == s[i]);
        assert(s.drop_last()[j] == s[j]);
    }
}

} // verus!
