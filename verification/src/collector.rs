//! The collector: buffers raw samples and, at the consolidation
//! threshold, folds them into one averaged record.
//!
//! Each tick takes one freshly sampled snapshot. While the batch buffer
//! is below the consolidation limit, the snapshot only replaces the
//! live most-recent entry of the shared history. When the buffer
//! reaches the limit, the batch is consolidated: the averaged record
//! replaces the live entry (committing it), the raw snapshot is pushed
//! as the new live entry, the buffer is reset, and the averaged record
//! is handed back for best-effort persistence.

use vstd::prelude::*;

use crate::consolidate::{consolidate_all_stats, consolidate_spec};
use crate::stats::{views, AllStats, AllStatsV};
use crate::stats_history::{committed, replaced, StatsHistory};

verus! {

/// The outcome of one tick on the collector and history state:
/// the new batch buffer, the new chronological history, and the record
/// to persist, if any.
pub open spec fn tick_spec(
    buf: Seq<AllStatsV>,
    chron: Seq<AllStatsV>,
    capacity: int,
    limit: int,
    s: AllStatsV,
) -> (Seq<AllStatsV>, Seq<AllStatsV>, Option<AllStatsV>) {
    let b = buf.push(s);
    if b.len() >= limit {
        (
            Seq::empty(),
            committed(replaced(chron, consolidate_spec(b)), capacity, s),
            Some(consolidate_spec(b)),
        )
    } else {
        (b, replaced(chron, s), None)
    }
}

/// The batch-buffering state of the collection loop.
pub struct Collector {
    /// How many samples to gather before consolidating.
    consolidation_limit: usize,
    /// The raw samples gathered since the last consolidation.
    recent_stats: Vec<AllStats>,
}

impl Collector {
    /// The consolidation threshold.
    pub closed spec fn limit(self) -> int {
        self.consolidation_limit as int
    }

    /// Views of the buffered samples, oldest first.
    pub closed spec fn buffer(self) -> Seq<AllStatsV> {
        views(self.recent_stats@)
    }

    /// The buffer always stays strictly below the threshold between
    /// ticks.
    pub closed spec fn wf(self) -> bool {
        self.consolidation_limit >= 1 && self.recent_stats@.len() < self.consolidation_limit
    }

    /// A fresh collector with an empty batch buffer.
    pub fn new(consolidation_limit: usize) -> (r: Collector)
        requires
            consolidation_limit >= 1,
        ensures
            r.wf(),
            r.limit() == consolidation_limit,
            r.buffer() == Seq::<AllStatsV>::empty(),
    {
        let r = Collector { consolidation_limit, recent_stats: Vec::new() };
        proof {
            assert(r.buffer() =~= Seq::<AllStatsV>::empty());
        }
        r
    }

    /// Buffers one raw sample; when the batch reaches the consolidation
    /// limit, consolidates it, resets the buffer, and returns the
    /// averaged record. Touches no history: the caller commits the
    /// outcome, so a shared history need only be locked for that.
    pub fn observe(&mut self, new_stats: &AllStats) -> (r: Option<AllStats>)
        requires
            old(self).wf(),
        ensures
            final(self).wf(),
            final(self).limit() == old(self).limit(),
            ({
                let b = old(self).buffer().push(new_stats@);
                if b.len() >= old(self).limit() {
                    &&& final(self).buffer() == Seq::<AllStatsV>::empty()
                    &&& match r {
                        Some(c) => c@ == consolidate_spec(b),
                        None => false,
                    }
                } else {
                    &&& final(self).buffer() == b
                    &&& r is None
                }
            }),
    {
        let ghost pre_buf = self.buffer();
        self.recent_stats.push(new_stats.clone());
        proof {
            assert(self.buffer() =~= pre_buf.push(new_stats@));
        }
        if self.recent_stats.len() >= self.consolidation_limit {
            let consolidated = consolidate_all_stats(&self.recent_stats);
            self.recent_stats = Vec::new();
            proof {
                assert(self.buffer() =~= Seq::<AllStatsV>::empty());
            }
            Some(consolidated)
        } else {
            None
        }
    }

    /// One collection tick: buffer the new sample and update the shared
    /// history, consolidating when the batch is full. Returns the
    /// consolidated record to persist, or `None` on a buffering tick.
    pub fn tick(&mut self, history: &mut StatsHistory, new_stats: AllStats) -> (persist: Option<
        AllStats,
    >)
        requires
            old(self).wf(),
            old(history).wf(),
        ensures
            final(self).wf(),
            final(history).wf(),
            final(self).limit() == old(self).limit(),
            final(history).capacity() == old(history).capacity(),
            ({
                let t = tick_spec(
                    old(self).buffer(),
                    old(history).chronological(),
                    old(history).capacity(),
                    old(self).limit(),
                    new_stats@,
                );
                &&& final(self).buffer() == t.0
                &&& final(history).chronological() == t.1
                &&& match (persist, t.2) {
                    (Some(p), Some(c)) => p@ == c,
                    (None, None) => true,
                    _ => false,
                }
            }),
    {
        match self.observe(&new_stats) {
            Some(consolidated) => {
                history.update_most_recent_stats(consolidated.clone());
                history.push(new_stats);
                Some(consolidated)
            },
            None => {
                history.update_most_recent_stats(new_stats);
                None
            },
        }
    }
}

/// With a consolidation limit of three, three collection ticks starting
/// from an empty buffer and an empty history persist exactly one
/// consolidated record, and leave exactly two history entries: the
/// consolidated record of the three samples, then the third raw sample.
pub proof fn lemma_three_tick_cycle(s1: AllStatsV, s2: AllStatsV, s3: AllStatsV, capacity: int)
    requires
        capacity >= 2,
    ensures
        ({
            let e = Seq::<AllStatsV>::empty();
            let t1 = tick_spec(e, e, capacity, 3, s1);
            let t2 = tick_spec(t1.0, t1.1, capacity, 3, s2);
            let t3 = tick_spec(t2.0, t2.1, capacity, 3, s3);
            &&& t1.2 is None
            &&& t2.2 is None
            &&& t3.2 == Some(consolidate_spec(seq![s1, s2, s3]))
            &&& t3.1 == seq![consolidate_spec(seq![s1, s2, s3]), s3]
            &&& t3.1.len() == 2
            &&& t3.0 == Seq::<AllStatsV>::empty()
        }),
{
    let e = Seq::<AllStatsV>::empty();
    let t1 = tick_spec(e, e, capacity, 3, s1);
    let t2 = tick_spec(t1.0, t1.1, capacity, 3, s2);
    let t3 = tick_spec(t2.0, t2.1, capacity, 3, s3);
    assert(e.push(s1) =~= seq![s1]);
    assert(t1.0 =~= seq![s1]);
    assert(t1.1 =~= seq![s1]);
    assert(seq![s1].push(s2) =~= seq![s1, s2]);
    assert(t2.0 =~= seq![s1, s2]);
    assert(t2.1 =~= seq![s2]);
    assert(seq![s1, s2].push(s3) =~= seq![s1, s2, s3]);
    let cs = consolidate_spec(seq![s1, s2, s3]);
    assert(replaced(t2.1, cs) =~= seq![cs]);
    assert(committed(seq![cs], capacity, s3) =~= seq![cs, s3]);
    assert(t3.1 =~= seq![cs, s3]);
}

} // verus!
