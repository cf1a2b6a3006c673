//! A rolling history of system statistics: a fixed-capacity circular
//! buffer with oldest-eviction, most-recent tracking, and chronological
//! iteration.

use vstd::prelude::*;

use crate::stats::{views, AllStats, AllStatsV};

verus! {

/// Configuration for persisting the statistics history.
#[derive(Clone, Debug)]
pub enum HistoryPersistenceConfig {
    /// Persistence is disabled.
    Disabled,
    /// Persistence is enabled.
    Enabled {
        /// The directory to save the statistics history to.
        dir: String,
        /// The maximum size, in bytes, that the saved statistics
        /// history may grow to.
        size_limit: u64,
    },
}

/// Finds the index after the provided index, wrapping to zero when the
/// maximum index is reached.
pub fn index_after(i: usize, max_size: usize) -> (r: usize)
    requires
        i < max_size,
    ensures
        r == (i + 1) % (max_size as int),
        r == if i + 1 == max_size {
            0int
        } else {
            i + 1
        },
{
    proof {
        if i + 1 == max_size {
            assert((i + 1) % (max_size as int) == 0) by (nonlinear_arith)
                requires
                    i + 1 == max_size,
                    max_size >= 1,
            ;
        } else {
            assert((i + 1) % (max_size as int) == i + 1) by (nonlinear_arith)
                requires
                    i + 1 < max_size,
            ;
        }
    }
    (i + 1) % max_size
}

/// The effect of one commit on a chronological sequence of entries held
/// at a fixed capacity: append, evicting the oldest entry when full.
pub open spec fn committed(chron: Seq<AllStatsV>, capacity: int, s: AllStatsV) -> Seq<AllStatsV> {
    if chron.len() < capacity {
        chron.push(s)
    } else {
        chron.subrange(1, chron.len() as int).push(s)
    }
}

/// The effect of replacing the most recent entry of a chronological
/// sequence: an in-place update of the last entry, except that on an
/// empty history it behaves as a commit.
pub open spec fn replaced(chron: Seq<AllStatsV>, s: AllStatsV) -> Seq<AllStatsV> {
    if chron.len() == 0 {
        seq![s]
    } else {
        chron.update(chron.len() - 1, s)
    }
}

/// The chronological sequence left after committing each of `ss` in turn.
pub open spec fn committed_all(
    chron: Seq<AllStatsV>,
    capacity: int,
    ss: Seq<AllStatsV>,
) -> Seq<AllStatsV>
    decreases ss.len(),
{
    if ss.len() == 0 {
        chron
    } else {
        committed(committed_all(chron, capacity, ss.drop_last()), capacity, ss.last())
    }
}

/// A rolling history of system statistics. As new statistics are added,
/// once the history is full the oldest statistics are overwritten.
pub struct StatsHistory {
    /// Maximum number of entries retained.
    max_size: usize,
    /// The stored entries.
    stats: Vec<AllStats>,
    /// Index into `stats` of the most recently added entry.
    most_recent_index: usize,
}

impl StatsHistory {
    /// The fixed capacity of this history.
    pub closed spec fn capacity(self) -> int {
        self.max_size as int
    }

    /// Views of the stored entries, in storage order.
    closed spec fn storage(self) -> Seq<AllStatsV> {
        self.stats@.map_values(|s: AllStats| s@)
    }

    closed spec fn mri(self) -> int {
        self.most_recent_index as int
    }

    /// Structural well-formedness: the storage never exceeds the capacity,
    /// the most-recent index points into the storage, and while the buffer
    /// is still filling the most recent entry is the last one.
    pub closed spec fn wf(self) -> bool {
        &&& self.max_size >= 1
        &&& self.stats@.len() <= self.max_size
        &&& (self.stats@.len() > 0 ==> self.most_recent_index < self.stats@.len())
        &&& (self.stats@.len() < self.max_size ==> self.most_recent_index == if self.stats@.len()
            == 0 {
            0int
        } else {
            self.stats@.len() - 1
        })
    }

    /// The retained entries in chronological order, oldest first.
    pub closed spec fn chronological(self) -> Seq<AllStatsV> {
        if self.stats@.len() < self.max_size {
            self.storage()
        } else {
            self.storage().subrange(self.mri() + 1, self.storage().len() as int)
                + self.storage().subrange(0, self.mri() + 1)
        }
    }

    /// A well-formed history holds at most `capacity` entries.
    pub broadcast proof fn lemma_chronological_len(self)
        requires
            #[trigger] self.wf(),
        ensures
            self.chronological().len() <= self.capacity(),
            self.capacity() >= 1,
    {
    }

    /// Creates an empty `StatsHistory` that retains at most `max_size`
    /// entries.
    pub fn new(max_size: usize) -> (r: StatsHistory)
        requires
            max_size >= 1,
        ensures
            r.wf(),
            r.capacity() == max_size,
            r.chronological() == Seq::<AllStatsV>::empty(),
    {
        let r = StatsHistory { max_size, stats: Vec::new(), most_recent_index: 0 };
        proof {
            assert(r.chronological() =~= Seq::<AllStatsV>::empty());
        }
        r
    }

    /// Rebuilds a history from previously persisted entries. The capacity
    /// of the result equals the number of entries loaded (with a minimum
    /// of one), not any configured capacity: this is the reload path for
    /// the historical view, never used for the live history.
    pub fn from_entries(entries: Vec<AllStats>) -> (r: StatsHistory)
        ensures
            r.wf(),
            r.chronological() == views(entries@),
            r.capacity() == if entries@.len() == 0 {
                1int
            } else {
                entries@.len() as int
            },
    {
        if entries.len() == 0 {
            let r = StatsHistory::new(1);
            proof {
                assert(r.chronological() =~= views(entries@));
            }
            r
        } else {
            let n = entries.len();
            let r = StatsHistory { max_size: n, stats: entries, most_recent_index: n - 1 };
            proof {
                assert(r.chronological() =~= r.storage());
            }
            r
        }
    }

    fn get_next_index(&self) -> (r: usize)
        requires
            self.wf(),
            self.stats@.len() > 0,
        ensures
            r == (self.mri() + 1) % (self.stats@.len() as int),
            r == if self.mri() + 1 == self.stats@.len() {
                0int
            } else {
                self.mri() + 1
            },
            r < self.stats@.len(),
    {
        index_after(self.most_recent_index, self.stats.len())
    }

    /// Adds statistics to the history, committing them: appends while the
    /// buffer is filling, and overwrites the oldest entry once full.
    pub fn push(&mut self, new_stats: AllStats)
        requires
            old(self).wf(),
        ensures
            final(self).wf(),
            final(self).capacity() == old(self).capacity(),
            final(self).chronological() == committed(
                old(self).chronological(),
                old(self).capacity(),
                new_stats@,
            ),
    {
        let ghost pre = *old(self);
        if self.stats.len() == self.max_size {
            // The list is full, so we replace an existing entry.
            let next = self.get_next_index();
            self.most_recent_index = next;
            self.stats.set(next, new_stats);
            proof {
                let n = pre.stats@.len() as int;
                let m = pre.mri();
                assert(self.storage() =~= pre.storage().update((m + 1) % n, new_stats@));
                if m + 1 < n {
                    assert((m + 1) % n == m + 1) by (nonlinear_arith)
                        requires
                            0 <= m + 1 < n,
                    ;
                    assert(self.chronological() =~= committed(
                        pre.chronological(),
                        pre.capacity(),
                        new_stats@,
                    ));
                } else {
                    assert((m + 1) % n == 0) by (nonlinear_arith)
                        requires
                            m + 1 == n,
                            n >= 1,
                    ;
                    assert(self.chronological() =~= committed(
                        pre.chronological(),
                        pre.capacity(),
                        new_stats@,
                    ));
                }
            }
        } else {
            // The list is not full, so we can add a new entry at the end.
            self.stats.push(new_stats);
            self.most_recent_index = self.stats.len() - 1;
            proof {
                assert(self.storage() =~= pre.storage().push(new_stats@));
                assert(self.chronological() =~= committed(
                    pre.chronological(),
                    pre.capacity(),
                    new_stats@,
                ));
            }
        }
    }

    /// Replaces the most recently added statistics with the provided
    /// statistics, without growing the history; if the history is empty,
    /// behaves as a commit.
    pub fn update_most_recent_stats(&mut self, new_stats: AllStats)
        requires
            old(self).wf(),
        ensures
            final(self).wf(),
            final(self).capacity() == old(self).capacity(),
            final(self).chronological() == replaced(old(self).chronological(), new_stats@),
    {
        let ghost pre = *old(self);
        if self.stats.len() == 0 {
            self.push(new_stats);
            proof {
                assert(self.chronological() =~= seq![new_stats@]);
            }
        } else {
            let i = self.most_recent_index;
            self.stats.set(i, new_stats);
            proof {
                assert(self.storage() =~= pre.storage().update(pre.mri(), new_stats@));
                assert(self.chronological() =~= pre.chronological().update(
                    pre.chronological().len() - 1,
                    new_stats@,
                ));
            }
        }
    }

    /// Gets the most recently added statistics from the history, or `None`
    /// if the history is empty.
    pub fn get_most_recent_stats(&self) -> (r: Option<&AllStats>)
        requires
            self.wf(),
        ensures
            match r {
                Some(s) => self.chronological().len() > 0 && s@ == self.chronological().last(),
                None => self.chronological().len() == 0,
            },
    {
        if self.stats.len() == 0 {
            None
        } else {
            Some(&self.stats[self.most_recent_index])
        }
    }

    /// Starts a fresh chronological traversal, oldest entry first.
    pub fn iterate(&self) -> (r: StatsHistoryIterator<'_>)
        requires
            self.wf(),
        ensures
            r.wf(),
            r.history() == self,
            r.pos() == 0,
    {
        let starting_index = if self.stats.len() == self.max_size {
            // The buffer is full, so the oldest stats are at the next index
            // (since it wraps around).
            self.get_next_index()
        } else {
            // The buffer is not full, so the oldest stats are at the start.
            0
        };

        StatsHistoryIterator { stats_history: self, index: starting_index, done: self.stats.len()
            == 0 }
    }
}

/// A chronological traversal of a `StatsHistory`; each history entry is
/// yielded exactly once, oldest first.
pub struct StatsHistoryIterator<'a> {
    stats_history: &'a StatsHistory,
    index: usize,
    done: bool,
}

impl<'a> StatsHistoryIterator<'a> {
    /// The history being traversed.
    pub closed spec fn history(self) -> &'a StatsHistory {
        self.stats_history
    }

    /// How many entries have been yielded so far.
    pub closed spec fn pos(self) -> int {
        if self.done {
            self.stats_history.chronological().len() as int
        } else {
            let n = self.stats_history.stats@.len() as int;
            let m = self.stats_history.mri();
            if self.stats_history.stats@.len() < self.stats_history.max_size {
                self.index as int
            } else if self.index > m {
                self.index - m - 1
            } else {
                self.index + n - m - 1
            }
        }
    }

    /// The traversal state is consistent with the history.
    pub closed spec fn wf(self) -> bool {
        &&& self.stats_history.wf()
        &&& if self.done {
            true
        } else {
            self.stats_history.stats@.len() > 0 && self.index < self.stats_history.stats@.len()
        }
    }

    /// A live traversal sits at a position within the history.
    pub broadcast proof fn lemma_pos_in_range(self)
        requires
            #[trigger] self.wf(),
        ensures
            0 <= self.pos() <= self.history().chronological().len(),
    {
    }

    /// Yields the next entry in chronological order, or `None` once every
    /// entry has been yielded.
    pub fn next(&mut self) -> (r: Option<&'a AllStats>)
        requires
            old(self).wf(),
        ensures
            final(self).wf(),
            final(self).history() == old(self).history(),
            match r {
                Some(s) => {
                    &&& old(self).pos() < old(self).history().chronological().len()
                    &&& s@ == old(self).history().chronological()[old(self).pos()]
                    &&& final(self).pos() == old(self).pos() + 1
                },
                None => {
                    &&& old(self).pos() == old(self).history().chronological().len()
                    &&& final(self).pos() == old(self).pos()
                },
            },
    {
        if self.done {
            return None;
        }

        let ghost pre = *self;
        let h = self.stats_history;
        let result = &h.stats[self.index];
        if self.index == h.most_recent_index {
            self.done = true;
        } else {
            self.index = index_after(self.index, h.stats.len());
        }
        proof {
            let n = h.stats@.len() as int;
            let m = h.mri();
            let k = pre.pos();
            if h.stats@.len() < h.max_size {
                assert(h.chronological()[k] == h.storage()[k]);
            } else {
                assert(h.chronological() == h.storage().subrange(m + 1, n) + h.storage().subrange(
                    0,
                    m + 1,
                ));
                if pre.index > m {
                    assert(h.chronological()[k] == h.storage()[m + 1 + k]);
                } else {
                    assert(h.chronological()[k] == h.storage()[k - (n - m - 1)]);
                }
            }
            assert(result@ == h.chronological()[k]);
        }
        Some(result)
    }
}

/// Committing a sequence of entries that fits within the capacity retains
/// all of them, in commit order.
pub proof fn lemma_commits_within_capacity(capacity: int, ss: Seq<AllStatsV>)
    requires
        capacity >= 1,
        ss.len() <= capacity,
    ensures
        committed_all(Seq::<AllStatsV>::empty(), capacity, ss) == ss,
    decreases ss.len(),
{
    if ss.len() == 0 {
        assert(committed_all(Seq::<AllStatsV>::empty(), capacity, ss) =~= ss);
    } else {
        lemma_commits_within_capacity(capacity, ss.drop_last());
        assert(committed(ss.drop_last(), capacity, ss.last()) =~= ss);
    }
}

/// After any sequence of commits whose length meets or exceeds the
/// capacity, the history holds exactly `capacity` entries: the most
/// recently committed ones, in commit order.
pub proof fn lemma_commits_keep_latest(capacity: int, ss: Seq<AllStatsV>)
    requires
        capacity >= 1,
        ss.len() >= capacity,
    ensures
        committed_all(Seq::<AllStatsV>::empty(), capacity, ss).len() == capacity,
        committed_all(Seq::<AllStatsV>::empty(), capacity, ss) == ss.subrange(
            ss.len() - capacity,
            ss.len() as int,
        ),
    decreases ss.len(),
{
    let e = Seq::<AllStatsV>::empty();
    if ss.len() == capacity {
        lemma_commits_within_capacity(capacity, ss.drop_last());
        assert(committed(ss.drop_last(), capacity, ss.last()) =~= ss.subrange(
            ss.len() - capacity,
            ss.len() as int,
        ));
    } else {
        lemma_commits_keep_latest(capacity, ss.drop_last());
        let prev = ss.drop_last().subrange(ss.len() - 1 - capacity, ss.len() - 1);
        assert(committed(prev, capacity, ss.last()) =~= ss.subrange(
            ss.len() - capacity,
            ss.len() as int,
        ));
    }
}

/// Committing to a full history drops exactly the single oldest entry;
/// every other entry shifts one place toward the front, and the new entry
/// appears last.
pub proof fn lemma_commit_full(chron: Seq<AllStatsV>, capacity: int, s: AllStatsV)
    requires
        chron.len() == capacity,
        capacity >= 1,
    ensures
        committed(chron, capacity, s).len() == capacity,
        committed(chron, capacity, s).last() == s,
        forall|i: int|
            0 <= i < capacity - 1 ==> committed(chron, capacity, s)[i] == chron[i + 1],
{
}

/// A commit never shrinks the history, grows it by at most one entry,
/// and never grows it beyond the capacity.
pub proof fn lemma_commit_len(chron: Seq<AllStatsV>, capacity: int, s: AllStatsV)
    requires
        capacity >= 1,
        chron.len() <= capacity,
    ensures
        chron.len() <= committed(chron, capacity, s).len() <= chron.len() + 1,
        committed(chron, capacity, s).len() <= capacity,
{
}

/// Replacing the most recent entry of a non-empty history never changes
/// the number of retained entries.
pub proof fn lemma_replace_preserves_len(chron: Seq<AllStatsV>, s: AllStatsV)
    requires
        chron.len() > 0,
    ensures
        replaced(chron, s).len() == chron.len(),
        replaced(chron, s).last() == s,
{
}

} // verus!
