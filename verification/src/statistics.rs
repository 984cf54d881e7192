//! Request statistics: plain counters and two bounded top-K tables.
//!
//! The proxy credits one table with each blocked path and one with each
//! client address. A periodic cleanup pass trims both tables to the
//! entries with the highest counts; `TOP_TABLE_LIMIT` bounds their size.

use vstd::prelude::*;

verus! {

/// Largest number of entries a top-K table keeps after a cleanup pass,
/// and the largest number a snapshot reports.
pub const TOP_TABLE_LIMIT: usize = 50;

/// One table row: a key (a path or a client address) and its count.
pub type CountEntry = (String, u64);

/// `v + 1`, stopping at `u64::MAX`.
pub open spec fn bump64(v: u64) -> u64 {
    if v == u64::MAX {
        u64::MAX
    } else {
        (v + 1) as u64
    }
}

/// True when no two rows share a key.
pub open spec fn keys_unique(s: Seq<CountEntry>) -> bool {
    forall|i: int, j: int| 0 <= i < j < s.len() ==> s[i].0@ != s[j].0@
}

/// True when some row carries the key `k`.
pub open spec fn has_key(s: Seq<CountEntry>, k: Seq<char>) -> bool {
    exists|i: int| 0 <= i < s.len() && s[i].0@ == k
}

/// The count stored under `k`; meaningful when `has_key(s, k)` and the
/// keys are unique.
pub open spec fn count_of(s: Seq<CountEntry>, k: Seq<char>) -> u64 {
    s[choose|i: int| 0 <= i < s.len() && s[i].0@ == k].1
}

/// True when counts never grow along the sequence: the first row carries
/// the largest count.
pub open spec fn sorted_desc(s: Seq<CountEntry>) -> bool {
    forall|i: int, j: int| 0 <= i < j < s.len() ==> s[i].1 >= s[j].1
}

/// True when `kept` is a top selection from `orig`: unique keys taken
/// unchanged from `orig`, and no key left behind has a larger count than
/// any kept row.
pub open spec fn top_selection(orig: Seq<CountEntry>, kept: Seq<CountEntry>) -> bool {
    &&& keys_unique(kept)
    &&& forall|i: int|
        0 <= i < kept.len() ==> has_key(orig, #[trigger] kept[i].0@) && count_of(
            orig,
            kept[i].0@,
        ) == kept[i].1
    &&& forall|k: Seq<char>|
        #[trigger] has_key(orig, k) && !has_key(kept, k) ==> forall|i: int|
            0 <= i < kept.len() ==> count_of(orig, k) <= #[trigger] kept[i].1
}

/// A table of counts keyed by strings, with unique keys.
pub struct CountTable {
    pub entries: Vec<CountEntry>,
}

impl CountTable {
    /// The table's invariant: one row per key.
    pub open spec fn wf(self) -> bool {
        keys_unique(self.entries@)
    }

    /// Empty table.
    pub fn new() -> (r: Self)
        ensures
            r.wf(),
            r.entries@.len() == 0,
    {
        CountTable { entries: Vec::new() }
    }

    /// Credits `key` once: its count grows by one (stopping at
    /// `u64::MAX`), a missing key is inserted with count one, and every
    /// other row keeps its count.
    pub fn increment(&mut self, key: String)
        requires
            old(self).wf(),
        ensures
            final(self).wf(),
            has_key(final(self).entries@, key@),
            count_of(final(self).entries@, key@) == if has_key(old(self).entries@, key@) {
                bump64(count_of(old(self).entries@, key@))
            } else {
                1u64
            },
            forall|k: Seq<char>|
                k != key@ ==> #[trigger] has_key(final(self).entries@, k) == has_key(
                    old(self).entries@,
                    k,
                ),
            forall|k: Seq<char>|
                k != key@ && #[trigger] has_key(old(self).entries@, k) ==> count_of(
                    final(self).entries@,
                    k,
                ) == count_of(old(self).entries@, k),
            final(self).entries@.len() == old(self).entries@.len() + if has_key(
                old(self).entries@,
                key@,
            ) {
                0int
            } else {
                1int
            },
    {
        let ghost orig = self.entries@;
        let n: usize = self.entries.len();
        let mut i: usize = 0;
        while i < n
            invariant
                n == self.entries@.len(),
                self.entries@ == orig,
                orig == old(self).entries@,
                keys_unique(orig),
                0 <= i <= n,
                forall|j: int| 0 <= j < i ==> orig[j].0@ != key@,
            decreases n - i,
        {
            if self.entries[i].0 == key {
                let c: u64 = self.entries[i].1;
                let k: String = key;
                self.entries[i] = (k, c.saturating_add(1));
                proof {
                    let s = self.entries@;
                    assert(orig[i as int].0@ == key@);
                    assert(forall|j: int|
                        0 <= j < orig.len() && #[trigger] orig[j].0@ == key@ ==> j == i as int);
                    assert(forall|j: int| 0 <= j < s.len() && j != i ==> s[j] == orig[j]);
                    assert(s[i as int].0@ == key@);
                    assert(keys_unique(s));
                    assert(forall|j: int|
                        0 <= j < s.len() && #[trigger] s[j].0@ == key@ ==> j == i as int);
                    assert(has_key(s, key@));
                    assert(has_key(orig, key@));
                    assert(count_of(s, key@) == s[i as int].1);
                    assert(count_of(orig, key@) == orig[i as int].1);
                    assert(s[i as int].1 == bump64(orig[i as int].1));
                    assert(forall|k2: Seq<char>|
                        k2 != key@ && #[trigger] has_key(orig, k2) ==> has_key(s, k2) && count_of(
                            s,
                            k2,
                        ) == count_of(orig, k2)) by {
                        assert forall|k2: Seq<char>|
                            k2 != key@ && #[trigger] has_key(orig, k2) implies has_key(s, k2)
                            && count_of(s, k2) == count_of(orig, k2) by {
                            let w = choose|t: int| 0 <= t < orig.len() && orig[t].0@ == k2;
                            assert(w != i as int);
                            assert(s[w].0@ == k2);
                        }
                    }
                    assert(forall|k2: Seq<char>|
                        k2 != key@ && #[trigger] has_key(s, k2) ==> has_key(orig, k2)) by {
                        assert forall|k2: Seq<char>|
                            k2 != key@ && #[trigger] has_key(s, k2) implies has_key(orig, k2) by {
                            let w = choose|t: int| 0 <= t < s.len() && s[t].0@ == k2;
                            assert(w != i as int);
                            assert(orig[w].0@ == k2);
                        }
                    }
                }
                return ;
            }
            i = i + 1;
        }
        self.entries.push((key, 1));
        proof {
            let s = self.entries@;
            assert(forall|j: int| 0 <= j < orig.len() ==> #[trigger] orig[j].0@ != key@);
            assert(forall|j: int| 0 <= j < orig.len() ==> s[j] == orig[j]);
            assert(s[orig.len() as int] == (key, 1u64));
            assert(keys_unique(s));
            assert(has_key(s, key@));
            assert(forall|j: int|
                0 <= j < s.len() && #[trigger] s[j].0@ == key@ ==> j == orig.len() as int);
            assert(count_of(s, key@) == 1u64);
            assert(forall|k2: Seq<char>|
                k2 != key@ && #[trigger] has_key(orig, k2) ==> has_key(s, k2) && count_of(s, k2)
                    == count_of(orig, k2)) by {
                assert forall|k2: Seq<char>|
                    k2 != key@ && #[trigger] has_key(orig, k2) implies has_key(s, k2) && count_of(
                    s,
                    k2,
                ) == count_of(orig, k2) by {
                    let w = choose|t: int| 0 <= t < orig.len() && orig[t].0@ == k2;
                    assert(s[w].0@ == k2);
                }
            }
            assert(forall|k2: Seq<char>|
                k2 != key@ && #[trigger] has_key(s, k2) ==> has_key(orig, k2)) by {
                assert forall|k2: Seq<char>|
                    k2 != key@ && #[trigger] has_key(s, k2) implies has_key(orig, k2) by {
                    let w = choose|t: int| 0 <= t < s.len() && s[t].0@ == k2;
                    assert(w != orig.len() as int);
                    assert(orig[w].0@ == k2);
                }
            }
        }
    }

    /// The rows with the highest counts, in descending count order, at
    /// most `limit` of them. Rows are taken from the table unchanged;
    /// every row left out counts no more than any row returned.
    pub fn top_entries(&self, limit: usize) -> (r: Vec<CountEntry>)
        requires
            self.wf(),
        ensures
            r@.len() == if self.entries@.len() < limit {
                self.entries@.len() as int
            } else {
                limit as int
            },
            sorted_desc(r@),
            top_selection(self.entries@, r@),
    {
        let ghost orig = self.entries@;
        let mut rem: Vec<CountEntry> = Vec::new();
        let n: usize = self.entries.len();
        let mut i: usize = 0;
        while i < n
            invariant
                n == self.entries@.len(),
                keys_unique(orig),
                orig == self.entries@,
                0 <= i <= n,
                rem@ =~= orig.subrange(0, i as int),
            decreases n - i,
        {
            let k: String = self.entries[i].0.clone();
            let c: u64 = self.entries[i].1;
            rem.push((k, c));
            i = i + 1;
        }
        proof {
            assert(rem@ =~= orig);
        }
        let mut out: Vec<CountEntry> = Vec::new();
        while out.len() < limit && rem.len() > 0
            invariant
                keys_unique(orig),
                out@.len() + rem@.len() == orig.len(),
                out@.len() <= limit,
                keys_unique(out@),
                keys_unique(rem@),
                // no key appears in both halves
                forall|i: int, j: int|
                    0 <= i < out@.len() && 0 <= j < rem@.len() ==> #[trigger] out@[i].0@
                        != #[trigger] rem@[j].0@,
                sorted_desc(out@),
                // every row of out and rem is a row of the original table
                forall|i: int|
                    0 <= i < out@.len() ==> has_key(orig, #[trigger] out@[i].0@) && count_of(
                        orig,
                        out@[i].0@,
                    ) == out@[i].1,
                forall|i: int|
                    0 <= i < rem@.len() ==> has_key(orig, #[trigger] rem@[i].0@) && count_of(
                        orig,
                        rem@[i].0@,
                    ) == rem@[i].1,
                // every key of the original table is still in out or rem
                forall|k: Seq<char>|
                    #[trigger] has_key(orig, k) ==> has_key(out@, k) || has_key(rem@, k),
                // nothing remaining outranks anything chosen
                forall|i: int, j: int|
                    0 <= i < out@.len() && 0 <= j < rem@.len() ==> #[trigger] rem@[j].1
                        <= #[trigger] out@[i].1,
            decreases rem@.len(),
        {
            let ghost out0 = out@;
            let ghost rem0 = rem@;
            let mut best: usize = 0;
            let mut j: usize = 1;
            while j < rem.len()
                invariant
                    rem@ == rem0,
                    rem@.len() > 0,
                    0 <= best < rem@.len(),
                    best <= j,
                    forall|t: int| 0 <= t < j && t < rem@.len() ==> rem@[t].1 <= rem@[best as int].1,
                decreases rem@.len() - j,
            {
                if rem[j].1 > rem[best].1 {
                    best = j;
                }
                j = j + 1;
            }
            let e: CountEntry = rem.remove(best);
            out.push(e);
            proof {
                let b = best as int;
                assert(forall|t: int| 0 <= t < rem0.len() ==> rem0[t].1 <= rem0[b].1);
                assert(e == rem0[b]);
                assert(forall|t: int| 0 <= t < out0.len() ==> out@[t] == out0[t]);
                assert(out@[out0.len() as int] == e);
                assert(forall|t: int| 0 <= t < b ==> rem@[t] == rem0[t]);
                assert(forall|t: int| b <= t < rem@.len() ==> rem@[t] == rem0[t + 1]);
                // the moved row keeps every invariant: it came from rem0
                assert(keys_unique(out@));
                assert(keys_unique(rem@));
                assert forall|k: Seq<char>| #[trigger]
                    has_key(orig, k) implies has_key(out@, k) || has_key(rem@, k) by {
                    if has_key(out0, k) {
                        let w = choose|t: int| 0 <= t < out0.len() && out0[t].0@ == k;
                        assert(out@[w].0@ == k);
                    } else {
                        let w = choose|t: int| 0 <= t < rem0.len() && rem0[t].0@ == k;
                        if w == b {
                            assert(out@[out0.len() as int].0@ == k);
                        } else if w < b {
                            assert(rem@[w].0@ == k);
                        } else {
                            assert(rem@[w - 1].0@ == k);
                        }
                    }
                }
            }
        }
        proof {
            let kept = out@;
            assert forall|k: Seq<char>| #[trigger]
                has_key(self.entries@, k) && !has_key(kept, k) implies forall|i: int|
                0 <= i < kept.len() ==> count_of(self.entries@, k) <= #[trigger] kept[i].1 by {
                assert(has_key(rem@, k));
                let w = choose|t: int| 0 <= t < rem@.len() && rem@[t].0@ == k;
                assert(count_of(self.entries@, rem@[w].0@) == rem@[w].1);
            }
        }
        out
    }

    /// Keeps only the rows `top_entries` would report.
    pub fn retain_top(&mut self, limit: usize)
        requires
            old(self).wf(),
        ensures
            final(self).wf(),
            final(self).entries@.len() == if old(self).entries@.len() < limit {
                old(self).entries@.len() as int
            } else {
                limit as int
            },
            sorted_desc(final(self).entries@),
            top_selection(old(self).entries@, final(self).entries@),
    {
        let kept: Vec<CountEntry> = self.top_entries(limit);
        self.entries = kept;
    }
}

/// Filter counters as they appear in a statistics snapshot.
pub struct FilterMetrics {
    pub active_filters: u64,
    pub filter_updates: u64,
    pub failed_updates: u64,
    pub last_update_time_ms: u64,
}

/// Memory counters as they appear in a statistics snapshot, in kilobytes.
pub struct MemoryMetrics {
    pub current_usage_kb: u64,
    pub peak_usage_kb: u64,
    pub filter_memory_kb: u64,
}

/// Integer part of a statistics snapshot. The float-valued performance
/// averages are computed outside the library, from the raw counters.
pub struct SerializableStatistics {
    pub proxied_requests: u64,
    pub blocked_requests: u64,
    pub modified_responses: u64,
    pub top_blocked_paths: Vec<CountEntry>,
    pub top_clients: Vec<CountEntry>,
    pub filter_stats: FilterMetrics,
    pub memory_stats: MemoryMetrics,
}

/// Process-wide request statistics.
pub struct Statistics {
    pub proxied_requests: u64,
    pub blocked_requests: u64,
    pub modified_responses: u64,
    pub top_blocked_paths: CountTable,
    pub top_clients: CountTable,
    /// Unix seconds of the last cleanup pass.
    pub last_cleanup: u64,
    /// Most recent value sampled from the blocker's metric handle, when
    /// one was attached.
    pub blocker_metrics: Option<u64>,
}

impl Statistics {
    /// The statistics' invariant: both tables keep one row per key.
    pub open spec fn wf(self) -> bool {
        self.top_blocked_paths.wf() && self.top_clients.wf()
    }

    /// Fresh statistics: all counters zero, both tables empty.
    pub fn new() -> (r: Self)
        ensures
            r.wf(),
            r.proxied_requests == 0,
            r.blocked_requests == 0,
            r.modified_responses == 0,
            r.top_blocked_paths.entries@.len() == 0,
            r.top_clients.entries@.len() == 0,
            r.last_cleanup == 0,
            r.blocker_metrics is None,
    {
        Statistics {
            proxied_requests: 0,
            blocked_requests: 0,
            modified_responses: 0,
            top_blocked_paths: CountTable::new(),
            top_clients: CountTable::new(),
            last_cleanup: 0,
            blocker_metrics: None,
        }
    }

    /// Credits one blocked path in the top table.
    pub fn increment_top_blocked_paths(&mut self, path: String)
        requires
            old(self).wf(),
        ensures
            final(self).wf(),
            *final(self) == (Statistics {
                top_blocked_paths: final(self).top_blocked_paths,
                ..*old(self)
            }),
            has_key(final(self).top_blocked_paths.entries@, path@),
            count_of(final(self).top_blocked_paths.entries@, path@) == if has_key(
                old(self).top_blocked_paths.entries@,
                path@,
            ) {
                bump64(count_of(old(self).top_blocked_paths.entries@, path@))
            } else {
                1u64
            },
            forall|k: Seq<char>|
                k != path@ ==> #[trigger] has_key(final(self).top_blocked_paths.entries@, k)
                    == has_key(old(self).top_blocked_paths.entries@, k),
            forall|k: Seq<char>|
                k != path@ && #[trigger] has_key(old(self).top_blocked_paths.entries@, k)
                    ==> count_of(final(self).top_blocked_paths.entries@, k) == count_of(
                    old(self).top_blocked_paths.entries@,
                    k,
                ),
    {
        self.top_blocked_paths.increment(path);
    }

    /// Credits one request from the given client address.
    pub fn increment_top_clients(&mut self, client: String)
        requires
            old(self).wf(),
        ensures
            final(self).wf(),
            *final(self) == (Statistics { top_clients: final(self).top_clients, ..*old(self) }),
            has_key(final(self).top_clients.entries@, client@),
            count_of(final(self).top_clients.entries@, client@) == if has_key(
                old(self).top_clients.entries@,
                client@,
            ) {
                bump64(count_of(old(self).top_clients.entries@, client@))
            } else {
                1u64
            },
    {
        self.top_clients.increment(client);
    }

    /// Counts one proxied request and returns the new total.
    pub fn increment_proxied_requests(&mut self) -> (r: u64)
        ensures
            *final(self) == (Statistics {
                proxied_requests: bump64(old(self).proxied_requests),
                ..*old(self)
            }),
            r == final(self).proxied_requests,
    {
        self.proxied_requests = self.proxied_requests.saturating_add(1);
        self.proxied_requests
    }

    /// Counts one blocked request and returns the new total.
    pub fn increment_blocked_requests(&mut self) -> (r: u64)
        ensures
            *final(self) == (Statistics {
                blocked_requests: bump64(old(self).blocked_requests),
                ..*old(self)
            }),
            r == final(self).blocked_requests,
    {
        self.blocked_requests = self.blocked_requests.saturating_add(1);
        self.blocked_requests
    }

    /// Counts one modified response and returns the new total.
    pub fn increment_modified_responses(&mut self) -> (r: u64)
        ensures
            *final(self) == (Statistics {
                modified_responses: bump64(old(self).modified_responses),
                ..*old(self)
            }),
            r == final(self).modified_responses,
    {
        self.modified_responses = self.modified_responses.saturating_add(1);
        self.modified_responses
    }

    /// Records one blocked decision: the blocked counter grows by exactly
    /// one, the blocked path is credited exactly once, and nothing else
    /// changes.
    pub fn record_blocked(&mut self, path: String)
        requires
            old(self).wf(),
        ensures
            final(self).wf(),
            final(self).blocked_requests == bump64(old(self).blocked_requests),
            final(self).proxied_requests == old(self).proxied_requests,
            final(self).modified_responses == old(self).modified_responses,
            final(self).top_clients == old(self).top_clients,
            has_key(final(self).top_blocked_paths.entries@, path@),
            count_of(final(self).top_blocked_paths.entries@, path@) == if has_key(
                old(self).top_blocked_paths.entries@,
                path@,
            ) {
                bump64(count_of(old(self).top_blocked_paths.entries@, path@))
            } else {
                1u64
            },
            forall|k: Seq<char>|
                k != path@ ==> #[trigger] has_key(final(self).top_blocked_paths.entries@, k)
                    == has_key(old(self).top_blocked_paths.entries@, k),
            forall|k: Seq<char>|
                k != path@ && #[trigger] has_key(old(self).top_blocked_paths.entries@, k)
                    ==> count_of(final(self).top_blocked_paths.entries@, k) == count_of(
                    old(self).top_blocked_paths.entries@,
                    k,
                ),
    {
        self.increment_blocked_requests();
        self.increment_top_blocked_paths(path);
    }

    /// Trims both top tables to the entries with the highest counts and
    /// stamps the cleanup time. After the pass neither table exceeds
    /// `TOP_TABLE_LIMIT` rows, and the rows kept are top selections.
    pub fn cleanup_old_metrics(&mut self, now_unix_secs: u64)
        requires
            old(self).wf(),
        ensures
            final(self).wf(),
            final(self).top_blocked_paths.entries@.len() <= TOP_TABLE_LIMIT,
            final(self).top_clients.entries@.len() <= TOP_TABLE_LIMIT,
            top_selection(
                old(self).top_blocked_paths.entries@,
                final(self).top_blocked_paths.entries@,
            ),
            top_selection(old(self).top_clients.entries@, final(self).top_clients.entries@),
            sorted_desc(final(self).top_blocked_paths.entries@),
            sorted_desc(final(self).top_clients.entries@),
            final(self).top_blocked_paths.entries@.len() == if old(
                self,
            ).top_blocked_paths.entries@.len() < TOP_TABLE_LIMIT {
                old(self).top_blocked_paths.entries@.len() as int
            } else {
                TOP_TABLE_LIMIT as int
            },
            final(self).top_clients.entries@.len() == if old(
                self,
            ).top_clients.entries@.len() < TOP_TABLE_LIMIT {
                old(self).top_clients.entries@.len() as int
            } else {
                TOP_TABLE_LIMIT as int
            },
            final(self).last_cleanup == now_unix_secs,
            final(self).proxied_requests == old(self).proxied_requests,
            final(self).blocked_requests == old(self).blocked_requests,
            final(self).modified_responses == old(self).modified_responses,
    {
        self.top_blocked_paths.retain_top(TOP_TABLE_LIMIT);
        self.top_clients.retain_top(TOP_TABLE_LIMIT);
        self.last_cleanup = now_unix_secs;
    }

    /// Attaches the blocker's sampled metric value; the snapshot reports
    /// it in several places, as the proxy's admin surface does.
    pub fn set_blocker_metrics(&mut self, value: u64)
        ensures
            *final(self) == (Statistics { blocker_metrics: Some(value), ..*old(self) }),
    {
        self.blocker_metrics = Some(value);
    }

    /// Integer snapshot of the statistics: the plain counters, both top
    /// tables trimmed and sorted, and the filter and memory blocks filled
    /// from the attached blocker metric (zero when none is attached).
    pub fn get_serialized(&self) -> (r: SerializableStatistics)
        requires
            self.wf(),
        ensures
            r.proxied_requests == self.proxied_requests,
            r.blocked_requests == self.blocked_requests,
            r.modified_responses == self.modified_responses,
            r.top_blocked_paths@.len() <= TOP_TABLE_LIMIT,
            r.top_clients@.len() <= TOP_TABLE_LIMIT,
            sorted_desc(r.top_blocked_paths@),
            sorted_desc(r.top_clients@),
            top_selection(self.top_blocked_paths.entries@, r.top_blocked_paths@),
            top_selection(self.top_clients.entries@, r.top_clients@),
            r.filter_stats.active_filters == (match self.blocker_metrics {
                Some(v) => v,
                None => 0u64,
            }),
            r.filter_stats.filter_updates == (match self.blocker_metrics {
                Some(v) => v,
                None => 0u64,
            }),
            r.filter_stats.failed_updates == 0,
            r.filter_stats.last_update_time_ms == self.last_cleanup,
            r.memory_stats.current_usage_kb == (match self.blocker_metrics {
                Some(v) => v,
                None => 0u64,
            }),
    {
        let value: u64 = match self.blocker_metrics {
            Some(v) => v,
            None => 0,
        };
        SerializableStatistics {
            proxied_requests: self.proxied_requests,
            blocked_requests: self.blocked_requests,
            modified_responses: self.modified_responses,
            top_blocked_paths: self.top_blocked_paths.top_entries(TOP_TABLE_LIMIT),
            top_clients: self.top_clients.top_entries(TOP_TABLE_LIMIT),
            filter_stats: FilterMetrics {
                active_filters: value,
                filter_updates: value,
                failed_updates: 0,
                last_update_time_ms: self.last_cleanup,
            },
            memory_stats: MemoryMetrics {
                current_usage_kb: value,
                peak_usage_kb: value,
                filter_memory_kb: value,
            },
        }
    }
}

impl Default for Statistics {
    /// Same as `Statistics::new`.
    fn default() -> (r: Self)
        ensures
            r.wf(),
    {
        Statistics::new()
    }
}

} // verus!
