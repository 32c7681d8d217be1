//! Fixed-capacity history windows.
//!
//! A `HistoryWindow` is a circular record of `(key, timestamp)` pairs with a
//! capacity fixed at construction.  Recording appends; once the window is
//! full, each new record overwrites the logically oldest entry, so the window
//! always holds the most recently recorded entries.  It backs both the ACK
//! history window (ACK number, send time) used to correlate ACK2 replies to
//! round-trip time, and the packet arrival history window (data sequence
//! number, arrival time) used for rate and jitter estimation.

use vstd::prelude::*;

use crate::timer::time_valid;

verus! {

/// Fixed-capacity circular record of `(key, timestamp)` pairs; insertion
/// order defines recency.
pub struct HistoryWindow {
    /// Entries in insertion order, oldest first.
    pub entries: Vec<(i32, i64)>,
    /// Capacity fixed at construction.
    pub capacity: usize,
}

/// What a window's contents become when a `(key, timestamp)` pair is
/// recorded: appended while below capacity, otherwise the oldest entry
/// makes room.
pub open spec fn record_spec(s: Seq<(i32, i64)>, cap: int, key: i32, timestamp: i64) -> Seq<
    (i32, i64),
> {
    if s.len() < cap {
        s.push((key, timestamp))
    } else {
        s.drop_first().push((key, timestamp))
    }
}

/// The timestamp of the most recently recorded entry with the given key, if
/// any such entry is still held.
pub open spec fn find_spec(s: Seq<(i32, i64)>, key: i32) -> Option<i64>
    decreases s.len(),
{
    if s.len() == 0 {
        Option::None
    } else if s.last().0 == key {
        Option::Some(s.last().1)
    } else {
        find_spec(s.drop_last(), key)
    }
}

impl HistoryWindow {
    /// Structural invariant: positive capacity, never more entries than
    /// capacity, every recorded timestamp a valid clock reading.
    pub open spec fn wf(self) -> bool {
        1 <= self.capacity && self.entries@.len() <= self.capacity && (forall|i: int|
            0 <= i < self.entries@.len() ==> time_valid(#[trigger] self.entries@[i].1))
    }

    /// Create an empty window with the given capacity.
    pub fn new(capacity: usize) -> (r: HistoryWindow)
        requires
            1 <= capacity,
        ensures
            r.wf(),
            r.entries@ == Seq::<(i32, i64)>::empty(),
            r.capacity == capacity,
    {
        HistoryWindow { entries: Vec::new(), capacity }
    }

    /// Record a `(key, timestamp)` pair.  While the window is below
    /// capacity the pair is appended; at capacity the logically oldest
    /// entry is dropped to make room, so only the most recent `capacity`
    /// records are retained.
    pub fn record(&mut self, key: i32, timestamp: i64)
        requires
            old(self).wf(),
            time_valid(timestamp),
        ensures
            final(self).wf(),
            final(self).capacity == old(self).capacity,
            final(self).entries@ == record_spec(
                old(self).entries@,
                old(self).capacity as int,
                key,
                timestamp,
            ),
    {
        if self.entries.len() == self.capacity {
            self.entries.remove(0);
            proof {
                assert(self.entries@ =~= old(self).entries@.drop_first());
            }
        }
        self.entries.push((key, timestamp));
        proof {
            assert forall|i: int|
                0 <= i < self.entries@.len() implies time_valid(
                #[trigger] self.entries@[i].1,
            ) by {
                if i < self.entries@.len() - 1 {
                    if old(self).entries@.len() < old(self).capacity {
                        assert(self.entries@[i] == old(self).entries@[i]);
                        assert(time_valid(old(self).entries@[i].1));
                    } else {
                        assert(self.entries@[i] == old(self).entries@[i + 1]);
                        assert(time_valid(old(self).entries@[i + 1].1));
                    }
                }
            }
        }
    }

    /// Look up the timestamp recorded with `key`, preferring the most
    /// recent record; absent if the entry was overwritten or never
    /// recorded.
    pub fn find(&self, key: i32) -> (r: Option<i64>)
        ensures
            r == find_spec(self.entries@, key),
    {
        let n = self.entries.len();
        proof {
            assert(self.entries@.take(n as int) =~= self.entries@);
        }
        let mut i: usize = n;
        while i > 0
            invariant
                i <= n,
                n == self.entries@.len(),
                find_spec(self.entries@.take(i as int), key) == find_spec(self.entries@, key),
            decreases i,
        {
            i = i - 1;
            let (k, t) = self.entries[i];
            proof {
                assert(self.entries@.take(i as int + 1).drop_last() =~= self.entries@.take(
                    i as int,
                ));
                assert(self.entries@.take(i as int + 1).last() == self.entries@[i as int]);
            }
            if k == key {
                return Option::Some(t);
            }
        }
        proof {
            assert(self.entries@.take(0) =~= Seq::<(i32, i64)>::empty());
        }
        Option::None
    }

    /// Number of entries currently held.
    pub fn len(&self) -> (r: usize)
        ensures
            r == self.entries@.len(),
    {
        self.entries.len()
    }
}

/// Once more than `capacity` records have gone in, a window holds exactly
/// its capacity of entries: recording at capacity keeps the length at
/// capacity and drops the oldest record, and a key held by no retained
/// entry is reported absent rather than answered with stale data.
pub proof fn lemma_window_overwrite(w: Seq<(i32, i64)>, cap: int, key: i32, timestamp: i64)
    requires
        w.len() == cap,
        1 <= cap,
    ensures
        w.drop_first().push((key, timestamp)).len() == cap,
        w.drop_first().push((key, timestamp)).last() == (key, timestamp),
        forall|i: int|
            0 <= i < cap - 1 ==> w.drop_first().push((key, timestamp))[i] == w[i + 1],
        (forall|i: int| 0 <= i < w.len() ==> w[i].0 != key) ==> find_spec(w, key)
            == Option::<i64>::None,
{
    if forall|i: int| 0 <= i < w.len() ==> w[i].0 != key {
        lemma_find_absent(w, key);
    }
}

/// A key that occurs in no entry of a window is reported absent.
pub proof fn lemma_find_absent(w: Seq<(i32, i64)>, key: i32)
    requires
        forall|i: int| 0 <= i < w.len() ==> w[i].0 != key,
    ensures
        find_spec(w, key) == Option::<i64>::None,
    decreases w.len(),
{
    if w.len() > 0 {
        lemma_find_absent(w.drop_last(), key);
    }
}

/// A timestamp found in a window whose entries all carry valid clock
/// readings is itself a valid clock reading.
pub proof fn lemma_find_spec_bounds(w: Seq<(i32, i64)>, key: i32)
    requires
        forall|i: int| 0 <= i < w.len() ==> time_valid(#[trigger] w[i].1),
    ensures
        find_spec(w, key) matches Option::Some(ts) ==> time_valid(ts),
    decreases w.len(),
{
    if w.len() > 0 {
        assert(time_valid(w[w.len() - 1].1));
        assert forall|i: int|
            0 <= i < w.drop_last().len() implies time_valid(#[trigger] w.drop_last()[i].1) by {
            assert(w.drop_last()[i] == w[i]);
            assert(time_valid(w[i].1));
        }
        lemma_find_spec_bounds(w.drop_last(), key);
    }
}

/// A record followed by a lookup of the same key finds exactly the
/// timestamp just recorded: the newest entry wins.
pub proof fn lemma_record_then_find(w: Seq<(i32, i64)>, key: i32, timestamp: i64)
    ensures
        find_spec(w.push((key, timestamp)), key) == Option::Some(timestamp),
{
    assert(w.push((key, timestamp)).last() == (key, timestamp));
}

} // verus!
